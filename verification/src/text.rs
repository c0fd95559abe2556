//! Text as sequences of characters: trimming, splitting on a separator and
//! joining again, with the laws that tie the three together.

use vstd::prelude::*;

verus! {

/// `String::push` of the standard library: the string afterwards is the string
/// before with `ch` added at its end. Assumed, not proved.
pub assume_specification[ String::push ](s: &mut String, ch: char)
    ensures
        final(s)@ == old(s)@.push(ch),
;

/// The characters that count as white space: the Unicode `White_Space` set.
pub open spec fn is_space(c: char) -> bool {
    ||| '\u{9}' <= c <= '\u{d}'
    ||| c == ' '
    ||| c == '\u{85}'
    ||| c == '\u{a0}'
    ||| c == '\u{1680}'
    ||| '\u{2000}' <= c <= '\u{200a}'
    ||| c == '\u{2028}'
    ||| c == '\u{2029}'
    ||| c == '\u{202f}'
    ||| c == '\u{205f}'
    ||| c == '\u{3000}'
}

/// `s` without its leading white space.
pub open spec fn trim_start(s: Seq<char>) -> Seq<char>
    decreases s.len(),
{
    if s.len() > 0 && is_space(s[0]) {
        trim_start(s.drop_first())
    } else {
        s
    }
}

/// `s` without its trailing white space.
pub open spec fn trim_end(s: Seq<char>) -> Seq<char>
    decreases s.len(),
{
    if s.len() > 0 && is_space(s.last()) {
        trim_end(s.drop_last())
    } else {
        s
    }
}

/// `s` without white space at either end.
pub open spec fn trim(s: Seq<char>) -> Seq<char> {
    trim_end(trim_start(s))
}

/// The fields of `s` between occurrences of `sep`. There is always at least
/// one field; two separators in a row, or one at either end, give an empty
/// field.
pub open spec fn split(s: Seq<char>, sep: char) -> Seq<Seq<char>>
    decreases s.len(),
{
    if s.len() == 0 {
        seq![Seq::<char>::empty()]
    } else {
        let before = split(s.drop_last(), sep);
        if s.last() == sep {
            before.push(Seq::<char>::empty())
        } else {
            before.drop_last().push(before.last().push(s.last()))
        }
    }
}

/// The fields written one after the other with `sep` between neighbours.
pub open spec fn join(fields: Seq<Seq<char>>, sep: char) -> Seq<char>
    decreases fields.len(),
{
    if fields.len() == 0 {
        Seq::<char>::empty()
    } else if fields.len() == 1 {
        fields[0]
    } else {
        join(fields.drop_last(), sep).push(sep) + fields.last()
    }
}

/// No field holds the separator.
pub open spec fn fields_clean(fields: Seq<Seq<char>>, sep: char) -> bool {
    forall|i: int, j: int|
        0 <= i < fields.len() && 0 <= j < fields[i].len() ==> #[trigger] fields[i][j] != sep
}

/// Splitting never gives zero fields.
pub proof fn lemma_split_nonempty(s: Seq<char>, sep: char)
    ensures
        split(s, sep).len() >= 1,
    decreases s.len(),
{
    if s.len() > 0 {
        lemma_split_nonempty(s.drop_last(), sep);
    }
}

/// Adding a character that is not the separator to the last field adds it to
/// the joined text.
proof fn lemma_join_extend_last(fields: Seq<Seq<char>>, sep: char, c: char)
    requires
        fields.len() >= 1,
    ensures
        join(fields.drop_last().push(fields.last().push(c)), sep) == join(fields, sep).push(c),
{
    let grown = fields.drop_last().push(fields.last().push(c));
    if fields.len() == 1 {
        assert(grown[0] == fields[0].push(c));
    } else {
        assert(grown.drop_last() =~= fields.drop_last());
        assert(join(grown, sep) =~= join(fields, sep).push(c));
    }
}

/// Joining the fields of a text gives the text back, and no field holds the
/// separator.
pub proof fn lemma_join_split(s: Seq<char>, sep: char)
    ensures
        join(split(s, sep), sep) == s,
        fields_clean(split(s, sep), sep),
    decreases s.len(),
{
    if s.len() == 0 {
        assert(join(split(s, sep), sep) =~= s);
    } else {
        let before = split(s.drop_last(), sep);
        lemma_join_split(s.drop_last(), sep);
        lemma_split_nonempty(s.drop_last(), sep);
        if s.last() == sep {
            let fields = before.push(Seq::<char>::empty());
            assert(fields.drop_last() =~= before);
            assert(join(fields, sep) =~= s.drop_last().push(sep));
            assert(s.drop_last().push(sep) =~= s);
        } else {
            lemma_join_extend_last(before, sep, s.last());
            assert(s.drop_last().push(s.last()) =~= s);
        }
    }
}

/// Splitting a joined text gives the fields back, provided there is at least
/// one field and none holds the separator.
pub proof fn lemma_split_join(fields: Seq<Seq<char>>, sep: char)
    requires
        fields.len() >= 1,
        fields_clean(fields, sep),
    ensures
        split(join(fields, sep), sep) == fields,
    decreases fields.len(), fields.last().len(),
{
    let text = join(fields, sep);
    let tail = fields.last();
    if tail.len() == 0 {
        if fields.len() == 1 {
            assert(text =~= Seq::<char>::empty());
            assert(split(text, sep) =~= fields);
        } else {
            let front = fields.drop_last();
            assert(fields_clean(front, sep)) by {
                assert forall|i: int, j: int|
                    0 <= i < front.len() && 0 <= j < front[i].len() implies #[trigger] front[i][j]
                    != sep by {
                    assert(front[i] == fields[i]);
                }
            }
            lemma_split_join(front, sep);
            assert(text =~= join(front, sep).push(sep));
            assert(text.drop_last() =~= join(front, sep));
            assert(text.last() == sep);
            assert(tail =~= Seq::<char>::empty());
            assert(front.push(Seq::<char>::empty()) =~= fields);
        }
    } else {
        let c = tail.last();
        let shorter = fields.drop_last().push(tail.drop_last());
        assert(c != sep) by {
            assert(fields[fields.len() - 1][tail.len() - 1] != sep);
        }
        assert(fields_clean(shorter, sep)) by {
            assert forall|i: int, j: int|
                0 <= i < shorter.len() && 0 <= j < shorter[i].len() implies #[trigger] shorter[i][j]
                != sep by {
                if i < shorter.len() - 1 {
                    assert(shorter[i] == fields[i]);
                } else {
                    assert(shorter[i][j] == fields[i][j]);
                }
            }
        }
        assert(shorter.last().len() < tail.len());
        lemma_split_join(shorter, sep);
        lemma_join_extend_last(shorter, sep, c);
        assert(shorter.drop_last() =~= fields.drop_last());
        assert(shorter.last().push(c) =~= tail);
        assert(shorter.drop_last().push(shorter.last().push(c)) =~= fields);
        assert(text == join(shorter, sep).push(c));
        assert(text.drop_last() =~= join(shorter, sep));
    }
}

/// A text that neither starts nor ends with white space is its own trimming.
pub proof fn lemma_trim_tight(s: Seq<char>)
    requires
        s.len() > 0 ==> !is_space(s[0]) && !is_space(s.last()),
    ensures
        trim(s) == s,
{
}

/// How many characters of white space `s` starts with.
pub open spec fn leading_space(s: Seq<char>) -> nat
    decreases s.len(),
{
    if s.len() > 0 && is_space(s[0]) {
        1 + leading_space(s.drop_first())
    } else {
        0
    }
}

/// How many characters of white space `s` ends with.
pub open spec fn trailing_space(s: Seq<char>) -> nat
    decreases s.len(),
{
    if s.len() > 0 && is_space(s.last()) {
        1 + trailing_space(s.drop_last())
    } else {
        0
    }
}

/// Trimming the start takes away the white space that the text starts with,
/// all of it and nothing else.
pub proof fn lemma_trim_start(s: Seq<char>)
    ensures
        leading_space(s) <= s.len(),
        trim_start(s) == s.skip(leading_space(s) as int),
        forall|i: int| 0 <= i < leading_space(s) ==> is_space(s[i]),
        leading_space(s) < s.len() ==> !is_space(s[leading_space(s) as int]),
    decreases s.len(),
{
    if s.len() > 0 && is_space(s[0]) {
        let rest = s.drop_first();
        lemma_trim_start(rest);
        assert(rest.skip(leading_space(rest) as int) =~= s.skip(leading_space(s) as int));
        assert forall|i: int| 0 <= i < leading_space(s) implies is_space(s[i]) by {
            if i > 0 {
                assert(s[i] == rest[i - 1]);
            }
        }
        if leading_space(s) < s.len() {
            assert(s[leading_space(s) as int] == rest[leading_space(rest) as int]);
        }
    } else {
        assert(s.skip(0) =~= s);
    }
}

/// Trimming the end takes away the white space that the text ends with, all
/// of it and nothing else.
pub proof fn lemma_trim_end(s: Seq<char>)
    ensures
        trailing_space(s) <= s.len(),
        trim_end(s) == s.take(s.len() - trailing_space(s)),
        forall|i: int| s.len() - trailing_space(s) <= i < s.len() ==> is_space(s[i]),
        trailing_space(s) < s.len() ==> !is_space(s[s.len() - trailing_space(s) - 1]),
    decreases s.len(),
{
    if s.len() > 0 && is_space(s.last()) {
        let rest = s.drop_last();
        lemma_trim_end(rest);
        assert(rest.take(rest.len() - trailing_space(rest)) =~= s.take(
            s.len() - trailing_space(s),
        ));
        assert forall|i: int| s.len() - trailing_space(s) <= i < s.len() implies is_space(
            s[i],
        ) by {
            if i < s.len() - 1 {
                assert(s[i] == rest[i]);
            }
        }
        if trailing_space(s) < s.len() {
            assert(s[s.len() - trailing_space(s) - 1] == rest[rest.len() - trailing_space(rest)
                - 1]);
        }
    } else {
        assert(s.take(s.len() as int) =~= s);
    }
}

/// Trimming cuts white space from both ends and nothing else: what is left is
/// a stretch of the text with nothing but white space before and after it,
/// and it neither starts nor ends with white space.
pub proof fn lemma_trim(s: Seq<char>)
    ensures
        exists|from: int, to: int|
            {
                &&& 0 <= from <= to <= s.len()
                &&& trim(s) == #[trigger] s.subrange(from, to)
                &&& forall|i: int| 0 <= i < from ==> is_space(s[i])
                &&& forall|i: int| to <= i < s.len() ==> is_space(s[i])
            },
        trim(s).len() > 0 ==> !is_space(trim(s)[0]) && !is_space(trim(s).last()),
        trim(trim(s)) == trim(s),
{
    lemma_trim_start(s);
    let from = leading_space(s) as int;
    let rest = s.skip(from);
    lemma_trim_end(rest);
    let to = s.len() - trailing_space(rest);
    assert(rest.take(rest.len() - trailing_space(rest)) =~= s.subrange(from, to));
    assert forall|i: int| to <= i < s.len() implies is_space(s[i]) by {
        assert(s[i] == rest[i - from]);
    }
    let t = trim(s);
    if t.len() > 0 {
        assert(t[0] == rest[0]);
        assert(rest[0] == s[from]);
        assert(t.last() == rest[rest.len() - trailing_space(rest) - 1]);
    }
    assert(0 <= from <= to <= s.len() && trim(s) == s.subrange(from, to));
}

/// The character sequences that the vectors of `fields` hold.
pub open spec fn views(fields: Seq<Vec<char>>) -> Seq<Seq<char>> {
    Seq::new(fields.len(), |i: int| fields[i]@)
}

/// Whether `c` is white space.
pub fn is_space_char(c: char) -> (space: bool)
    ensures
        space == is_space(c),
{
    ('\u{9}' <= c && c <= '\u{d}') || c == ' ' || c == '\u{85}' || c == '\u{a0}' || c == '\u{1680}'
        || ('\u{2000}' <= c && c <= '\u{200a}') || c == '\u{2028}' || c == '\u{2029}' || c
        == '\u{202f}' || c == '\u{205f}' || c == '\u{3000}'
}

/// The characters of `s`, in order.
pub fn chars_of(s: &str) -> (out: Vec<char>)
    ensures
        out@ == s@,
{
    let mut out: Vec<char> = Vec::new();
    for c in it: s.chars()
        invariant
            it.seq() == s@,
            out@ == s@.take(it.index() as int),
    {
        out.push(c);
    }
    out
}

/// The string made of the characters of `cs`, in order.
pub fn text_of(cs: &Vec<char>) -> (out: String)
    ensures
        out@ == cs@,
{
    let mut out = String::new();
    let mut i: usize = 0;
    while i < cs.len()
        invariant
            i <= cs.len(),
            out@ == cs@.take(i as int),
        decreases cs.len() - i,
    {
        out.push(cs[i]);
        i = i + 1;
    }
    out
}

/// Appends the characters of `cs` to `out`.
pub fn push_chars(out: &mut String, cs: &Vec<char>)
    ensures
        final(out)@ == old(out)@ + cs@,
{
    let mut i: usize = 0;
    while i < cs.len()
        invariant
            i <= cs.len(),
            out@ == old(out)@ + cs@.take(i as int),
        decreases cs.len() - i,
    {
        out.push(cs[i]);
        i = i + 1;
    }
}

/// Appends the characters of `s` to `out`.
pub fn append_str(out: &mut Vec<char>, s: &str)
    ensures
        final(out)@ == old(out)@ + s@,
{
    for c in it: s.chars()
        invariant
            it.seq() == s@,
            out@ == old(out)@ + s@.take(it.index() as int),
    {
        out.push(c);
        assert(s@.take(it.index() as int).push(c) =~= s@.take(it.index() + 1));
    }
    assert(s@.take(s@.len() as int) =~= s@);
}

/// `cs` without white space at either end.
pub fn trim_chars(cs: &Vec<char>) -> (out: Vec<char>)
    ensures
        out@ == trim(cs@),
{
    let n: usize = cs.len();
    let mut from: usize = 0;
    assert(cs@.skip(0) =~= cs@);
    while from < n && is_space_char(cs[from])
        invariant
            n == cs.len(),
            from <= n,
            trim_start(cs@) == trim_start(cs@.skip(from as int)),
        decreases n - from,
    {
        assert(cs@.skip(from as int).drop_first() =~= cs@.skip(from + 1));
        from = from + 1;
    }
    assert(cs@.skip(from as int).len() > 0 ==> cs@.skip(from as int)[0] == cs@[from as int]);
    let ghost rest = cs@.skip(from as int);
    assert(trim_start(cs@) == rest);
    let mut to: usize = n;
    assert(rest.take(n - from) =~= rest);
    while to > from && is_space_char(cs[to - 1])
        invariant
            n == cs.len(),
            from <= to <= n,
            rest == cs@.skip(from as int),
            trim_end(rest) == trim_end(rest.take(to - from)),
        decreases to,
    {
        assert(rest.take(to - from).last() == cs@[to - 1]);
        assert(rest.take(to - from).drop_last() =~= rest.take(to - from - 1));
        to = to - 1;
    }
    assert(to > from ==> rest.take(to - from).last() == cs@[to - 1]);
    assert(trim_end(rest) == rest.take(to - from));
    let mut out: Vec<char> = Vec::new();
    let mut i: usize = from;
    while i < to
        invariant
            from <= i <= to <= n,
            n == cs.len(),
            out@ == cs@.subrange(from as int, i as int),
        decreases to - i,
    {
        out.push(cs[i]);
        i = i + 1;
    }
    assert(out@ =~= rest.take(to - from));
    out
}

/// The fields of `cs` between occurrences of `sep`.
pub fn split_chars(cs: &Vec<char>, sep: char) -> (fields: Vec<Vec<char>>)
    ensures
        views(fields@) == split(cs@, sep),
{
    let mut done: Vec<Vec<char>> = Vec::new();
    let mut current: Vec<char> = Vec::new();
    let mut i: usize = 0;
    assert(views(done@).push(current@) =~= split(cs@.take(0), sep));
    while i < cs.len()
        invariant
            i <= cs.len(),
            views(done@).push(current@) == split(cs@.take(i as int), sep),
        decreases cs.len() - i,
    {
        let c = cs[i];
        let ghost before = split(cs@.take(i as int), sep);
        proof {
            let next = cs@.take(i + 1);
            assert(next.drop_last() =~= cs@.take(i as int));
            assert(next.last() == c);
            assert(before.last() == current@);
            assert(before.drop_last() =~= views(done@));
        }
        if c == sep {
            done.push(current);
            current = Vec::new();
            assert(views(done@).push(current@) =~= before.push(Seq::<char>::empty()));
        } else {
            current.push(c);
            assert(views(done@).push(current@) =~= before.drop_last().push(
                before.last().push(c),
            ));
        }
        i = i + 1;
    }
    assert(cs@.take(cs.len() as int) =~= cs@);
    let ghost all = views(done@).push(current@);
    done.push(current);
    assert(views(done@) =~= all);
    done
}

} // verus!
