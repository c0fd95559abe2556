//! Runs of decimal digits and the numbers they stand for.

use vstd::prelude::*;
use vstd::arithmetic::div_mod::lemma_fundamental_div_mod_converse;

verus! {

/// Whether `c` is one of the ten digits.
pub open spec fn is_digit(c: char) -> bool {
    '0' <= c <= '9'
}

/// Whether `s` holds nothing but digits.
pub open spec fn all_digits(s: Seq<char>) -> bool {
    forall|i: int| 0 <= i < s.len() ==> is_digit(#[trigger] s[i])
}

/// The number that the digit `c` stands for.
pub open spec fn digit_of(c: char) -> nat {
    (c as int - '0' as int) as nat
}

/// The digit that stands for `d`, for `d` below ten.
pub open spec fn digit_char(d: nat) -> char {
    ('0' as int + d) as char
}

/// Ten to the power `e`.
pub open spec fn pow10(e: nat) -> nat
    decreases e,
{
    if e == 0 {
        1
    } else {
        10 * pow10((e - 1) as nat)
    }
}

/// The number that a run of digits stands for; the empty run stands for zero.
pub open spec fn text_value(s: Seq<char>) -> nat
    decreases s.len(),
{
    if s.len() == 0 {
        0
    } else {
        text_value(s.drop_last()) * 10 + digit_of(s.last())
    }
}

/// The shortest run of digits that stands for `n`.
pub open spec fn nat_text(n: nat) -> Seq<char>
    decreases n,
{
    if n < 10 {
        seq![digit_char(n)]
    } else {
        nat_text(n / 10).push(digit_char(n % 10))
    }
}

/// The run of exactly `width` digits that stands for `n`, leading zeros
/// included; meant for `n` below `10^width`.
pub open spec fn padded_text(n: nat, width: nat) -> Seq<char>
    decreases width,
{
    if width == 0 {
        Seq::<char>::empty()
    } else {
        padded_text(n / 10, (width - 1) as nat).push(digit_char(n % 10))
    }
}

/// A whole number as text: the shortest run of digits, after a `-` where it
/// is below zero.
pub open spec fn int_text(i: int) -> Seq<char> {
    if i < 0 {
        seq!['-'] + nat_text((-i) as nat)
    } else {
        nat_text(i as nat)
    }
}

/// A power of ten is at least one.
pub proof fn lemma_pow10_positive(e: nat)
    ensures
        pow10(e) >= 1,
    decreases e,
{
    if e > 0 {
        lemma_pow10_positive((e - 1) as nat);
    }
}

/// The value of two runs of digits written one after the other.
pub proof fn lemma_text_value_concat(a: Seq<char>, b: Seq<char>)
    ensures
        text_value(a + b) == text_value(a) * pow10(b.len()) + text_value(b),
    decreases b.len(),
{
    if b.len() == 0 {
        assert(a + b =~= a);
        assert(pow10(0) == 1);
    } else {
        let front = b.drop_last();
        lemma_text_value_concat(a, front);
        assert((a + b).drop_last() =~= a + front);
        assert((a + b).last() == b.last());
        let x = text_value(a);
        let p = pow10(front.len());
        let y = text_value(front);
        let d = digit_of(b.last());
        assert(text_value(a + b) == (x * p + y) * 10 + d);
        assert(pow10(b.len()) == 10 * p);
        assert(text_value(b) == y * 10 + d);
        assert((x * p + y) * 10 + d == x * (10 * p) + (y * 10 + d)) by (nonlinear_arith);
    }
}

/// A run of `n` digits stands for a number below `10^n`.
pub proof fn lemma_text_value_bound(s: Seq<char>)
    requires
        all_digits(s),
    ensures
        text_value(s) < pow10(s.len()),
    decreases s.len(),
{
    if s.len() > 0 {
        let front = s.drop_last();
        assert(all_digits(front)) by {
            assert forall|i: int| 0 <= i < front.len() implies is_digit(#[trigger] front[i]) by {
                assert(front[i] == s[i]);
            }
        }
        lemma_text_value_bound(front);
        assert(is_digit(s[s.len() - 1]));
    }
}

/// A run of zeros stands for zero, and only such a run does.
pub proof fn lemma_text_value_zero(s: Seq<char>)
    requires
        all_digits(s),
    ensures
        text_value(s) == 0 <==> (forall|i: int| 0 <= i < s.len() ==> s[i] == '0'),
    decreases s.len(),
{
    if s.len() > 0 {
        let front = s.drop_last();
        assert(all_digits(front)) by {
            assert forall|i: int| 0 <= i < front.len() implies is_digit(#[trigger] front[i]) by {
                assert(front[i] == s[i]);
            }
        }
        lemma_text_value_zero(front);
        assert(is_digit(s[s.len() - 1]));
        if text_value(s) == 0 {
            assert forall|i: int| 0 <= i < s.len() implies s[i] == '0' by {
                if i < s.len() - 1 {
                    assert(front[i] == s[i]);
                }
            }
        }
        if forall|i: int| 0 <= i < s.len() ==> s[i] == '0' {
            assert forall|i: int| 0 <= i < front.len() implies front[i] == '0' by {
                assert(front[i] == s[i]);
            }
        }
    }
}

/// A value splits at any digit into what stands before and what stands after.
pub proof fn lemma_text_value_split(s: Seq<char>, k: int)
    requires
        all_digits(s),
        0 <= k <= s.len(),
    ensures
        all_digits(s.take(k)),
        all_digits(s.skip(k)),
        text_value(s) / pow10((s.len() - k) as nat) == text_value(s.take(k)),
        text_value(s) % pow10((s.len() - k) as nat) == text_value(s.skip(k)),
        text_value(s) == text_value(s.take(k)) * pow10((s.len() - k) as nat) + text_value(
            s.skip(k),
        ),
{
    let a = s.take(k);
    let b = s.skip(k);
    assert(a + b =~= s);
    assert(all_digits(a)) by {
        assert forall|i: int| 0 <= i < a.len() implies is_digit(#[trigger] a[i]) by {
            assert(a[i] == s[i]);
        }
    }
    assert(all_digits(b)) by {
        assert forall|i: int| 0 <= i < b.len() implies is_digit(#[trigger] b[i]) by {
            assert(b[i] == s[i + k]);
        }
    }
    lemma_text_value_concat(a, b);
    lemma_text_value_bound(b);
    let p = pow10(b.len());
    lemma_pow10_positive(b.len());
    lemma_fundamental_div_mod_converse(
        text_value(s) as int,
        p as int,
        text_value(a) as int,
        text_value(b) as int,
    );
}

/// The value of a run of two digits.
pub proof fn lemma_text_value_pair(s: Seq<char>)
    requires
        s.len() == 2,
    ensures
        text_value(s) == digit_of(s[0]) * 10 + digit_of(s[1]),
{
    let front = s.drop_last();
    assert(front.drop_last().len() == 0);
    assert(text_value(front.drop_last()) == 0);
    assert(front.last() == s[0]);
    assert(text_value(front) == text_value(front.drop_last()) * 10 + digit_of(front.last()));
    assert(s.last() == s[1]);
    assert(text_value(s) == text_value(front) * 10 + digit_of(s.last()));
}

/// A run of nines stands for one less than the next power of ten.
proof fn lemma_text_value_nines(s: Seq<char>)
    requires
        forall|i: int| 0 <= i < s.len() ==> s[i] == '9',
    ensures
        text_value(s) + 1 == pow10(s.len()),
    decreases s.len(),
{
    if s.len() > 0 {
        let front = s.drop_last();
        assert forall|i: int| 0 <= i < front.len() implies front[i] == '9' by {
            assert(front[i] == s[i]);
        }
        lemma_text_value_nines(front);
        assert(s.last() == s[s.len() - 1]);
    }
}

/// A zero in front of a run of digits does not change its value.
proof fn lemma_text_value_leading_zero(s: Seq<char>)
    requires
        s.len() > 0,
        s[0] == '0',
    ensures
        text_value(s) == text_value(s.drop_first()),
{
    let head = s.take(1);
    assert(head + s.drop_first() =~= s);
    lemma_text_value_concat(head, s.drop_first());
    assert(head.drop_last().len() == 0);
    assert(text_value(head.drop_last()) == 0);
    assert(head.last() == '0');
    assert(text_value(head) == 0);
    assert(0 * pow10(s.drop_first().len()) == 0);
}

/// The shortest run of digits for a number is a run of digits, not empty,
/// and stands for that number.
pub proof fn lemma_nat_text(n: nat)
    ensures
        all_digits(nat_text(n)),
        nat_text(n).len() >= 1,
        text_value(nat_text(n)) == n,
    decreases n,
{
    if n < 10 {
        let s = nat_text(n);
        assert(s.drop_last().len() == 0);
        assert(text_value(s.drop_last()) == 0);
        assert(s.last() == digit_char(n));
        assert(text_value(s) == text_value(s.drop_last()) * 10 + digit_of(s.last()));
    } else {
        lemma_nat_text(n / 10);
        let front = nat_text(n / 10);
        let s = nat_text(n);
        assert(s.drop_last() =~= front);
        assert(s.last() == digit_char(n % 10));
        assert(is_digit(digit_char(n % 10)));
        assert forall|i: int| 0 <= i < s.len() implies is_digit(#[trigger] s[i]) by {
            if i < front.len() {
                assert(s[i] == front[i]);
            }
        }
    }
}

/// A run of digits that does not start with a needless zero is the shortest
/// run for its value.
pub proof fn lemma_nat_text_of_digits(s: Seq<char>)
    requires
        all_digits(s),
        s.len() >= 1,
        s.len() == 1 || s[0] != '0',
    ensures
        nat_text(text_value(s)) == s,
        s.len() > 1 ==> text_value(s) >= 10,
    decreases s.len(),
{
    let front = s.drop_last();
    let c = s.last();
    assert(is_digit(s[s.len() - 1]));
    assert(digit_char(digit_of(c)) == c);
    if s.len() == 1 {
        assert(front.len() == 0);
        assert(text_value(front) == 0);
        assert(nat_text(text_value(s)) =~= s);
    } else {
        assert(all_digits(front)) by {
            assert forall|i: int| 0 <= i < front.len() implies is_digit(#[trigger] front[i]) by {
                assert(front[i] == s[i]);
            }
        }
        assert(front[0] == s[0]);
        if front.len() == 1 {
            assert(is_digit(front[0]));
            assert(front.drop_last().len() == 0);
            assert(text_value(front.drop_last()) == 0);
            assert(front.last() == front[0]);
            assert(text_value(front) == digit_of(front[0]));
            assert(text_value(front) >= 1);
        }
        lemma_nat_text_of_digits(front);
        let v = text_value(front);
        assert(v >= 1);
        assert((v * 10 + digit_of(c)) / 10 == v);
        assert((v * 10 + digit_of(c)) % 10 == digit_of(c));
        assert(nat_text(text_value(s)) =~= s);
    }
}

/// The padded text of a number is a run of digits of the width asked for,
/// and stands for the number where that is below ten to the width.
pub proof fn lemma_padded_text(n: nat, width: nat)
    ensures
        all_digits(padded_text(n, width)),
        padded_text(n, width).len() == width,
        n < pow10(width) ==> text_value(padded_text(n, width)) == n,
    decreases width,
{
    if width > 0 {
        lemma_padded_text(n / 10, (width - 1) as nat);
        let front = padded_text(n / 10, (width - 1) as nat);
        let s = padded_text(n, width);
        assert(s.drop_last() =~= front);
        assert(s.last() == digit_char(n % 10));
        assert(is_digit(digit_char(n % 10)));
        assert forall|i: int| 0 <= i < s.len() implies is_digit(#[trigger] s[i]) by {
            if i < front.len() {
                assert(s[i] == front[i]);
            }
        }
        if n < pow10(width) {
            assert(n / 10 < pow10((width - 1) as nat));
        }
    }
}

/// A run of digits is the padded text of its own value at its own width.
pub proof fn lemma_padded_text_of_digits(s: Seq<char>)
    requires
        all_digits(s),
    ensures
        padded_text(text_value(s), s.len()) == s,
    decreases s.len(),
{
    if s.len() == 0 {
        assert(padded_text(text_value(s), s.len()) =~= s);
    } else {
        let front = s.drop_last();
        let c = s.last();
        assert(is_digit(s[s.len() - 1]));
        assert(digit_char(digit_of(c)) == c);
        assert(all_digits(front)) by {
            assert forall|i: int| 0 <= i < front.len() implies is_digit(#[trigger] front[i]) by {
                assert(front[i] == s[i]);
            }
        }
        lemma_padded_text_of_digits(front);
        let v = text_value(front);
        assert((v * 10 + digit_of(c)) / 10 == v);
        assert((v * 10 + digit_of(c)) % 10 == digit_of(c));
        assert(padded_text(text_value(s), s.len()) =~= s);
    }
}

/// Whether `c` is one of the ten digits.
pub fn is_digit_char(c: char) -> (digit: bool)
    ensures
        digit == is_digit(c),
{
    '0' <= c && c <= '9'
}

/// The digit after `c`, for a digit below nine.
fn next_digit(c: char) -> (out: char)
    requires
        '0' <= c < '9',
    ensures
        is_digit(out),
        digit_of(out) == digit_of(c) + 1,
{
    match c {
        '0' => '1',
        '1' => '2',
        '2' => '3',
        '3' => '4',
        '4' => '5',
        '5' => '6',
        '6' => '7',
        '7' => '8',
        _ => '9',
    }
}

/// Whether the digit `c` stands for an odd number.
pub(crate) fn is_odd_digit(c: char) -> (odd: bool)
    requires
        is_digit(c),
    ensures
        odd == (digit_of(c) % 2 == 1),
{
    c == '1' || c == '3' || c == '5' || c == '7' || c == '9'
}

/// Whether a digit other than zero stands at or after `from`.
pub(crate) fn any_nonzero(ds: &Vec<char>, from: usize) -> (found: bool)
    requires
        from <= ds@.len(),
    ensures
        found == exists|j: int| from <= j < ds@.len() && ds@[j] != '0',
{
    let mut j: usize = from;
    while j < ds.len()
        invariant
            from <= j <= ds@.len(),
            forall|k: int| from <= k < j ==> ds@[k] == '0',
        decreases ds@.len() - j,
    {
        if ds[j] != '0' {
            return true;
        }
        j = j + 1;
    }
    false
}

/// Adds one to the number that a run of digits stands for.
pub(crate) fn increment(ds: &mut Vec<char>)
    requires
        all_digits(old(ds)@),
    ensures
        all_digits(final(ds)@),
        text_value(final(ds)@) == text_value(old(ds)@) + 1,
        final(ds)@.len() >= old(ds)@.len(),
{
    let n: usize = ds.len();
    let mut i: usize = n;
    while i > 0 && ds[i - 1] == '9'
        invariant
            i <= n,
            ds@.len() == n,
            old(ds)@.len() == n,
            all_digits(ds@),
            ds@.take(i as int) == old(ds)@.take(i as int),
            forall|j: int| i <= j < n ==> ds@[j] == '0' && old(ds)@[j] == '9',
        decreases i,
    {
        assert(ds@.take(i as int)[i - 1] == old(ds)@.take(i as int)[i - 1]);
        assert(old(ds)@[i - 1] == '9');
        ds.set(i - 1, '0');
        i = i - 1;
        assert(ds@.take(i as int) =~= old(ds)@.take(i as int));
    }
    let ghost k = (n - i) as nat;
    let ghost zeros = ds@.skip(i as int);
    let ghost nines = old(ds)@.skip(i as int);
    let ghost front = old(ds)@.take(i as int);
    proof {
        lemma_text_value_split(old(ds)@, i as int);
        lemma_text_value_nines(nines);
        lemma_text_value_zero(zeros);
        assert(text_value(zeros) == 0);
        lemma_pow10_positive(k);
    }
    if i == 0 {
        ds.insert(0, '1');
        proof {
            let one = seq!['1'];
            assert(ds@ =~= one + zeros);
            lemma_text_value_concat(one, zeros);
            assert(one.drop_last().len() == 0);
            assert(text_value(one.drop_last()) == 0);
            assert(text_value(one) == 1);
            assert(text_value(front) == 0);
            assert(1 * pow10(k) == pow10(k));
            assert(0 * pow10(k) == 0);
        }
    } else {
        let c = ds[i - 1];
        assert(c == old(ds)@.take(i as int)[i - 1]);
        ds.set(i - 1, next_digit(c));
        proof {
            let bumped = ds@.take(i as int);
            assert(ds@ =~= bumped + zeros);
            lemma_text_value_concat(bumped, zeros);
            assert(bumped.drop_last() =~= front.drop_last());
            assert(front.last() == c);
            assert(text_value(bumped) == text_value(front) + 1);
            let v = text_value(front);
            let p = pow10(k);
            assert((v + 1) * p == v * p + p) by (nonlinear_arith);
        }
    }
}

/// Appends the characters of `ds` from `from` up to `to`.
pub(crate) fn push_run(out: &mut String, ds: &Vec<char>, from: usize, to: usize)
    requires
        from <= to <= ds@.len(),
    ensures
        final(out)@ == old(out)@ + ds@.subrange(from as int, to as int),
{
    let mut j: usize = from;
    while j < to
        invariant
            from <= j <= to <= ds@.len(),
            out@ == old(out)@ + ds@.subrange(from as int, j as int),
        decreases to - j,
    {
        out.push(ds[j]);
        assert(ds@.subrange(from as int, j as int).push(ds@[j as int]) =~= ds@.subrange(
            from as int,
            j + 1,
        ));
        j = j + 1;
    }
}

/// Appends the shortest run of digits for the value of the first `end` digits
/// of `ds`.
pub(crate) fn push_natural(out: &mut String, ds: &Vec<char>, end: usize)
    requires
        end <= ds@.len(),
        all_digits(ds@.take(end as int)),
    ensures
        final(out)@ == old(out)@ + nat_text(text_value(ds@.take(end as int))),
{
    let ghost run = ds@.take(end as int);
    if end == 0 {
        out.push('0');
        assert(nat_text(0) =~= seq!['0']);
        assert(out@ =~= old(out)@ + nat_text(text_value(run)));
        return ;
    }
    let mut k: usize = 0;
    assert(run.skip(0) =~= run);
    while k + 1 < end && ds[k] == '0'
        invariant
            k < end <= ds@.len(),
            run == ds@.take(end as int),
            all_digits(run),
            text_value(run) == text_value(run.skip(k as int)),
        decreases end - k,
    {
        proof {
            let tail = run.skip(k as int);
            assert(tail[0] == ds@[k as int]);
            lemma_text_value_leading_zero(tail);
            assert(tail.drop_first() =~= run.skip(k + 1));
        }
        k = k + 1;
    }
    let ghost shown = run.skip(k as int);
    proof {
        assert(all_digits(shown)) by {
            assert forall|j: int| 0 <= j < shown.len() implies is_digit(#[trigger] shown[j]) by {
                assert(shown[j] == run[j + k]);
            }
        }
        assert(shown[0] == ds@[k as int]);
        lemma_nat_text_of_digits(shown);
    }
    push_run(out, ds, k, end);
    assert(ds@.subrange(k as int, end as int) =~= shown);
}

/// Appends the shortest run of digits that stands for `n`.
pub fn push_nat(out: &mut String, n: u64)
    ensures
        final(out)@ == old(out)@ + nat_text(n as nat),
    decreases n,
{
    if n >= 10 {
        push_nat(out, n / 10);
    }
    let digit: u8 = (n % 10) as u8;
    out.push((48u8 + digit) as char);
    assert(out@ =~= old(out)@ + nat_text(n as nat));
}

/// Appends `i` as text.
pub fn push_int(out: &mut String, i: i64)
    ensures
        final(out)@ == old(out)@ + int_text(i as int),
{
    if i < 0 {
        out.push('-');
        let size: u64 = if i == i64::MIN {
            9223372036854775808u64
        } else {
            (-i) as u64
        };
        push_nat(out, size);
        assert(out@ =~= old(out)@ + int_text(i as int));
    } else {
        push_nat(out, i as u64);
    }
}

} // verus!
