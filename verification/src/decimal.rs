//! Exact decimal numbers as they appear on the wire: an optional sign, digits
//! and an optional fraction. A number is kept digit by digit, so nothing is
//! lost between what was received and what is shown.

use vstd::prelude::*;
use vstd::arithmetic::div_mod::lemma_fundamental_div_mod_converse;
use crate::digits::{
    all_digits, any_nonzero, digit_char, digit_of, increment, is_digit, is_digit_char,
    is_odd_digit, lemma_nat_text, lemma_padded_text, lemma_padded_text_of_digits,
    lemma_pow10_positive, lemma_text_value_bound, lemma_text_value_concat,
    lemma_text_value_pair, lemma_text_value_split, lemma_text_value_zero, nat_text, padded_text,
    pow10, push_natural, push_run, text_value,
};
use crate::text::chars_of;

verus! {

/// The value of a decimal: `units / 10^scale`, negated if `negative`.
pub struct Number {
    pub negative: bool,
    pub units: nat,
    pub scale: nat,
}

/// Whether a text starts with `+` or `-`.
pub open spec fn has_sign(s: Seq<char>) -> bool {
    s.len() > 0 && (s[0] == '+' || s[0] == '-')
}

/// A literal without its sign.
pub open spec fn unsigned_part(s: Seq<char>) -> Seq<char> {
    if has_sign(s) {
        s.drop_first()
    } else {
        s
    }
}

/// Where the first decimal point of `s` stands; the length of `s` if it has
/// none.
pub open spec fn point_index(s: Seq<char>) -> int
    decreases s.len(),
{
    if s.len() == 0 || s[0] == '.' {
        0
    } else {
        1 + point_index(s.drop_first())
    }
}

/// What stands before the decimal point.
pub open spec fn whole_part(body: Seq<char>) -> Seq<char> {
    body.take(point_index(body))
}

/// What stands after the decimal point.
pub open spec fn fraction_part(body: Seq<char>) -> Seq<char> {
    if point_index(body) < body.len() {
        body.skip(point_index(body) + 1)
    } else {
        Seq::<char>::empty()
    }
}

/// Whether `s` is a decimal literal: an optional `+` or `-`, then digits with
/// at most one decimal point among, before or after them, and at least one
/// digit. There is no exponent and no name for a value that is not finite.
pub open spec fn is_literal(s: Seq<char>) -> bool {
    let body = unsigned_part(s);
    &&& all_digits(whole_part(body))
    &&& all_digits(fraction_part(body))
    &&& whole_part(body).len() + fraction_part(body).len() >= 1
}

/// The value that the literal `s` stands for.
pub open spec fn number_of(s: Seq<char>) -> Number {
    let body = unsigned_part(s);
    Number {
        negative: s.len() > 0 && s[0] == '-',
        units: text_value(whole_part(body) + fraction_part(body)),
        scale: fraction_part(body).len(),
    }
}

/// `n / m` rounded to the nearest whole number, a tie going to the even one.
pub open spec fn round_half_even(n: nat, m: nat) -> nat {
    let q = n / m;
    let r = n % m;
    if 2 * r > m || (2 * r == m && q % 2 == 1) {
        q + 1
    } else {
        q
    }
}

/// The value in hundredths, rounded half to even.
pub open spec fn hundredths(x: Number) -> nat {
    if x.scale <= 2 {
        x.units * pow10((2 - x.scale) as nat)
    } else {
        round_half_even(x.units, pow10((x.scale - 2) as nat))
    }
}

/// The sign as it is shown: `-` for a negative number, nothing otherwise.
pub open spec fn sign_text(x: Number) -> Seq<char> {
    if x.negative {
        seq!['-']
    } else {
        Seq::<char>::empty()
    }
}

/// The number with exactly two digits after the point, rounded half to even.
/// A negative number keeps its sign even where it rounds to zero.
pub open spec fn fixed2_text(x: Number) -> Seq<char> {
    let h = hundredths(x);
    sign_text(x) + nat_text(h / 100) + seq!['.', digit_char(h / 10 % 10), digit_char(h % 10)]
}

/// The same value with the zeros at the end of its fraction taken away.
pub open spec fn without_trailing_zeros(x: Number) -> Number
    decreases x.scale,
{
    if x.scale > 0 && x.units % 10 == 0 {
        without_trailing_zeros(
            Number { negative: x.negative, units: x.units / 10, scale: (x.scale - 1) as nat },
        )
    } else {
        x
    }
}

/// The number written in full and no longer than needed: no leading zeros, no
/// zeros at the end of the fraction, and no point where no fraction is left.
pub open spec fn plain_text(x: Number) -> Seq<char> {
    let t = without_trailing_zeros(x);
    let p = pow10(t.scale);
    sign_text(x) + nat_text(t.units / p) + if t.scale > 0 {
        seq!['.'] + padded_text(t.units % p, t.scale)
    } else {
        Seq::<char>::empty()
    }
}

/// Whether the digits from `cut` on round the digits before them up.
pub open spec fn rounds_up_at(all: Seq<char>, cut: int) -> bool {
    ||| all[cut] > '5'
    ||| all[cut] == '5' && ((exists|j: int| cut + 1 <= j < all.len() && all[j] != '0') || digit_of(
        all[cut - 1],
    ) % 2 == 1)
}

/// The decimal point of a text stands at `point_index`, and nowhere before.
pub proof fn lemma_point_index(s: Seq<char>)
    ensures
        0 <= point_index(s) <= s.len(),
        forall|j: int| 0 <= j < point_index(s) ==> s[j] != '.',
        point_index(s) < s.len() ==> s[point_index(s)] == '.',
    decreases s.len(),
{
    if s.len() > 0 && s[0] != '.' {
        let rest = s.drop_first();
        lemma_point_index(rest);
        assert forall|j: int| 0 <= j < point_index(s) implies s[j] != '.' by {
            if j > 0 {
                assert(s[j] == rest[j - 1]);
            }
        }
        if point_index(s) < s.len() {
            assert(s[point_index(s)] == rest[point_index(rest)]);
        }
    }
}

/// How the first digit that is dropped, and what follows it, decide the
/// rounding: `first` is that digit, `rest` the value of what follows it, which
/// is below `p`, and `kept` the value of the digits that stay.
proof fn lemma_round_by_first_digit(kept: nat, first: nat, rest: nat, p: nat)
    requires
        first <= 9,
        rest < p,
    ensures
        round_half_even(kept * (10 * p) + (first * p + rest), 10 * p) == if first > 5 || (first == 5
            && (rest > 0 || kept % 2 == 1)) {
            kept + 1
        } else {
            kept
        },
{
    let m = 10 * p;
    let r = first * p + rest;
    let n = kept * m + r;
    assert(r < m) by (nonlinear_arith)
        requires
            first <= 9,
            rest < p,
            r == first * p + rest,
            m == 10 * p,
    ;
    lemma_fundamental_div_mod_converse(n as int, m as int, kept as int, r as int);
    assert(n / m == kept);
    assert(n % m == r);
    if first > 5 {
        assert(2 * r > m) by (nonlinear_arith)
            requires
                first >= 6,
                rest < p,
                r == first * p + rest,
                m == 10 * p,
        ;
    } else if first == 5 {
        assert(2 * r == m + 2 * rest) by (nonlinear_arith)
            requires
                first == 5,
                r == first * p + rest,
                m == 10 * p,
        ;
    } else {
        assert(2 * r < m) by (nonlinear_arith)
            requires
                first <= 4,
                rest < p,
                r == first * p + rest,
                m == 10 * p,
        ;
    }
}

/// Rounding a run of digits at `cut`, half to even, is decided by the digit at
/// `cut`, by whether anything but zeros follows it, and by the digit before.
proof fn lemma_round_at(all: Seq<char>, cut: int)
    requires
        all_digits(all),
        1 <= cut < all.len(),
    ensures
        round_half_even(text_value(all), pow10((all.len() - cut) as nat)) == text_value(
            all.take(cut),
        ) + if rounds_up_at(all, cut) {
            1nat
        } else {
            0nat
        },
{
    let kept = all.take(cut);
    let rest = all.skip(cut);
    let after = rest.skip(1);
    let first = all[cut];
    let p = pow10(after.len());
    lemma_text_value_split(all, cut);
    lemma_text_value_split(rest, 1);
    lemma_text_value_bound(after);
    assert(text_value(rest.take(1)) == digit_of(first)) by {
        let head = rest.take(1);
        assert(head.drop_last().len() == 0);
        assert(text_value(head.drop_last()) == 0);
        assert(head.last() == first);
    }
    assert(is_digit(all[cut]));
    assert(pow10(rest.len()) == 10 * p);
    lemma_round_by_first_digit(text_value(kept), digit_of(first), text_value(after), p);
    assert(text_value(all) == text_value(kept) * (10 * p) + (digit_of(first) * p + text_value(
        after,
    )));
    assert(text_value(kept) % 2 == digit_of(all[cut - 1]) % 2) by {
        assert(kept.last() == all[cut - 1]);
        assert(text_value(kept) == text_value(kept.drop_last()) * 10 + digit_of(kept.last()));
    }
    assert(text_value(after) > 0 <==> exists|j: int| cut + 1 <= j < all.len() && all[j] != '0')
        by {
        lemma_text_value_zero(after);
        if exists|j: int| cut + 1 <= j < all.len() && all[j] != '0' {
            let j = choose|j: int| cut + 1 <= j < all.len() && all[j] != '0';
            assert(after[j - cut - 1] == all[j]);
        } else {
            assert forall|j: int| 0 <= j < after.len() implies after[j] == '0' by {
                assert(after[j] == all[j + cut + 1]);
            }
        }
    }
}

/// A decimal number, kept as the digits it was written with.
#[derive(Debug)]
pub struct Decimal {
    negative: bool,
    digits: Vec<char>,
    scale: usize,
}

impl View for Decimal {
    type V = Number;

    closed spec fn view(&self) -> Number {
        Number {
            negative: self.negative,
            units: text_value(self.digits@),
            scale: self.scale as nat,
        }
    }
}

impl Clone for Decimal {
    fn clone(&self) -> (out: Self)
        ensures
            out@ == self@,
    {
        proof {
            use_type_invariant(self);
        }
        let mut digits: Vec<char> = Vec::new();
        let mut i: usize = 0;
        while i < self.digits.len()
            invariant
                i <= self.digits.len(),
                digits@ == self.digits@.take(i as int),
            decreases self.digits.len() - i,
        {
            digits.push(self.digits[i]);
            i = i + 1;
        }
        assert(digits@ =~= self.digits@);
        Decimal { negative: self.negative, digits, scale: self.scale }
    }
}

impl Decimal {
    #[verifier::type_invariant]
    spec fn well_formed(self) -> bool {
        &&& all_digits(self.digits@)
        &&& self.scale <= self.digits@.len()
    }

    /// Zero, written `0`.
    pub fn zero() -> (out: Decimal)
        ensures
            out@ == (Number { negative: false, units: 0, scale: 0 }),
    {
        let mut digits: Vec<char> = Vec::new();
        digits.push('0');
        assert(digits@.drop_last().len() == 0);
        assert(text_value(digits@.drop_last()) == 0);
        Decimal { negative: false, digits, scale: 0 }
    }

    /// Reads a decimal literal; `None` for any other text.
    pub fn parse_chars(cs: &Vec<char>) -> (out: Option<Decimal>)
        ensures
            out is Some <==> is_literal(cs@),
            out matches Some(d) ==> d@ == number_of(cs@),
    {
        let n: usize = cs.len();
        let mut negative = false;
        let mut i: usize = 0;
        if n > 0 && (cs[0] == '+' || cs[0] == '-') {
            negative = cs[0] == '-';
            i = 1;
        }
        let start: usize = i;
        let ghost body = unsigned_part(cs@);
        assert(body =~= cs@.skip(start as int));
        let mut digits: Vec<char> = Vec::new();
        while i < n && is_digit_char(cs[i])
            invariant
                start <= i <= n,
                n == cs.len(),
                digits@ == cs@.subrange(start as int, i as int),
                all_digits(digits@),
            decreases n - i,
        {
            digits.push(cs[i]);
            i = i + 1;
        }
        proof {
            lemma_point_index(body);
            assert forall|j: int| 0 <= j < i - start implies #[trigger] body[j] != '.' by {
                assert(body[j] == digits@[j]);
                assert(is_digit(digits@[j]));
            }
        }
        if i == n {
            assert(point_index(body) == body.len());
            assert(whole_part(body) =~= body);
            assert(body =~= digits@);
            assert(whole_part(body) + fraction_part(body) =~= digits@);
            if digits.len() == 0 {
                return None;
            }
            return Some(Decimal { negative, digits, scale: 0 });
        }
        if cs[i] != '.' {
            proof {
                let k = i - start;
                assert(body[k] == cs@[i as int]);
                assert(point_index(body) > k);
                assert(whole_part(body)[k] == body[k]);
                assert(!is_digit(whole_part(body)[k]));
            }
            return None;
        }
        let ghost whole = digits@;
        proof {
            let k = i - start;
            assert(body[k] == '.');
            assert(point_index(body) == k);
            assert(whole_part(body) =~= whole);
        }
        i = i + 1;
        let after: usize = i;
        assert(fraction_part(body) =~= cs@.skip(after as int));
        while i < n && is_digit_char(cs[i])
            invariant
                after <= i <= n,
                n == cs.len(),
                digits@ == whole + cs@.subrange(after as int, i as int),
                all_digits(whole),
                all_digits(digits@),
            decreases n - i,
        {
            digits.push(cs[i]);
            assert(digits@ =~= whole + cs@.subrange(after as int, i + 1));
            i = i + 1;
        }
        if i < n {
            proof {
                let k = i - after;
                assert(fraction_part(body)[k] == cs@[i as int]);
                assert(!is_digit(fraction_part(body)[k]));
            }
            return None;
        }
        proof {
            let fraction = cs@.subrange(after as int, n as int);
            assert(fraction =~= fraction_part(body));
            assert(all_digits(fraction)) by {
                assert forall|j: int| 0 <= j < fraction.len() implies is_digit(
                    #[trigger] fraction[j],
                ) by {
                    assert(fraction[j] == digits@[whole.len() + j]);
                }
            }
        }
        if digits.len() == 0 {
            return None;
        }
        Some(Decimal { negative, digits, scale: n - after })
    }

    /// The digits that make up the value in hundredths, before any rounding up:
    /// the whole part and two digits of the fraction.
    fn hundredths_digits(&self) -> (kept: Vec<char>)
        ensures
            all_digits(kept@),
            kept@.len() >= 2,
            self@.scale <= 2 ==> text_value(kept@) == hundredths(self@),
            self@.scale > 2 ==> kept@ == self.digits@.take(self.digits@.len() - self.scale + 2),
    {
        proof {
            use_type_invariant(self);
        }
        let n: usize = self.digits.len();
        let keep: usize = if self.scale > 2 {
            n - self.scale + 2
        } else {
            n
        };
        let mut kept: Vec<char> = Vec::new();
        let mut i: usize = 0;
        while i < keep
            invariant
                i <= keep <= n,
                n == self.digits@.len(),
                kept@ == self.digits@.take(i as int),
            decreases keep - i,
        {
            kept.push(self.digits[i]);
            i = i + 1;
        }
        let ghost base = kept@;
        assert(all_digits(base)) by {
            assert forall|j: int| 0 <= j < base.len() implies is_digit(#[trigger] base[j]) by {
                assert(base[j] == self.digits@[j]);
            }
        }
        let total: usize = if self.scale < 2 {
            2 - self.scale
        } else {
            0
        };
        let mut added: usize = 0;
        assert(pow10(0) == 1);
        assert(text_value(base) * 1 == text_value(base));
        while added < total
            invariant
                added <= total <= 2,
                added == 0 ==> kept@ == base,
                all_digits(kept@),
                kept@.len() == base.len() + added,
                text_value(kept@) == text_value(base) * pow10(added as nat),
            decreases total - added,
        {
            let ghost before = kept@;
            kept.push('0');
            proof {
                assert(kept@.drop_last() =~= before);
                assert(kept@.last() == '0');
                let v = text_value(base);
                let p = pow10(added as nat);
                assert(pow10((added + 1) as nat) == 10 * p);
                assert((v * p) * 10 == v * (10 * p)) by (nonlinear_arith);
            }
            added = added + 1;
        }
        proof {
            if self.scale <= 2 {
                assert(base =~= self.digits@);
            }
        }
        kept
    }

    /// Whether the value in hundredths is rounded up.
    fn rounds_up(&self, kept: &Vec<char>) -> (up: bool)
        requires
            self@.scale > 2 ==> kept@ == self.digits@.take(self.digits@.len() - self.scale + 2),
            self@.scale <= 2 ==> text_value(kept@) == hundredths(self@),
        ensures
            hundredths(self@) == text_value(kept@) + if up {
                1nat
            } else {
                0nat
            },
    {
        proof {
            use_type_invariant(self);
        }
        if self.scale <= 2 {
            return false;
        }
        let n: usize = self.digits.len();
        let cut: usize = n - self.scale + 2;
        let first = self.digits[cut];
        proof {
            lemma_round_at(self.digits@, cut as int);
        }
        if first > '5' {
            true
        } else if first == '5' {
            let later = any_nonzero(&self.digits, cut + 1);
            let last = self.digits[cut - 1];
            assert(is_digit(self.digits@[cut - 1]));
            later || is_odd_digit(last)
        } else {
            false
        }
    }

    /// The number with exactly two digits after the point, rounded half to
    /// even.
    pub fn to_fixed2(&self) -> (out: String)
        ensures
            out@ == fixed2_text(self@),
    {
        let mut kept = self.hundredths_digits();
        if self.rounds_up(&kept) {
            increment(&mut kept);
        }
        let m: usize = kept.len();
        let ghost h = hundredths(self@);
        proof {
            lemma_text_value_split(kept@, m - 2);
            lemma_text_value_pair(kept@.skip(m - 2));
            assert(pow10(0) == 1);
            assert(pow10(1) == 10);
            assert(pow10(2) == 100);
            assert(is_digit(kept@[m - 2]));
            assert(is_digit(kept@[m - 1]));
            assert(kept@.skip(m - 2)[0] == kept@[m - 2]);
            assert(kept@.skip(m - 2)[1] == kept@[m - 1]);
            let a = digit_of(kept@[m - 2]);
            let b = digit_of(kept@[m - 1]);
            assert(h == text_value(kept@));
            assert(h % 100 == a * 10 + b);
            assert(h == (h / 100) * 100 + a * 10 + b);
            assert(h / 10 == (h / 100) * 10 + a);
            assert(h / 10 % 10 == a);
            assert(h % 10 == b);
            assert(digit_char(a) == kept@[m - 2]);
            assert(digit_char(b) == kept@[m - 1]);
        }
        let mut out = String::new();
        if self.negative {
            out.push('-');
        }
        assert(out@ =~= sign_text(self@));
        push_natural(&mut out, &kept, m - 2);
        out.push('.');
        out.push(kept[m - 2]);
        out.push(kept[m - 1]);
        assert(out@ =~= fixed2_text(self@));
        out
    }

    /// How many digits of the fraction are left once the zeros at its end are
    /// taken away.
    fn fraction_width(&self) -> (width: usize)
        ensures
            width <= self@.scale,
            without_trailing_zeros(self@) == (Number {
                negative: self@.negative,
                units: text_value(self.digits@.take(self.digits@.len() - self@.scale + width)),
                scale: width as nat,
            }),
    {
        proof {
            use_type_invariant(self);
        }
        let n: usize = self.digits.len();
        let whole: usize = n - self.scale;
        let mut width: usize = self.scale;
        let ghost all = self.digits@;
        assert(all.take(n as int) =~= all);
        while width > 0 && self.digits[whole + width - 1] == '0'
            invariant
                width <= self.scale,
                whole + self.scale == n,
                n == all.len(),
                all == self.digits@,
                without_trailing_zeros(self@) == without_trailing_zeros(
                    Number {
                        negative: self.negative,
                        units: text_value(all.take(whole + width)),
                        scale: width as nat,
                    },
                ),
            decreases width,
        {
            proof {
                let run = all.take(whole + width);
                assert(run.last() == '0');
                assert(run.drop_last() =~= all.take(whole + width - 1));
                let v = text_value(run.drop_last());
                assert(text_value(run) == v * 10 + 0);
                assert((v * 10 + 0) / 10 == v);
                assert((v * 10 + 0) % 10 == 0);
            }
            width = width - 1;
        }
        proof {
            if width > 0 {
                let run = all.take(whole + width);
                assert(run.last() == all[whole + width - 1]);
                assert(is_digit(all[whole + width - 1]));
                let v = text_value(run.drop_last());
                let d = digit_of(run.last());
                assert(text_value(run) == v * 10 + d);
                assert((v * 10 + d) % 10 == d);
            }
        }
        width
    }

    /// The number written in full and no longer than needed.
    pub fn to_plain(&self) -> (out: String)
        ensures
            out@ == plain_text(self@),
    {
        proof {
            use_type_invariant(self);
        }
        let width = self.fraction_width();
        let whole: usize = self.digits.len() - self.scale;
        let ghost all = self.digits@;
        let ghost run = all.take(whole + width);
        proof {
            assert(all_digits(run)) by {
                assert forall|j: int| 0 <= j < run.len() implies is_digit(#[trigger] run[j]) by {
                    assert(run[j] == all[j]);
                }
            }
            lemma_text_value_split(run, whole as int);
            assert(run.take(whole as int) =~= all.take(whole as int));
            assert(run.skip(whole as int) =~= all.subrange(whole as int, whole + width));
            lemma_padded_text_of_digits(run.skip(whole as int));
        }
        let mut out = String::new();
        if self.negative {
            out.push('-');
        }
        assert(out@ =~= sign_text(self@));
        push_natural(&mut out, &self.digits, whole);
        if width > 0 {
            out.push('.');
            push_run(&mut out, &self.digits, whole, whole + width);
        }
        assert(out@ =~= plain_text(self@));
        out
    }

    /// Reads a decimal literal; `None` for any other text.
    pub fn parse(text: &str) -> (out: Option<Decimal>)
        ensures
            out is Some <==> is_literal(text@),
            out matches Some(d) ==> d@ == number_of(text@),
    {
        let cs = chars_of(text);
        Decimal::parse_chars(&cs)
    }
}

/// How a literal made of a sign, a run of digits and, after a point, another
/// run of digits is read: the two runs are its whole part and its fraction.
pub proof fn lemma_read_literal(negative: bool, whole: Seq<char>, fraction: Seq<char>)
    requires
        all_digits(whole),
        all_digits(fraction),
        whole.len() >= 1,
    ensures
        ({
            let sign = if negative {
                seq!['-']
            } else {
                Seq::<char>::empty()
            };
            let with_point = sign + whole + seq!['.'] + fraction;
            let without = sign + whole;
            &&& is_literal(with_point)
            &&& number_of(with_point) == (Number {
                negative,
                units: text_value(whole + fraction),
                scale: fraction.len(),
            })
            &&& is_literal(without)
            &&& number_of(without) == (Number { negative, units: text_value(whole), scale: 0 })
        }),
{
    let sign = if negative {
        seq!['-']
    } else {
        Seq::<char>::empty()
    };
    let with_point = sign + whole + seq!['.'] + fraction;
    let without = sign + whole;
    assert(is_digit(whole[0]));
    let body = whole + seq!['.'] + fraction;
    if negative {
        assert(with_point[0] == '-');
        assert(without[0] == '-');
        assert(with_point.drop_first() =~= body);
        assert(without.drop_first() =~= whole);
    } else {
        assert(with_point[0] == whole[0]);
        assert(without[0] == whole[0]);
        assert(with_point =~= body);
        assert(without =~= whole);
    }
    assert(unsigned_part(with_point) == body);
    assert(unsigned_part(without) == whole);
    lemma_point_index(body);
    lemma_point_index(whole);
    assert(point_index(body) == whole.len()) by {
        let at = point_index(body);
        assert(body[whole.len() as int] == '.');
        if at < whole.len() {
            assert(body[at] == whole[at]);
            assert(is_digit(whole[at]));
        }
    }
    assert(point_index(whole) == whole.len()) by {
        let at = point_index(whole);
        if at < whole.len() {
            assert(is_digit(whole[at]));
        }
    }
    assert(whole_part(body) =~= whole);
    assert(fraction_part(body) =~= fraction);
    assert(whole_part(whole) =~= whole);
    assert(fraction_part(whole) =~= Seq::<char>::empty());
    assert(whole + Seq::<char>::empty() =~= whole);
}

/// What is shown with two decimals reads back as the value in hundredths.
pub proof fn lemma_fixed2_reads_back(x: Number)
    ensures
        is_literal(fixed2_text(x)),
        number_of(fixed2_text(x)) == (Number {
            negative: x.negative,
            units: hundredths(x),
            scale: 2,
        }),
{
    let h = hundredths(x);
    let whole = nat_text(h / 100);
    let fraction = seq![digit_char(h / 10 % 10), digit_char(h % 10)];
    lemma_nat_text(h / 100);
    assert(all_digits(fraction));
    lemma_read_literal(x.negative, whole, fraction);
    lemma_text_value_concat(whole, fraction);
    lemma_text_value_pair(fraction);
    assert(pow10(0) == 1);
    assert(pow10(1) == 10);
    assert(pow10(2) == 100);
    assert(fixed2_text(x) =~= sign_text(x) + whole + seq!['.'] + fraction);
    assert(digit_of(fraction[0]) == h / 10 % 10);
    assert(digit_of(fraction[1]) == h % 10);
    assert(text_value(fraction) == (h / 10 % 10) * 10 + h % 10);
    assert(text_value(whole + fraction) == (h / 100) * 100 + text_value(fraction));
    assert(h == (h / 100) * 100 + (h / 10 % 10) * 10 + h % 10);
}

/// Taking away the zeros at the end of a fraction does not change the value.
pub proof fn lemma_without_trailing_zeros(x: Number)
    ensures
        without_trailing_zeros(x).negative == x.negative,
        without_trailing_zeros(x).scale <= x.scale,
        without_trailing_zeros(x).units * pow10(
            (x.scale - without_trailing_zeros(x).scale) as nat,
        ) == x.units,
    decreases x.scale,
{
    if x.scale > 0 && x.units % 10 == 0 {
        let y = Number { negative: x.negative, units: x.units / 10, scale: (x.scale - 1) as nat };
        lemma_without_trailing_zeros(y);
        let t = without_trailing_zeros(y);
        assert(without_trailing_zeros(x) == t);
        let p = pow10((y.scale - t.scale) as nat);
        assert(pow10((x.scale - t.scale) as nat) == 10 * p);
        assert(t.units * (10 * p) == (t.units * p) * 10) by (nonlinear_arith);
        assert(t.units * p == x.units / 10);
        assert(x.units == (x.units / 10) * 10);
    } else {
        assert(without_trailing_zeros(x) == x);
        assert(pow10(0) == 1);
        assert(x.units * 1 == x.units);
    }
}

/// What is written in full reads back as the same value: the same sign, and
/// the same number once the zeros at the end of the fraction are left out.
pub proof fn lemma_plain_reads_back(x: Number)
    ensures
        is_literal(plain_text(x)),
        number_of(plain_text(x)) == without_trailing_zeros(x),
{
    let t = without_trailing_zeros(x);
    lemma_without_trailing_zeros(x);
    let p = pow10(t.scale);
    lemma_pow10_positive(t.scale);
    let whole = nat_text(t.units / p);
    lemma_nat_text(t.units / p);
    if t.scale > 0 {
        let fraction = padded_text(t.units % p, t.scale);
        assert(t.units % p < p) by (nonlinear_arith)
            requires
                p >= 1,
        ;
        lemma_padded_text(t.units % p, t.scale);
        lemma_read_literal(x.negative, whole, fraction);
        lemma_text_value_concat(whole, fraction);
        assert(plain_text(x) =~= sign_text(x) + whole + seq!['.'] + fraction);
        assert(t.units == (t.units / p) * p + t.units % p) by (nonlinear_arith)
            requires
                p >= 1,
        ;
        assert(text_value(whole + fraction) == t.units);
        assert(t.negative == x.negative);
    } else {
        lemma_read_literal(x.negative, whole, Seq::<char>::empty());
        assert(plain_text(x) =~= sign_text(x) + whole);
        assert(pow10(0) == 1);
        assert(t.units / 1 == t.units);
    }
}

} // verus!
