//! Times as the hub writes them, `YYYY-MM-DD_HH:MM:SS`, and how long ago one
//! of them was. The calendar is the Gregorian one, carried back to the year
//! zero; a time is counted in seconds from the start of that year.

use vstd::prelude::*;
use crate::digits::{
    all_digits, is_digit, is_digit_char, lemma_text_value_pair, lemma_text_value_split,
    nat_text, pow10, push_nat, text_value,
};
use crate::text::chars_of;

verus! {

/// A date and a time of day.
pub struct Moment {
    pub year: nat,
    pub month: nat,
    pub day: nat,
    pub hour: nat,
    pub minute: nat,
    pub second: nat,
}

/// Whether the year has a 29th of February.
pub open spec fn is_leap(year: nat) -> bool {
    year % 4 == 0 && (year % 100 != 0 || year % 400 == 0)
}

/// How many days the year has.
pub open spec fn days_in_year(year: nat) -> nat {
    if is_leap(year) {
        366
    } else {
        365
    }
}

/// How many days the month has in that year.
pub open spec fn days_in_month(year: nat, month: nat) -> nat {
    if month == 2 {
        if is_leap(year) {
            29
        } else {
            28
        }
    } else if month == 4 || month == 6 || month == 9 || month == 11 {
        30
    } else {
        31
    }
}

/// The days of all the years before `year`.
pub open spec fn days_before_year(year: nat) -> nat
    decreases year,
{
    if year == 0 {
        0
    } else {
        days_before_year((year - 1) as nat) + days_in_year((year - 1) as nat)
    }
}

/// The days of all the months of `year` before `month`.
pub open spec fn days_before_month(year: nat, month: nat) -> nat
    decreases month,
{
    if month <= 1 {
        0
    } else {
        days_before_month(year, (month - 1) as nat) + days_in_month(year, (month - 1) as nat)
    }
}

/// A day that the calendar has and a time that the clock shows. The second
/// may be 60, as it is in a leap second.
pub open spec fn is_moment(t: Moment) -> bool {
    &&& 1 <= t.month <= 12
    &&& 1 <= t.day <= days_in_month(t.year, t.month)
    &&& t.hour < 24
    &&& t.minute < 60
    &&& t.second <= 60
}

/// The whole days from the start of the year zero to the start of the day.
pub open spec fn days_of(t: Moment) -> nat {
    (days_before_year(t.year) + days_before_month(t.year, t.month) + t.day - 1) as nat
}

/// The seconds from the start of the year zero to the moment.
pub open spec fn seconds_of(t: Moment) -> nat {
    days_of(t) * 86400 + t.hour * 3600 + t.minute * 60 + t.second
}

/// Whether `s` has the shape `YYYY-MM-DD_HH:MM:SS`.
pub open spec fn has_stamp_shape(s: Seq<char>) -> bool {
    &&& s.len() == 19
    &&& forall|i: int|
        0 <= i < 19 && i != 4 && i != 7 && i != 10 && i != 13 && i != 16 ==> is_digit(
            #[trigger] s[i],
        )
    &&& s[4] == '-'
    &&& s[7] == '-'
    &&& s[10] == '_'
    &&& s[13] == ':'
    &&& s[16] == ':'
}

/// What a text of that shape says.
pub open spec fn moment_of(s: Seq<char>) -> Moment {
    Moment {
        year: text_value(s.subrange(0, 4)),
        month: text_value(s.subrange(5, 7)),
        day: text_value(s.subrange(8, 10)),
        hour: text_value(s.subrange(11, 13)),
        minute: text_value(s.subrange(14, 16)),
        second: text_value(s.subrange(17, 19)),
    }
}

/// Whether `s` is a time as the hub writes it.
pub open spec fn is_stamp(s: Seq<char>) -> bool {
    has_stamp_shape(s) && is_moment(moment_of(s))
}

/// How many seconds before `now` the time `then` was: known where both are
/// times as the hub writes them and `then` is not after `now`. Both are taken
/// as the local clock showed them, so an hour that the clock skipped or
/// repeated in between is counted as the clock counted it.
pub open spec fn age_of(now: Seq<char>, then: Seq<char>) -> Option<nat> {
    if is_stamp(now) && is_stamp(then) && seconds_of(moment_of(then)) <= seconds_of(
        moment_of(now),
    ) {
        Some((seconds_of(moment_of(now)) - seconds_of(moment_of(then))) as nat)
    } else {
        None
    }
}

/// An age as the status page shows it: the seconds and ` s`, or the
/// placeholder where the age is not known.
pub open spec fn age_text(age: Option<nat>) -> Seq<char> {
    match age {
        Some(seconds) => nat_text(seconds) + " s"@,
        None => "-"@,
    }
}

/// The leap years before `year`.
pub open spec fn leap_years_before(year: nat) -> nat {
    ((year + 3) / 4 - (year + 99) / 100 + (year + 399) / 400) as nat
}

/// The days before a year are 365 for each year and one more for each leap
/// year.
pub proof fn lemma_days_before_year(year: nat)
    ensures
        days_before_year(year) == 365 * year + leap_years_before(year),
        (year + 99) / 100 <= (year + 3) / 4,
    decreases year,
{
    if year > 0 {
        lemma_days_before_year((year - 1) as nat);
    }
}

/// The days before each month, for a year that is a leap year and one that is
/// not.
pub proof fn lemma_days_before_month(year: nat, month: nat)
    requires
        1 <= month <= 12,
    ensures
        days_before_month(year, month) == (if month == 1 {
            0nat
        } else if month == 2 {
            31
        } else if month == 3 {
            59
        } else if month == 4 {
            90
        } else if month == 5 {
            120
        } else if month == 6 {
            151
        } else if month == 7 {
            181
        } else if month == 8 {
            212
        } else if month == 9 {
            243
        } else if month == 10 {
            273
        } else if month == 11 {
            304
        } else {
            334
        }) + if month > 2 && is_leap(year) {
            1nat
        } else {
            0nat
        },
    decreases month,
{
    if month > 1 {
        lemma_days_before_month(year, (month - 1) as nat);
    }
}

/// `a` is not after `b` on the calendar and the clock.
pub open spec fn not_after(a: Moment, b: Moment) -> bool {
    ||| a.year < b.year
    ||| a.year == b.year && a.month < b.month
    ||| a.year == b.year && a.month == b.month && a.day < b.day
    ||| a.year == b.year && a.month == b.month && a.day == b.day && a.hour < b.hour
    ||| a.year == b.year && a.month == b.month && a.day == b.day && a.hour == b.hour && a.minute
        < b.minute
    ||| a.year == b.year && a.month == b.month && a.day == b.day && a.hour == b.hour && a.minute
        == b.minute && a.second <= b.second
}

/// The days before a year do not get fewer from a year to a later one.
proof fn lemma_years_grow(a: nat, b: nat)
    requires
        a <= b,
    ensures
        days_before_year(a) <= days_before_year(b),
    decreases b,
{
    if a < b {
        lemma_years_grow(a, (b - 1) as nat);
    }
}

/// The days before a month do not get fewer from a month to a later one.
proof fn lemma_months_grow(year: nat, a: nat, b: nat)
    requires
        a <= b,
    ensures
        days_before_month(year, a) <= days_before_month(year, b),
    decreases b,
{
    if a < b {
        lemma_months_grow(year, a, (b - 1) as nat);
    }
}

/// A time that is not after another is not counted higher: the count of
/// seconds keeps the order of the calendar and the clock. Where the later
/// time differs in more than the second, or in the second and that of the
/// earlier is below 60, it is counted strictly higher.
pub proof fn lemma_seconds_keep_order(a: Moment, b: Moment)
    requires
        is_moment(a),
        is_moment(b),
        not_after(a, b),
    ensures
        seconds_of(a) <= seconds_of(b),
        a != b && a.second < 60 ==> seconds_of(a) < seconds_of(b),
{
    if a.year < b.year {
        lemma_days_before_month(a.year, a.month);
        lemma_years_grow(a.year + 1, b.year);
        assert(days_before_year(a.year + 1) == days_before_year(a.year) + days_in_year(a.year));
        assert(days_of(a) + 1 <= days_before_year(a.year + 1));
        assert(days_of(a) + 1 <= days_of(b));
    } else if a.month < b.month {
        lemma_months_grow(a.year, a.month + 1, b.month);
        assert(days_before_month(a.year, a.month + 1) == days_before_month(a.year, a.month)
            + days_in_month(a.year, a.month));
        assert(days_of(a) + 1 <= days_of(b));
    } else if a.day < b.day {
        assert(days_of(a) + 1 <= days_of(b));
    } else {
        assert(days_of(a) == days_of(b));
    }
}

/// A time is no seconds before itself.
pub proof fn lemma_no_age_at_once(now: Seq<char>)
    requires
        is_stamp(now),
    ensures
        age_of(now, now) == Some(0nat),
{
}

/// A date and a time of day that the calendar and the clock have.
#[derive(Clone, Copy, Debug)]
pub struct Timestamp {
    year: u16,
    month: u8,
    day: u8,
    hour: u8,
    minute: u8,
    second: u8,
}

impl View for Timestamp {
    type V = Moment;

    closed spec fn view(&self) -> Moment {
        Moment {
            year: self.year as nat,
            month: self.month as nat,
            day: self.day as nat,
            hour: self.hour as nat,
            minute: self.minute as nat,
            second: self.second as nat,
        }
    }
}

/// The number that the two digits at `at` and after it stand for.
fn two_digits(cs: &Vec<char>, at: usize) -> (out: u8)
    requires
        at + 2 <= cs.len(),
        is_digit(cs@[at as int]),
        is_digit(cs@[at + 1]),
    ensures
        out == text_value(cs@.subrange(at as int, at + 2)),
        out <= 99,
{
    let high: u32 = cs[at] as u32 - 48;
    let low: u32 = cs[at + 1] as u32 - 48;
    proof {
        let pair = cs@.subrange(at as int, at + 2);
        lemma_text_value_pair(pair);
        assert(pair[0] == cs@[at as int] && pair[1] == cs@[at + 1]);
    }
    (high * 10 + low) as u8
}

fn leap(year: u16) -> (out: bool)
    ensures
        out == is_leap(year as nat),
{
    year % 4 == 0 && (year % 100 != 0 || year % 400 == 0)
}

fn month_length(year: u16, month: u8) -> (out: u8)
    ensures
        out == days_in_month(year as nat, month as nat),
{
    if month == 2 {
        if leap(year) {
            29
        } else {
            28
        }
    } else if month == 4 || month == 6 || month == 9 || month == 11 {
        30
    } else {
        31
    }
}

impl Timestamp {
    #[verifier::type_invariant]
    spec fn valid(self) -> bool {
        is_moment(self@) && self.year <= 9999
    }

    /// Reads a time as the hub writes it; `None` for any other text.
    pub fn parse(text: &str) -> (out: Option<Timestamp>)
        ensures
            out is Some <==> is_stamp(text@),
            out matches Some(t) ==> t@ == moment_of(text@),
    {
        let cs = chars_of(text);
        if cs.len() != 19 {
            return None;
        }
        let mut i: usize = 0;
        while i < 19
            invariant
                i <= 19,
                cs@.len() == 19,
                cs@ == text@,
                forall|k: int|
                    0 <= k < i && k != 4 && k != 7 && k != 10 && k != 13 && k != 16 ==> is_digit(
                        #[trigger] cs@[k],
                    ),
                4 < i ==> cs@[4] == '-',
                7 < i ==> cs@[7] == '-',
                10 < i ==> cs@[10] == '_',
                13 < i ==> cs@[13] == ':',
                16 < i ==> cs@[16] == ':',
            decreases 19 - i,
        {
            let c = cs[i];
            let fits = if i == 4 || i == 7 {
                c == '-'
            } else if i == 10 {
                c == '_'
            } else if i == 13 || i == 16 {
                c == ':'
            } else {
                is_digit_char(c)
            };
            if !fits {
                assert(!has_stamp_shape(cs@)) by {
                    if i != 4 && i != 7 && i != 10 && i != 13 && i != 16 {
                        assert(!is_digit(cs@[i as int]));
                    }
                }
                return None;
            }
            i = i + 1;
        }
        assert(has_stamp_shape(cs@));
        let century: u16 = two_digits(&cs, 0) as u16;
        let years: u16 = two_digits(&cs, 2) as u16;
        proof {
            let four = cs@.subrange(0, 4);
            assert(all_digits(four)) by {
                assert forall|k: int| 0 <= k < four.len() implies is_digit(#[trigger] four[k]) by {
                    assert(four[k] == cs@[k]);
                }
            }
            lemma_text_value_split(four, 2);
            assert(four.take(2) =~= cs@.subrange(0, 2));
            assert(four.skip(2) =~= cs@.subrange(2, 4));
            assert(pow10(0) == 1);
            assert(pow10(1) == 10);
            assert(pow10(2) == 100);
        }
        let year: u16 = century * 100 + years;
        let month = two_digits(&cs, 5);
        let day = two_digits(&cs, 8);
        let hour = two_digits(&cs, 11);
        let minute = two_digits(&cs, 14);
        let second = two_digits(&cs, 17);
        if month < 1 || month > 12 || day < 1 || day > month_length(year, month) || hour > 23
            || minute > 59 || second > 60 {
            return None;
        }
        Some(Timestamp { year, month, day, hour, minute, second })
    }

    /// The seconds from the start of the year zero to this time.
    pub fn seconds(&self) -> (out: u64)
        ensures
            out == seconds_of(self@),
    {
        proof {
            use_type_invariant(self);
            lemma_days_before_year(self.year as nat);
            lemma_days_before_month(self.year as nat, self.month as nat);
        }
        let year: u64 = self.year as u64;
        let leaps: u64 = (year + 3) / 4 - (year + 99) / 100 + (year + 399) / 400;
        let before_year: u64 = 365 * year + leaps;
        let month = self.month;
        let mut before_month: u64 = if month == 1 {
            0
        } else if month == 2 {
            31
        } else if month == 3 {
            59
        } else if month == 4 {
            90
        } else if month == 5 {
            120
        } else if month == 6 {
            151
        } else if month == 7 {
            181
        } else if month == 8 {
            212
        } else if month == 9 {
            243
        } else if month == 10 {
            273
        } else if month == 11 {
            304
        } else {
            334
        };
        if month > 2 && leap(self.year) {
            before_month = before_month + 1;
        }
        let days: u64 = before_year + before_month + (self.day as u64 - 1);
        days * 86400 + self.hour as u64 * 3600 + self.minute as u64 * 60 + self.second as u64
    }
}

/// How many seconds before `now` the time `then` was, where that is known.
pub fn age_seconds(now: &str, then: &str) -> (age: Option<u64>)
    ensures
        age matches Some(seconds) ==> age_of(now@, then@) == Some(seconds as nat),
        age is None ==> age_of(now@, then@) is None,
{
    let now_at = match Timestamp::parse(now) {
        Some(t) => t.seconds(),
        None => { return None; },
    };
    let then_at = match Timestamp::parse(then) {
        Some(t) => t.seconds(),
        None => { return None; },
    };
    if then_at <= now_at {
        Some(now_at - then_at)
    } else {
        None
    }
}

/// Appends an age as the status page shows it.
pub fn push_age(out: &mut String, age: Option<u64>)
    ensures
        final(out)@ == old(out)@ + age_text(
            match age {
                Some(seconds) => Some(seconds as nat),
                None => None,
            },
        ),
{
    match age {
        Some(seconds) => {
            push_nat(out, seconds);
            vstd::string::StringExecFns::append(out, " s");
            assert(out@ =~= old(out)@ + (nat_text(seconds as nat) + " s"@));
        },
        None => {
            vstd::string::StringExecFns::append(out, "-");
        },
    }
}

} // verus!
