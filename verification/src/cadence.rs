//! When a consumer that runs on a timer is due. Time is cut into periods of
//! equal length, counted from the start of the consumer; the consumer runs
//! once in each period in which it asks, the first time it asks.

use vstd::prelude::*;
use vstd::arithmetic::div_mod::{lemma_div_is_ordered, lemma_fundamental_div_mod_converse};

verus! {

/// Why a component cannot start with the settings it was given.
#[derive(Clone, Copy, Debug, PartialEq, Eq, Structural)]
pub enum ConfigError {
    /// The display has neither two rows nor four.
    UnsupportedGeometry,
    /// A period of zero seconds.
    InvalidInterval,
}

/// A period of at least one second.
#[derive(Clone, Copy, Debug)]
pub struct Interval {
    seconds: u8,
}

impl Interval {
    #[verifier::type_invariant]
    spec fn positive(self) -> bool {
        self.seconds >= 1
    }

    /// The length of the period in seconds.
    pub closed spec fn secs(self) -> u8 {
        self.seconds
    }

    /// A period of `seconds` seconds. Zero is refused.
    pub fn new(seconds: u8) -> (out: Result<Interval, ConfigError>)
        ensures
            out is Ok <==> seconds >= 1,
            out matches Ok(interval) ==> interval.secs() == seconds,
            out matches Err(e) ==> e == ConfigError::InvalidInterval,
    {
        if seconds >= 1 {
            Ok(Interval { seconds })
        } else {
            Err(ConfigError::InvalidInterval)
        }
    }

    pub fn seconds(&self) -> (seconds: u8)
        ensures
            seconds == self.secs(),
            seconds >= 1,
    {
        proof {
            use_type_invariant(self);
        }
        self.seconds
    }
}

/// What a consumer does next.
#[derive(Clone, Copy, Debug, PartialEq, Eq, Structural)]
pub enum Step {
    /// It is due: do the work now.
    Run,
    /// It has run in this period: wait this many milliseconds, until the next
    /// period starts.
    Wait(u32),
}

/// A `Cadence` as a value: the length of a period in milliseconds, and the
/// number of the period in which the consumer last ran.
pub struct Schedule {
    pub period: nat,
    pub last: Option<nat>,
}

/// The number of the period that holds the time `now`.
pub open spec fn period_at(period: nat, now: nat) -> nat {
    now / period
}

/// Whether the consumer is due at `now`: it has not run yet, or not in the
/// period that holds `now` nor in a later one.
pub open spec fn is_due(s: Schedule, now: nat) -> bool {
    match s.last {
        None => true,
        Some(last) => period_at(s.period, now) > last,
    }
}

/// The schedule after the consumer has asked at `now`.
pub open spec fn after_poll(s: Schedule, now: nat) -> Schedule {
    if is_due(s, now) {
        Schedule { period: s.period, last: Some(period_at(s.period, now)) }
    } else {
        s
    }
}

/// How long it is from `now` to the start of the next period.
pub open spec fn until_next(period: nat, now: nat) -> nat {
    (period - now % period) as nat
}

/// The answer to a consumer that asks at `now`.
pub open spec fn step_at(s: Schedule, now: nat) -> Step {
    if is_due(s, now) {
        Step::Run
    } else {
        Step::Wait(until_next(s.period, now) as u32)
    }
}

/// The schedule after the consumer has asked at each of the times `polls`, in
/// order.
pub open spec fn after_polls(s: Schedule, polls: Seq<nat>) -> Schedule
    decreases polls.len(),
{
    if polls.len() == 0 {
        s
    } else {
        after_poll(after_polls(s, polls.drop_last()), polls.last())
    }
}

/// How often the consumer has run when it has asked at each of the times
/// `polls`, in order.
pub open spec fn runs(s: Schedule, polls: Seq<nat>) -> nat
    decreases polls.len(),
{
    if polls.len() == 0 {
        0
    } else {
        let before = runs(s, polls.drop_last());
        if is_due(after_polls(s, polls.drop_last()), polls.last()) {
            before + 1
        } else {
            before
        }
    }
}

/// A schedule on which nothing has run yet.
pub open spec fn fresh(period: nat) -> Schedule {
    Schedule { period, last: None }
}

/// The times do not go back.
pub open spec fn in_order(polls: Seq<nat>) -> bool {
    forall|i: int, j: int| 0 <= i <= j < polls.len() ==> polls[i] <= polls[j]
}

/// The first time lies in the first period, and from each time to the next it
/// is no longer than one period.
pub open spec fn without_gap(period: nat, polls: Seq<nat>) -> bool {
    &&& polls.len() > 0 ==> polls[0] < period
    &&& forall|i: int| 1 <= i < polls.len() ==> #[trigger] polls[i] <= polls[i - 1] + period
}

/// The timer of one consumer.
#[derive(Debug)]
pub struct Cadence {
    period: u32,
    last: Option<u64>,
}

impl View for Cadence {
    type V = Schedule;

    closed spec fn view(&self) -> Schedule {
        Schedule {
            period: self.period as nat,
            last: match self.last {
                None => None,
                Some(last) => Some(last as nat),
            },
        }
    }
}

impl Cadence {
    #[verifier::type_invariant]
    spec fn positive(self) -> bool {
        self.period >= 1
    }

    /// A timer with a period of `interval`, on which nothing has run yet, so
    /// that the consumer is due at once.
    pub fn new(interval: Interval) -> (out: Cadence)
        ensures
            out@ == fresh(interval.secs() as nat * 1000),
    {
        let seconds: u32 = interval.seconds() as u32;
        Cadence { period: seconds * 1000, last: None }
    }

    /// Asks at `now`, in milliseconds since the consumer started, what to do
    /// next.
    pub fn poll(&mut self, now: u64) -> (step: Step)
        ensures
            step == step_at(old(self)@, now as nat),
            final(self)@ == after_poll(old(self)@, now as nat),
    {
        proof {
            use_type_invariant(&*self);
        }
        let period: u64 = self.period as u64;
        let index: u64 = now / period;
        let due = match self.last {
            None => true,
            Some(last) => index > last,
        };
        if due {
            self.last = Some(index);
            Step::Run
        } else {
            let wait: u64 = period - now % period;
            Step::Wait(wait as u32)
        }
    }
}

/// After the consumer has asked at times that do not go back, it has last run
/// in the period that holds the last of them.
proof fn lemma_last_period(period: nat, polls: Seq<nat>)
    requires
        period >= 1,
        in_order(polls),
        polls.len() >= 1,
    ensures
        after_polls(fresh(period), polls).period == period,
        after_polls(fresh(period), polls).last == Some(period_at(period, polls.last())),
    decreases polls.len(),
{
    let before = polls.drop_last();
    if before.len() > 0 {
        assert(in_order(before)) by {
            assert forall|i: int, j: int| 0 <= i <= j < before.len() implies before[i]
                <= before[j] by {
                assert(before[i] == polls[i] && before[j] == polls[j]);
            }
        }
        lemma_last_period(period, before);
        assert(before.last() == polls[polls.len() - 2]);
        assert(polls[polls.len() - 2] <= polls[polls.len() - 1]);
        lemma_div_is_ordered(before.last() as int, polls.last() as int, period as int);
    } else {
        assert(after_polls(fresh(period), before) == fresh(period));
    }
}

/// A consumer never runs more than once in a period: by the time `t` of its
/// last question it has run at most `t / period + 1` times, however often it
/// has asked.
pub proof fn lemma_at_most_one_run_per_period(period: nat, polls: Seq<nat>)
    requires
        period >= 1,
        in_order(polls),
        polls.len() >= 1,
    ensures
        runs(fresh(period), polls) <= polls.last() / period + 1,
    decreases polls.len(),
{
    let before = polls.drop_last();
    if before.len() > 0 {
        assert(in_order(before)) by {
            assert forall|i: int, j: int| 0 <= i <= j < before.len() implies before[i]
                <= before[j] by {
                assert(before[i] == polls[i] && before[j] == polls[j]);
            }
        }
        lemma_at_most_one_run_per_period(period, before);
        lemma_last_period(period, before);
        assert(before.last() == polls[polls.len() - 2]);
        assert(polls[polls.len() - 2] <= polls[polls.len() - 1]);
        lemma_div_is_ordered(before.last() as int, polls.last() as int, period as int);
    } else {
        assert(runs(fresh(period), before) == 0);
        assert(0 <= (polls.last() as int) / (period as int)) by (nonlinear_arith)
            requires
                period >= 1,
                polls.last() >= 0,
        ;
    }
}

/// A consumer that asks in the first period, and then again before a whole
/// period has gone by, each time, runs exactly once in each period: by the
/// time `t` of its last question it has run `t / period + 1` times. What is
/// on the bus, and whether it has changed, plays no part.
pub proof fn lemma_one_run_per_period(period: nat, polls: Seq<nat>)
    requires
        period >= 1,
        in_order(polls),
        without_gap(period, polls),
        polls.len() >= 1,
    ensures
        runs(fresh(period), polls) == polls.last() / period + 1,
    decreases polls.len(),
{
    let before = polls.drop_last();
    if before.len() > 0 {
        assert(in_order(before)) by {
            assert forall|i: int, j: int| 0 <= i <= j < before.len() implies before[i]
                <= before[j] by {
                assert(before[i] == polls[i] && before[j] == polls[j]);
            }
        }
        assert(without_gap(period, before)) by {
            assert(before[0] == polls[0]);
            assert forall|i: int| 1 <= i < before.len() implies #[trigger] before[i] <= before[i
                - 1] + period by {
                assert(before[i] == polls[i] && before[i - 1] == polls[i - 1]);
            }
        }
        lemma_one_run_per_period(period, before);
        lemma_last_period(period, before);
        let p = before.last();
        let q = polls.last();
        assert(p == polls[polls.len() - 2]);
        assert(p <= q) by {
            assert(polls[polls.len() - 2] <= polls[polls.len() - 1]);
        }
        assert(q <= p + period) by {
            assert(polls[polls.len() - 1] <= polls[polls.len() - 1 - 1] + period);
        }
        lemma_div_is_ordered(p as int, q as int, period as int);
        lemma_div_is_ordered(q as int, (p + period) as int, period as int);
        assert((p + period) / period == p / period + 1) by (nonlinear_arith)
            requires
                period >= 1,
                p >= 0,
        ;
    } else {
        assert(runs(fresh(period), before) == 0);
        assert(polls.last() == polls[0]);
        assert(polls[0] / period == 0) by {
            lemma_fundamental_div_mod_converse(polls[0] as int, period as int, 0, polls[0] as int);
        }
    }
}

} // verus!
