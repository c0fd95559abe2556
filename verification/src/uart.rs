//! The serial port's settings, what the hub does with the bytes that one read
//! from the port gives, and how often it tries again to open a port that does
//! not open.

use vstd::prelude::*;
use vstd::string::StringExecFns;
use vstd::utf8::{decode_utf8, valid_utf8};
use crate::circuit_data::{snapshot_of, Circuit_Data, Snapshot};
use crate::clock::local_timestamp;
use crate::frame::{frame_fields, is_frame, parse, reading_of};
use crate::decimal::is_literal;
use crate::state_bus::{after_set, StateBus};

verus! {

/// How many bytes one read from the port takes at most.
pub const FRAME_CAPACITY: usize = 32;

/// How many seconds a read from the port may take.
pub const READ_TIMEOUT: u8 = 1;

/// What is reported of a port that does not open.
pub const UART_UNAVAILABLE: &'static str = "UART unavailable";

/// How often a port that does not open is tried again unless told otherwise.
pub const DEFAULT_REOPEN_ATTEMPTS: u8 = 5;

/// How many seconds pass before the first new try unless told otherwise.
pub const DEFAULT_REOPEN_DELAY: u8 = 1;

/// The longest time between two tries, in seconds.
pub const MAX_REOPEN_DELAY: u16 = 60;

/// Why the bytes of one read were dropped.
#[derive(Clone, Copy, Debug, PartialEq, Eq, Structural)]
pub enum FrameError {
    /// The bytes are no UTF-8 text.
    Undecodable,
    /// The text is no frame.
    Malformed,
}

/// Why the bytes `raw` are dropped, if they are.
pub open spec fn frame_error(raw: Seq<u8>) -> Option<FrameError> {
    if !valid_utf8(raw) {
        Some(FrameError::Undecodable)
    } else if !is_frame(decode_utf8(raw)) {
        Some(FrameError::Malformed)
    } else {
        None
    }
}

/// The snapshot that the frame in `raw` gives when it comes in at `now`:
/// what the frame says, received and updated at `now`.
pub open spec fn frame_snapshot(raw: Seq<u8>, now: Seq<char>) -> Snapshot {
    snapshot_of(reading_of(decode_utf8(raw)), now, now)
}

/// What the bus holds after the bytes `raw` have come in at `now`: the
/// snapshot of the frame, if the bytes are a frame; what it held before, if
/// they are not.
pub open spec fn after_ingest(before: Snapshot, raw: Seq<u8>, now: Seq<char>) -> Snapshot {
    if frame_error(raw) is None {
        after_set(before, frame_snapshot(raw, now))
    } else {
        before
    }
}

/// The error of `std::str::from_utf8`. Nothing is read from it.
#[verifier::external_type_specification]
#[verifier::external_body]
pub struct ExUtf8Error(std::str::Utf8Error);

/// `std::str::from_utf8`: there is a text exactly if the bytes are valid
/// UTF-8, and it holds the characters that the bytes encode. Assumed, not
/// proved.
pub assume_specification[ std::str::from_utf8 ](bytes: &[u8]) -> (text: Result<
    &str,
    std::str::Utf8Error,
>)
    ensures
        text is Ok <==> valid_utf8(bytes@),
        text matches Ok(s) ==> s@ == decode_utf8(bytes@),
;

/// A serial port by name, and the speed it runs at.
#[allow(non_camel_case_types)]
#[derive(Debug)]
pub struct UART_Port {
    port_name: String,
    baud_rate: u32,
}

impl UART_Port {
    /// The name of the port.
    pub closed spec fn name(&self) -> Seq<char> {
        self.port_name@
    }

    /// The speed of the port.
    pub closed spec fn baud(&self) -> u32 {
        self.baud_rate
    }

    pub fn new(port_name: &str, baud_rate: u32) -> (port: UART_Port)
        ensures
            port.name() == port_name@,
            port.baud() == baud_rate,
    {
        UART_Port { port_name: String::from_str(port_name), baud_rate }
    }

    pub fn port_name(&self) -> (name: &str)
        ensures
            name@ == self.name(),
    {
        self.port_name.as_str()
    }

    pub fn baud_rate(&self) -> (baud: u32)
        ensures
            baud == self.baud(),
    {
        self.baud_rate
    }

    /// Reads the bytes of one read, received at `now`, without touching any
    /// bus: the snapshot that they give, or why they are dropped.
    pub fn snapshot_at(raw: &[u8], now: &str) -> (out: Result<Circuit_Data, FrameError>)
        ensures
            out is Ok <==> frame_error(raw@) is None,
            out matches Ok(snapshot) ==> snapshot@ == frame_snapshot(raw@, now@),
            out matches Err(e) ==> frame_error(raw@) == Some(e),
    {
        let text = match std::str::from_utf8(raw) {
            Ok(text) => text,
            Err(_) => { return Err(FrameError::Undecodable); },
        };
        match parse(text) {
            Ok(reading) => Ok(
                Circuit_Data::from_reading(reading, String::from_str(now), String::from_str(now)),
            ),
            Err(_) => Err(FrameError::Malformed),
        }
    }

    /// Reads the bytes of one read, received now by the local clock.
    pub fn snapshot_now(raw: &[u8]) -> (out: Result<Circuit_Data, FrameError>)
        ensures
            out is Ok <==> frame_error(raw@) is None,
            out matches Ok(snapshot) ==> exists|now: Seq<char>|
                snapshot@ == frame_snapshot(raw@, now),
            out matches Err(e) ==> frame_error(raw@) == Some(e),
    {
        let now = local_timestamp();
        UART_Port::snapshot_at(raw, now.as_str())
    }

    /// Takes in the bytes of one read, received at `now`. A frame replaces
    /// the snapshot on the bus; anything else is dropped and leaves the bus
    /// as it was.
    pub fn ingest_at(bus: &mut StateBus, raw: &[u8], now: &str) -> (out: Result<(), FrameError>)
        ensures
            out is Ok <==> frame_error(raw@) is None,
            out matches Err(e) ==> frame_error(raw@) == Some(e),
            final(bus)@ == after_ingest(old(bus)@, raw@, now@),
    {
        match UART_Port::snapshot_at(raw, now) {
            Ok(snapshot) => {
                bus.set(snapshot);
                Ok(())
            },
            Err(e) => Err(e),
        }
    }

    /// Takes in the bytes of one read, received now by the local clock.
    pub fn ingest(bus: &mut StateBus, raw: &[u8]) -> (out: Result<(), FrameError>)
        ensures
            out is Ok <==> frame_error(raw@) is None,
            out matches Err(e) ==> frame_error(raw@) == Some(e),
            exists|now: Seq<char>| final(bus)@ == after_ingest(old(bus)@, raw@, now),
    {
        let now = local_timestamp();
        UART_Port::ingest_at(bus, raw, now.as_str())
    }
}

/// Bytes that are no text, a text with a number of fields other than two and
/// four, and a text of four fields with a number that is no decimal literal
/// are all dropped, and leave the bus as it was.
pub proof fn lemma_dropped_frame_leaves_bus(before: Snapshot, raw: Seq<u8>, now: Seq<char>)
    requires
        ({
            let fields = frame_fields(decode_utf8(raw));
            ||| !valid_utf8(raw)
            ||| fields.len() != 2 && fields.len() != 4
            ||| fields.len() == 4 && !(is_literal(fields[0]) && is_literal(fields[1])
                && is_literal(fields[2]))
        }),
    ensures
        frame_error(raw) is Some,
        after_ingest(before, raw, now) == before,
{
}

/// Where the port stands between tries to open it.
pub struct Retries {
    pub left: nat,
    pub delay: nat,
}

/// What to do about a port that did not open.
#[derive(Clone, Copy, Debug, PartialEq, Eq, Structural)]
pub enum ReopenStep {
    /// Try again after this many seconds.
    RetryAfter(u16),
    /// Every try has been used: the port stays closed.
    GiveUp,
}

/// The delay before the first new try: what was asked for, but no less than
/// a second and no more than the longest.
pub open spec fn first_delay(delay: u8) -> nat {
    if delay == 0 {
        1
    } else if delay <= MAX_REOPEN_DELAY {
        delay as nat
    } else {
        MAX_REOPEN_DELAY as nat
    }
}

/// The delay that follows `delay`: twice as long, up to the longest.
pub open spec fn next_delay(delay: nat) -> nat {
    if 2 * delay <= MAX_REOPEN_DELAY {
        2 * delay
    } else {
        MAX_REOPEN_DELAY as nat
    }
}

/// What to do when the port has failed to open once more.
pub open spec fn step_after_failure(r: Retries) -> ReopenStep {
    if r.left == 0 {
        ReopenStep::GiveUp
    } else {
        ReopenStep::RetryAfter(r.delay as u16)
    }
}

/// Where the port stands after it has failed to open once more.
pub open spec fn after_failure(r: Retries) -> Retries {
    if r.left == 0 {
        r
    } else {
        Retries { left: (r.left - 1) as nat, delay: next_delay(r.delay) }
    }
}

/// Where the port stands after it has failed to open `failures` times.
pub open spec fn after_failures(r: Retries, failures: nat) -> Retries
    decreases failures,
{
    if failures == 0 {
        r
    } else {
        after_failure(after_failures(r, (failures - 1) as nat))
    }
}

/// The tries that are left for a port that does not open, and the time to
/// wait before the next.
#[derive(Debug)]
pub struct Reopen {
    left: u8,
    delay: u16,
}

impl View for Reopen {
    type V = Retries;

    closed spec fn view(&self) -> Retries {
        Retries { left: self.left as nat, delay: self.delay as nat }
    }
}

impl Reopen {
    #[verifier::type_invariant]
    spec fn bounded(self) -> bool {
        1 <= self.delay <= MAX_REOPEN_DELAY
    }

    /// `attempts` new tries, the first after `delay` seconds, each later one
    /// after twice the time of the one before, up to `MAX_REOPEN_DELAY`. The
    /// first delay is at least one second and at most `MAX_REOPEN_DELAY`.
    pub fn new(attempts: u8, delay: u8) -> (out: Reopen)
        ensures
            out@ == (Retries { left: attempts as nat, delay: first_delay(delay) }),
    {
        let first: u16 = if delay == 0 {
            1
        } else if delay as u16 <= MAX_REOPEN_DELAY {
            delay as u16
        } else {
            MAX_REOPEN_DELAY
        };
        Reopen { left: attempts, delay: first }
    }

    /// What to do now that the port has failed to open.
    pub fn on_failure(&mut self) -> (step: ReopenStep)
        ensures
            step == step_after_failure(old(self)@),
            final(self)@ == after_failure(old(self)@),
    {
        proof {
            use_type_invariant(&*self);
        }
        if self.left == 0 {
            ReopenStep::GiveUp
        } else {
            let delay = self.delay;
            let next: u16 = if 2 * delay <= MAX_REOPEN_DELAY {
                2 * delay
            } else {
                MAX_REOPEN_DELAY
            };
            self.left = self.left - 1;
            self.delay = next;
            ReopenStep::RetryAfter(delay)
        }
    }
}

/// The tries are bounded: a port that was given `r.left` new tries is given
/// up at the failure after the last of them, and at every later one.
pub proof fn lemma_retries_are_bounded(r: Retries, failures: nat)
    ensures
        after_failures(r, failures).left == if failures <= r.left {
            (r.left - failures) as nat
        } else {
            0
        },
        failures >= r.left ==> step_after_failure(after_failures(r, failures))
            == ReopenStep::GiveUp,
        failures < r.left ==> step_after_failure(after_failures(r, failures)) is RetryAfter,
    decreases failures,
{
    if failures > 0 {
        lemma_retries_are_bounded(r, (failures - 1) as nat);
    }
}

/// The port backs off: the time before a try is never shorter than the time
/// before the try that came before it, never longer than the longest, and
/// twice as long as the one before until it gets there.
pub proof fn lemma_delays_grow(r: Retries, failures: nat)
    requires
        1 <= r.delay <= MAX_REOPEN_DELAY,
    ensures
        1 <= after_failures(r, failures).delay <= MAX_REOPEN_DELAY,
        after_failures(r, failures).delay <= after_failure(after_failures(r, failures)).delay,
        after_failures(r, failures).left > 0 && 2 * after_failures(r, failures).delay
            <= MAX_REOPEN_DELAY ==> after_failure(after_failures(r, failures)).delay == 2
            * after_failures(r, failures).delay,
    decreases failures,
{
    if failures > 0 {
        lemma_delays_grow(r, (failures - 1) as nat);
    }
}

} // verus!
