//! The circuit's state as the hub knows it: what one frame says, and the
//! snapshot that the consumers copy.

use vstd::prelude::*;
use vstd::string::StringExecFns;
use crate::decimal::{Decimal, Number};
use crate::text::chars_of;

verus! {

/// Whether the circuit is powered.
#[derive(Clone, Copy, Debug, PartialEq, Eq, Structural)]
pub enum CircuitState {
    On,
    Off,
}

impl CircuitState {
    /// The name under which a state is stored and shown.
    pub open spec fn label_text(self) -> Seq<char> {
        match self {
            CircuitState::On => "ON"@,
            CircuitState::Off => "OFF"@,
        }
    }

    /// The name under which the state is stored and shown.
    pub fn label(&self) -> (name: &'static str)
        ensures
            name@ == self.label_text(),
    {
        match self {
            CircuitState::On => "ON",
            CircuitState::Off => "OFF",
        }
    }

    /// The state that `name` stands for, if it is the name of one.
    pub fn from_label(name: &str) -> (state: Option<CircuitState>)
        ensures
            state == if name@ == CircuitState::On.label_text() {
                Some(CircuitState::On)
            } else if name@ == CircuitState::Off.label_text() {
                Some(CircuitState::Off)
            } else {
                None
            },
    {
        proof {
            reveal_strlit("ON");
            reveal_strlit("OFF");
        }
        let cs = chars_of(name);
        if cs.len() == 2 && cs[0] == 'O' && cs[1] == 'N' {
            assert(name@ =~= "ON"@);
            Some(CircuitState::On)
        } else if cs.len() == 3 && cs[0] == 'O' && cs[1] == 'F' && cs[2] == 'F' {
            assert(name@ =~= "OFF"@);
            Some(CircuitState::Off)
        } else {
            None
        }
    }
}

/// What stands in a text field that has no value yet.
pub open spec fn placeholder_text() -> Seq<char> {
    "-"@
}

/// Zero as a value.
pub open spec fn zero_number() -> Number {
    Number { negative: false, units: 0, scale: 0 }
}

/// What one frame says of the circuit.
#[derive(Debug)]
pub struct Reading {
    pub circuit_state: CircuitState,
    pub expected_voltage: Decimal,
    pub circuit_voltage: Decimal,
    pub circuit_current: Decimal,
    pub circuit_uptime: String,
}

/// A `Reading` as a value.
pub struct ReadingView {
    pub circuit_state: CircuitState,
    pub expected_voltage: Number,
    pub circuit_voltage: Number,
    pub circuit_current: Number,
    pub circuit_uptime: Seq<char>,
}

impl View for Reading {
    type V = ReadingView;

    open spec fn view(&self) -> ReadingView {
        ReadingView {
            circuit_state: self.circuit_state,
            expected_voltage: self.expected_voltage@,
            circuit_voltage: self.circuit_voltage@,
            circuit_current: self.circuit_current@,
            circuit_uptime: self.circuit_uptime@,
        }
    }
}

/// The current state of the circuit with the time it was received at. Until a
/// copy is stored, `insertion_timestamp` holds the time of the last update;
/// the stored copy holds the time it was stored at.
#[allow(non_camel_case_types)]
#[derive(Debug)]
pub struct Circuit_Data {
    pub circuit_state: CircuitState,
    pub expected_voltage: Decimal,
    pub circuit_voltage: Decimal,
    pub circuit_current: Decimal,
    pub circuit_uptime: String,
    pub received_timestamp: String,
    pub insertion_timestamp: String,
}

/// A `Circuit_Data` as a value.
pub struct Snapshot {
    pub circuit_state: CircuitState,
    pub expected_voltage: Number,
    pub circuit_voltage: Number,
    pub circuit_current: Number,
    pub circuit_uptime: Seq<char>,
    pub received_timestamp: Seq<char>,
    pub insertion_timestamp: Seq<char>,
}

impl View for Circuit_Data {
    type V = Snapshot;

    open spec fn view(&self) -> Snapshot {
        Snapshot {
            circuit_state: self.circuit_state,
            expected_voltage: self.expected_voltage@,
            circuit_voltage: self.circuit_voltage@,
            circuit_current: self.circuit_current@,
            circuit_uptime: self.circuit_uptime@,
            received_timestamp: self.received_timestamp@,
            insertion_timestamp: self.insertion_timestamp@,
        }
    }
}

/// The snapshot before any frame has arrived: the circuit off, every number
/// zero, every text the placeholder.
pub open spec fn initial_snapshot() -> Snapshot {
    Snapshot {
        circuit_state: CircuitState::Off,
        expected_voltage: zero_number(),
        circuit_voltage: zero_number(),
        circuit_current: zero_number(),
        circuit_uptime: placeholder_text(),
        received_timestamp: placeholder_text(),
        insertion_timestamp: placeholder_text(),
    }
}

/// The snapshot that a reading gives, received at `received` and updated at
/// `updated`.
pub open spec fn snapshot_of(reading: ReadingView, received: Seq<char>, updated: Seq<char>)
    -> Snapshot {
    Snapshot {
        circuit_state: reading.circuit_state,
        expected_voltage: reading.expected_voltage,
        circuit_voltage: reading.circuit_voltage,
        circuit_current: reading.circuit_current,
        circuit_uptime: reading.circuit_uptime,
        received_timestamp: received,
        insertion_timestamp: updated,
    }
}

/// The snapshot with another insertion time, and nothing else changed.
pub open spec fn stamped(snapshot: Snapshot, inserted: Seq<char>) -> Snapshot {
    Snapshot { insertion_timestamp: inserted, ..snapshot }
}

impl Clone for Circuit_Data {
    fn clone(&self) -> (out: Self)
        ensures
            out@ == self@,
    {
        Circuit_Data {
            circuit_state: self.circuit_state,
            expected_voltage: self.expected_voltage.clone(),
            circuit_voltage: self.circuit_voltage.clone(),
            circuit_current: self.circuit_current.clone(),
            circuit_uptime: self.circuit_uptime.clone(),
            received_timestamp: self.received_timestamp.clone(),
            insertion_timestamp: self.insertion_timestamp.clone(),
        }
    }
}

impl Circuit_Data {
    /// The snapshot before any frame has arrived.
    pub fn initial() -> (out: Circuit_Data)
        ensures
            out@ == initial_snapshot(),
    {
        Circuit_Data {
            circuit_state: CircuitState::Off,
            expected_voltage: Decimal::zero(),
            circuit_voltage: Decimal::zero(),
            circuit_current: Decimal::zero(),
            circuit_uptime: String::from_str("-"),
            received_timestamp: String::from_str("-"),
            insertion_timestamp: String::from_str("-"),
        }
    }

    /// The snapshot that `reading` gives, received at `received` and updated at
    /// `updated`.
    pub fn from_reading(reading: Reading, received: String, updated: String) -> (out: Circuit_Data)
        ensures
            out@ == snapshot_of(reading@, received@, updated@),
    {
        Circuit_Data {
            circuit_state: reading.circuit_state,
            expected_voltage: reading.expected_voltage,
            circuit_voltage: reading.circuit_voltage,
            circuit_current: reading.circuit_current,
            circuit_uptime: reading.circuit_uptime,
            received_timestamp: received,
            insertion_timestamp: updated,
        }
    }

    /// A copy with `inserted` as its insertion time.
    pub fn stamped_copy(&self, inserted: String) -> (out: Circuit_Data)
        ensures
            out@ == stamped(self@, inserted@),
    {
        Circuit_Data {
            circuit_state: self.circuit_state,
            expected_voltage: self.expected_voltage.clone(),
            circuit_voltage: self.circuit_voltage.clone(),
            circuit_current: self.circuit_current.clone(),
            circuit_uptime: self.circuit_uptime.clone(),
            received_timestamp: self.received_timestamp.clone(),
            insertion_timestamp: inserted,
        }
    }
}

} // verus!
