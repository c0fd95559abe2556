use std::sync::{Arc, Mutex};

use circuit_telemetry::{parse, Circuit_Data, StateBus};

fn snapshot(k: u32) -> Circuit_Data {
    let text = format!("{k}.5,{k}.25,{k}.125,{k:08}");
    let stamp = format!("stamp {k}");
    Circuit_Data::from_reading(parse(&text).unwrap(), stamp.clone(), stamp)
}

fn is_whole(s: &Circuit_Data) -> bool {
    if s.received_timestamp == "-" {
        return s.circuit_uptime == "-" && s.insertion_timestamp == "-";
    }
    let k = s.circuit_uptime.trim_start_matches('0');
    let k = if k.is_empty() { "0" } else { k };
    s.expected_voltage.to_plain() == format!("{k}.5")
        && s.circuit_voltage.to_plain() == format!("{k}.25")
        && s.circuit_current.to_plain() == format!("{k}.125")
        && s.received_timestamp == format!("stamp {k}")
        && s.insertion_timestamp == s.received_timestamp
}

#[test]
fn a_reader_between_writers_sees_one_snapshot_whole() {
    let shared = Arc::new(Mutex::new(StateBus::new()));
    let reader = Arc::clone(&shared);
    assert!(is_whole(&reader.lock().unwrap().get()));
    for k in 0..500u32 {
        shared.lock().unwrap().set(snapshot(k));
        for _ in 0..3 {
            let copy = reader.lock().unwrap().get();
            assert!(is_whole(&copy), "{copy:?}");
            assert_eq!(copy.received_timestamp, format!("stamp {k}"));
        }
    }
    let last = shared.lock().unwrap().get();
    assert_eq!(last.received_timestamp, "stamp 499");
}
