use circuit_telemetry::{
    parse, CircuitState, Circuit_Data, Decimal, FrameError, Record, StateBus, UART_Port, WebServer,
};

fn snapshot(text: &str, received: &str, updated: &str) -> Circuit_Data {
    let reading = parse(text).unwrap();
    Circuit_Data::from_reading(reading, received.to_string(), updated.to_string())
}

fn same(a: &Circuit_Data, b: &Circuit_Data) -> bool {
    a.circuit_state == b.circuit_state
        && a.expected_voltage.to_plain() == b.expected_voltage.to_plain()
        && a.circuit_voltage.to_plain() == b.circuit_voltage.to_plain()
        && a.circuit_current.to_plain() == b.circuit_current.to_plain()
        && a.circuit_uptime == b.circuit_uptime
        && a.received_timestamp == b.received_timestamp
        && a.insertion_timestamp == b.insertion_timestamp
}

#[test]
fn a_new_bus_holds_the_initial_snapshot() {
    let bus = StateBus::new();
    let s = bus.get();
    assert_eq!(s.circuit_state, CircuitState::Off);
    assert_eq!(s.expected_voltage.to_plain(), "0");
    assert_eq!(s.circuit_voltage.to_plain(), "0");
    assert_eq!(s.circuit_current.to_plain(), "0");
    assert_eq!(s.circuit_uptime, "-");
    assert_eq!(s.received_timestamp, "-");
    assert_eq!(s.insertion_timestamp, "-");
    assert!(same(&s, &Circuit_Data::initial()));
}

#[test]
fn get_after_set_gives_what_was_set() {
    let mut bus = StateBus::new();
    let s = snapshot("12.50,12.73,108.60,00:06:12", "2024-01-02_03:04:05", "2024-01-02_03:04:06");
    bus.set(s.clone());
    assert!(same(&bus.get(), &s));
    assert!(same(&bus.get(), &s));
}

#[test]
fn the_latest_set_wins() {
    let mut bus = StateBus::new();
    let first = snapshot("1,2,3,00:00:01", "a", "b");
    let second = snapshot("x,00:00:02", "c", "d");
    bus.set(first);
    bus.set(second.clone());
    assert!(same(&bus.get(), &second));
}

#[test]
fn a_copy_is_independent_of_the_bus() {
    let mut bus = StateBus::new();
    let mut copy = bus.get();
    copy.circuit_uptime = "changed".to_string();
    assert_eq!(bus.get().circuit_uptime, "-");
    bus.set(copy);
    assert_eq!(bus.get().circuit_uptime, "changed");
}

#[test]
fn a_copy_for_storage_has_the_insertion_time() {
    let mut bus = StateBus::new();
    let s = snapshot("1.5,2.5,3.5,00:00:09", "received", "updated");
    bus.set(s.clone());
    let stored = bus.copy_for_storage_at("2024-05-06_07:08:09".to_string());
    assert_eq!(stored.insertion_timestamp, "2024-05-06_07:08:09");
    assert_eq!(stored.received_timestamp, "received");
    assert_eq!(stored.circuit_uptime, "00:00:09");
    assert_eq!(stored.circuit_current.to_plain(), "3.5");
    assert!(same(&bus.get(), &s));
    let again = bus.copy_for_storage_at("2024-05-06_07:08:14".to_string());
    assert_eq!(again.insertion_timestamp, "2024-05-06_07:08:14");
    assert_eq!(again.circuit_uptime, stored.circuit_uptime);
}

fn is_timestamp(text: &str) -> bool {
    let bytes = text.as_bytes();
    bytes.len() == 19
        && bytes.iter().enumerate().all(|(i, b)| match i {
            4 | 7 => *b == b'-',
            10 => *b == b'_',
            13 | 16 => *b == b':',
            _ => b.is_ascii_digit(),
        })
}

#[test]
fn a_copy_for_storage_is_stamped_by_the_clock() {
    let bus = StateBus::new();
    let stored = bus.copy_for_storage();
    assert!(is_timestamp(&stored.insertion_timestamp), "{}", stored.insertion_timestamp);
    assert_eq!(stored.received_timestamp, "-");
    assert_eq!(bus.get().insertion_timestamp, "-");
}

#[test]
fn a_frame_replaces_the_snapshot() {
    let mut bus = StateBus::new();
    let outcome = UART_Port::ingest_at(&mut bus, b"12.50,12.73,108.60,00:06:12", "now");
    assert_eq!(outcome, Ok(()));
    let s = bus.get();
    assert_eq!(s.circuit_state, CircuitState::On);
    assert_eq!(s.expected_voltage.to_fixed2(), "12.50");
    assert_eq!(s.circuit_voltage.to_fixed2(), "12.73");
    assert_eq!(s.circuit_current.to_fixed2(), "108.60");
    assert_eq!(s.circuit_uptime, "00:06:12");
    assert_eq!(s.received_timestamp, "now");
    assert_eq!(s.insertion_timestamp, "now");
    let outcome = UART_Port::ingest_at(&mut bus, b"x,00:06:17\n", "later");
    assert_eq!(outcome, Ok(()));
    let s = bus.get();
    assert_eq!(s.circuit_state, CircuitState::Off);
    assert_eq!(s.expected_voltage.to_plain(), "0");
    assert_eq!(s.circuit_uptime, "00:06:17");
    assert_eq!(s.received_timestamp, "later");
}

#[test]
fn a_malformed_frame_leaves_the_snapshot() {
    let mut bus = StateBus::new();
    assert_eq!(UART_Port::ingest_at(&mut bus, b"1,2,3,00:00:01", "first"), Ok(()));
    let before = bus.get();
    for raw in [&b"12.5,bad,108.6,00:00:01"[..], b"", b"1,2,3", b"1,2,3,4,5", b"1e3,2,3,00:00:02"] {
        assert_eq!(UART_Port::ingest_at(&mut bus, raw, "second"), Err(FrameError::Malformed));
        assert!(same(&bus.get(), &before));
    }
}

#[test]
fn bytes_that_are_no_text_leave_the_snapshot() {
    let mut bus = StateBus::new();
    assert_eq!(UART_Port::ingest_at(&mut bus, b"1,2,3,00:00:01", "first"), Ok(()));
    let before = bus.get();
    for raw in [&[0xffu8, b',', b'1'][..], &[b'x', b',', 0xc3], &[0xe2, 0x82], &[0xc0, 0x80, b',']] {
        assert_eq!(UART_Port::ingest_at(&mut bus, raw, "second"), Err(FrameError::Undecodable));
        assert!(same(&bus.get(), &before));
    }
    let raw = "x,été".as_bytes();
    assert_eq!(UART_Port::ingest_at(&mut bus, raw, "third"), Ok(()));
    assert_eq!(bus.get().circuit_uptime, "été");
}

#[test]
fn a_frame_is_stamped_by_the_clock() {
    let mut bus = StateBus::new();
    assert_eq!(UART_Port::ingest(&mut bus, b"1,2,3,00:00:01"), Ok(()));
    let s = bus.get();
    assert!(is_timestamp(&s.received_timestamp), "{}", s.received_timestamp);
    assert_eq!(s.received_timestamp, s.insertion_timestamp);
    assert_eq!(UART_Port::ingest(&mut bus, b"nothing"), Err(FrameError::Malformed));
    assert!(same(&bus.get(), &s));
}

#[test]
fn a_frame_is_read_without_a_bus() {
    let s = UART_Port::snapshot_at(b" 1.5,2.5,3.5,00:00:09\r\n", "then").unwrap();
    assert_eq!(s.circuit_state, CircuitState::On);
    assert_eq!(s.expected_voltage.to_plain(), "1.5");
    assert_eq!(s.circuit_uptime, "00:00:09");
    assert_eq!(s.received_timestamp, "then");
    assert_eq!(s.insertion_timestamp, "then");
    assert_eq!(UART_Port::snapshot_at(b"1.5,2.5", "then").unwrap().circuit_state, CircuitState::Off);
    assert_eq!(UART_Port::snapshot_at(b"1.5", "then").unwrap_err(), FrameError::Malformed);
    assert_eq!(UART_Port::snapshot_at(&[0x80], "then").unwrap_err(), FrameError::Undecodable);
    let s = UART_Port::snapshot_now(b"x,00:00:10").unwrap();
    assert!(is_timestamp(&s.received_timestamp));
    assert_eq!(s.received_timestamp, s.insertion_timestamp);
    assert_eq!(UART_Port::snapshot_now(b"x").unwrap_err(), FrameError::Malformed);
    assert_eq!(UART_Port::snapshot_now(&[0xff]).unwrap_err(), FrameError::Undecodable);
}

#[test]
fn a_port_keeps_its_settings() {
    let port = UART_Port::new("/dev/ttyS4", 9600);
    assert_eq!(port.port_name(), "/dev/ttyS4");
    assert_eq!(port.baud_rate(), 9600);
    assert_eq!(circuit_telemetry::FRAME_CAPACITY, 32);
}

#[test]
fn state_names() {
    assert_eq!(CircuitState::On.label(), "ON");
    assert_eq!(CircuitState::Off.label(), "OFF");
    assert_eq!(CircuitState::from_label("ON"), Some(CircuitState::On));
    assert_eq!(CircuitState::from_label("OFF"), Some(CircuitState::Off));
    for name in ["", "-", "on", "off", "ONN", "OF", "OFFF", " ON", "NO"] {
        assert_eq!(CircuitState::from_label(name), None, "{name:?}");
    }
}

fn record(id: i64, text: &str, received: &str, inserted: &str) -> Record {
    Record { id, data: snapshot(text, received, inserted) }
}

#[test]
fn the_page_for_an_empty_store_shows_the_placeholder() {
    let page = WebServer::render_page_at(&Vec::new(), "2024-01-01_10:00:30");
    assert!(page.starts_with("<!DOCTYPE html>\n<html lang = \"en\">"));
    assert!(page.ends_with("\t</table>\n</body>\n</html>\n"));
    assert!(page.contains("\t\t<tr>\n\t\t\t<td>ID</td>\n\t\t\t<td>0</td>\n\t\t</tr>\n"));
    assert!(page.contains("\t\t<tr>\n\t\t\t<td>Circuit State</td>\n\t\t\t<td>-</td>\n\t\t</tr>\n"));
    assert!(page.contains("<td>Expected Voltage</td>\n\t\t\t<td>0 V</td>"));
    assert!(page.contains("<td>Circuit Voltage</td>\n\t\t\t<td>0 V</td>"));
    assert!(page.contains("<td>Circuit Current</td>\n\t\t\t<td>0 mA</td>"));
    assert!(page.contains("<td>Circuit Uptime</td>\n\t\t\t<td>-</td>"));
    assert!(page.contains("<td>Received Time</td>\n\t\t\t<td>-</td>"));
    assert!(page.contains("<td>Insertion Time</td>\n\t\t\t<td>-</td>"));
    assert!(page.contains("<td>Data Age</td>\n\t\t\t<td>-</td>"));
    assert!(page.contains("<th>Insertion Time</th>\n\t\t</tr>\n\t</table>\n</body>"));
    assert_eq!(page.matches("<tr>").count(), 11);
    assert_eq!(page.matches("<tr>").count(), page.matches("</tr>").count());
}

#[test]
fn the_page_shows_the_newest_record_and_the_history() {
    let records = vec![
        record(7, "12.50,12.73,108.60,00:06:12", "2024-01-01_10:00:10", "2024-01-01_10:00:12"),
        record(6, "x,00:06:07", "2024-01-01_10:00:05", "2024-01-01_10:00:07"),
        record(5, "12.5,12.726,108.644,00:06:02", "2024-01-01_10:00:00", "2024-01-01_10:00:02"),
    ];
    let page = WebServer::render_page_at(&records, "2024-01-01_10:01:15");
    assert!(page.contains("<td>ID</td>\n\t\t\t<td>7</td>"));
    assert!(page.contains("<td>Data Age</td>\n\t\t\t<td>65 s</td>\n\t\t</tr>\n\t</table>"));
    assert!(page.contains("<td>Circuit State</td>\n\t\t\t<td>ON</td>"));
    assert!(page.contains("<td>Expected Voltage</td>\n\t\t\t<td>12.5 V</td>"));
    assert!(page.contains("<td>Circuit Voltage</td>\n\t\t\t<td>12.73 V</td>"));
    assert!(page.contains("<td>Circuit Current</td>\n\t\t\t<td>108.6 mA</td>"));
    assert!(page.contains("<td>Circuit Uptime</td>\n\t\t\t<td>00:06:12</td>"));
    assert!(page.contains("<td>Received Time</td>\n\t\t\t<td>2024-01-01_10:00:10</td>"));
    assert!(page.contains("<td>Insertion Time</td>\n\t\t\t<td>2024-01-01_10:00:12</td>"));
    let row = |cells: [&str; 8]| {
        let mut text = String::from("\t\t<tr>\n");
        for cell in cells {
            text.push_str(&format!("\t\t\t<td>{cell}</td>\n"));
        }
        text + "\t\t</tr>\n"
    };
    let history = row(["7", "ON", "12.50 V", "12.73 V", "108.60 mA", "00:06:12",
        "2024-01-01_10:00:10", "2024-01-01_10:00:12"])
        + &row(["6", "OFF", "0.00 V", "0.00 V", "0.00 mA", "00:06:07", "2024-01-01_10:00:05",
            "2024-01-01_10:00:07"])
        + &row(["5", "ON", "12.50 V", "12.73 V", "108.64 mA", "00:06:02", "2024-01-01_10:00:00",
            "2024-01-01_10:00:02"]);
    assert!(page.contains(&(history + "\t</table>\n</body>\n</html>\n")));
    assert_eq!(page.matches("<tr>").count(), 14);
    assert_eq!(page.matches("<tr>").count(), page.matches("</tr>").count());
}

#[test]
fn the_page_writes_negative_numbers_of_records() {
    let page = WebServer::render_page_at(&vec![record(-3, "x,00:00:01", "r", "i")], "now");
    assert!(page.contains("<td>ID</td>\n\t\t\t<td>-3</td>"));
    assert!(page.contains("<td>Data Age</td>\n\t\t\t<td>-</td>"));
    assert!(page.contains("\t\t<tr>\n\t\t\t<td>-3</td>\n\t\t\t<td>OFF</td>"));
}

#[test]
fn defaults() {
    assert_eq!(circuit_telemetry::database::DEFAULT_INSERTION_DELAY, 5);
    assert_eq!(circuit_telemetry::web_server::DEFAULT_TABLE_SIZE, 30);
    let zero = Decimal::zero();
    assert_eq!(zero.to_plain(), "0");
}

#[test]
fn the_page_is_the_same_whenever_it_is_asked_for_at_the_same_time() {
    let records = vec![record(2, "1,2,3,00:00:02", "2024-01-01_10:00:00", "2024-01-01_10:00:01")];
    let once = WebServer::render_page_at(&records, "2024-01-01_10:00:05");
    let twice = WebServer::render_page_at(&records, "2024-01-01_10:00:05");
    assert_eq!(once, twice);
    assert!(once.contains("<td>Data Age</td>\n\t\t\t<td>5 s</td>"));
    let later = WebServer::render_page_at(&records, "2024-01-01_11:00:05");
    assert!(later.contains("<td>Data Age</td>\n\t\t\t<td>3605 s</td>"));
    let before = WebServer::render_page_at(&records, "2024-01-01_09:59:59");
    assert!(before.contains("<td>Data Age</td>\n\t\t\t<td>-</td>"));
}

#[test]
fn the_page_by_the_clock_shows_an_age() {
    let mut bus = StateBus::new();
    assert_eq!(UART_Port::ingest(&mut bus, b"1,2,3,00:00:01"), Ok(()));
    let stored = bus.copy_for_storage();
    let page = WebServer::render_page(&vec![Record { id: 1, data: stored }]);
    let at = page.find("<td>Data Age</td>").unwrap();
    let shown = &page[at..];
    let value = shown.split("<td>").nth(2).unwrap().split("</td>").next().unwrap();
    let seconds: u64 = value.strip_suffix(" s").unwrap().parse().unwrap();
    assert!(seconds < 3600, "{value}");
}
