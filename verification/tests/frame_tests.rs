use circuit_telemetry::{parse, CircuitState, Decimal, ParseError, Reading};

fn reading(text: &str) -> Reading {
    match parse(text) {
        Ok(reading) => reading,
        Err(_) => panic!("no frame: {text:?}"),
    }
}

fn as_float(number: &Decimal) -> f64 {
    number.to_plain().parse::<f64>().unwrap()
}

#[test]
fn measurement_example() {
    let r = reading("12.50,12.73,108.60,00:06:12");
    assert_eq!(r.circuit_state, CircuitState::On);
    assert_eq!(as_float(&r.expected_voltage), 12.50);
    assert_eq!(as_float(&r.circuit_voltage), 12.73);
    assert_eq!(as_float(&r.circuit_current), 108.60);
    assert_eq!(r.circuit_uptime, "00:06:12");
}

#[test]
fn heartbeat_example() {
    let r = reading("x,00:00:05");
    assert_eq!(r.circuit_state, CircuitState::Off);
    assert_eq!(as_float(&r.expected_voltage), 0.0);
    assert_eq!(as_float(&r.circuit_voltage), 0.0);
    assert_eq!(as_float(&r.circuit_current), 0.0);
    assert_eq!(r.expected_voltage.to_plain(), "0");
    assert_eq!(r.circuit_uptime, "00:00:05");
}

#[test]
fn bad_number_example() {
    assert!(matches!(parse("12.5,bad,108.6,00:00:01"), Err(ParseError::Malformed)));
}

#[test]
fn every_number_must_be_a_literal() {
    assert!(matches!(parse("bad,12.5,108.6,00:00:01"), Err(ParseError::Malformed)));
    assert!(matches!(parse("12.5,12.5,bad,00:00:01"), Err(ParseError::Malformed)));
    assert!(matches!(parse("12.5,,108.6,00:00:01"), Err(ParseError::Malformed)));
    assert!(parse("12.5,12.5,108.6,not a time").is_ok());
}

#[test]
fn other_field_counts_are_malformed() {
    assert!(matches!(parse(""), Err(ParseError::Malformed)));
    assert!(matches!(parse("12.5"), Err(ParseError::Malformed)));
    assert!(matches!(parse("1,2,3"), Err(ParseError::Malformed)));
    assert!(matches!(parse("1,2,3,4,5"), Err(ParseError::Malformed)));
    assert!(matches!(parse("1,2,3,00:00:01,"), Err(ParseError::Malformed)));
}

#[test]
fn white_space_around_the_line_is_dropped() {
    let r = reading("  1.5,2.5,3.5,00:00:09\r\n");
    assert_eq!(r.circuit_state, CircuitState::On);
    assert_eq!(r.circuit_current.to_plain(), "3.5");
    assert_eq!(r.circuit_uptime, "00:00:09");
    let r = reading("\tx,00:00:05 \n");
    assert_eq!(r.circuit_uptime, "00:00:05");
}

#[test]
fn white_space_inside_the_line_counts() {
    assert!(matches!(parse("1.5, 2.5,3.5,00:00:09"), Err(ParseError::Malformed)));
    let r = reading("1.5,2.5,3.5, 00:00:09");
    assert_eq!(r.circuit_uptime, " 00:00:09");
}

#[test]
fn heartbeat_fields_may_be_empty() {
    let r = reading(",");
    assert_eq!(r.circuit_state, CircuitState::Off);
    assert_eq!(r.circuit_uptime, "");
    let r = reading("anything at all,");
    assert_eq!(r.circuit_uptime, "");
}

#[test]
fn heartbeat_keeps_text_that_is_not_ascii() {
    let r = reading("x,été");
    assert_eq!(r.circuit_uptime, "été");
}

#[test]
fn field_split_agrees_with_std() {
    for text in ["", ",", "a,b", "a,,b", ",a,", "1,2,3,4", " 1,2 ", "\u{a0}x,y\u{3000}"] {
        let expected: Vec<&str> = text.trim().split(',').collect();
        let chars: Vec<char> = text.chars().collect();
        let line = circuit_telemetry::text::trim_chars(&chars);
        let fields = circuit_telemetry::text::split_chars(&line, ',');
        let got: Vec<String> = fields.iter().map(|f| f.iter().collect()).collect();
        assert_eq!(got, expected, "{text:?}");
    }
}

#[test]
fn white_space_is_what_std_calls_white_space() {
    for code in 0..=0x10ffffu32 {
        if let Some(c) = char::from_u32(code) {
            assert_eq!(circuit_telemetry::text::is_space_char(c), c.is_whitespace(), "{code:#x}");
        }
    }
}

#[test]
fn text_to_chars_and_back() {
    let chars = circuit_telemetry::text::chars_of("a,é\u{1F600}");
    assert_eq!(chars, vec!['a', ',', 'é', '\u{1F600}']);
    assert_eq!(circuit_telemetry::text::text_of(&chars), "a,é\u{1F600}");
    let mut out = String::from("x");
    circuit_telemetry::text::push_chars(&mut out, &chars);
    assert_eq!(out, "xa,é\u{1F600}");
    let mut more = vec!['z'];
    circuit_telemetry::text::append_str(&mut more, "ab");
    assert_eq!(more, vec!['z', 'a', 'b']);
}
