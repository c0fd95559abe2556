use circuit_telemetry::Decimal;

fn number(text: &str) -> Decimal {
    match Decimal::parse(text) {
        Some(number) => number,
        None => panic!("no literal: {text:?}"),
    }
}

#[test]
fn literals_that_are_read() {
    for text in ["0", "7", "12.50", "5.", ".5", "+1", "-1", "-0", "+.5", "-5.", "007", "0.000",
        "123456789012345678901234567890.123456789012345678901234567890"]
    {
        assert!(Decimal::parse(text).is_some(), "{text:?}");
    }
}

#[test]
fn texts_that_are_no_literal() {
    for text in ["", ".", "+", "-", "+.", "1e3", "1E3", "inf", "-inf", "NaN", "nan", "1.2.3",
        "1..2", "--1", "+-1", "1-", "1+", " 1", "1 ", "1,5", "0x10", "1_000", "١٢"]
    {
        assert!(Decimal::parse(text).is_none(), "{text:?}");
    }
}

#[test]
fn two_decimals() {
    let cases = [
        ("0", "0.00"),
        ("3", "3.00"),
        ("2.5", "2.50"),
        ("12.50", "12.50"),
        ("108.60", "108.60"),
        ("5.", "5.00"),
        (".5", "0.50"),
        ("007.1", "7.10"),
        ("12.344", "12.34"),
        ("12.346", "12.35"),
        ("12.345678", "12.35"),
        ("0.004", "0.00"),
        ("0.006", "0.01"),
        ("9.996", "10.00"),
        ("999.999", "1000.00"),
        ("99999999999999999999.999", "100000000000000000000.00"),
        ("-1.5", "-1.50"),
        ("-0.001", "-0.00"),
        ("-0", "-0.00"),
        ("+4.2", "4.20"),
    ];
    for (text, shown) in cases {
        assert_eq!(number(text).to_fixed2(), shown, "{text:?}");
    }
}

#[test]
fn ties_go_to_the_even_digit() {
    let cases = [
        ("0.125", "0.12"),
        ("0.375", "0.38"),
        ("0.005", "0.00"),
        ("0.015", "0.02"),
        ("0.025", "0.02"),
        ("0.0250", "0.02"),
        ("0.02500001", "0.03"),
        ("9.995", "10.00"),
        ("9.985", "9.98"),
        ("1.105", "1.10"),
        ("1.115", "1.12"),
    ];
    for (text, shown) in cases {
        assert_eq!(number(text).to_fixed2(), shown, "{text:?}");
    }
}

#[test]
fn written_in_full() {
    let cases = [
        ("0", "0"),
        ("0.0", "0"),
        ("000", "0"),
        ("12.50", "12.5"),
        ("12.00", "12"),
        ("012.500", "12.5"),
        ("1.050", "1.05"),
        ("100", "100"),
        ("100.", "100"),
        (".5", "0.5"),
        (".050", "0.05"),
        ("5.", "5"),
        ("-0", "-0"),
        ("-0.0", "-0"),
        ("-3.10", "-3.1"),
        ("+3.10", "3.1"),
        ("0.001", "0.001"),
        ("123456789012345678901234567890.5", "123456789012345678901234567890.5"),
    ];
    for (text, shown) in cases {
        assert_eq!(number(text).to_plain(), shown, "{text:?}");
    }
}

#[test]
fn zero_is_zero() {
    assert_eq!(Decimal::zero().to_plain(), "0");
    assert_eq!(Decimal::zero().to_fixed2(), "0.00");
}

#[test]
fn a_copy_shows_the_same() {
    let first = number("-12.345");
    let copy = first.clone();
    assert_eq!(copy.to_plain(), "-12.345");
    assert_eq!(copy.to_fixed2(), first.to_fixed2());
}

#[test]
fn hundredths_are_shown_as_floats_are() {
    for cents in 0..30000u32 {
        let text = format!("{}.{:02}", cents / 100, cents % 100);
        let float: f64 = text.parse().unwrap();
        let decimal = number(&text);
        assert_eq!(decimal.to_fixed2(), format!("{float:.2}"), "{text}");
        assert_eq!(decimal.to_plain(), format!("{float}"), "{text}");
        let negative = format!("-{text}");
        let float: f64 = negative.parse().unwrap();
        let decimal = number(&negative);
        assert_eq!(decimal.to_fixed2(), format!("{float:.2}"), "{negative}");
        assert_eq!(decimal.to_plain(), format!("{float}"), "{negative}");
    }
}

#[test]
fn what_is_written_in_full_reads_back_as_the_same_value() {
    for text in ["0", "12.50", "-3.10", ".5", "5.", "0.001", "100", "-0"] {
        let once = number(text).to_plain();
        let twice = number(&once).to_plain();
        assert_eq!(once, twice, "{text:?}");
        assert_eq!(number(text).to_fixed2(), number(&once).to_fixed2(), "{text:?}");
    }
}

#[test]
fn whole_numbers_as_text() {
    for value in [0i64, 7, 10, 99, 100, 12345, -1, -10, -987, i64::MAX, i64::MIN] {
        let mut out = String::from("#");
        circuit_telemetry::digits::push_int(&mut out, value);
        assert_eq!(out, format!("#{value}"));
    }
    for value in [0u64, 9, 10, 1234567890, u64::MAX] {
        let mut out = String::new();
        circuit_telemetry::digits::push_nat(&mut out, value);
        assert_eq!(out, format!("{value}"));
    }
}

#[test]
fn digits_are_the_ten_ascii_digits() {
    for code in 0..=0x10ffffu32 {
        if let Some(c) = char::from_u32(code) {
            assert_eq!(circuit_telemetry::digits::is_digit_char(c), c.is_ascii_digit());
        }
    }
}

#[test]
fn every_literal_is_a_float_and_every_plain_float_is_a_literal() {
    let alphabet = ['0', '7', '.', '+', '-', 'e', ' ', 'n'];
    let mut texts = vec![String::new()];
    let mut from = 0;
    for _ in 0..5 {
        let until = texts.len();
        for i in from..until {
            for c in alphabet {
                let mut longer = texts[i].clone();
                longer.push(c);
                texts.push(longer);
            }
        }
        from = until;
    }
    assert_eq!(texts.len(), 1 + 8 + 64 + 512 + 4096 + 32768);
    for text in &texts {
        let float = text.parse::<f64>();
        let plain = !text.contains('e') && !text.contains('n');
        match Decimal::parse(text) {
            Some(decimal) => {
                assert!(plain, "{text:?}");
                let float = float.unwrap();
                let shown = decimal.to_plain();
                assert_eq!(shown.parse::<f64>().unwrap(), float, "{text:?}");
                assert_eq!(shown.starts_with('-'), float.is_sign_negative(), "{text:?}");
            },
            None => assert!(float.is_err() || !plain, "{text:?}"),
        }
    }
}
