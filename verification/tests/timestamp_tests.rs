use circuit_telemetry::timestamp::{age_seconds, push_age, Timestamp};

fn seconds(text: &str) -> u64 {
    match Timestamp::parse(text) {
        Some(t) => t.seconds(),
        None => panic!("no time: {text:?}"),
    }
}

#[test]
fn the_count_starts_with_the_year_zero() {
    assert_eq!(seconds("0000-01-01_00:00:00"), 0);
    assert_eq!(seconds("0000-01-01_00:00:01"), 1);
    assert_eq!(seconds("0000-01-01_00:01:00"), 60);
    assert_eq!(seconds("0000-01-01_01:00:00"), 3600);
    assert_eq!(seconds("0000-01-02_00:00:00"), 86400);
    assert_eq!(seconds("0000-02-01_00:00:00"), 31 * 86400);
    assert_eq!(seconds("0000-03-01_00:00:00"), 60 * 86400);
    assert_eq!(seconds("0001-01-01_00:00:00"), 366 * 86400);
    assert_eq!(seconds("0002-01-01_00:00:00"), (366 + 365) * 86400);
}

#[test]
fn known_days() {
    let day = |text: &str| seconds(text) / 86400;
    let epoch = day("1970-01-01_00:00:00");
    assert_eq!(epoch, 719_528);
    assert_eq!(day("2000-03-01_00:00:00") - epoch, 11_017);
    assert_eq!(day("2024-02-29_00:00:00") - epoch, 19_782);
    assert_eq!(day("2024-03-01_00:00:00") - epoch, 19_783);
    assert_eq!(day("2100-03-01_00:00:00") - day("2100-02-28_00:00:00"), 1);
    assert_eq!(day("9999-12-31_23:59:59") - epoch, 2_932_896);
    assert_eq!(seconds("2024-01-02_03:04:05") - epoch * 86400, 1_704_164_645);
}

#[test]
fn every_day_follows_the_day_before() {
    let mut last = None;
    for year in [0u32, 1, 4, 99, 100, 400, 1900, 1999, 2000, 2023, 2024, 2100, 9999] {
        let leap = year % 4 == 0 && (year % 100 != 0 || year % 400 == 0);
        let mut within = None;
        for month in 1..=12u32 {
            let length = match month {
                2 => if leap { 29 } else { 28 },
                4 | 6 | 9 | 11 => 30,
                _ => 31,
            };
            for day in 1..=length {
                let at = seconds(&format!("{year:04}-{month:02}-{day:02}_00:00:00"));
                if let Some(before) = within {
                    assert_eq!(at, before + 86400, "{year}-{month}-{day}");
                }
                within = Some(at);
            }
            assert!(Timestamp::parse(&format!("{year:04}-{month:02}-{:02}_00:00:00", length + 1))
                .is_none());
        }
        if let Some(before) = last {
            assert!(within.unwrap() > before);
        }
        last = within;
    }
}

#[test]
fn texts_that_are_no_time() {
    for text in [
        "",
        "-",
        "2024-01-02 03:04:05",
        "2024-01-02T03:04:05",
        "2024-01-02_03:04:5",
        "2024-01-02_03:04:055",
        "2024-1-02_03:04:05",
        "24-01-02_03:04:05",
        "2024/01/02_03:04:05",
        "2024-01-02_03-04-05",
        "2024-00-02_03:04:05",
        "2024-13-02_03:04:05",
        "2024-01-00_03:04:05",
        "2024-01-32_03:04:05",
        "2023-02-29_03:04:05",
        "1900-02-29_03:04:05",
        "2024-04-31_03:04:05",
        "2024-01-02_24:04:05",
        "2024-01-02_03:60:05",
        "2024-01-02_03:04:61",
        "2024-01-02_03:04:0x",
        "+024-01-02_03:04:05",
        "２０２４-01-02_03:04:05",
    ] {
        assert!(Timestamp::parse(text).is_none(), "{text:?}");
    }
    assert!(Timestamp::parse("2024-02-29_23:59:60").is_some());
    assert!(Timestamp::parse("2000-02-29_00:00:00").is_some());
}

#[test]
fn how_long_ago() {
    assert_eq!(age_seconds("2024-01-02_03:04:05", "2024-01-02_03:04:05"), Some(0));
    assert_eq!(age_seconds("2024-01-02_03:04:06", "2024-01-02_03:04:05"), Some(1));
    assert_eq!(age_seconds("2024-01-02_03:05:05", "2024-01-02_03:04:05"), Some(60));
    assert_eq!(age_seconds("2024-03-01_00:00:00", "2024-02-28_00:00:00"), Some(2 * 86400));
    assert_eq!(age_seconds("2025-01-01_00:00:00", "2024-01-01_00:00:00"), Some(366 * 86400));
    assert_eq!(age_seconds("2024-01-02_03:04:04", "2024-01-02_03:04:05"), None);
    assert_eq!(age_seconds("2024-01-02_03:04:05", "-"), None);
    assert_eq!(age_seconds("-", "2024-01-02_03:04:05"), None);
    assert_eq!(age_seconds("", ""), None);
}

#[test]
fn an_age_as_text() {
    let mut out = String::from("age: ");
    push_age(&mut out, Some(0));
    assert_eq!(out, "age: 0 s");
    let mut out = String::new();
    push_age(&mut out, Some(u64::MAX));
    assert_eq!(out, "18446744073709551615 s");
    let mut out = String::from("age: ");
    push_age(&mut out, None);
    assert_eq!(out, "age: -");
}
