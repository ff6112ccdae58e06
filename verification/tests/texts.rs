use fraud_score::calendar::{days_from_civil, parse_datetime};
use fraud_score::mcc::{parse_mcc, RiskTable, DEFAULT_RISK};
use fraud_score::settings::{nprobe_setting, port_setting, workers_setting};
use fraud_score::text::same_text;

#[test]
fn days_count_from_the_epoch() {
    assert_eq!(days_from_civil(1970, 1, 1), 0);
    assert_eq!(days_from_civil(1969, 12, 31), -1);
    assert_eq!(days_from_civil(2000, 2, 29), 11016);
    assert_eq!(days_from_civil(2024, 2, 29), 19782);
    assert_eq!(days_from_civil(2026, 3, 11), 20523);
    assert_eq!(days_from_civil(0, 3, 1), -719468);
    assert_eq!(days_from_civil(-1, 12, 31), -719529);
}

#[test]
fn days_far_from_the_epoch() {
    // Months and days outside the calendar go by the same formula.
    assert_eq!(days_from_civil(1970, 0, 1), -31);
    assert_eq!(days_from_civil(1970, -20, 1), -642);
    assert_eq!(days_from_civil(1970, 1, i64::MAX), i64::MAX - 1);
    assert_eq!(days_from_civil(1_000_000, 1, 1), 364_522_972);
}

#[test]
fn each_date_is_one_day_later() {
    assert_eq!(days_from_civil(2024, 3, 1), days_from_civil(2024, 2, 29) + 1);
    assert_eq!(days_from_civil(2023, 3, 1), days_from_civil(2023, 2, 28) + 1);
    assert_eq!(days_from_civil(1900, 3, 1), days_from_civil(1900, 2, 28) + 1);
    assert_eq!(days_from_civil(2024, 1, 1), days_from_civil(2023, 12, 31) + 1);
    assert_eq!(days_from_civil(2023, 5, 1), days_from_civil(2023, 4, 30) + 1);
}

#[test]
fn later_dates_have_larger_counts() {
    assert!(days_from_civil(1999, 12, 31) < days_from_civil(2000, 1, 1));
    assert!(days_from_civil(2000, 1, 31) < days_from_civil(2000, 2, 1));
    assert!(days_from_civil(-400, 6, 15) < days_from_civil(400, 6, 14));
}

#[test]
fn timestamp_is_read() {
    assert_eq!(parse_datetime("2026-03-11T20:23:35Z"), (1773260615, 20, 2));
    assert_eq!(parse_datetime("1970-01-01T00:00:00Z"), (0, 0, 3));
    assert_eq!(parse_datetime("1969-12-31T23:59:59Z"), (-1, 23, 2));
    assert_eq!(parse_datetime("2024-02-29T12:00:00"), (1709208000, 12, 3));
}

#[test]
fn weekdays_go_round_the_week() {
    let weekdays: Vec<u8> = [
        "2026-03-09T00:00:00",
        "2026-03-10T00:00:00",
        "2026-03-11T00:00:00",
        "2026-03-12T00:00:00",
        "2026-03-13T00:00:00",
        "2026-03-14T00:00:00",
        "2026-03-15T00:00:00",
        "2026-03-16T00:00:00",
    ]
    .iter()
    .map(|t| parse_datetime(t).2)
    .collect();
    assert_eq!(weekdays, vec![0, 1, 2, 3, 4, 5, 6, 0]);
}

#[test]
fn short_timestamp_gives_zeros() {
    assert_eq!(parse_datetime(""), (0, 0, 0));
    assert_eq!(parse_datetime("2026-03-11T20:23:3"), (0, 0, 0));
}

#[test]
fn separators_and_suffix_make_no_difference() {
    let plain = parse_datetime("2026-03-11T20:23:35");
    assert_eq!(parse_datetime("2026/03/11 20.23.35"), plain);
    assert_eq!(parse_datetime("2026-03-11T20:23:35.123456+02:00"), plain);
}

#[test]
fn later_moments_have_larger_epoch_seconds() {
    let a = parse_datetime("2026-03-11T20:23:35Z").0;
    let b = parse_datetime("2026-03-11T20:24:00Z").0;
    let c = parse_datetime("2026-04-01T00:00:00Z").0;
    assert_eq!(b - a, 25);
    assert!(b < c);
}

#[test]
fn digits_wrap_in_a_byte() {
    // A space is sixteen below the digit zero and reads as 240.
    assert_eq!(parse_datetime("2026-03-11T 0:23:35").1, (2400u32 % 256) as u8);
    // A colon reads as ten.
    assert_eq!(parse_datetime("2026-03-11T0::00:00").1, 10);
}

#[test]
fn category_code_is_read() {
    assert_eq!(parse_mcc("5411"), 5411);
    assert_eq!(parse_mcc("0007"), 7);
    assert_eq!(parse_mcc(""), 0);
    assert_eq!(parse_mcc("abc"), 0);
    assert_eq!(parse_mcc("12345"), 12345);
}

#[test]
fn other_characters_of_a_code_make_no_difference() {
    assert_eq!(parse_mcc("MCC 54-11"), parse_mcc("5411"));
    assert_eq!(parse_mcc("5\u{e9}4\u{4e2d}11"), 5411);
}

#[test]
fn long_code_wraps_around() {
    if usize::BITS == 64 {
        assert_eq!(parse_mcc("18446744073709551615"), usize::MAX);
        assert_eq!(parse_mcc("18446744073709551616"), 0);
        assert_eq!(parse_mcc("18446744073709557027"), 5411);
    }
}

#[test]
fn table_gives_the_risk_of_a_code() {
    let entries = vec![
        ("5411".to_string(), 0.15f32.to_bits()),
        ("7995".to_string(), 0.85f32.to_bits()),
        ("123456".to_string(), 0.99f32.to_bits()),
    ];
    let (table, count) = RiskTable::load(&entries);
    assert_eq!(count, 2);
    assert_eq!(f32::from_bits(table.risk("5411")), 0.15);
    assert_eq!(f32::from_bits(table.risk("MCC-7995")), 0.85);
    assert_eq!(f32::from_bits(table.risk("0001")), 0.5);
    assert_eq!(table.risk("123456"), DEFAULT_RISK);
    assert_eq!(table.risk("10000"), DEFAULT_RISK);
}

#[test]
fn later_entry_for_a_code_stands() {
    let entries = vec![
        ("5411".to_string(), 1u32),
        ("x5411".to_string(), 2u32),
        ("0000".to_string(), 3u32),
    ];
    let (table, count) = RiskTable::load(&entries);
    assert_eq!(count, 3);
    assert_eq!(table.risk("5411"), 2);
    assert_eq!(table.risk(""), 3);
}

#[test]
fn empty_table_has_default_risks() {
    let (table, count) = RiskTable::load(&Vec::new());
    assert_eq!(count, 0);
    assert_eq!(f32::from_bits(table.risk("9999")), 0.5);
}

#[test]
fn probe_setting_is_brought_into_range() {
    assert_eq!(nprobe_setting(None), 48);
    assert_eq!(nprobe_setting(Some("64")), 64);
    assert_eq!(nprobe_setting(Some("+7")), 7);
    assert_eq!(nprobe_setting(Some("0")), 1);
    assert_eq!(nprobe_setting(Some("8192")), 8192);
    assert_eq!(nprobe_setting(Some("9000")), 8192);
}

#[test]
fn probe_setting_that_is_no_number_is_ignored() {
    for text in ["", "+", "-1", " 5", "5 ", "1_0", "0x10", "\u{662}", "99999999999999999999"] {
        assert_eq!(nprobe_setting(Some(text)), 48);
    }
}

#[test]
fn worker_setting_is_read() {
    assert_eq!(workers_setting(None), 2);
    assert_eq!(workers_setting(Some("4")), 4);
    assert_eq!(workers_setting(Some("0")), 0);
    assert_eq!(workers_setting(Some("many")), 2);
}

#[test]
fn texts_are_compared() {
    assert!(same_text("", ""));
    assert!(same_text("MERC-001", "MERC-001"));
    assert!(!same_text("MERC-001", "MERC-002"));
    assert!(!same_text("MERC-001", "MERC-0012"));
    assert!(same_text("caf\u{e9}", "caf\u{e9}"));
}

#[test]
fn port_setting_is_read() {
    assert_eq!(port_setting(None), 8080);
    assert_eq!(port_setting(Some("3000")), 3000);
    assert_eq!(port_setting(Some("+81")), 81);
    assert_eq!(port_setting(Some("-5")), -5);
    assert_eq!(port_setting(Some("-2147483648")), i32::MIN);
    for text in ["", "-", "+", "--5", "+-5", "80 ", "http", "2147483648"] {
        assert_eq!(port_setting(Some(text)), 8080);
    }
}
