use ddstats::calendar::{calendar_day, day_text, days_between, Timestamp, MAX_DAY, MIN_DAY};
use ddstats::database_sync::read_timestamp;
use ddstats::text::{byte_length, ends_with, same_text};

#[test]
fn byte_length_counts_utf8_bytes() {
    assert_eq!(byte_length("abc"), 3);
    assert_eq!(byte_length("héllo"), 6);
    assert_eq!(byte_length(""), 0);
}

#[test]
fn ends_with_compares_suffix_bytes() {
    assert!(ends_with("a nameless tee", "nameless tee"));
    assert!(!ends_with("nameless te", "nameless tee"));
    assert!(ends_with("anything", ""));
    assert!(!ends_with("abc", "abd"));
}

#[test]
fn same_text_is_exact() {
    assert!(same_text("(1)", "(1)"));
    assert!(!same_text("(1)", "(1) "));
    assert!(!same_text("é", "e"));
}

#[test]
fn calendar_day_numbers() {
    assert_eq!(calendar_day(1, 1, 1), Some(1));
    assert_eq!(calendar_day(1970, 1, 1), Some(719163));
    assert_eq!(calendar_day(2013, 7, 18), Some(735067));
    assert_eq!(calendar_day(2021, 5, 18), Some(737928));
    assert_eq!(calendar_day(2024, 2, 29), Some(738945));
}

#[test]
fn calendar_day_rejects_invalid_dates() {
    assert_eq!(calendar_day(2015, 2, 29), None);
    assert_eq!(calendar_day(2015, 0, 14), None);
    assert_eq!(calendar_day(2023, 4, 31), None);
    assert_eq!(calendar_day(400000, 1, 1), None);
    assert!(calendar_day(-4, 2, 29).is_some());
}

#[test]
fn day_text_formats_iso_dates() {
    assert_eq!(day_text(735067), Some("2013-07-18".to_string()));
    assert_eq!(day_text(1), Some("0001-01-01".to_string()));
    assert!(day_text(MAX_DAY).is_some());
    assert!(day_text(MIN_DAY).is_some());
    assert_eq!(day_text(MAX_DAY + 1), None);
    assert_eq!(day_text(MIN_DAY - 1), None);
}

#[test]
fn days_between_is_inclusive() {
    assert_eq!(days_between(10, 13), vec![10, 11, 12, 13]);
    assert_eq!(days_between(5, 5), vec![5]);
    assert_eq!(days_between(6, 5), Vec::<i32>::new());
}

#[test]
fn timestamps_order_by_day_second_nanosecond() {
    let a = Timestamp { day: 10, seconds: 5, nanos: 0 };
    let b = Timestamp { day: 10, seconds: 5, nanos: 1 };
    let c = Timestamp { day: 11, seconds: 0, nanos: 0 };
    assert!(b.after(&a));
    assert!(!a.after(&b));
    assert!(c.after(&b));
    assert!(!a.after(&a));
    assert_eq!(Timestamp::midnight(7), Timestamp { day: 7, seconds: 0, nanos: 0 });
}

#[test]
fn read_timestamp_reads_export_format() {
    let day = calendar_day(2020, 1, 2).unwrap();
    assert_eq!(
        read_timestamp("2020-01-02 03:04:05"),
        Some(Timestamp { day, seconds: 3 * 3600 + 4 * 60 + 5, nanos: 0 })
    );
    assert_eq!(read_timestamp("2020-01-02"), None);
    assert_eq!(read_timestamp("not a time"), None);
    assert_eq!(read_timestamp("2020-02-30 00:00:00"), None);
}

#[test]
fn day_text_writes_signed_years_outside_four_digits() {
    assert_eq!(day_text(calendar_day(5, 3, 2).unwrap()).unwrap(), "0005-03-02");
    assert_eq!(day_text(calendar_day(-1, 1, 1).unwrap()).unwrap(), "-0001-01-01");
    assert_eq!(day_text(calendar_day(10000, 12, 31).unwrap()).unwrap(), "+10000-12-31");
}

#[test]
fn day_text_reads_back_as_the_date() {
    for (y, m, d) in [(2021, 5, 8), (1, 1, 1), (999, 12, 31), (9999, 2, 28), (2024, 2, 29)] {
        let text = day_text(calendar_day(y, m, d).unwrap()).unwrap();
        assert_eq!(text.len(), 10);
        assert_eq!(
            chrono::NaiveDate::parse_from_str(&text, "%Y-%m-%d").ok(),
            chrono::NaiveDate::from_ymd_opt(y, m, d)
        );
    }
}
