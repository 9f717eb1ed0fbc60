use harness_cli::audit::short_title_in_range;
use harness_cli::cache::SqlValue;
use harness_cli::calendar::{civil_date_in_range, sqlite_datetime_in_range};
use harness_cli::genesis::genesis_time_in_range;
use harness_cli::replay::{event_timestamp, keys_sorted, JsonScalar};
use harness_cli::{rfc3339_from_unix, unix_from_sqlite_datetime};

#[test]
fn rfc3339_text_reads_back_as_its_timestamp() {
    for t in [0i64, 1, 86_399, 86_400, 951_782_400, 1_782_964_800, 253_402_300_799, 4_102_444_800_000] {
        let text = rfc3339_from_unix(t);
        assert!(sqlite_datetime_in_range(&text));
        assert_eq!(unix_from_sqlite_datetime(&text), Some(t), "{text}");
    }
}

#[test]
fn sqlite_form_reads_back_as_its_timestamp() {
    for t in [0i64, 1, 86_399, 86_400, 951_782_400, 1_782_964_800, 253_402_300_799] {
        let text = event_timestamp(&rfc3339_from_unix(t));
        assert!(!text.contains('T') && !text.ends_with('Z'), "{text}");
        assert!(sqlite_datetime_in_range(&text));
        assert_eq!(unix_from_sqlite_datetime(&text), Some(t), "{text}");
    }
    assert_eq!(event_timestamp(&rfc3339_from_unix(1_782_964_800)), "2026-07-02 04:00:00");
}

#[test]
fn datetimes_out_of_range_are_detected() {
    assert!(sqlite_datetime_in_range("2026-07-02 04:00:00"));
    assert!(sqlite_datetime_in_range("not a date"));
    assert!(!sqlite_datetime_in_range("9223372036854775807-01-01 00:00:00"));
    assert!(!sqlite_datetime_in_range("2026-01-01 9223372036854775807:00:00"));
    assert!(civil_date_in_range(2026, 7, 2));
    assert!(!civil_date_in_range(i64::MAX, 1, 1));
    assert!(!civil_date_in_range(2026, i64::MAX, 1));
}

#[test]
fn genesis_rows_with_far_timestamps_are_detected() {
    let columns = vec!["id".to_owned(), "created_at".to_owned()];
    let fine = vec![SqlValue::Text("1".to_owned()), SqlValue::Text("2026-06-01 00:00:00".to_owned())];
    assert!(genesis_time_in_range(&columns, &fine));
    let undated = vec![SqlValue::Text("1".to_owned()), SqlValue::Null];
    assert!(genesis_time_in_range(&columns, &undated));
    let far = vec![SqlValue::Text("1".to_owned()), SqlValue::Text("9999999999-01-01 00:00:00".to_owned())];
    assert!(!genesis_time_in_range(&columns, &far));
}

#[test]
fn short_titles_are_cut_only_between_characters() {
    assert!(short_title_in_range("short friction"));
    // 68 ASCII bytes then a two-byte character straddling byte 69.
    let straddling = format!("{}\u{e9}{}", "a".repeat(68), "b".repeat(10));
    assert!(!short_title_in_range(&straddling));
    let clean = format!("{}\u{e9}{}", "a".repeat(67), "b".repeat(10));
    assert!(short_title_in_range(&clean));
}

#[test]
fn payload_key_order_is_checked() {
    let sorted = vec![
        ("a".to_owned(), JsonScalar::Null),
        ("b".to_owned(), JsonScalar::Bool(true)),
    ];
    assert!(keys_sorted(&sorted));
    let unsorted = vec![
        ("b".to_owned(), JsonScalar::Null),
        ("a".to_owned(), JsonScalar::Null),
    ];
    assert!(!keys_sorted(&unsorted));
    let repeated = vec![
        ("a".to_owned(), JsonScalar::Null),
        ("a".to_owned(), JsonScalar::Null),
    ];
    assert!(!keys_sorted(&repeated));
    assert!(keys_sorted(&Vec::new()));
}
