use journald::entry::parse_timestamp;
use journald::text::{decimal_bytes, parse_i64};
use journald::JournalEntryTimestamp;

#[test]
fn parse_i64_accepts_signs_and_digits() {
    assert_eq!(parse_i64("0"), Some(0));
    assert_eq!(parse_i64("1234"), Some(1234));
    assert_eq!(parse_i64("+5"), Some(5));
    assert_eq!(parse_i64("-12"), Some(-12));
    assert_eq!(parse_i64("007"), Some(7));
}

#[test]
fn parse_i64_range_edges() {
    assert_eq!(parse_i64("9223372036854775807"), Some(i64::MAX));
    assert_eq!(parse_i64("-9223372036854775808"), Some(i64::MIN));
    assert_eq!(parse_i64("9223372036854775808"), None);
    assert_eq!(parse_i64("-9223372036854775809"), None);
    assert_eq!(parse_i64("123456789012345678901234567890"), None);
}

#[test]
fn parse_i64_rejects_non_numbers() {
    assert_eq!(parse_i64(""), None);
    assert_eq!(parse_i64("-"), None);
    assert_eq!(parse_i64("+"), None);
    assert_eq!(parse_i64(" 1"), None);
    assert_eq!(parse_i64("1a"), None);
    assert_eq!(parse_i64("--1"), None);
    assert_eq!(parse_i64("١"), None);
}

#[test]
fn parse_timestamp_wraps_value() {
    assert_eq!(parse_timestamp("1700000000"), Some(JournalEntryTimestamp { timestamp_us: 1700000000 }));
    assert_eq!(parse_timestamp("x"), None);
}

#[test]
fn decimal_bytes_renders_digits() {
    assert_eq!(decimal_bytes(0), b"0".to_vec());
    assert_eq!(decimal_bytes(7), b"7".to_vec());
    assert_eq!(decimal_bytes(10), b"10".to_vec());
    assert_eq!(decimal_bytes(1234567890), b"1234567890".to_vec());
    assert_eq!(decimal_bytes(u64::MAX), b"18446744073709551615".to_vec());
}
