use journald::entry::is_valid_field_name;
use journald::{JournalEntry, JournalEntryTimestamp};

fn field(entry: &JournalEntry, name: &str) -> Option<Vec<u8>> {
    entry.get_field_binary(name).map(|v| v.to_vec())
}

#[test]
fn new_entry_has_no_fields() {
    let entry = JournalEntry::new();
    assert!(entry.get_fields().is_empty());
    assert_eq!(entry.get_message(), None);
    assert_eq!(entry.get_wallclock_time(), None);
}

#[test]
fn set_message_then_get_message() {
    let mut entry = JournalEntry::new();
    entry.set_message("rust-systemd test 1");
    assert_eq!(entry.get_message(), Some("rust-systemd test 1".to_string()));
    assert_eq!(field(&entry, "MESSAGE"), Some(b"rust-systemd test 1".to_vec()));
}

#[test]
fn set_message_replaces_earlier_message() {
    let mut entry = JournalEntry::new();
    entry.set_message("first");
    entry.set_message("second = with equals");
    assert_eq!(entry.get_fields().len(), 1);
    assert_eq!(entry.get_message(), Some("second = with equals".to_string()));
}

#[test]
fn fields_keep_unique_names() {
    let mut entry = JournalEntry::new();
    entry.set_field("A".to_string(), vec![1]);
    entry.set_field("B".to_string(), vec![2]);
    entry.set_field("A".to_string(), vec![3]);
    let fields = entry.get_fields();
    assert_eq!(fields.len(), 2);
    assert_eq!(field(&entry, "A"), Some(vec![3]));
    assert_eq!(field(&entry, "B"), Some(vec![2]));
    assert_eq!(field(&entry, "C"), None);
}

#[test]
fn from_fields_last_pair_wins() {
    let pairs = vec![
        ("X".to_string(), b"one".to_vec()),
        ("Y".to_string(), b"two".to_vec()),
        ("X".to_string(), b"three".to_vec()),
    ];
    let entry = JournalEntry::from_fields(&pairs);
    assert_eq!(entry.get_fields().len(), 2);
    assert_eq!(field(&entry, "X"), Some(b"three".to_vec()));
    assert_eq!(field(&entry, "Y"), Some(b"two".to_vec()));
}

#[test]
fn binary_values_are_kept() {
    let mut entry = JournalEntry::new();
    let payload = vec![0u8, 255, 61, 10, 0xc3];
    entry.set_field("BLOB".to_string(), payload.clone());
    assert_eq!(field(&entry, "BLOB"), Some(payload));
}

#[test]
fn field_string_reports_invalid_utf8() {
    let mut entry = JournalEntry::new();
    entry.set_field("TEXT".to_string(), "héllo".as_bytes().to_vec());
    entry.set_field("BAD".to_string(), vec![0x66, 0xff, 0x6f]);
    assert_eq!(entry.get_field_string("TEXT").unwrap(), Some("héllo"));
    assert!(entry.get_field_string("BAD").is_err());
    assert_eq!(entry.get_field_string("MISSING").unwrap(), None);
}

#[test]
fn lossy_field_replaces_invalid_bytes() {
    let mut entry = JournalEntry::new();
    entry.set_field("MESSAGE".to_string(), vec![0x66, 0xff, 0x6f]);
    assert_eq!(entry.get_field_string_lossy("MESSAGE"), Some("f\u{fffd}o".to_string()));
    assert_eq!(entry.get_message(), Some("f\u{fffd}o".to_string()));
    assert_eq!(entry.get_field_string_lossy("OTHER"), None);
}

#[test]
fn wallclock_prefers_source_time() {
    let mut entry = JournalEntry::new();
    entry.set_field("__REALTIME_TIMESTAMP".to_string(), b"1700000000000001".to_vec());
    entry.set_field("_SOURCE_REALTIME_TIMESTAMP".to_string(), b"1700000000000000".to_vec());
    assert_eq!(
        entry.get_wallclock_time(),
        Some(JournalEntryTimestamp { timestamp_us: 1700000000000000 })
    );
    assert_eq!(
        entry.get_reception_wallclock_time(),
        Some(JournalEntryTimestamp { timestamp_us: 1700000000000001 })
    );
}

#[test]
fn wallclock_falls_back_to_reception_time() {
    let mut entry = JournalEntry::new();
    entry.set_field("__REALTIME_TIMESTAMP".to_string(), b"42".to_vec());
    assert_eq!(entry.get_source_wallclock_time(), None);
    assert_eq!(entry.get_wallclock_time(), Some(JournalEntryTimestamp { timestamp_us: 42 }));
    entry.set_field("_SOURCE_REALTIME_TIMESTAMP".to_string(), b"not a number".to_vec());
    assert_eq!(entry.get_wallclock_time(), Some(JournalEntryTimestamp { timestamp_us: 42 }));
}

#[test]
fn monotonic_time_parses_signed_decimal() {
    let mut entry = JournalEntry::new();
    entry.set_field("__MONOTONIC_TIMESTAMP".to_string(), b"-17".to_vec());
    assert_eq!(entry.get_monotonic_time(), Some(JournalEntryTimestamp { timestamp_us: -17 }));
    entry.set_field("__MONOTONIC_TIMESTAMP".to_string(), b"99999999999999999999".to_vec());
    assert_eq!(entry.get_monotonic_time(), None);
}

#[test]
fn clone_keeps_fields() {
    let mut entry = JournalEntry::new();
    entry.set_message("copy me");
    entry.set_field("K".to_string(), vec![7]);
    let copy = entry.clone();
    assert_eq!(copy.get_fields(), entry.get_fields());
}

#[test]
fn field_name_validity() {
    assert!(is_valid_field_name("MESSAGE"));
    assert!(is_valid_field_name("_SOURCE_REALTIME_TIMESTAMP"));
    assert!(is_valid_field_name("CODE_LINE2"));
    assert!(!is_valid_field_name(""));
    assert!(!is_valid_field_name("2FIELD"));
    assert!(!is_valid_field_name("lower"));
    assert!(!is_valid_field_name("BAD FIELD"));
    assert!(!is_valid_field_name("A=B"));
}

#[test]
fn fields_are_listed_in_name_order() {
    let mut entry = JournalEntry::new();
    entry.set_field("_PID".to_string(), b"1".to_vec());
    entry.set_message("m");
    entry.set_field("ZED".to_string(), b"z".to_vec());
    entry.set_field("A".to_string(), b"a".to_vec());
    entry.set_field("AB".to_string(), b"ab".to_vec());
    entry.set_field("B9".to_string(), b"b".to_vec());
    let names: Vec<&str> = entry.get_fields().iter().map(|(k, _)| k.as_str()).collect();
    assert_eq!(names, vec!["A", "AB", "B9", "MESSAGE", "ZED", "_PID"]);
}

#[test]
fn default_entry_is_empty() {
    let entry = JournalEntry::default();
    assert!(entry.get_fields().is_empty());
    assert_eq!(entry.get_field_binary("MESSAGE"), None);
}
