use journald::reader::{
    advance_result, assemble_entry, check_no_nul, decode_record, duration_to_usec,
    validate_filter, BlockingFollow, FollowAction, FollowEvent, JournalFiles,
    JournalReaderConfig, WakeupType, EINVAL, WAIT_FOREVER,
};
use journald::writer::encode_entry;
use journald::{ffi_result, Error, JournalEntry, JournalEntryTimestamp};

fn config(files: JournalFiles, only_volatile: bool, only_local: bool) -> JournalReaderConfig {
    JournalReaderConfig {
        files,
        only_volatile,
        only_local,
        all_namespaces: false,
        include_default_namespace: false,
    }
}

#[test]
fn default_config_reads_all_files() {
    let c = JournalReaderConfig::default();
    assert_eq!(c.files, JournalFiles::All);
    assert!(!c.only_volatile && !c.only_local && !c.all_namespaces && !c.include_default_namespace);
    assert_eq!(c.open_flags(), 0);
}

#[test]
fn open_flags_combine_bits() {
    assert_eq!(config(JournalFiles::System, true, true).open_flags(), 1 | 2 | 4);
    assert_eq!(config(JournalFiles::CurrentUser, false, false).open_flags(), 8);
    assert_eq!(config(JournalFiles::All, true, false).open_flags(), 2);
    assert_eq!(config(JournalFiles::All, false, true).open_flags(), 1);
}

#[test]
fn namespace_flags_add_namespace_bits() {
    let mut c = config(JournalFiles::System, false, true);
    assert_eq!(c.namespace_flags(), 5);
    c.all_namespaces = true;
    assert_eq!(c.namespace_flags(), 5 | 32);
    c.include_default_namespace = true;
    assert_eq!(c.namespace_flags(), 5 | 32 | 64);
}

#[test]
fn filter_with_space_in_name_is_rejected() {
    assert_eq!(validate_filter("bad field!=x"), Err(Error::Validation));
    assert_eq!(validate_filter("BAD FIELD=x"), Err(Error::Validation));
}

#[test]
fn filter_validation_cases() {
    assert_eq!(validate_filter("RUST_JOURNALD_TEST=abc"), Ok(()));
    assert_eq!(validate_filter("_PID=1=2"), Ok(()));
    assert_eq!(validate_filter("EMPTY="), Ok(()));
    assert_eq!(validate_filter("=x"), Err(Error::Validation));
    assert_eq!(validate_filter("NOEQUALS"), Err(Error::Validation));
    assert_eq!(validate_filter("lower=x"), Err(Error::Validation));
    assert_eq!(validate_filter("9LIVES=x"), Err(Error::Validation));
    assert_eq!(validate_filter("A=b\0c"), Err(Error::Validation));
}

#[test]
fn nul_check() {
    assert_eq!(check_no_nul("s=abc;i=1"), Ok(()));
    assert_eq!(check_no_nul(""), Ok(()));
    assert_eq!(check_no_nul("ab\0"), Err(Error::Validation));
}

#[test]
fn decode_splits_at_first_equals() {
    assert_eq!(decode_record(b"A=b=c"), ("A".to_string(), b"b=c".to_vec()));
    assert_eq!(decode_record(b"MESSAGE="), ("MESSAGE".to_string(), Vec::new()));
    assert_eq!(decode_record(b"NOVALUE"), ("NOVALUE".to_string(), Vec::new()));
    assert_eq!(decode_record(&[b'K', b'=', 0, 255]), ("K".to_string(), vec![0, 255]));
    assert_eq!(decode_record(&[0xff, b'=', 1]), ("\u{fffd}".to_string(), vec![1]));
}

#[test]
fn assembled_entry_overrides_store_fields() {
    let records = vec![
        b"MESSAGE=hi".to_vec(),
        b"__CURSOR=forged".to_vec(),
        b"__REALTIME_TIMESTAMP=1".to_vec(),
    ];
    let entry = assemble_entry(&records, 1700000000123456, 987654, "s=abc;i=1");
    assert_eq!(entry.get_message(), Some("hi".to_string()));
    assert_eq!(entry.get_field_string("__CURSOR").unwrap(), Some("s=abc;i=1"));
    assert_eq!(entry.get_field_binary("__MONOTONIC_TIMESTAMP"), Some(&b"987654"[..]));
    assert_eq!(
        entry.get_wallclock_time(),
        Some(JournalEntryTimestamp { timestamp_us: 1700000000123456 })
    );
    assert_eq!(entry.get_monotonic_time(), Some(JournalEntryTimestamp { timestamp_us: 987654 }));
    assert_eq!(entry.get_fields().len(), 4);
}

#[test]
fn submitted_message_reads_back() {
    let text = "round = trip ünïcode";
    let mut entry = JournalEntry::new();
    entry.set_message(text);
    entry.set_field("RUST_JOURNALD_TEST".to_string(), b"filter".to_vec());
    let records = encode_entry(&entry).unwrap();
    let read = assemble_entry(&records, 1, 2, "c");
    assert_eq!(read.get_message(), Some(text.to_string()));
    assert_eq!(read.get_field_binary("RUST_JOURNALD_TEST"), Some(&b"filter"[..]));
}

#[test]
fn cursor_token_reads_back_exactly() {
    let token = "s=6f1e;i=2a;b=99;m=1f;t=5e;x=77";
    let first = assemble_entry(&vec![b"MESSAGE=m".to_vec()], 5, 6, token);
    let cursor = first.get_field_string("__CURSOR").unwrap().unwrap().to_string();
    assert_eq!(cursor, token);
    let again = assemble_entry(&vec![b"MESSAGE=m".to_vec()], 5, 6, &cursor);
    assert_eq!(again.get_fields(), first.get_fields());
}

#[test]
fn advance_status() {
    assert_eq!(advance_result(1), Ok(true));
    assert_eq!(advance_result(0), Ok(false));
    assert_eq!(advance_result(-2), Err(Error::Io { code: 2 }));
}

#[test]
fn ffi_result_negates_errors() {
    assert_eq!(ffi_result(0), Ok(0));
    assert_eq!(ffi_result(17), Ok(17));
    assert_eq!(ffi_result(-13), Err(Error::Io { code: 13 }));
    assert_eq!(ffi_result(i32::MIN), Err(Error::Io { code: 2147483648 }));
}

#[test]
fn wakeup_classification() {
    assert_eq!(WakeupType::try_from(0), Ok(WakeupType::NOP));
    assert_eq!(WakeupType::try_from(1), Ok(WakeupType::APPEND));
    assert_eq!(WakeupType::try_from(2), Ok(WakeupType::INVALIDATE));
    assert_eq!(WakeupType::try_from(3), Err(Error::Io { code: EINVAL }));
    assert_eq!(WakeupType::from_wait_status(0), Ok(WakeupType::NOP));
    assert_eq!(WakeupType::from_wait_status(-4), Err(Error::Io { code: 4 }));
}

#[test]
fn duration_conversion() {
    assert_eq!(duration_to_usec(0, 200_000_000), Ok(200_000));
    assert_eq!(duration_to_usec(1, 999), Ok(1_000_000));
    assert_eq!(duration_to_usec(18446744073709, 551_615_000), Ok(u64::MAX));
    assert_eq!(duration_to_usec(18446744073709, 551_616_000), Err(Error::Overflow));
    assert_eq!(duration_to_usec(u64::MAX, 0), Err(Error::Overflow));
}

#[test]
fn follow_loop_decisions() {
    let follow = BlockingFollow::with_timeout(1, 0).unwrap();
    assert_eq!(follow.get_timeout_us(), 1_000_000);
    let mut entry = JournalEntry::new();
    entry.set_message("x");
    match follow.step(FollowEvent::Read(Ok(Some(entry)))) {
        FollowAction::Yield(e) => assert_eq!(e.get_message(), Some("x".to_string())),
        _ => panic!("expected an entry"),
    }
    assert!(matches!(follow.step(FollowEvent::Read(Ok(None))), FollowAction::Wait(1_000_000)));
    assert!(matches!(
        follow.step(FollowEvent::Read(Err(Error::Io { code: 5 }))),
        FollowAction::Fail(Error::Io { code: 5 })
    ));
    assert!(matches!(follow.step(FollowEvent::Woke(Ok(WakeupType::NOP))), FollowAction::Stop));
    assert!(matches!(follow.step(FollowEvent::Woke(Ok(WakeupType::APPEND))), FollowAction::ReadNext));
    assert!(matches!(
        follow.step(FollowEvent::Woke(Ok(WakeupType::INVALIDATE))),
        FollowAction::ReadNext
    ));
    assert!(matches!(
        follow.step(FollowEvent::Woke(Err(Error::Io { code: 1 }))),
        FollowAction::Fail(Error::Io { code: 1 })
    ));
}

#[test]
fn follow_timeout_settings() {
    let mut follow = BlockingFollow::new();
    assert_eq!(follow.get_timeout_us(), WAIT_FOREVER);
    assert_eq!(follow.set_timeout(0, 200_000_000), Ok(()));
    assert_eq!(follow.get_timeout_us(), 200_000);
    assert_eq!(follow.set_timeout(u64::MAX, 0), Err(Error::Overflow));
    assert_eq!(follow.get_timeout_us(), 200_000);
    assert!(BlockingFollow::with_timeout(u64::MAX, 0).is_err());
}
