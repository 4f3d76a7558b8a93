use journald::logger::{log_record, message_fields, syslog_level, Level, LogRecord};

#[test]
fn levels_map_to_syslog_priorities() {
    assert_eq!(syslog_level(Level::Error), 3);
    assert_eq!(syslog_level(Level::Warn), 4);
    assert_eq!(syslog_level(Level::Info), 6);
    assert_eq!(syslog_level(Level::Debug), 7);
    assert_eq!(syslog_level(Level::Trace), 7);
}

#[test]
fn log_record_fields_in_order() {
    let record = LogRecord {
        level: Level::Warn,
        message: "disk almost full".to_string(),
        target: "app::disk".to_string(),
        line: Some(42),
        file: Some("src/disk.rs".to_string()),
        function: Some("app::disk".to_string()),
    };
    let fields = log_record(&record);
    assert_eq!(
        fields,
        vec![
            b"PRIORITY=4".to_vec(),
            b"MESSAGE=disk almost full".to_vec(),
            b"TARGET=app::disk".to_vec(),
            b"CODE_LINE=42".to_vec(),
            b"CODE_FILE=src/disk.rs".to_vec(),
            b"CODE_FUNCTION=app::disk".to_vec(),
        ]
    );
}

#[test]
fn log_record_without_location() {
    let record = LogRecord {
        level: Level::Trace,
        message: String::new(),
        target: "t".to_string(),
        line: None,
        file: None,
        function: None,
    };
    assert_eq!(
        log_record(&record),
        vec![b"PRIORITY=7".to_vec(), b"MESSAGE=".to_vec(), b"TARGET=t".to_vec()]
    );
}

#[test]
fn plain_message_fields() {
    assert_eq!(
        message_fields(5, "hello"),
        vec![b"PRIORITY=5".to_vec(), b"MESSAGE=hello".to_vec()]
    );
}
