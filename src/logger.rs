//! The fields that a leveled log record becomes in the journal.
use vstd::prelude::*;
use vstd::utf8::*;
use crate::text::{decimal_bytes, decimal_digits};
use crate::writer::{field_record, frame_field};

verus! {

/// The level of a log record.
#[derive(Clone, Copy, Debug, PartialEq, Eq, Structural)]
pub enum Level {
    Error,
    Warn,
    Info,
    Debug,
    Trace,
}

/// A log record, as plain values: its level, its formatted message, and where
/// it comes from.
#[derive(Clone, Debug)]
pub struct LogRecord {
    pub level: Level,
    pub message: String,
    pub target: String,
    pub line: Option<u32>,
    pub file: Option<String>,
    pub function: Option<String>,
}

/// The syslog priority of a level: error 3, warning 4, info 6, debug 7;
/// trace has no priority of its own and is logged as debug.
pub open spec fn syslog_priority(level: Level) -> nat {
    match level {
        Level::Error => 3,
        Level::Warn => 4,
        Level::Info => 6,
        Level::Debug => 7,
        Level::Trace => 7,
    }
}

/// A field whose value is text.
pub open spec fn text_record(name: Seq<char>, value: Seq<char>) -> Seq<u8> {
    field_record(name, encode_utf8(value))
}

pub open spec fn optional_text_record(name: Seq<char>, value: Option<String>) -> Seq<Seq<u8>> {
    match value {
        Some(v) => seq![text_record(name, v@)],
        None => Seq::empty(),
    }
}

/// The fields of a log record, in this order: `PRIORITY`, `MESSAGE`,
/// `TARGET`, then `CODE_LINE`, `CODE_FILE` and `CODE_FUNCTION` where the
/// record has them.
pub open spec fn log_record_fields(record: LogRecord) -> Seq<Seq<u8>> {
    seq![
        field_record("PRIORITY"@, decimal_digits(syslog_priority(record.level))),
        text_record("MESSAGE"@, record.message@),
        text_record("TARGET"@, record.target@),
    ] + match record.line {
        Some(l) => seq![field_record("CODE_LINE"@, decimal_digits(l as nat))],
        None => Seq::empty(),
    } + optional_text_record("CODE_FILE"@, record.file) + optional_text_record(
        "CODE_FUNCTION"@,
        record.function,
    )
}

/// The syslog priority of `level`.
pub fn syslog_level(level: Level) -> (r: u64)
    ensures
        r == syslog_priority(level),
{
    match level {
        Level::Error => 3,
        Level::Warn => 4,
        Level::Info => 6,
        Level::Debug => 7,
        Level::Trace => 7,
    }
}

/// Frames a log record as journal fields.
pub fn log_record(record: &LogRecord) -> (r: Vec<Vec<u8>>)
    ensures
        r@.len() == log_record_fields(*record).len(),
        forall|i: int| 0 <= i < r@.len() ==> (#[trigger] r@[i])@ == log_record_fields(*record)[i],
{
    let mut keys: Vec<Vec<u8>> = Vec::new();
    let priority = decimal_bytes(syslog_level(record.level));
    keys.push(frame_field("PRIORITY", priority.as_slice()));
    keys.push(frame_field("MESSAGE", record.message.as_str().as_bytes()));
    keys.push(frame_field("TARGET", record.target.as_str().as_bytes()));
    let ghost head = keys@.map_values(|v: Vec<u8>| v@);
    assert(head =~= seq![
        field_record("PRIORITY"@, decimal_digits(syslog_priority(record.level))),
        text_record("MESSAGE"@, record.message@),
        text_record("TARGET"@, record.target@),
    ]);
    match record.line {
        Some(line) => {
            let digits = decimal_bytes(line as u64);
            keys.push(frame_field("CODE_LINE", digits.as_slice()));
        },
        None => {},
    }
    let ghost with_line = keys@.map_values(|v: Vec<u8>| v@);
    assert(with_line =~= head + match record.line {
        Some(l) => seq![field_record("CODE_LINE"@, decimal_digits(l as nat))],
        None => Seq::<Seq<u8>>::empty(),
    });
    match &record.file {
        Some(file) => {
            keys.push(frame_field("CODE_FILE", file.as_str().as_bytes()));
        },
        None => {},
    }
    let ghost with_file = keys@.map_values(|v: Vec<u8>| v@);
    assert(with_file =~= with_line + optional_text_record("CODE_FILE"@, record.file));
    match &record.function {
        Some(function) => {
            keys.push(frame_field("CODE_FUNCTION", function.as_str().as_bytes()));
        },
        None => {},
    }
    assert(keys@.map_values(|v: Vec<u8>| v@) =~= with_file + optional_text_record(
        "CODE_FUNCTION"@,
        record.function,
    ));
    assert forall|i: int| 0 <= i < keys@.len() implies (#[trigger] keys@[i])@ == log_record_fields(
        *record,
    )[i] by {
        assert(keys@.map_values(|v: Vec<u8>| v@)[i] == keys@[i]@);
    }
    keys
}

/// The fields of a plain message at a syslog priority: `PRIORITY`, then
/// `MESSAGE`.
pub fn message_fields(priority: u32, message: &str) -> (r: Vec<Vec<u8>>)
    ensures
        r@.len() == 2,
        r@[0]@ == field_record("PRIORITY"@, decimal_digits(priority as nat)),
        r@[1]@ == text_record("MESSAGE"@, message@),
{
    let mut keys: Vec<Vec<u8>> = Vec::new();
    let digits = decimal_bytes(priority as u64);
    keys.push(frame_field("PRIORITY", digits.as_slice()));
    keys.push(frame_field("MESSAGE", message.as_bytes()));
    keys
}

} // verus!
