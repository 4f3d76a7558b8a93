//! Safe, verified core of a binding to the system journal: the entry data
//! model, the framing of submitted fields, the decoding of read records, the
//! reader's configuration and wakeup classification, and the decisions of the
//! blocking follow loop.

pub mod entry;
pub mod error;
pub mod logger;
pub mod reader;
pub mod round_trip;
pub mod text;
pub mod writer;

pub use entry::{JournalEntry, JournalEntryTimestamp};
pub use error::{ffi_result, Error};
