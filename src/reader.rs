//! The reader's logic: open flags, validation of what is handed to the
//! journal, decoding of the records read at the cursor into an entry, status
//! classification, and the decisions of the blocking follow loop. The calls
//! into the journal itself are made by the binding around this library.
use vstd::prelude::*;
use vstd::slice::slice_to_vec;
use vstd::utf8::*;
use crate::entry::{
    cursor_name, monotonic_name, realtime_name, valid_field_name, name_char,
    JournalEntry,
};
use crate::error::{ffi_result, Error};
use crate::text::{decimal_bytes, decimal_digits, lossy_text, utf8_lossy};

verus! {

/// Only files generated on the local machine.
pub const SD_JOURNAL_LOCAL_ONLY: i32 = 1;

/// Only volatile files, not those on persistent storage.
pub const SD_JOURNAL_RUNTIME_ONLY: i32 = 2;

/// The system-wide journal.
pub const SD_JOURNAL_SYSTEM: i32 = 4;

/// The current user's journal.
pub const SD_JOURNAL_CURRENT_USER: i32 = 8;

/// All namespaces, not just the default or the named one.
pub const SD_JOURNAL_ALL_NAMESPACES: i32 = 32;

/// The default namespace in addition to the named one.
pub const SD_JOURNAL_INCLUDE_DEFAULT_NAMESPACE: i32 = 64;

/// The errno for an invalid argument.
pub const EINVAL: i64 = 22;

/// Represents the set of journal files to read.
#[derive(Clone, Copy, Debug, PartialEq, Eq, Structural)]
pub enum JournalFiles {
    /// The system-wide journal.
    System,
    /// The current user's journal.
    CurrentUser,
    /// Both the system-wide journal and the current user's journal.
    All,
}

/// What a reader attaches to; fixed when it is opened.
#[derive(Clone, Copy, Debug, PartialEq, Eq, Structural)]
pub struct JournalReaderConfig {
    /// Set of journal files to read.
    pub files: JournalFiles,
    /// Open only volatile journal files, excluding those on persistent
    /// storage.
    pub only_volatile: bool,
    /// Open only journal files generated on the local machine.
    pub only_local: bool,
    /// Read from all namespaces; applies to a namespaced open only.
    pub all_namespaces: bool,
    /// Read from the named namespace and the default one; applies to a
    /// namespaced open only.
    pub include_default_namespace: bool,
}

impl Default for JournalReaderConfig {
    fn default() -> (r: JournalReaderConfig)
        ensures
            r == (JournalReaderConfig {
                files: JournalFiles::All,
                only_volatile: false,
                only_local: false,
                all_namespaces: false,
                include_default_namespace: false,
            }),
    {
        JournalReaderConfig {
            files: JournalFiles::All,
            only_volatile: false,
            only_local: false,
            all_namespaces: false,
            include_default_namespace: false,
        }
    }
}

/// Seeking position in the journal.
#[derive(Clone, Debug)]
pub enum JournalSeek {
    /// Before the first record.
    Head,
    /// After the last record.
    Tail,
    /// The record that a `__CURSOR` token names.
    Cursor(String),
}

/// Why a wait on the journal returned.
#[derive(Clone, Copy, Debug, PartialEq, Eq, Structural)]
pub enum WakeupType {
    /// Nothing happened before the timeout.
    NOP,
    /// Records were appended.
    APPEND,
    /// Files were added, removed or rotated.
    INVALIDATE,
}

pub open spec fn files_flag(files: JournalFiles) -> i32 {
    match files {
        JournalFiles::System => SD_JOURNAL_SYSTEM,
        JournalFiles::CurrentUser => SD_JOURNAL_CURRENT_USER,
        JournalFiles::All => 0,
    }
}

/// The flags of a plain open: the runtime-only and local-only bits as asked,
/// and the bit of the selected file set.
pub open spec fn open_flags_of(config: JournalReaderConfig) -> i32 {
    (if config.only_volatile {
        SD_JOURNAL_RUNTIME_ONLY
    } else {
        0i32
    }) | (if config.only_local {
        SD_JOURNAL_LOCAL_ONLY
    } else {
        0i32
    }) | files_flag(config.files)
}

/// The flags of a namespaced open: those of a plain open and the two
/// namespace bits as asked.
pub open spec fn namespace_flags_of(config: JournalReaderConfig) -> i32 {
    open_flags_of(config) | (if config.all_namespaces {
        SD_JOURNAL_ALL_NAMESPACES
    } else {
        0i32
    }) | (if config.include_default_namespace {
        SD_JOURNAL_INCLUDE_DEFAULT_NAMESPACE
    } else {
        0i32
    })
}

impl JournalReaderConfig {
    /// The flags with which to open the journal.
    pub fn open_flags(&self) -> (r: i32)
        ensures
            r == open_flags_of(*self),
    {
        let runtime: i32 = if self.only_volatile {
            SD_JOURNAL_RUNTIME_ONLY
        } else {
            0
        };
        let local: i32 = if self.only_local {
            SD_JOURNAL_LOCAL_ONLY
        } else {
            0
        };
        let files: i32 = match self.files {
            JournalFiles::System => SD_JOURNAL_SYSTEM,
            JournalFiles::CurrentUser => SD_JOURNAL_CURRENT_USER,
            JournalFiles::All => 0,
        };
        let r = runtime | local | files;
        r
    }

    /// The flags with which to open a namespace of the journal.
    pub fn namespace_flags(&self) -> (r: i32)
        ensures
            r == namespace_flags_of(*self),
    {
        let all: i32 = if self.all_namespaces {
            SD_JOURNAL_ALL_NAMESPACES
        } else {
            0
        };
        let default: i32 = if self.include_default_namespace {
            SD_JOURNAL_INCLUDE_DEFAULT_NAMESPACE
        } else {
            0
        };
        self.open_flags() | all | default
    }
}

/// Whether the text holds a NUL character, which a C string cannot carry.
pub open spec fn has_nul(s: Seq<char>) -> bool {
    exists|i: int| 0 <= i < s.len() && s[i] == '\0'
}

/// Checks that `s` can be handed to the journal as a C string: fails with
/// `Validation` where it holds a NUL.
pub fn check_no_nul(s: &str) -> (r: Result<(), Error>)
    ensures
        r is Err <==> has_nul(s@),
        r is Err ==> r == Err::<(), Error>(Error::Validation),
{
    let len = s.unicode_len();
    let mut i: usize = 0;
    while i < len
        invariant
            i <= len,
            len == s@.len(),
            forall|j: int| 0 <= j < i ==> s@[j] != '\0',
        decreases len - i,
    {
        if s.get_char(i) == '\0' {
            return Err(Error::Validation);
        }
        i = i + 1;
    }
    Ok(())
}

/// A match expression `FIELD=value`: the text before its first `=` is a
/// valid field name, and it holds no NUL.
pub open spec fn valid_filter(s: Seq<char>) -> bool {
    &&& exists|p: int| 0 <= p < s.len() && s[p] == '=' && valid_field_name(#[trigger] s.take(p))
    &&& !has_nul(s)
}

fn is_name_char(c: char) -> (r: bool)
    ensures
        r == name_char(c),
{
    ('A' <= c && c <= 'Z') || ('0' <= c && c <= '9') || c == '_'
}

/// Checks a match expression before it is added to a reader: fails with
/// `Validation`, before any call into the journal, where the field name is
/// invalid or the text holds a NUL.
pub fn validate_filter(filter: &str) -> (r: Result<(), Error>)
    ensures
        r is Err <==> !valid_filter(filter@),
        r is Err ==> r == Err::<(), Error>(Error::Validation),
{
    let len = filter.unicode_len();
    let mut i: usize = 0;
    while i < len && is_name_char(filter.get_char(i))
        invariant
            i <= len,
            len == filter@.len(),
            forall|j: int| 0 <= j < i ==> #[trigger] name_char(filter@[j]),
        decreases len - i,
    {
        i = i + 1;
    }
    let ghost s = filter@;
    if i == len || filter.get_char(i) != '=' || i == 0 || ('0' <= filter.get_char(0)
        && filter.get_char(0) <= '9') {
        proof {
            if valid_filter(s) {
                let p = choose|p: int|
                    0 <= p < s.len() && s[p] == '=' && valid_field_name(#[trigger] s.take(p));
                if p < i {
                    assert(name_char(s[p]));
                } else if p > i {
                    assert(name_char(s.take(p)[i as int]));
                } else {
                    assert(s.take(p)[0] == s[0]);
                }
            }
        }
        return Err(Error::Validation);
    }
    assert(valid_field_name(s.take(i as int)));
    match check_no_nul(filter) {
        Ok(()) => Ok(()),
        Err(e) => Err(e),
    }
}

/// A match expression whose field name, the text before its first `=`,
/// holds a space is rejected.
pub proof fn lemma_filter_name_with_space_rejected(s: Seq<char>, i: int)
    requires
        0 <= i < s.len(),
        s[i] == ' ',
        forall|j: int| 0 <= j < i ==> s[j] != '=',
    ensures
        !valid_filter(s),
{
    if exists|p: int| 0 <= p < s.len() && s[p] == '=' && valid_field_name(#[trigger] s.take(p)) {
        let p = choose|p: int| 0 <= p < s.len() && s[p] == '=' && valid_field_name(#[trigger] s.take(p));
        if p > i {
            assert(name_char(s.take(p)[i]));
        }
    }
}

/// Where the name of a raw record ends: at its first `=`, or at its end
/// where it has none.
pub open spec fn name_end(b: Seq<u8>) -> int {
    if exists|p: int| 0 <= p < b.len() && b[p] == 61 && no_eq_before(b, p) {
        choose|p: int| 0 <= p < b.len() && b[p] == 61 && no_eq_before(b, p)
    } else {
        b.len() as int
    }
}

pub open spec fn no_eq_before(b: Seq<u8>, p: int) -> bool {
    forall|j: int| 0 <= j < p ==> b[j] != 61
}

/// The name of a raw record, as text: decoded where it is valid UTF-8, with
/// replacement characters otherwise.
pub open spec fn record_name(b: Seq<u8>) -> Seq<char> {
    if valid_utf8(b.take(name_end(b))) {
        decode_utf8(b.take(name_end(b)))
    } else {
        lossy_text(b.take(name_end(b)))
    }
}

/// The value of a raw record: the bytes after its first `=`, kept as they
/// are; empty where it has no `=`.
pub open spec fn record_value(b: Seq<u8>) -> Seq<u8> {
    if name_end(b) < b.len() {
        b.skip(name_end(b) + 1)
    } else {
        Seq::empty()
    }
}

/// Splits a raw `name=value` record at its first `=`.
pub fn decode_record(record: &[u8]) -> (r: (String, Vec<u8>))
    ensures
        r.0@ == record_name(record@),
        r.1@ == record_value(record@),
{
    let ghost b = record@;
    let mut i: usize = 0;
    while i < record.len() && record[i] != 61
        invariant
            i <= b.len(),
            b == record@,
            no_eq_before(b, i as int),
        decreases b.len() - i,
    {
        i = i + 1;
    }
    proof {
        if i < b.len() {
            let p = choose|p: int| 0 <= p < b.len() && b[p] == 61 && no_eq_before(b, p);
            if p < i {
                assert(b[p] != 61);
            } else if p > i {
                assert(b[i as int] != 61);
            }
        } else if exists|p: int| 0 <= p < b.len() && b[p] == 61 && no_eq_before(b, p) {
            let p = choose|p: int| 0 <= p < b.len() && b[p] == 61 && no_eq_before(b, p);
            assert(b[p] != 61);
        }
    }
    let mut name_bytes: Vec<u8> = Vec::new();
    let mut j: usize = 0;
    while j < i
        invariant
            j <= i <= b.len(),
            b == record@,
            name_bytes@ == b.take(j as int),
        decreases i - j,
    {
        name_bytes.push(record[j]);
        assert(b.take(j + 1) =~= b.take(j as int).push(b[j as int]));
        j = j + 1;
    }
    let name = utf8_lossy(name_bytes.as_slice());
    let mut value: Vec<u8> = Vec::new();
    if i < record.len() {
        let mut k: usize = i + 1;
        while k < record.len()
            invariant
                i + 1 <= k <= b.len(),
                b == record@,
                value@ == b.subrange(i + 1, k as int),
            decreases b.len() - k,
        {
            value.push(record[k]);
            assert(b.subrange(i + 1, k + 1) =~= b.subrange(i + 1, k as int).push(b[k as int]));
            k = k + 1;
        }
        assert(b.subrange(i + 1, b.len() as int) =~= b.skip(i + 1));
    }
    (name, value)
}

/// The fields of a sequence of raw records, a later one overriding an earlier
/// one of the same name.
pub open spec fn records_map(records: Seq<Vec<u8>>) -> Map<Seq<char>, Seq<u8>>
    decreases records.len(),
{
    if records.len() == 0 {
        Map::empty()
    } else {
        records_map(records.drop_last()).insert(
            record_name(records.last()@),
            record_value(records.last()@),
        )
    }
}

/// The entry read at a position: the fields of its raw records, then the
/// reception time, the monotonic time and the cursor token that the journal
/// assigned, which take precedence over fields of the same names.
pub open spec fn read_entry_fields(
    records: Seq<Vec<u8>>,
    realtime_us: u64,
    monotonic_us: u64,
    cursor: Seq<char>,
) -> Map<Seq<char>, Seq<u8>> {
    records_map(records).insert(realtime_name(), decimal_digits(realtime_us as nat)).insert(
        monotonic_name(),
        decimal_digits(monotonic_us as nat),
    ).insert(cursor_name(), encode_utf8(cursor))
}

/// Builds the entry at the reader's position from the raw records that the
/// field enumeration yielded and the three values the journal assigns to
/// every record. Nothing here is shared with the reader's buffers.
pub fn assemble_entry(records: &Vec<Vec<u8>>, realtime_us: u64, monotonic_us: u64, cursor: &str) -> (r:
    JournalEntry)
    ensures
        r@ == read_entry_fields(records@, realtime_us, monotonic_us, cursor@),
{
    let mut entry = JournalEntry::new();
    let mut i: usize = 0;
    while i < records.len()
        invariant
            i <= records@.len(),
            entry@ == records_map(records@.take(i as int)),
        decreases records@.len() - i,
    {
        let (name, value) = decode_record(records[i].as_slice());
        entry.set_field(name, value);
        assert(records@.take(i + 1).drop_last() =~= records@.take(i as int));
        i = i + 1;
    }
    assert(records@.take(records@.len() as int) =~= records@);
    proof {
        reveal_strlit("__REALTIME_TIMESTAMP");
        reveal_strlit("__MONOTONIC_TIMESTAMP");
        reveal_strlit("__CURSOR");
    }
    entry.set_field(String::from_str("__REALTIME_TIMESTAMP"), decimal_bytes(realtime_us));
    entry.set_field(String::from_str("__MONOTONIC_TIMESTAMP"), decimal_bytes(monotonic_us));
    entry.set_field(String::from_str("__CURSOR"), slice_to_vec(cursor.as_bytes()));
    entry
}

/// What a move of the cursor reported: `Ok(true)` where it moved onto a
/// record, `Ok(false)` where no record was left in that direction.
pub fn advance_result(ret: i32) -> (r: Result<bool, Error>)
    ensures
        ret < 0 ==> r == Err::<bool, Error>(Error::Io { code: -(ret as int) as i64 }),
        ret >= 0 ==> r == Ok::<bool, Error>(ret > 0),
{
    match ffi_result(ret) {
        Ok(n) => Ok(n > 0),
        Err(e) => Err(e),
    }
}

/// The wakeup that a wait status names: 0, 1 and 2 are a timeout, an
/// append and an invalidation; any other value is an invalid argument.
pub open spec fn wakeup_of(value: i32) -> Result<WakeupType, Error> {
    if value == 0 {
        Ok(WakeupType::NOP)
    } else if value == 1 {
        Ok(WakeupType::APPEND)
    } else if value == 2 {
        Ok(WakeupType::INVALIDATE)
    } else {
        Err(Error::Io { code: EINVAL })
    }
}

impl WakeupType {
    /// The wakeup that a non-negative wait status names.
    pub fn try_from(value: i32) -> (r: Result<WakeupType, Error>)
        ensures
            r == wakeup_of(value),
    {
        if value == 0 {
            Ok(WakeupType::NOP)
        } else if value == 1 {
            Ok(WakeupType::APPEND)
        } else if value == 2 {
            Ok(WakeupType::INVALIDATE)
        } else {
            Err(Error::Io { code: EINVAL })
        }
    }

    /// Classifies the status of a wait: an error where it is negative, else
    /// the wakeup it names.
    pub fn from_wait_status(ret: i32) -> (r: Result<WakeupType, Error>)
        ensures
            ret < 0 ==> r == Err::<WakeupType, Error>(Error::Io { code: -(ret as int) as i64 }),
            ret >= 0 ==> r == wakeup_of(ret),
    {
        match ffi_result(ret) {
            Ok(n) => WakeupType::try_from(n),
            Err(e) => Err(e),
        }
    }
}

/// The whole number of microseconds in a duration of `secs` seconds and
/// `subsec_nanos` nanoseconds.
pub open spec fn duration_micros(secs: u64, subsec_nanos: u32) -> int {
    secs * 1_000_000 + subsec_nanos / 1000
}

/// A duration in whole microseconds, as a wait takes it; fails with
/// `Overflow` rather than truncate where the count exceeds `u64::MAX`.
pub fn duration_to_usec(secs: u64, subsec_nanos: u32) -> (r: Result<u64, Error>)
    requires
        subsec_nanos < 1_000_000_000,
    ensures
        duration_micros(secs, subsec_nanos) <= u64::MAX ==> r == Ok::<u64, Error>(
            duration_micros(secs, subsec_nanos) as u64,
        ),
        duration_micros(secs, subsec_nanos) > u64::MAX ==> r == Err::<u64, Error>(
            Error::Overflow,
        ),
{
    let sub: u64 = (subsec_nanos / 1000) as u64;
    match secs.checked_mul(1_000_000) {
        Some(whole) => match whole.checked_add(sub) {
            Some(total) => Ok(total),
            None => Err(Error::Overflow),
        },
        None => Err(Error::Overflow),
    }
}

/// The wait that blocks until the journal changes, with no timeout.
pub const WAIT_FOREVER: u64 = 0xffff_ffff_ffff_ffff;

/// What the blocking follow loop learns from the reader.
pub enum FollowEvent {
    /// The outcome of reading the next entry.
    Read(Result<Option<JournalEntry>, Error>),
    /// The outcome of waiting for the journal to change.
    Woke(Result<WakeupType, Error>),
}

/// What the blocking follow loop does next.
pub enum FollowAction {
    /// Read the next entry.
    ReadNext,
    /// Wait this many microseconds for the journal to change.
    Wait(u64),
    /// Hand this entry to the caller.
    Yield(JournalEntry),
    /// Hand this error to the caller.
    Fail(Error),
    /// End this pass: the wait timed out with nothing new.
    Stop,
}

/// The decisions of a blocking iteration over a reader: read while entries
/// come, wait when none is left, read again after any wakeup but a timeout.
pub struct BlockingFollow {
    timeout_us: u64,
}

impl BlockingFollow {
    /// A follow loop whose waits have no timeout.
    pub fn new() -> (r: BlockingFollow)
        ensures
            r.timeout() == WAIT_FOREVER,
    {
        BlockingFollow { timeout_us: WAIT_FOREVER }
    }

    /// A follow loop whose waits last a duration of `secs` seconds and
    /// `subsec_nanos` nanoseconds.
    pub fn with_timeout(secs: u64, subsec_nanos: u32) -> (r: Result<BlockingFollow, Error>)
        requires
            subsec_nanos < 1_000_000_000,
        ensures
            duration_micros(secs, subsec_nanos) <= u64::MAX ==> r is Ok && r->Ok_0.timeout()
                == duration_micros(secs, subsec_nanos),
            duration_micros(secs, subsec_nanos) > u64::MAX ==> r == Err::<BlockingFollow, Error>(
                Error::Overflow,
            ),
    {
        match duration_to_usec(secs, subsec_nanos) {
            Ok(us) => Ok(BlockingFollow { timeout_us: us }),
            Err(e) => Err(e),
        }
    }

    pub closed spec fn timeout(&self) -> u64 {
        self.timeout_us
    }

    /// Sets the timeout of the waits; on `Overflow` the timeout is left as
    /// it was.
    pub fn set_timeout(&mut self, secs: u64, subsec_nanos: u32) -> (r: Result<(), Error>)
        requires
            subsec_nanos < 1_000_000_000,
        ensures
            duration_micros(secs, subsec_nanos) <= u64::MAX ==> r is Ok && final(self).timeout()
                == duration_micros(secs, subsec_nanos),
            duration_micros(secs, subsec_nanos) > u64::MAX ==> r == Err::<(), Error>(
                Error::Overflow,
            ) && final(self).timeout() == old(self).timeout(),
    {
        match duration_to_usec(secs, subsec_nanos) {
            Ok(us) => {
                self.timeout_us = us;
                Ok(())
            },
            Err(e) => Err(e),
        }
    }

    /// The timeout of the waits, in microseconds.
    pub fn get_timeout_us(&self) -> (r: u64)
        ensures
            r == self.timeout(),
    {
        self.timeout_us
    }

    /// The next action after `event`.
    pub fn step(&self, event: FollowEvent) -> (r: FollowAction)
        ensures
            match event {
                FollowEvent::Read(Ok(Some(e))) => r == FollowAction::Yield(e),
                FollowEvent::Read(Ok(None)) => r == FollowAction::Wait(self.timeout()),
                FollowEvent::Read(Err(e)) => r == FollowAction::Fail(e),
                FollowEvent::Woke(Ok(WakeupType::NOP)) => r == FollowAction::Stop,
                FollowEvent::Woke(Ok(_)) => r == FollowAction::ReadNext,
                FollowEvent::Woke(Err(e)) => r == FollowAction::Fail(e),
            },
    {
        match event {
            FollowEvent::Read(Ok(Some(e))) => FollowAction::Yield(e),
            FollowEvent::Read(Ok(None)) => FollowAction::Wait(self.timeout_us),
            FollowEvent::Read(Err(e)) => FollowAction::Fail(e),
            FollowEvent::Woke(Ok(WakeupType::NOP)) => FollowAction::Stop,
            FollowEvent::Woke(Ok(_)) => FollowAction::ReadNext,
            FollowEvent::Woke(Err(e)) => FollowAction::Fail(e),
        }
    }
}

} // verus!
