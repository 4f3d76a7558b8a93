//! What is submitted is what is read back: the framing of submitted fields
//! and the decoding of read records are inverse to each other.
use vstd::prelude::*;
use vstd::utf8::*;
use crate::entry::{cursor_name, message_name, monotonic_name, name_char, realtime_name, valid_field_name};
use crate::reader::{name_end, no_eq_before, read_entry_fields, record_name, record_value, records_map};
use crate::writer::{all_names_valid, field_is_framed, field_record, frames_fields, frames_some_field};

verus! {

proof fn lemma_valid_name_bytes(k: Seq<char>)
    requires
        valid_field_name(k),
    ensures
        encode_utf8(k).len() == k.len(),
        forall|j: int| 0 <= j < k.len() ==> encode_utf8(k)[j] != 61,
{
    assert forall|i: int| 0 <= i < k.len() implies '\0' <= #[trigger] k[i] <= '\u{7f}' by {
        assert(name_char(k[i]));
    }
    assert(is_ascii_chars(k));
    is_ascii_chars_encode_utf8(k);
    assert forall|j: int| 0 <= j < k.len() implies encode_utf8(k)[j] != 61 by {
        assert(name_char(k[j]));
        assert(k[j] as u8 == encode_utf8(k)[j]);
    }
}

/// A framed field with a valid name decodes to that name and value.
proof fn lemma_field_record_decodes(k: Seq<char>, v: Seq<u8>)
    requires
        valid_field_name(k),
    ensures
        record_name(field_record(k, v)) == k,
        record_value(field_record(k, v)) == v,
{
    let b = field_record(k, v);
    let e = encode_utf8(k);
    lemma_valid_name_bytes(k);
    let p = k.len() as int;
    assert(b[p] == 61);
    assert forall|j: int| 0 <= j < p implies b[j] != 61 by {
        assert(b[j] == e[j]);
    }
    assert(no_eq_before(b, p));
    let q = choose|q: int| 0 <= q < b.len() && b[q] == 61 && no_eq_before(b, q);
    if q < p {
        assert(b[q] == e[q]);
    } else if q > p {
        assert(b[p] != 61);
    }
    assert(name_end(b) == p);
    assert(b.take(p) =~= e);
    encode_utf8_valid_utf8(k);
    encode_utf8_decode_utf8(k);
    assert(b.skip(p + 1) =~= v);
}

proof fn lemma_records_map_lookup(records: Seq<Vec<u8>>, k: Seq<char>)
    ensures
        records_map(records).contains_key(k) <==> exists|i: int|
            0 <= i < records.len() && record_name(#[trigger] records[i]@) == k,
        records_map(records).contains_key(k) ==> exists|i: int|
            0 <= i < records.len() && record_name(#[trigger] records[i]@) == k
                && records_map(records)[k] == record_value(records[i]@),
    decreases records.len(),
{
    if records.len() > 0 {
        let t = records.drop_last();
        let last = records.len() - 1;
        lemma_records_map_lookup(t, k);
        if record_name(records[last]@) == k {
        } else {
            if exists|i: int| 0 <= i < records.len() && record_name(#[trigger] records[i]@) == k {
                let i = choose|i: int|
                    0 <= i < records.len() && record_name(#[trigger] records[i]@) == k;
                assert(t[i] == records[i]);
            }
            if records_map(t).contains_key(k) {
                let i = choose|i: int|
                    0 <= i < t.len() && record_name(#[trigger] t[i]@) == k && records_map(t)[k]
                        == record_value(t[i]@);
                assert(t[i] == records[i]);
            }
        }
    }
}

/// Submitted fields are read back unchanged: where `records` frames fields
/// whose names are all valid, the entry read from those records holds each
/// of them with its value, but for the three fields that the journal assigns
/// to every record itself.
pub proof fn lemma_submitted_field_read_back(
    fields: Map<Seq<char>, Seq<u8>>,
    records: Seq<Vec<u8>>,
    realtime_us: u64,
    monotonic_us: u64,
    cursor: Seq<char>,
    k: Seq<char>,
)
    requires
        all_names_valid(fields),
        frames_fields(records, fields),
        fields.contains_key(k),
        k != realtime_name(),
        k != monotonic_name(),
        k != cursor_name(),
    ensures
        read_entry_fields(records, realtime_us, monotonic_us, cursor).contains_key(k),
        read_entry_fields(records, realtime_us, monotonic_us, cursor)[k] == fields[k],
{
    assert(field_is_framed(records, k, fields));
    let i = choose|i: int| 0 <= i < records.len() && records[i]@ == field_record(k, fields[k]);
    lemma_field_record_decodes(k, fields[k]);
    assert(record_name(records[i]@) == k);
    lemma_records_map_lookup(records, k);
    let j = choose|j: int|
        0 <= j < records.len() && record_name(#[trigger] records[j]@) == k && records_map(
            records,
        )[k] == record_value(records[j]@);
    assert(frames_some_field(records[j]@, fields));
    let k2 = choose|k2: Seq<char>|
        fields.contains_key(k2) && records[j]@ == field_record(k2, fields[k2]);
    lemma_field_record_decodes(k2, fields[k2]);
}

/// A message submitted as the UTF-8 bytes of `s` is read back as `s`.
pub proof fn lemma_message_read_back(
    fields: Map<Seq<char>, Seq<u8>>,
    records: Seq<Vec<u8>>,
    realtime_us: u64,
    monotonic_us: u64,
    cursor: Seq<char>,
    s: Seq<char>,
)
    requires
        all_names_valid(fields),
        frames_fields(records, fields),
        fields.contains_key(message_name()),
        fields[message_name()] == encode_utf8(s),
    ensures
        ({
            let read = read_entry_fields(records, realtime_us, monotonic_us, cursor);
            &&& read.contains_key(message_name())
            &&& read[message_name()] == encode_utf8(s)
            &&& valid_utf8(read[message_name()])
            &&& decode_utf8(read[message_name()]) == s
        }),
{
    reveal_strlit("__REALTIME_TIMESTAMP");
    reveal_strlit("__MONOTONIC_TIMESTAMP");
    reveal_strlit("__CURSOR");
    assert(message_name().len() != realtime_name().len());
    assert(message_name().len() != monotonic_name().len());
    assert(message_name().len() != cursor_name().len());
    lemma_submitted_field_read_back(fields, records, realtime_us, monotonic_us, cursor, message_name());
    encode_utf8_valid_utf8(s);
    encode_utf8_decode_utf8(s);
}

/// The `__CURSOR` field of an entry read at a position holds the token that
/// the journal gave for it, and reads back as exactly that text, to seek to
/// that entry again.
pub proof fn lemma_cursor_token_read_back(
    records: Seq<Vec<u8>>,
    realtime_us: u64,
    monotonic_us: u64,
    cursor: Seq<char>,
)
    ensures
        ({
            let read = read_entry_fields(records, realtime_us, monotonic_us, cursor);
            &&& read.contains_key(cursor_name())
            &&& read[cursor_name()] == encode_utf8(cursor)
            &&& valid_utf8(read[cursor_name()])
            &&& decode_utf8(read[cursor_name()]) == cursor
        }),
{
    encode_utf8_valid_utf8(cursor);
    encode_utf8_decode_utf8(cursor);
}

} // verus!
