//! Framing of an entry for submission to the journal.
use vstd::prelude::*;
use vstd::slice::slice_to_vec;
use vstd::utf8::*;
use crate::entry::{
    fields_map, is_valid_field_name, lemma_fields_map_keys, lemma_fields_map_len,
    lemma_fields_map_value, names_unique, valid_field_name, JournalEntry,
};
use crate::error::Error;

verus! {

/// The bytes of one submitted field: its name in UTF-8, `=`, then the value
/// as it is. The transport frames each field by its length, so the value
/// needs no escaping.
pub open spec fn field_record(name: Seq<char>, value: Seq<u8>) -> Seq<u8> {
    encode_utf8(name) + seq![61u8] + value
}

/// Frames one field: `name=value`.
pub fn frame_field(name: &str, value: &[u8]) -> (r: Vec<u8>)
    ensures
        r@ == field_record(name@, value@),
{
    let mut record = slice_to_vec(name.as_bytes());
    record.push(61u8);
    let mut rest = slice_to_vec(value);
    record.append(&mut rest);
    assert(record@ =~= field_record(name@, value@));
    record
}

/// Every field of the map has a valid name.
pub open spec fn all_names_valid(fields: Map<Seq<char>, Seq<u8>>) -> bool {
    forall|k: Seq<char>| fields.contains_key(k) ==> valid_field_name(k)
}

/// `record` frames one of the fields of `fields`.
pub open spec fn frames_some_field(record: Seq<u8>, fields: Map<Seq<char>, Seq<u8>>) -> bool {
    exists|k: Seq<char>| fields.contains_key(k) && record == field_record(k, fields[k])
}

/// One of `records` frames the field `k` of `fields`.
pub open spec fn field_is_framed(
    records: Seq<Vec<u8>>,
    k: Seq<char>,
    fields: Map<Seq<char>, Seq<u8>>,
) -> bool {
    exists|i: int| 0 <= i < records.len() && records[i]@ == field_record(k, fields[k])
}

/// `records` frames exactly the fields of `fields`, one record per field.
pub open spec fn frames_fields(records: Seq<Vec<u8>>, fields: Map<Seq<char>, Seq<u8>>) -> bool {
    &&& records.len() == fields.len()
    &&& forall|i: int| 0 <= i < records.len() ==> frames_some_field(#[trigger] records[i]@, fields)
    &&& forall|k: Seq<char>| fields.contains_key(k) ==> #[trigger] field_is_framed(records, k, fields)
}

/// One invalid field name makes the whole entry invalid: its submission
/// fails with `Validation` and frames none of its fields.
pub proof fn lemma_one_invalid_name_rejects_entry(fields: Map<Seq<char>, Seq<u8>>, k: Seq<char>)
    requires
        fields.contains_key(k),
        !valid_field_name(k),
    ensures
        !all_names_valid(fields),
{
}

proof fn lemma_frames_fields(records: Seq<Vec<u8>>, s: Seq<(String, Vec<u8>)>)
    requires
        names_unique(s),
        records.len() == s.len(),
        forall|j: int| 0 <= j < s.len() ==> (#[trigger] records[j])@ == field_record(s[j].0@, s[j].1@),
    ensures
        frames_fields(records, fields_map(s)),
{
    let m = fields_map(s);
    lemma_fields_map_keys(s);
    lemma_fields_map_len(s);
    assert forall|j: int| 0 <= j < records.len() implies frames_some_field(
        #[trigger] records[j]@,
        m,
    ) by {
        lemma_fields_map_value(s, j);
        let k = s[j].0@;
        assert(m.contains_key(k) && records[j]@ == field_record(k, m[k]));
    }
    assert forall|k: Seq<char>| m.contains_key(k) implies #[trigger] field_is_framed(
        records,
        k,
        m,
    ) by {
        let j = choose|j: int| 0 <= j < s.len() && s[j].0@ == k;
        lemma_fields_map_value(s, j);
        assert(records[j]@ == field_record(k, m[k]));
    }
}

/// Frames every field of `entry` for one atomic submission. Fails with
/// `Validation`, and frames nothing, where any field name is invalid.
pub fn encode_entry(entry: &JournalEntry) -> (r: Result<Vec<Vec<u8>>, Error>)
    ensures
        r is Err <==> !all_names_valid(entry@),
        r is Err ==> r == Err::<Vec<Vec<u8>>, Error>(Error::Validation),
        r is Ok ==> frames_fields(r->Ok_0@, entry@),
{
    let fields = entry.get_fields();
    let ghost s = fields@;
    proof {
        lemma_fields_map_keys(s);
        lemma_fields_map_len(s);
    }
    let mut i: usize = 0;
    while i < fields.len()
        invariant
            i <= s.len(),
            s == fields@,
            fields_map(s) == entry@,
            forall|j: int| 0 <= j < i ==> valid_field_name(#[trigger] s[j].0@),
        decreases s.len() - i,
    {
        if !is_valid_field_name(fields[i].0.as_str()) {
            proof {
                lemma_fields_map_keys(s);
            }
            assert(fields_map(s).contains_key(s[i as int].0@));
            return Err(Error::Validation);
        }
        i = i + 1;
    }
    proof {
        lemma_fields_map_keys(s);
    }
    assert forall|k: Seq<char>| entry@.contains_key(k) implies valid_field_name(k) by {
        let j = choose|j: int| 0 <= j < s.len() && s[j].0@ == k;
        assert(valid_field_name(s[j].0@));
    }
    let mut out: Vec<Vec<u8>> = Vec::new();
    let mut i: usize = 0;
    while i < fields.len()
        invariant
            i <= s.len(),
            s == fields@,
            fields_map(s) == entry@,
            names_unique(s),
            out@.len() == i,
            forall|j: int| 0 <= j < i ==> (#[trigger] out@[j])@ == field_record(s[j].0@, s[j].1@),
        decreases s.len() - i,
    {
        let record = frame_field(fields[i].0.as_str(), fields[i].1.as_slice());
        out.push(record);
        i = i + 1;
    }
    proof {
        lemma_frames_fields(out@, s);
    }
    Ok(out)
}

} // verus!
