//! The journal entry: a set of named fields with binary values, and the
//! projections of its well-known fields.
use vstd::prelude::*;
use vstd::slice::slice_to_vec;
use vstd::utf8::*;
use crate::text::{lossy_text, parse_i64, parsed_i64, utf8_lossy, utf8_str};

verus! {

/// The fields of a list of name/value pairs: a later pair overrides an earlier
/// one of the same name.
pub open spec fn fields_map(s: Seq<(String, Vec<u8>)>) -> Map<Seq<char>, Seq<u8>>
    decreases s.len(),
{
    if s.len() == 0 {
        Map::empty()
    } else {
        fields_map(s.drop_last()).insert(s.last().0@, s.last().1@)
    }
}

/// No two pairs share a name.
pub open spec fn names_unique(s: Seq<(String, Vec<u8>)>) -> bool {
    forall|i: int, j: int| 0 <= i < j < s.len() ==> s[i].0@ != s[j].0@
}

/// Byte-lexicographic order, the order of Rust's `str`: a proper prefix
/// comes first.
pub open spec fn bytes_lt(a: Seq<u8>, b: Seq<u8>) -> bool
    decreases a.len(),
{
    if a.len() == 0 {
        b.len() > 0
    } else if b.len() == 0 {
        false
    } else if a[0] != b[0] {
        a[0] < b[0]
    } else {
        bytes_lt(a.drop_first(), b.drop_first())
    }
}

/// The names are in strictly increasing byte-lexicographic order.
pub open spec fn names_sorted(s: Seq<(String, Vec<u8>)>) -> bool {
    forall|i: int, j: int|
        0 <= i < j < s.len() ==> bytes_lt(encode_utf8(s[i].0@), encode_utf8(s[j].0@))
}

proof fn lemma_bytes_lt_irreflexive(a: Seq<u8>)
    ensures
        !bytes_lt(a, a),
    decreases a.len(),
{
    if a.len() > 0 {
        lemma_bytes_lt_irreflexive(a.drop_first());
    }
}

proof fn lemma_bytes_lt_total(a: Seq<u8>, b: Seq<u8>)
    requires
        a != b,
    ensures
        bytes_lt(a, b) || bytes_lt(b, a),
    decreases a.len(),
{
    if a.len() > 0 && b.len() > 0 && a[0] == b[0] {
        if a.drop_first() == b.drop_first() {
            assert(a =~= seq![a[0]] + a.drop_first());
            assert(b =~= seq![b[0]] + b.drop_first());
        } else {
            lemma_bytes_lt_total(a.drop_first(), b.drop_first());
        }
    } else if a.len() == 0 && b.len() == 0 {
        assert(a =~= b);
    }
}

proof fn lemma_bytes_lt_transitive(a: Seq<u8>, b: Seq<u8>, c: Seq<u8>)
    requires
        bytes_lt(a, b),
        bytes_lt(b, c),
    ensures
        bytes_lt(a, c),
    decreases a.len(),
{
    if a.len() > 0 && b.len() > 0 && c.len() > 0 && a[0] == b[0] && b[0] == c[0] {
        lemma_bytes_lt_transitive(a.drop_first(), b.drop_first(), c.drop_first());
    }
}

proof fn lemma_sorted_unique(s: Seq<(String, Vec<u8>)>)
    requires
        names_sorted(s),
    ensures
        names_unique(s),
{
    assert forall|i: int, j: int| 0 <= i < j < s.len() implies s[i].0@ != s[j].0@ by {
        if s[i].0@ == s[j].0@ {
            lemma_bytes_lt_irreflexive(encode_utf8(s[i].0@));
        }
    }
}

/// Byte-lexicographic comparison of two texts.
fn name_lt(a: &str, b: &str) -> (r: bool)
    ensures
        r == bytes_lt(encode_utf8(a@), encode_utf8(b@)),
{
    let x = a.as_bytes();
    let y = b.as_bytes();
    let mut i: usize = 0;
    assert(x@.skip(0) =~= x@ && y@.skip(0) =~= y@);
    while i < x.len() && i < y.len() && x[i] == y[i]
        invariant
            i <= x@.len(),
            i <= y@.len(),
            bytes_lt(x@, y@) == bytes_lt(x@.skip(i as int), y@.skip(i as int)),
        decreases x@.len() - i,
    {
        assert(x@.skip(i as int).drop_first() =~= x@.skip(i + 1));
        assert(y@.skip(i as int).drop_first() =~= y@.skip(i + 1));
        i = i + 1;
    }
    if i < x.len() && i < y.len() {
        assert(x@.skip(i as int)[0] == x@[i as int]);
        assert(y@.skip(i as int)[0] == y@[i as int]);
        x[i] < y[i]
    } else {
        i >= x.len() && i < y.len()
    }
}

/// Valid field names are non-empty, made of uppercase ASCII letters, digits
/// and underscores, and do not start with a digit.
pub open spec fn valid_field_name(name: Seq<char>) -> bool {
    &&& name.len() > 0
    &&& !('0' <= name[0] && name[0] <= '9')
    &&& forall|i: int|
        0 <= i < name.len() ==> #[trigger] name_char(name[i])
}

pub open spec fn name_char(c: char) -> bool {
    ('A' <= c && c <= 'Z') || ('0' <= c && c <= '9') || c == '_'
}

pub open spec fn message_name() -> Seq<char> {
    seq!['M', 'E', 'S', 'S', 'A', 'G', 'E']
}

pub open spec fn source_realtime_name() -> Seq<char> {
    "_SOURCE_REALTIME_TIMESTAMP"@
}

pub open spec fn realtime_name() -> Seq<char> {
    "__REALTIME_TIMESTAMP"@
}

pub open spec fn monotonic_name() -> Seq<char> {
    "__MONOTONIC_TIMESTAMP"@
}

pub open spec fn cursor_name() -> Seq<char> {
    "__CURSOR"@
}

pub(crate) proof fn lemma_fields_map_keys(s: Seq<(String, Vec<u8>)>)
    ensures
        forall|k: Seq<char>|
            #[trigger] fields_map(s).contains_key(k) <==> exists|i: int|
                0 <= i < s.len() && s[i].0@ == k,
    decreases s.len(),
{
    if s.len() > 0 {
        lemma_fields_map_keys(s.drop_last());
        assert forall|k: Seq<char>| #[trigger]
            fields_map(s).contains_key(k) <==> exists|i: int| 0 <= i < s.len() && s[i].0@ == k by {
            if fields_map(s).contains_key(k) && k != s.last().0@ {
                assert(fields_map(s.drop_last()).contains_key(k));
                let i = choose|i: int| 0 <= i < s.drop_last().len() && s.drop_last()[i].0@ == k;
                assert(s[i].0@ == k);
            }
            if exists|i: int| 0 <= i < s.len() && s[i].0@ == k {
                let i = choose|i: int| 0 <= i < s.len() && s[i].0@ == k;
                if i < s.len() - 1 {
                    assert(s.drop_last()[i].0@ == k);
                    assert(fields_map(s.drop_last()).contains_key(k));
                }
            }
            if k == s.last().0@ {
                assert(s[s.len() - 1].0@ == k);
            }
        }
    }
}

pub(crate) proof fn lemma_fields_map_value(s: Seq<(String, Vec<u8>)>, i: int)
    requires
        names_unique(s),
        0 <= i < s.len(),
    ensures
        fields_map(s).contains_key(s[i].0@),
        fields_map(s)[s[i].0@] == s[i].1@,
    decreases s.len(),
{
    if i < s.len() - 1 {
        let t = s.drop_last();
        assert(t[i] == s[i]);
        assert(names_unique(t));
        lemma_fields_map_value(t, i);
        assert(s[i].0@ != s[s.len() - 1].0@);
    }
}

pub(crate) proof fn lemma_fields_map_len(s: Seq<(String, Vec<u8>)>)
    requires
        names_unique(s),
    ensures
        fields_map(s).dom().finite(),
        fields_map(s).len() == s.len(),
    decreases s.len(),
{
    if s.len() > 0 {
        let t = s.drop_last();
        assert(names_unique(t));
        lemma_fields_map_len(t);
        lemma_fields_map_keys(t);
        if fields_map(t).contains_key(s.last().0@) {
            let i = choose|i: int| 0 <= i < t.len() && t[i].0@ == s.last().0@;
            assert(s[i].0@ != s[s.len() - 1].0@);
        }
    }
}

proof fn lemma_fields_map_update(s: Seq<(String, Vec<u8>)>, i: int, name: String, value: Vec<u8>)
    requires
        names_unique(s),
        0 <= i < s.len(),
        s[i].0@ == name@,
    ensures
        names_unique(s.update(i, (name, value))),
        names_sorted(s) ==> names_sorted(s.update(i, (name, value))),
        fields_map(s.update(i, (name, value))) == fields_map(s).insert(name@, value@),
{
    let t = s.update(i, (name, value));
    assert(names_unique(t));
    if names_sorted(s) {
        assert forall|a: int, b: int| 0 <= a < b < t.len() implies bytes_lt(
            encode_utf8(t[a].0@),
            encode_utf8(t[b].0@),
        ) by {
            assert(t[a].0@ == s[a].0@ && t[b].0@ == s[b].0@);
        }
    }
    lemma_fields_map_keys(s);
    lemma_fields_map_keys(t);
    assert forall|k: Seq<char>| #[trigger] fields_map(t).contains_key(k)
        == fields_map(s).insert(name@, value@).contains_key(k) by {
        if exists|j: int| 0 <= j < s.len() && s[j].0@ == k {
            let j = choose|j: int| 0 <= j < s.len() && s[j].0@ == k;
            assert(t[j].0@ == k);
        }
        if exists|j: int| 0 <= j < t.len() && t[j].0@ == k {
            let j = choose|j: int| 0 <= j < t.len() && t[j].0@ == k;
            assert(s[j].0@ == k);
        }
        if k == name@ {
            assert(t[i].0@ == k);
        }
    }
    assert forall|k: Seq<char>| #[trigger] fields_map(t).contains_key(k) implies fields_map(t)[k]
        == fields_map(s).insert(name@, value@)[k] by {
        let j = choose|j: int| 0 <= j < t.len() && t[j].0@ == k;
        lemma_fields_map_value(t, j);
        if j != i {
            lemma_fields_map_value(s, j);
        }
    }
    assert(fields_map(t) =~= fields_map(s).insert(name@, value@));
}

proof fn lemma_fields_map_insert(s: Seq<(String, Vec<u8>)>, j: int, name: String, value: Vec<u8>)
    requires
        names_sorted(s),
        0 <= j <= s.len(),
        forall|k: int| 0 <= k < j ==> bytes_lt(encode_utf8(#[trigger] s[k].0@), encode_utf8(name@)),
        forall|k: int| j <= k < s.len() ==> bytes_lt(encode_utf8(name@), encode_utf8(#[trigger] s[k].0@)),
    ensures
        names_unique(s.insert(j, (name, value))),
        names_sorted(s.insert(j, (name, value))),
        fields_map(s.insert(j, (name, value))) == fields_map(s).insert(name@, value@),
{
    let t = s.insert(j, (name, value));
    assert forall|a: int, b: int| 0 <= a < b < t.len() implies bytes_lt(
        encode_utf8(t[a].0@),
        encode_utf8(t[b].0@),
    ) by {
        if a < j && b > j {
            lemma_bytes_lt_transitive(encode_utf8(s[a].0@), encode_utf8(name@), encode_utf8(s[b - 1].0@));
        } else if a > j {
            assert(t[a] == s[a - 1] && t[b] == s[b - 1]);
        } else if b < j {
            assert(t[a] == s[a] && t[b] == s[b]);
        }
    }
    lemma_sorted_unique(s);
    lemma_sorted_unique(t);
    lemma_fields_map_keys(s);
    lemma_fields_map_keys(t);
    assert forall|k: Seq<char>| #[trigger] fields_map(t).contains_key(k)
        == fields_map(s).insert(name@, value@).contains_key(k) by {
        if exists|m: int| 0 <= m < s.len() && s[m].0@ == k {
            let m = choose|m: int| 0 <= m < s.len() && s[m].0@ == k;
            if m < j {
                assert(t[m].0@ == k);
            } else {
                assert(t[m + 1].0@ == k);
            }
        }
        if exists|m: int| 0 <= m < t.len() && t[m].0@ == k {
            let m = choose|m: int| 0 <= m < t.len() && t[m].0@ == k;
            if m < j {
                assert(s[m].0@ == k);
            } else if m > j {
                assert(s[m - 1].0@ == k);
            }
        }
        if k == name@ {
            assert(t[j].0@ == k);
        }
    }
    assert forall|k: Seq<char>| #[trigger] fields_map(t).contains_key(k) implies fields_map(t)[k]
        == fields_map(s).insert(name@, value@)[k] by {
        let m = choose|m: int| 0 <= m < t.len() && t[m].0@ == k;
        lemma_fields_map_value(t, m);
        if m < j {
            lemma_fields_map_value(s, m);
            assert(s[m].0@ != name@) by {
                lemma_bytes_lt_irreflexive(encode_utf8(name@));
            }
        } else if m > j {
            lemma_fields_map_value(s, m - 1);
            assert(s[m - 1].0@ != name@) by {
                lemma_bytes_lt_irreflexive(encode_utf8(name@));
            }
        }
    }
    assert(fields_map(t) =~= fields_map(s).insert(name@, value@));
}

/// A point in time, in microseconds.
#[derive(Clone, Copy, Debug, PartialEq, Eq, Structural)]
pub struct JournalEntryTimestamp {
    pub timestamp_us: i64,
}

/// The timestamp that a field holds: its text parsed as a decimal `i64`.
pub open spec fn timestamp_of(fields: Map<Seq<char>, Seq<u8>>, name: Seq<char>) -> Option<
    JournalEntryTimestamp,
> {
    if fields.contains_key(name) {
        match parsed_i64(lossy_text(fields[name])) {
            Some(v) => Some(JournalEntryTimestamp { timestamp_us: v }),
            None => None,
        }
    } else {
        None
    }
}

/// Reads a timestamp from its decimal text.
pub fn parse_timestamp(text: &str) -> (r: Option<JournalEntryTimestamp>)
    ensures
        r == match parsed_i64(text@) {
            Some(v) => Some(JournalEntryTimestamp { timestamp_us: v }),
            None => None::<JournalEntryTimestamp>,
        },
{
    match parse_i64(text) {
        Some(v) => Some(JournalEntryTimestamp { timestamp_us: v }),
        None => None,
    }
}

/// Whether `name` may name a field.
pub fn is_valid_field_name(name: &str) -> (r: bool)
    ensures
        r == valid_field_name(name@),
{
    let len = name.unicode_len();
    if len == 0 {
        return false;
    }
    let first = name.get_char(0);
    if '0' <= first && first <= '9' {
        return false;
    }
    let mut i: usize = 0;
    while i < len
        invariant
            i <= len,
            len == name@.len(),
            forall|j: int| 0 <= j < i ==> #[trigger] name_char(name@[j]),
        decreases len - i,
    {
        let c = name.get_char(i);
        if !(('A' <= c && c <= 'Z') || ('0' <= c && c <= '9') || c == '_') {
            assert(!name_char(name@[i as int]));
            return false;
        }
        i = i + 1;
    }
    true
}

/// One journal record: fields named by text, each holding bytes. Names are
/// unique, and the fields are kept in byte-lexicographic order of name, so
/// that they are listed and submitted in one canonical order.
#[derive(Debug)]
pub struct JournalEntry {
    fields: Vec<(String, Vec<u8>)>,
}

impl View for JournalEntry {
    type V = Map<Seq<char>, Seq<u8>>;

    closed spec fn view(&self) -> Map<Seq<char>, Seq<u8>> {
        fields_map(self.fields@)
    }
}

impl Default for JournalEntry {
    fn default() -> (r: JournalEntry)
        ensures
            r@ == Map::<Seq<char>, Seq<u8>>::empty(),
    {
        JournalEntry::new()
    }
}

impl Clone for JournalEntry {
    fn clone(&self) -> (r: JournalEntry)
        ensures
            r@ == self@,
    {
        proof {
            use_type_invariant(self);
        }
        JournalEntry::from_fields(&self.fields)
    }
}

impl JournalEntry {
    #[verifier::type_invariant]
    closed spec fn inv(&self) -> bool {
        names_unique(self.fields@) && names_sorted(self.fields@)
    }

    /// An entry without fields.
    pub fn new() -> (r: JournalEntry)
        ensures
            r@ == Map::<Seq<char>, Seq<u8>>::empty(),
    {
        JournalEntry { fields: Vec::new() }
    }

    /// The entry that holds the given pairs; where a name repeats, the last
    /// pair wins.
    pub fn from_fields(fields: &Vec<(String, Vec<u8>)>) -> (r: JournalEntry)
        ensures
            r@ == fields_map(fields@),
    {
        let mut entry = JournalEntry::new();
        let mut i: usize = 0;
        while i < fields.len()
            invariant
                i <= fields@.len(),
                entry@ == fields_map(fields@.subrange(0, i as int)),
            decreases fields@.len() - i,
        {
            let name = fields[i].0.clone();
            let value = slice_to_vec(fields[i].1.as_slice());
            entry.set_field(name, value);
            assert(fields@.subrange(0, i + 1).drop_last() =~= fields@.subrange(0, i as int));
            i = i + 1;
        }
        assert(fields@.subrange(0, fields@.len() as int) =~= fields@);
        entry
    }

    /// The position of the field called `name`.
    fn find(&self, name: &str) -> (r: Option<usize>)
        ensures
            r is None <==> !self@.contains_key(name@),
            r is Some ==> r->Some_0 < self.fields@.len() && self.fields@[r->Some_0 as int].0@
                == name@,
            r is Some ==> self@[name@] == self.fields@[r->Some_0 as int].1@,
    {
        proof {
            use_type_invariant(self);
            lemma_fields_map_keys(self.fields@);
        }
        let key = name.to_owned();
        let mut i: usize = 0;
        while i < self.fields.len()
            invariant
                i <= self.fields@.len(),
                key@ == name@,
                names_unique(self.fields@),
                forall|j: int| 0 <= j < i ==> (#[trigger] self.fields@[j]).0@ != name@,
            decreases self.fields@.len() - i,
        {
            if self.fields[i].0 == key {
                proof {
                    lemma_fields_map_value(self.fields@, i as int);
                }
                return Some(i);
            }
            i = i + 1;
        }
        None
    }

    /// Sets the field `name` to `value`, replacing any earlier value.
    pub fn set_field(&mut self, name: String, value: Vec<u8>)
        ensures
            final(self)@ == old(self)@.insert(name@, value@),
    {
        proof {
            use_type_invariant(&*self);
        }
        let found = self.find(name.as_str());
        let mut taken = JournalEntry::new();
        core::mem::swap(self, &mut taken);
        proof {
            use_type_invariant(&taken);
        }
        let JournalEntry { fields: mut fields } = taken;
        match found {
            Some(i) => {
                proof {
                    lemma_fields_map_update(fields@, i as int, name, value);
                }
                fields.set(i, (name, value));
            },
            None => {
                let mut j: usize = 0;
                while j < fields.len() && name_lt(fields[j].0.as_str(), name.as_str())
                    invariant
                        j <= fields@.len(),
                        forall|k: int|
                            0 <= k < j ==> bytes_lt(
                                encode_utf8(#[trigger] fields@[k].0@),
                                encode_utf8(name@),
                            ),
                    decreases fields@.len() - j,
                {
                    j = j + 1;
                }
                proof {
                    lemma_fields_map_keys(fields@);
                    if j < fields@.len() {
                        assert(fields@[j as int].0@ != name@);
                        encode_utf8_decode_utf8(fields@[j as int].0@);
                        encode_utf8_decode_utf8(name@);
                        lemma_bytes_lt_total(
                            encode_utf8(name@),
                            encode_utf8(fields@[j as int].0@),
                        );
                    }
                    assert forall|k: int| j <= k < fields@.len() implies bytes_lt(
                        encode_utf8(name@),
                        encode_utf8(#[trigger] fields@[k].0@),
                    ) by {
                        if k > j {
                            lemma_bytes_lt_transitive(
                                encode_utf8(name@),
                                encode_utf8(fields@[j as int].0@),
                                encode_utf8(fields@[k].0@),
                            );
                        }
                    }
                    lemma_fields_map_insert(fields@, j as int, name, value);
                }
                fields.insert(j, (name, value));
            },
        }
        *self = JournalEntry { fields };
    }

    /// The bytes of the field `field`.
    pub fn get_field_binary(&self, field: &str) -> (r: Option<&[u8]>)
        ensures
            r is Some <==> self@.contains_key(field@),
            r is Some ==> r->Some_0@ == self@[field@],
    {
        match self.find(field) {
            Some(i) => Some(self.fields[i].1.as_slice()),
            None => None,
        }
    }

    /// The field `field` as text: `Ok(None)` where it is absent, an error
    /// where its bytes are not UTF-8.
    pub fn get_field_string(&self, field: &str) -> (r: Result<Option<&str>, core::str::Utf8Error>)
        ensures
            !self@.contains_key(field@) ==> r == Ok::<Option<&str>, core::str::Utf8Error>(None),
            self@.contains_key(field@) ==> (r is Ok <==> valid_utf8(self@[field@])),
            self@.contains_key(field@) && r is Ok ==> r->Ok_0 is Some && r->Ok_0->Some_0@
                == decode_utf8(self@[field@]),
    {
        match self.find(field) {
            Some(i) => match utf8_str(self.fields[i].1.as_slice()) {
                Ok(s) => Ok(Some(s)),
                Err(e) => Err(e),
            },
            None => Ok(None),
        }
    }

    /// The field `field` as text, with invalid UTF-8 replaced.
    pub fn get_field_string_lossy(&self, field: &str) -> (r: Option<String>)
        ensures
            r is Some <==> self@.contains_key(field@),
            r is Some ==> r->Some_0@ == lossy_text(self@[field@]),
            r is Some && valid_utf8(self@[field@]) ==> r->Some_0@ == decode_utf8(self@[field@]),
    {
        match self.find(field) {
            Some(i) => Some(utf8_lossy(self.fields[i].1.as_slice())),
            None => None,
        }
    }

    /// All fields, as name/value pairs in increasing order of name.
    pub fn get_fields(&self) -> (r: &Vec<(String, Vec<u8>)>)
        ensures
            fields_map(r@) == self@,
            names_unique(r@),
            names_sorted(r@),
    {
        proof {
            use_type_invariant(self);
        }
        &self.fields
    }

    /// The `MESSAGE` field as text.
    pub fn get_message(&self) -> (r: Option<String>)
        ensures
            r is Some <==> self@.contains_key(message_name()),
            r is Some ==> r->Some_0@ == lossy_text(self@[message_name()]),
            r is Some && valid_utf8(self@[message_name()]) ==> r->Some_0@ == decode_utf8(
                self@[message_name()],
            ),
    {
        proof {
            reveal_strlit("MESSAGE");
        }
        assert("MESSAGE"@ =~= message_name());
        self.get_field_string_lossy("MESSAGE")
    }

    /// Sets the `MESSAGE` field to the UTF-8 bytes of `msg`.
    pub fn set_message(&mut self, msg: &str)
        ensures
            final(self)@ == old(self)@.insert(message_name(), encode_utf8(msg@)),
    {
        proof {
            reveal_strlit("MESSAGE");
        }
        let name = String::from_str("MESSAGE");
        assert(name@ =~= message_name());
        let value = slice_to_vec(msg.as_bytes());
        self.set_field(name, value);
    }

    /// The time of the entry: the one its producer gave, else the one the
    /// journal recorded on reception.
    pub fn get_wallclock_time(&self) -> (r: Option<JournalEntryTimestamp>)
        ensures
            r == match timestamp_of(self@, source_realtime_name()) {
                Some(t) => Some(t),
                None => timestamp_of(self@, realtime_name()),
            },
    {
        let source_time = self.get_source_wallclock_time();
        let reception_time = self.get_reception_wallclock_time();
        match source_time {
            Some(t) => Some(t),
            None => reception_time,
        }
    }

    /// The time its producer gave the entry (`_SOURCE_REALTIME_TIMESTAMP`).
    pub fn get_source_wallclock_time(&self) -> (r: Option<JournalEntryTimestamp>)
        ensures
            r == timestamp_of(self@, source_realtime_name()),
    {
        self.timestamp_field("_SOURCE_REALTIME_TIMESTAMP")
    }

    /// The time the journal received the entry (`__REALTIME_TIMESTAMP`).
    pub fn get_reception_wallclock_time(&self) -> (r: Option<JournalEntryTimestamp>)
        ensures
            r == timestamp_of(self@, realtime_name()),
    {
        self.timestamp_field("__REALTIME_TIMESTAMP")
    }

    /// The monotonic time of the entry (`__MONOTONIC_TIMESTAMP`).
    pub fn get_monotonic_time(&self) -> (r: Option<JournalEntryTimestamp>)
        ensures
            r == timestamp_of(self@, monotonic_name()),
    {
        self.timestamp_field("__MONOTONIC_TIMESTAMP")
    }

    fn timestamp_field(&self, name: &str) -> (r: Option<JournalEntryTimestamp>)
        ensures
            r == timestamp_of(self@, name@),
    {
        match self.get_field_string_lossy(name) {
            Some(text) => parse_timestamp(text.as_str()),
            None => None,
        }
    }
}

} // verus!
