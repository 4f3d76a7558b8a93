//! Text conversions used by the entry model: UTF-8 decoding of field bodies,
//! decimal rendering of store-assigned numbers, and decimal parsing of
//! timestamps.
use vstd::prelude::*;
use vstd::utf8::*;

verus! {

/// What `String::from_utf8_lossy` makes of a byte sequence: invalid
/// sequences become U+FFFD replacement characters.
pub uninterp spec fn lossy_text(b: Seq<u8>) -> Seq<char>;

/// Relies on `String::from_utf8_lossy`: the text depends on the bytes alone,
/// and a valid UTF-8 sequence is decoded unchanged.
#[verifier::external_body]
pub(crate) fn utf8_lossy(b: &[u8]) -> (r: String)
    ensures
        r@ == lossy_text(b@),
        valid_utf8(b@) ==> r@ == decode_utf8(b@),
{
    String::from_utf8_lossy(b).into_owned()
}

#[verifier::external_type_specification]
#[verifier::external_body]
pub struct ExUtf8Error(core::str::Utf8Error);

/// Relies on `std::str::from_utf8`: it succeeds exactly on valid UTF-8 and
/// then views the same bytes as text.
#[verifier::external_body]
pub(crate) fn utf8_str(b: &[u8]) -> (r: Result<&str, core::str::Utf8Error>)
    ensures
        r is Ok <==> valid_utf8(b@),
        r is Ok ==> r->Ok_0@ == decode_utf8(b@),
{
    core::str::from_utf8(b)
}

/// The ASCII digit for a value below ten.
pub open spec fn digit_byte(d: nat) -> u8 {
    (48 + d) as u8
}

/// The decimal rendering of `n`, most significant digit first, without
/// leading zeros.
pub open spec fn decimal_digits(n: nat) -> Seq<u8>
    decreases n,
{
    if n < 10 {
        seq![digit_byte(n)]
    } else {
        decimal_digits(n / 10).push(digit_byte(n % 10))
    }
}

/// Renders `n` in decimal as ASCII bytes.
pub fn decimal_bytes(n: u64) -> (r: Vec<u8>)
    ensures
        r@ == decimal_digits(n as nat),
{
    let mut m: u64 = n;
    let mut out: Vec<u8> = Vec::new();
    loop
        invariant_except_break
            decimal_digits(n as nat) == decimal_digits(m as nat) + out@,
        ensures
            decimal_digits(n as nat) == out@,
        decreases m,
    {
        let d: u8 = (m % 10) as u8;
        let old_out = Ghost(out@);
        out.insert(0, 48 + d);
        if m < 10 {
            assert(decimal_digits(m as nat) == seq![digit_byte(m as nat)]);
            assert(out@ =~= decimal_digits(m as nat) + old_out@);
            break;
        }
        assert(decimal_digits(m as nat) == decimal_digits((m / 10) as nat).push(
            digit_byte((m % 10) as nat),
        ));
        assert(decimal_digits(m as nat) + old_out@ =~= decimal_digits((m / 10) as nat)
            + out@);
        m = m / 10;
    }
    out
}

pub open spec fn is_digit(c: char) -> bool {
    '0' <= c && c <= '9'
}

/// The value of a sequence of decimal digits.
pub open spec fn digits_value(s: Seq<char>) -> nat
    decreases s.len(),
{
    if s.len() == 0 {
        0
    } else {
        digits_value(s.drop_last()) * 10 + (s.last() as nat - '0' as nat) as nat
    }
}

pub open spec fn all_digits(s: Seq<char>) -> bool {
    s.len() > 0 && forall|i: int| 0 <= i < s.len() ==> is_digit(#[trigger] s[i])
}

/// Whether the text starts with a sign character.
pub open spec fn has_sign(s: Seq<char>) -> bool {
    s.len() > 0 && (s[0] == '-' || s[0] == '+')
}

/// The digits of a decimal integer, after an optional sign.
pub open spec fn unsigned_part(s: Seq<char>) -> Seq<char> {
    if has_sign(s) {
        s.skip(1)
    } else {
        s
    }
}

/// The signed integer that a decimal text denotes, if it is one: an optional
/// `+` or `-`, then one or more ASCII digits.
pub open spec fn decimal_value(s: Seq<char>) -> Option<int> {
    if all_digits(unsigned_part(s)) {
        if s.len() > 0 && s[0] == '-' {
            Some(-digits_value(unsigned_part(s)))
        } else {
            Some(digits_value(unsigned_part(s)) as int)
        }
    } else {
        None
    }
}

/// What parsing the text as an `i64` yields: its decimal value when that is
/// in range.
pub open spec fn parsed_i64(s: Seq<char>) -> Option<i64> {
    match decimal_value(s) {
        Some(v) => if i64::MIN <= v <= i64::MAX {
            Some(v as i64)
        } else {
            None
        },
        None => None,
    }
}

proof fn lemma_digits_value_prefix(s: Seq<char>, k: int)
    requires
        0 <= k <= s.len(),
        forall|i: int| 0 <= i < s.len() ==> is_digit(#[trigger] s[i]),
    ensures
        digits_value(s.subrange(0, k)) <= digits_value(s),
    decreases s.len() - k,
{
    if k < s.len() {
        lemma_digits_value_prefix(s, k + 1);
        let p = s.subrange(0, k + 1);
        assert(p.drop_last() =~= s.subrange(0, k));
        assert(is_digit(p.last()));
    } else {
        assert(s.subrange(0, k) =~= s);
    }
}

/// Parses a decimal `i64`, with an optional leading sign, as `str::parse`
/// does; `None` where the text is no such number or is out of range.
pub fn parse_i64(s: &str) -> (r: Option<i64>)
    ensures
        r == parsed_i64(s@),
{
    let len = s.unicode_len();
    let mut start: usize = 0;
    let mut negative = false;
    if len > 0 {
        let c = s.get_char(0);
        if c == '-' || c == '+' {
            start = 1;
            negative = c == '-';
        }
    }
    let ghost body = unsigned_part(s@);
    assert(body =~= s@.skip(start as int));
    if start >= len {
        return None;
    }
    // Largest magnitude an i64 can carry: that of i64::MIN.
    let limit: u64 = 9223372036854775808;
    let mut acc: u64 = 0;
    let mut too_big = false;
    let mut i: usize = start;
    while i < len
        invariant
            start <= i <= len,
            len == s@.len(),
            body == s@.skip(start as int),
            body == unsigned_part(s@),
            limit == 9223372036854775808u64,
            negative == (s@.len() > 0 && s@[0] == '-'),
            forall|j: int| 0 <= j < i - start ==> is_digit(#[trigger] body[j]),
            !too_big ==> acc as nat == digits_value(body.subrange(0, i - start)),
            !too_big ==> acc <= limit,
            too_big ==> digits_value(body.subrange(0, i - start)) > limit,
        decreases len - i,
    {
        let c = s.get_char(i);
        if !('0' <= c && c <= '9') {
            assert(s@[i as int] == c);
            assert(body[i - start] == s@[i as int]);
            assert(!is_digit(body[i - start]));
            assert(!all_digits(body));
            assert(decimal_value(s@) is None);
            return None;
        }
        let ghost k = i - start;
        assert(body.subrange(0, k + 1).drop_last() =~= body.subrange(0, k));
        assert(body.subrange(0, k + 1).last() == c);
        let d: u64 = (c as u32 - '0' as u32) as u64;
        assert(d <= 9);
        if !too_big {
            if acc > (limit - d) / 10 {
                too_big = true;
            } else {
                acc = acc * 10 + d;
            }
        } else {
            assert(digits_value(body.subrange(0, k + 1)) >= digits_value(body.subrange(0, k)))
                by (nonlinear_arith)
                requires
                    digits_value(body.subrange(0, k + 1)) == digits_value(body.subrange(0, k))
                        * 10 + d,
            ;
        }
        i = i + 1;
    }
    assert(body.subrange(0, len - start) =~= body);
    assert(all_digits(body));
    if too_big {
        return None;
    }
    if negative {
        if acc == limit {
            Some(-9223372036854775807i64 - 1)
        } else {
            Some(-(acc as i64))
        }
    } else if acc > 9223372036854775807 {
        None
    } else {
        Some(acc as i64)
    }
}

} // verus!
