//! UTF-8 validation in one SIMD pass, with the error shape of the standard
//! library's: the length of the valid prefix, and the length of the invalid
//! sequence after it (`None` when the input ended mid-sequence).

use vstd::prelude::*;
use vstd::string::StrSliceExecFns;
use vstd::utf8::{decode_utf8, valid_first_scalar, valid_utf8};

use crate::decimal::{dec_chars, push_decimal_chars, push_str_chars};
use crate::text::{decode_lossy, string_from_chars, utf8_lossy_chars};

verus! {

/// What a UTF-8 validation pass reports.
pub enum Utf8Check {
    /// The whole input is valid UTF-8.
    Valid,
    /// The input is not valid UTF-8; the error is reported at `count`.
    Invalid { count: usize },
}

/// Whether the first UTF-8 error of `bytes` is at `n`: the `n` bytes
/// before it are valid UTF-8 and no well-formed scalar starts at `n`. That
/// is the length of the longest valid prefix, the standard library's
/// `valid_up_to`.
pub open spec fn utf8_error_at(bytes: Seq<u8>, n: int) -> bool {
    &&& 0 <= n < bytes.len()
    &&& valid_utf8(bytes.take(n))
    &&& !valid_first_scalar(bytes.skip(n))
}

/// Validates `bytes` with `simdutf::validate_utf8_with_errors`. The
/// contract claims that it reports success exactly when `bytes` is valid
/// UTF-8, and otherwise the position of the first error: the length of the
/// longest valid prefix (simdutf rewinds to the start of the offending
/// sequence).
#[verifier::external_body]
fn simd_validate(bytes: &[u8]) -> (r: Utf8Check)
    ensures
        (r is Valid) == valid_utf8(bytes@),
        r matches Utf8Check::Invalid { count } ==> utf8_error_at(bytes@, count as int),
{
    let result = simdutf::validate_utf8_with_errors(bytes);
    match result.error {
        simdutf::ErrorCode::Success => Utf8Check::Valid,
        _ => Utf8Check::Invalid { count: result.count },
    }
}

/// Views valid UTF-8 `bytes` as a `&str` (`std::str::from_utf8`).
#[verifier::external_body]
fn str_of_valid(bytes: &[u8]) -> (s: &str)
    requires
        valid_utf8(bytes@),
    ensures
        s@ == decode_utf8(bytes@),
{
    std::str::from_utf8(bytes).unwrap()
}

/// A UTF-8 validation error: a successful prefix length, plus an optional
/// invalid-sequence length (`None` = the input ended mid-sequence and more
/// bytes are needed).
#[derive(Debug, Clone, Copy, PartialEq, Eq, Structural)]
pub struct Utf8Error {
    valid_up_to: usize,
    error_len: Option<usize>,
}

impl Utf8Error {
    pub closed spec fn valid_up_to_spec(&self) -> usize {
        self.valid_up_to
    }

    pub closed spec fn error_len_spec(&self) -> Option<usize> {
        self.error_len
    }

    /// Number of leading bytes that validated.
    pub fn valid_up_to(&self) -> (n: usize)
        ensures
            n == self.valid_up_to_spec(),
    {
        self.valid_up_to
    }

    /// Length of the invalid sequence, or `None` if the input ended
    /// mid-sequence (the caller buffers for the next chunk).
    pub fn error_len(&self) -> (n: Option<usize>)
        ensures
            n == self.error_len_spec(),
    {
        self.error_len
    }

    /// The error as a sentence.
    pub fn to_string(&self) -> (s: String)
        ensures
            s@ == utf8_error_message(*self),
    {
        let mut out: Vec<char> = Vec::new();
        match self.error_len {
            Some(len) => {
                push_str_chars(&mut out, "invalid utf-8 sequence of ");
                push_decimal_chars(&mut out, len as u64);
                push_str_chars(&mut out, " bytes from index ");
                push_decimal_chars(&mut out, self.valid_up_to as u64);
            },
            None => {
                push_str_chars(&mut out, "incomplete utf-8 byte sequence from index ");
                push_decimal_chars(&mut out, self.valid_up_to as u64);
            },
        }
        string_from_chars(out.as_slice())
    }
}

/// The error's description.
pub open spec fn utf8_error_message(e: Utf8Error) -> Seq<char> {
    match e.error_len_spec() {
        Some(len) => "invalid utf-8 sequence of "@ + dec_chars(len as nat) + " bytes from index "@
            + dec_chars(e.valid_up_to_spec() as nat),
        None => "incomplete utf-8 byte sequence from index "@ + dec_chars(
            e.valid_up_to_spec() as nat,
        ),
    }
}

/// `b` has the bit pattern of a continuation byte, `10xxxxxx`.
pub open spec fn is_cont(b: u8) -> bool {
    0x80 <= b <= 0xbf
}

/// Whether `b` may stand at position `i` (1 to 3) of a sequence led by
/// `lead`: the second byte's range depends on the lead (shutting out overlong
/// forms, surrogates and code points past U+10FFFF); later bytes are plain
/// continuation bytes.
pub open spec fn cont_ok(lead: u8, i: int, b: u8) -> bool {
    if i == 1 {
        if lead == 0xe0 {
            0xa0 <= b <= 0xbf
        } else if lead == 0xed {
            0x80 <= b <= 0x9f
        } else if lead == 0xf0 {
            0x90 <= b <= 0xbf
        } else if lead == 0xf4 {
            0x80 <= b <= 0x8f
        } else {
            is_cont(b)
        }
    } else {
        is_cont(b)
    }
}

/// The sequence length a lead byte announces (0 for a byte that cannot
/// lead: ASCII, a continuation, an overlong two-byte lead or an
/// out-of-range lead).
pub open spec fn lead_len(lead: u8) -> int {
    if 0xc2 <= lead <= 0xdf {
        2
    } else if 0xe0 <= lead <= 0xef {
        3
    } else if 0xf0 <= lead <= 0xf4 {
        4
    } else {
        0
    }
}

/// Scanning the `w`-byte sequence at `v` from its byte `i`: `None` when the
/// input ends first, `Some(i)` at the first byte that cannot continue it,
/// and the whole length `w` when every byte fits.
pub open spec fn seq_error_from(bytes: Seq<u8>, v: int, w: int, i: int) -> Option<usize>
    decreases w - i,
{
    if i >= w {
        Some(w as usize)
    } else if v + i >= bytes.len() {
        None
    } else if !cont_ok(bytes[v], i, bytes[v + i]) {
        Some(i as usize)
    } else {
        seq_error_from(bytes, v, w, i + 1)
    }
}

/// The length of the invalid sequence at `v`, as the standard library
/// reports it: one byte for a byte that cannot lead; else the number of
/// bytes before the first one that cannot continue the sequence; else
/// `None` when the input ends before the sequence does.
pub open spec fn error_len_at(bytes: Seq<u8>, v: int) -> Option<usize> {
    if v >= bytes.len() {
        None
    } else {
        let w = lead_len(bytes[v]);
        if w == 0 {
            Some(1)
        } else {
            seq_error_from(bytes, v, w, 1)
        }
    }
}

proof fn lemma_seq_error_from_range(bytes: Seq<u8>, w: int, i: int)
    requires
        1 <= i <= w <= 4,
        w <= bytes.len(),
    ensures
        seq_error_from(bytes, 0, w, i) matches Some(n) ==> 1 <= n <= bytes.len(),
    decreases w - i,
{
    reveal_with_fuel(seq_error_from, 1);
    if i >= w {
        assert(seq_error_from(bytes, 0, w, i) == Some(w as usize));
    } else if !cont_ok(bytes[0], i, bytes[0 + i]) {
        assert(seq_error_from(bytes, 0, w, i) == Some(i as usize));
    } else {
        lemma_seq_error_from_range(bytes, w, i + 1);
        assert(seq_error_from(bytes, 0, w, i) == seq_error_from(bytes, 0, w, i + 1));
    }
}

/// An invalid sequence at the start of `bytes` spans between one byte and
/// all of them.
pub proof fn lemma_error_len_in_range(bytes: Seq<u8>)
    requires
        bytes.len() > 0,
    ensures
        error_len_at(bytes, 0) matches Some(n) ==> 1 <= n <= bytes.len(),
{
    let w = lead_len(bytes[0]);
    if w > 0 {
        assert(w >= 2);
        if w <= bytes.len() {
            lemma_seq_error_from_range(bytes, w, 1);
        } else {
            lemma_seq_error_from_short(bytes, w, 1);
        }
    }
}

proof fn lemma_seq_error_from_short(bytes: Seq<u8>, w: int, i: int)
    requires
        1 <= i <= bytes.len(),
        bytes.len() < w <= 4,
    ensures
        seq_error_from(bytes, 0, w, i) matches Some(n) ==> 1 <= n < bytes.len(),
    decreases w - i,
{
    if i >= bytes.len() {
        assert(seq_error_from(bytes, 0, w, i) is None);
    } else if !cont_ok(bytes[0], i, bytes[0 + i]) {
        assert(seq_error_from(bytes, 0, w, i) == Some(i as usize));
    } else {
        lemma_seq_error_from_short(bytes, w, i + 1);
        assert(seq_error_from(bytes, 0, w, i) == seq_error_from(bytes, 0, w, i + 1));
    }
}

/// The length of the invalid UTF-8 sequence starting at `valid_up_to`.
fn compute_error_len(bytes: &[u8], valid_up_to: usize) -> (r: Option<usize>)
    ensures
        r == error_len_at(bytes@, valid_up_to as int),
{
    if valid_up_to >= bytes.len() {
        return None;
    }
    let lead = bytes[valid_up_to];
    let expected_len: usize = if 0xc2 <= lead && lead <= 0xdf {
        2
    } else if 0xe0 <= lead && lead <= 0xef {
        3
    } else if 0xf0 <= lead && lead <= 0xf4 {
        4
    } else {
        return Some(1);
    };
    let remaining = bytes.len() - valid_up_to;
    let mut i: usize = 1;
    while i < expected_len
        invariant
            1 <= i <= expected_len <= 4,
            valid_up_to < bytes@.len() <= usize::MAX,
            expected_len as int == lead_len(lead),
            lead == bytes@[valid_up_to as int],
            remaining == bytes@.len() - valid_up_to,
            seq_error_from(bytes@, valid_up_to as int, expected_len as int, i as int)
                == error_len_at(bytes@, valid_up_to as int),
        decreases expected_len - i,
    {
        if i >= remaining {
            return None;
        }
        let b = bytes[valid_up_to + i];
        let ok = if i == 1 {
            if lead == 0xe0 {
                0xa0 <= b && b <= 0xbf
            } else if lead == 0xed {
                0x80 <= b && b <= 0x9f
            } else if lead == 0xf0 {
                0x90 <= b && b <= 0xbf
            } else if lead == 0xf4 {
                0x80 <= b && b <= 0x8f
            } else {
                0x80 <= b && b <= 0xbf
            }
        } else {
            0x80 <= b && b <= 0xbf
        };
        if !ok {
            return Some(i);
        }
        i = i + 1;
    }
    Some(expected_len)
}

/// The validation result once the pass's report is known: the text when
/// `bytes` is valid, else the error at the reported position.
pub fn validation_result(bytes: &[u8], check: Utf8Check) -> (r: Result<&str, Utf8Error>)
    requires
        (check is Valid) == valid_utf8(bytes@),
    ensures
        match check {
            Utf8Check::Valid => r matches Ok(s) && s@ == decode_utf8(bytes@),
            Utf8Check::Invalid { count } => r matches Err(e) && e.valid_up_to_spec() == count
                && e.error_len_spec() == error_len_at(bytes@, count as int),
        },
{
    match check {
        Utf8Check::Valid => Ok(str_of_valid(bytes)),
        Utf8Check::Invalid { count } => Err(
            Utf8Error { valid_up_to: count, error_len: compute_error_len(bytes, count) },
        ),
    }
}

/// Validate `bytes` and return the corresponding `&str` on success.
pub fn validate(bytes: &[u8]) -> (r: Result<&str, Utf8Error>)
    ensures
        r is Ok <==> valid_utf8(bytes@),
        r matches Ok(s) ==> s@ == decode_utf8(bytes@),
        r matches Err(e) ==> utf8_error_at(bytes@, e.valid_up_to_spec() as int)
            && e.error_len_spec() == error_len_at(bytes@, e.valid_up_to_spec() as int),
{
    let check = simd_validate(bytes);
    validation_result(bytes, check)
}

/// Same as [`validate`].
pub fn from_utf8_fast(bytes: &[u8]) -> (r: Result<&str, Utf8Error>)
    ensures
        r is Ok <==> valid_utf8(bytes@),
        r matches Ok(s) ==> s@ == decode_utf8(bytes@),
        r matches Err(e) ==> utf8_error_at(bytes@, e.valid_up_to_spec() as int)
            && e.error_len_spec() == error_len_at(bytes@, e.valid_up_to_spec() as int),
{
    validate(bytes)
}

/// Same as [`validate`].
pub fn from_utf8_compat(bytes: &[u8]) -> (r: Result<&str, Utf8Error>)
    ensures
        r is Ok <==> valid_utf8(bytes@),
        r matches Ok(s) ==> s@ == decode_utf8(bytes@),
        r matches Err(e) ==> utf8_error_at(bytes@, e.valid_up_to_spec() as int)
            && e.error_len_spec() == error_len_at(bytes@, e.valid_up_to_spec() as int),
{
    validate(bytes)
}

/// Validate into an owned `String`.
pub fn from_utf8_to_string(bytes: &[u8]) -> (r: Result<String, Utf8Error>)
    ensures
        r is Ok <==> valid_utf8(bytes@),
        r matches Ok(s) ==> s@ == decode_utf8(bytes@),
        r matches Err(e) ==> utf8_error_at(bytes@, e.valid_up_to_spec() as int)
            && e.error_len_spec() == error_len_at(bytes@, e.valid_up_to_spec() as int),
{
    match validate(bytes) {
        Ok(s) => Ok(s.to_owned()),
        Err(e) => Err(e),
    }
}

/// Validate; on failure fall back to lossy decoding.
pub fn from_utf8_lossy_fast(bytes: &[u8]) -> (s: String)
    ensures
        s@ == (if valid_utf8(bytes@) {
            decode_utf8(bytes@)
        } else {
            utf8_lossy_chars(bytes@)
        }),
{
    match validate(bytes) {
        Ok(s) => s.to_owned(),
        Err(_) => {
            let chars = decode_lossy(bytes);
            string_from_chars(chars.as_slice())
        },
    }
}

} // verus!
