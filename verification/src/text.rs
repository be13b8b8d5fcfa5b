//! Character-level text helpers shared by the emulators and corpora.

use vstd::prelude::*;
use vstd::string::StrSliceExecFns;
use vstd::utf8::{decode_first_scalar, length_of_first_scalar, pop_first_scalar, valid_first_scalar};

use crate::utf8::{error_len_at, lemma_error_len_in_range};

verus! {

/// What lossy UTF-8 decoding (`String::from_utf8_lossy`) yields for
/// `bytes`: each well-formed scalar decodes to its char; where none starts,
/// one U+FFFD stands for the invalid sequence there, as long as
/// `Utf8Error::error_len` reports it (the rest of the input when the input
/// ends inside a sequence).
pub open spec fn utf8_lossy_chars(bytes: Seq<u8>) -> Seq<char>
    decreases bytes.len(),
{
    if bytes.len() == 0 {
        seq![]
    } else if valid_first_scalar(bytes) {
        proof {
            assert(1 <= length_of_first_scalar(bytes) <= bytes.len());
        }
        seq![decode_first_scalar(bytes) as char] + utf8_lossy_chars(pop_first_scalar(bytes))
    } else {
        let n: int = match error_len_at(bytes, 0) {
            Some(n) => n as int,
            None => bytes.len() as int,
        };
        proof {
            lemma_error_len_in_range(bytes);
        }
        seq!['\u{FFFD}'] + utf8_lossy_chars(bytes.skip(n))
    }
}

/// Decodes `bytes` with `String::from_utf8_lossy`: well-formed scalars
/// decode to their chars and each maximal invalid sequence becomes one
/// U+FFFD.
#[verifier::external_body]
pub(crate) fn decode_lossy(bytes: &[u8]) -> (r: Vec<char>)
    ensures
        r@ == utf8_lossy_chars(bytes@),
        vstd::utf8::valid_utf8(bytes@) ==> r@ == vstd::utf8::decode_utf8(bytes@),
{
    String::from_utf8_lossy(bytes).chars().collect()
}

/// Collects `chars` into a `String` (`String: FromIterator<char>`).
#[verifier::external_body]
pub(crate) fn string_from_chars(chars: &[char]) -> (s: String)
    ensures
        s@ == chars@,
{
    chars.iter().collect()
}

/// Unicode `White_Space`, the property `char::is_whitespace` tests.
pub open spec fn is_white_space(c: char) -> bool {
    let u = c as u32;
    (0x09 <= u && u <= 0x0d) || u == 0x20 || u == 0x85 || u == 0xa0 || u == 0x1680 || (0x2000
        <= u && u <= 0x200a) || u == 0x2028 || u == 0x2029 || u == 0x202f || u == 0x205f || u
        == 0x3000
}

pub fn white_space(c: char) -> (r: bool)
    ensures
        r == is_white_space(c),
{
    let u = c as u32;
    (0x09 <= u && u <= 0x0d) || u == 0x20 || u == 0x85 || u == 0xa0 || u == 0x1680 || (0x2000
        <= u && u <= 0x200a) || u == 0x2028 || u == 0x2029 || u == 0x202f || u == 0x205f || u
        == 0x3000
}

/// Index of the first non-white-space char at or after `i`, or `s.len()`.
pub open spec fn trim_start_index(s: Seq<char>, i: int) -> int
    decreases s.len() - i,
{
    if i >= s.len() {
        s.len() as int
    } else if is_white_space(s[i]) {
        trim_start_index(s, i + 1)
    } else {
        i
    }
}

/// One past the last non-white-space char before `j`, or `lo`.
pub open spec fn trim_end_index(s: Seq<char>, lo: int, j: int) -> int
    decreases j - lo,
{
    if j <= lo {
        lo
    } else if is_white_space(s[j - 1]) {
        trim_end_index(s, lo, j - 1)
    } else {
        j
    }
}

/// `s` without leading and trailing white space (`str::trim`).
pub open spec fn trim_spec(s: Seq<char>) -> Seq<char> {
    let a = trim_start_index(s, 0);
    s.subrange(a, trim_end_index(s, a, s.len() as int))
}

proof fn lemma_trim_start_bounds(s: Seq<char>, i: int)
    requires
        0 <= i <= s.len(),
    ensures
        i <= trim_start_index(s, i) <= s.len(),
        trim_start_index(s, i) < s.len() ==> !is_white_space(s[trim_start_index(s, i)]),
    decreases s.len() - i,
{
    if i < s.len() && is_white_space(s[i]) {
        lemma_trim_start_bounds(s, i + 1);
    }
}

proof fn lemma_trim_end_bounds(s: Seq<char>, lo: int, j: int)
    requires
        lo <= j,
    ensures
        lo <= trim_end_index(s, lo, j) <= j,
        trim_end_index(s, lo, j) > lo ==> !is_white_space(s[trim_end_index(s, lo, j) - 1]),
    decreases j - lo,
{
    if j > lo && is_white_space(s[j - 1]) {
        lemma_trim_end_bounds(s, lo, j - 1);
    }
}

/// `trim_spec(s)` is a slice of `s` that neither starts nor ends with
/// white space.
pub proof fn lemma_trim_spec_shape(s: Seq<char>)
    ensures
        0 <= trim_start_index(s, 0) <= trim_end_index(s, trim_start_index(s, 0), s.len() as int)
            <= s.len(),
        trim_spec(s) == s.subrange(
            trim_start_index(s, 0),
            trim_end_index(s, trim_start_index(s, 0), s.len() as int),
        ),
        trim_spec(s).len() > 0 ==> !is_white_space(trim_spec(s)[0]) && !is_white_space(
            trim_spec(s).last(),
        ),
{
    lemma_trim_start_bounds(s, 0);
    let a = trim_start_index(s, 0);
    lemma_trim_end_bounds(s, a, s.len() as int);
}

/// Trimming twice trims no more than trimming once.
pub proof fn lemma_trim_idempotent(s: Seq<char>)
    ensures
        trim_spec(trim_spec(s)) == trim_spec(s),
{
    lemma_trim_spec_shape(s);
    let t = trim_spec(s);
    if t.len() > 0 {
        assert(trim_start_index(t, 0) == 0);
        assert(trim_end_index(t, 0, t.len() as int) == t.len());
        assert(t.subrange(0, t.len() as int) =~= t);
    } else {
        assert(trim_spec(t) =~= t);
    }
}

/// On well-formed UTF-8, lossy decoding is plain decoding.
pub proof fn lemma_lossy_of_valid(bytes: Seq<u8>)
    requires
        vstd::utf8::valid_utf8(bytes),
    ensures
        utf8_lossy_chars(bytes) == vstd::utf8::decode_utf8(bytes),
    decreases bytes.len(),
{
    if bytes.len() > 0 {
        assert(1 <= length_of_first_scalar(bytes) <= bytes.len());
        lemma_lossy_of_valid(pop_first_scalar(bytes));
    }
}

pub fn trim_chars(s: &[char]) -> (r: Vec<char>)
    ensures
        r@ == trim_spec(s@),
{
    let n = s.len();
    let mut a: usize = 0;
    while a < n && white_space(s[a])
        invariant
            a <= n,
            n == s@.len(),
            trim_start_index(s@, a as int) == trim_start_index(s@, 0),
        decreases n - a,
    {
        a = a + 1;
    }
    let mut b: usize = n;
    proof {
        lemma_trim_start_bounds(s@, 0);
    }
    while b > a && white_space(s[b - 1])
        invariant
            a <= b <= n,
            n == s@.len(),
            a == trim_start_index(s@, 0),
            trim_end_index(s@, a as int, b as int) == trim_end_index(s@, a as int, n as int),
        decreases b - a,
    {
        b = b - 1;
    }
    let mut out: Vec<char> = Vec::new();
    let mut k: usize = a;
    while k < b
        invariant
            a <= k <= b <= n,
            n == s@.len(),
            out@ =~= s@.subrange(a as int, k as int),
        decreases b - k,
    {
        out.push(s[k]);
        k = k + 1;
    }
    out
}


/// Whether `c` occurs in `s`.
pub fn str_contains_char(s: &str, c: char) -> (r: bool)
    ensures
        r == s@.contains(c),
{
    let n = s.unicode_len();
    let mut i: usize = 0;
    while i < n
        invariant
            i <= n,
            n == s@.len(),
            forall|k: int| 0 <= k < i ==> s@[k] != c,
        decreases n - i,
    {
        if s.get_char(i) == c {
            assert(s@[i as int] == c);
            return true;
        }
        i = i + 1;
    }
    false
}

} // verus!
