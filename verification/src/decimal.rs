//! Decimal integer text, read the way Rust's integer `FromStr` reads it.

use vstd::prelude::*;
use vstd::string::StrSliceExecFns;

verus! {

pub open spec fn is_digit(b: u8) -> bool {
    48 <= b <= 57
}

pub open spec fn all_digits(s: Seq<u8>) -> bool {
    forall|i: int| 0 <= i < s.len() ==> is_digit(#[trigger] s[i])
}

/// The value of a run of decimal digits (most significant first).
pub open spec fn dec_value(s: Seq<u8>) -> int
    decreases s.len(),
{
    if s.len() == 0 {
        0
    } else {
        dec_value(s.drop_last()) * 10 + (s.last() - 48)
    }
}

/// The integer that integer parsing yields for `s`, if any: a lone sign is
/// rejected, a leading `+` is skipped, a leading `-` negates for signed
/// types, every remaining byte must be a decimal digit and the value must lie
/// in `[min, max]`.
pub open spec fn parse_int_spec(s: Seq<u8>, signed: bool, min: int, max: int) -> Option<int> {
    if s.len() == 0 {
        None
    } else if s.len() == 1 && (s[0] == 43u8 || s[0] == 45u8) {
        None
    } else {
        let neg = s[0] == 45u8 && signed;
        let digits = if s[0] == 43u8 || neg {
            s.drop_first()
        } else {
            s
        };
        if !all_digits(digits) {
            None
        } else {
            let v = if neg {
                -dec_value(digits)
            } else {
                dec_value(digits)
            };
            if min <= v <= max {
                Some(v)
            } else {
                None
            }
        }
    }
}

pub proof fn lemma_dec_value_nonneg(s: Seq<u8>)
    requires
        all_digits(s),
    ensures
        dec_value(s) >= 0,
    decreases s.len(),
{
    if s.len() > 0 {
        assert(all_digits(s.drop_last()));
        lemma_dec_value_nonneg(s.drop_last());
    }
}

/// A longer digit prefix never reads as a smaller value.
pub proof fn lemma_dec_value_prefix_mono(s: Seq<u8>, i: int, j: int)
    requires
        all_digits(s),
        0 <= i <= j <= s.len(),
    ensures
        dec_value(s.take(i)) <= dec_value(s.take(j)),
    decreases j - i,
{
    if i < j {
        lemma_dec_value_prefix_mono(s, i, j - 1);
        let t = s.take(j);
        assert(t.drop_last() =~= s.take(j - 1));
        assert(all_digits(s.take(j - 1)));
        lemma_dec_value_nonneg(s.take(j - 1));
        assert(is_digit(s[j - 1]));
    }
}

/// Parse a decimal integer in `[min, max]`, accepting a sign as
/// `parse_int_spec` describes.
pub fn parse_int(s: &[u8], signed: bool, min: i128, max: i128) -> (r: Option<i128>)
    requires
        min <= 0 <= max,
        max < 0x1_0000_0000_0000_0000_0000i128,
        -0x1_0000_0000_0000_0000_0000i128 < min,
    ensures
        r == (match parse_int_spec(s@, signed, min as int, max as int) {
            Some(v) => Some(v as i128),
            None => None,
        }),
{
    let n = s.len();
    if n == 0 {
        return None;
    }
    if n == 1 && (s[0] == 43u8 || s[0] == 45u8) {
        return None;
    }
    let neg = s[0] == 45u8 && signed;
    let start: usize = if s[0] == 43u8 || neg {
        1
    } else {
        0
    };
    let ghost digits = if s@[0] == 43u8 || neg {
        s@.drop_first()
    } else {
        s@
    };
    assert(digits =~= s@.subrange(start as int, n as int));
    let limit: i128 = if neg {
        -min
    } else {
        max
    };
    let mut acc: i128 = 0;
    let mut i: usize = start;
    let mut over = false;
    while i < n
        invariant
            start <= i <= n,
            n == s@.len(),
            digits =~= s@.subrange(start as int, n as int),
            n >= 1,
            !(n == 1 && (s@[0] == 43u8 || s@[0] == 45u8)),
            neg == (s@[0] == 45u8 && signed),
            digits == (if s@[0] == 43u8 || neg {
                s@.drop_first()
            } else {
                s@
            }),
            limit == (if neg { -min } else { max as int }),
            min <= 0 <= max,
            0 <= limit < 0x1_0000_0000_0000_0000_0000i128,
            all_digits(digits.take(i - start)),
            !over ==> acc == dec_value(digits.take(i - start)),
            !over ==> 0 <= acc <= limit,
            over ==> dec_value(digits.take(i - start)) > limit,
        decreases n - i,
    {
        let b = s[i];
        if !(48u8 <= b && b <= 57u8) {
            assert(digits[i - start] == b);
            assert(!is_digit(digits[i - start]));
            assert(!all_digits(digits));
            assert(parse_int_spec(s@, signed, min as int, max as int) is None);
            return None;
        }
        proof {
            let t = digits.take(i + 1 - start);
            assert(t.drop_last() =~= digits.take(i - start));
            assert(t.last() == b);
            assert(all_digits(t));
            lemma_dec_value_nonneg(digits.take(i - start));
            if over {
                assert(dec_value(t) >= dec_value(digits.take(i - start))) by {
                    lemma_dec_value_prefix_mono(t, i - start, i + 1 - start);
                    assert(t.take(i - start) =~= digits.take(i - start));
                    assert(t.take(i + 1 - start) =~= t);
                }
            }
        }
        if !over {
            let next = acc * 10 + (b - 48u8) as i128;
            if next > limit {
                over = true;
            } else {
                acc = next;
            }
        }
        i = i + 1;
    }
    assert(digits.take(n - start) =~= digits);
    assert(all_digits(digits));
    if over {
        return None;
    }
    if neg {
        Some(-acc)
    } else {
        Some(acc)
    }
}

/// The decimal digits of `v`, most significant first.
pub open spec fn dec_digits(v: nat) -> Seq<u8>
    decreases v,
{
    if v < 10 {
        seq![(48 + v) as u8]
    } else {
        dec_digits(v / 10).push((48 + v % 10) as u8)
    }
}

/// The decimal digits of `v` as chars.
pub open spec fn dec_chars(v: nat) -> Seq<char>
    decreases v,
{
    if v < 10 {
        seq![((48 + v) as u8) as char]
    } else {
        dec_chars(v / 10).push(((48 + v % 10) as u8) as char)
    }
}

/// Appends the decimal digits of `v`.
pub fn push_decimal(out: &mut Vec<u8>, v: u64)
    ensures
        final(out)@ == old(out)@ + dec_digits(v as nat),
    decreases v,
{
    if v >= 10 {
        push_decimal(out, v / 10);
    }
    out.push(48u8 + (v % 10) as u8);
    assert(final(out)@ =~= old(out)@ + dec_digits(v as nat));
}

/// Appends the decimal digits of `v` as chars.
pub fn push_decimal_chars(out: &mut Vec<char>, v: u64)
    ensures
        final(out)@ == old(out)@ + dec_chars(v as nat),
    decreases v,
{
    if v >= 10 {
        push_decimal_chars(out, v / 10);
    }
    let d: u8 = 48u8 + (v % 10) as u8;
    out.push(d as char);
    assert(final(out)@ =~= old(out)@ + dec_chars(v as nat));
}

/// Appends the chars of `s`.
pub fn push_str_chars(out: &mut Vec<char>, s: &str)
    ensures
        final(out)@ == old(out)@ + s@,
{
    let n = s.unicode_len();
    let mut i: usize = 0;
    while i < n
        invariant
            n == s@.len(),
            i <= n,
            out@ == old(out)@ + s@.take(i as int),
        decreases n - i,
    {
        out.push(s.get_char(i));
        assert(s@.take(i as int + 1) =~= s@.take(i as int).push(s@[i as int]));
        i = i + 1;
    }
    assert(s@.take(n as int) =~= s@);
}

} // verus!
