//! Small pieces of the PTY pipe: the engine's scrollback budget, the path
//! in an OSC 7 working-directory report, and the escaped form of raw PTY
//! bytes in traces.

use vstd::prelude::*;
use vstd::string::StrSliceExecFns;

use crate::text::string_from_chars;

verus! {

/// Engine memory per scrollback cell, in bytes.
pub const BYTES_PER_CELL: usize = 16;

pub open spec fn sat_usize(v: int) -> usize {
    if v > usize::MAX {
        usize::MAX
    } else {
        v as usize
    }
}

/// The engine scrollback budget for `lines` lines of `cols` columns:
/// proportional to lines × cols, 0 lines → 0; saturating.
pub fn scrollback_bytes(lines: usize, cols: u16) -> (n: usize)
    ensures
        n == sat_usize(sat_usize(lines * cols) * BYTES_PER_CELL),
{
    let cells = match lines.checked_mul(cols as usize) {
        Some(v) => v,
        None => usize::MAX,
    };
    match cells.checked_mul(BYTES_PER_CELL) {
        Some(v) => v,
        None => usize::MAX,
    }
}

/// More lines never shrink the budget, nor does a wider row.
pub proof fn lemma_scrollback_monotone(l1: usize, l2: usize, c1: u16, c2: u16)
    requires
        l1 <= l2,
        c1 <= c2,
    ensures
        sat_usize(sat_usize(l1 * c1) * BYTES_PER_CELL) <= sat_usize(
            sat_usize(l2 * c2) * BYTES_PER_CELL,
        ),
{
    assert(l1 * c1 <= l2 * c2) by (nonlinear_arith)
        requires
            0 <= l1 <= l2,
            0 <= c1 <= c2,
    ;
}

/// The `file://` URI scheme prefix.
pub open spec fn file_scheme() -> Seq<char> {
    seq!['f', 'i', 'l', 'e', ':', '/', '/']
}

/// Index of the first `c` in `s` at or after `i`.
pub open spec fn index_of_from(s: Seq<char>, c: char, i: int) -> Option<int>
    decreases s.len() - i,
{
    if i >= s.len() {
        None
    } else if s[i] == c {
        Some(i)
    } else {
        index_of_from(s, c, i + 1)
    }
}

/// The path in a `file://host/path` working-directory report; a
/// drive-qualified Windows path (`/C:/..`) loses its URI slash. Anything
/// else is taken as a path as it stands.
pub open spec fn pwd_path_spec(pwd: Seq<char>) -> Seq<char> {
    if pwd.len() >= 7 && pwd.take(7) == file_scheme() {
        let rest = pwd.skip(7);
        match index_of_from(rest, '/', 0) {
            Some(slash) => {
                let path = rest.skip(slash);
                if path.len() >= 3 && (path[1] as u32) < 0x80 && path[2] == ':' {
                    path.skip(1)
                } else {
                    path
                }
            },
            None => pwd,
        }
    } else {
        pwd
    }
}

/// The path an OSC 7 report names, as text (the caller makes a path of
/// it).
pub fn pwd_to_path(pwd: &str) -> (r: &str)
    ensures
        r@ == pwd_path_spec(pwd@),
{
    let n = pwd.unicode_len();
    if n < 7 {
        return pwd;
    }
    let scheme = ['f', 'i', 'l', 'e', ':', '/', '/'];
    let mut k: usize = 0;
    while k < 7
        invariant
            n == pwd@.len(),
            n >= 7,
            k <= 7,
            scheme@ == file_scheme(),
            forall|j: int| 0 <= j < k ==> pwd@[j] == file_scheme()[j],
        decreases 7 - k,
    {
        if pwd.get_char(k) != scheme[k] {
            assert(pwd@.take(7)[k as int] != file_scheme()[k as int]);
            return pwd;
        }
        k = k + 1;
    }
    assert(pwd@.take(7) =~= file_scheme());
    let ghost rest = pwd@.skip(7);
    let mut i: usize = 7;
    while i < n
        invariant
            n == pwd@.len(),
            7 <= i <= n,
            rest == pwd@.skip(7),
            pwd@.take(7) == file_scheme(),
            index_of_from(rest, '/', i - 7) == index_of_from(rest, '/', 0),
        decreases n - i,
    {
        if pwd.get_char(i) == '/' {
            let path = pwd.substring_char(i, n);
            assert(path@ =~= rest.skip(i - 7));
            if n - i >= 3 && (path.get_char(1) as u32) < 0x80 && path.get_char(2) == ':' {
                let p = path.substring_char(1, n - i);
                assert(p@ =~= path@.skip(1));
                return p;
            }
            return path;
        }
        i = i + 1;
    }
    pwd
}

/// The printable form of one byte in a trace.
pub open spec fn escape_byte(b: u8) -> Seq<char> {
    if b == 0x1b {
        seq!['<', 'E', 'S', 'C', '>']
    } else if b == 0x0d {
        seq!['<', 'C', 'R', '>']
    } else if b == 0x0a {
        seq!['<', 'L', 'F', '>']
    } else if 0x20 <= b <= 0x7e {
        seq![b as char]
    } else {
        seq!['\\', 'x', hex_digit(b / 16), hex_digit(b % 16)]
    }
}

/// A lower-case hex digit.
pub open spec fn hex_digit(v: u8) -> char {
    if v < 10 {
        (48 + v) as char
    } else {
        (87 + v) as char
    }
}

/// The printable form of `bytes`, byte by byte.
pub open spec fn escape_spec(bytes: Seq<u8>) -> Seq<char>
    decreases bytes.len(),
{
    if bytes.len() == 0 {
        Seq::empty()
    } else {
        escape_spec(bytes.drop_last()) + escape_byte(bytes.last())
    }
}

fn hex(v: u8) -> (c: char)
    requires
        v < 16,
    ensures
        c == hex_digit(v),
{
    if v < 10 {
        (48 + v) as char
    } else {
        (87 + v) as char
    }
}

/// Escape raw PTY bytes for human-readable trace output.
pub fn escape_bytes(bytes: &[u8]) -> (s: String)
    ensures
        s@ == escape_spec(bytes@),
{
    let mut out: Vec<char> = Vec::new();
    let mut i: usize = 0;
    while i < bytes.len()
        invariant
            i <= bytes@.len(),
            out@ == escape_spec(bytes@.take(i as int)),
        decreases bytes@.len() - i,
    {
        let b = bytes[i];
        let ghost before = out@;
        if b == 0x1b {
            out.push('<');
            out.push('E');
            out.push('S');
            out.push('C');
            out.push('>');
        } else if b == 0x0d {
            out.push('<');
            out.push('C');
            out.push('R');
            out.push('>');
        } else if b == 0x0a {
            out.push('<');
            out.push('L');
            out.push('F');
            out.push('>');
        } else if 0x20 <= b && b <= 0x7e {
            out.push(b as char);
        } else {
            out.push('\\');
            out.push('x');
            out.push(hex(b / 16));
            out.push(hex(b % 16));
        }
        proof {
            assert(bytes@.take(i as int + 1).drop_last() =~= bytes@.take(i as int));
            assert(out@ =~= before + escape_byte(b));
        }
        i = i + 1;
    }
    assert(bytes@.take(bytes@.len() as int) =~= bytes@);
    string_from_chars(out.as_slice())
}

} // verus!
