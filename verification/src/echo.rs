//! Rendering of an echoed command line (the OSC 133 `;B`..`;C` region) into
//! the final command text, by emulating a single terminal line.

use vstd::prelude::*;

use crate::decimal::{parse_int, parse_int_spec};
use crate::text::{
    decode_lossy, lemma_lossy_of_valid, lemma_trim_idempotent, lemma_trim_spec_shape,
    string_from_chars, trim_chars, trim_spec, utf8_lossy_chars,
};

verus! {

pub open spec fn is_csi_final(c: char) -> bool {
    0x40 <= c as u32 && c as u32 <= 0x7e
}

/// First index `>= j` holding a CSI final byte, or `chars.len()`.
pub open spec fn csi_end(chars: Seq<char>, j: int) -> int
    decreases chars.len() - j,
{
    if j >= chars.len() {
        chars.len() as int
    } else if is_csi_final(chars[j]) {
        j
    } else {
        csi_end(chars, j + 1)
    }
}

/// Index just past the BEL or `ESC \` that ends an OSC body starting at `j`,
/// or `chars.len()` when it is unterminated.
pub open spec fn osc_end(chars: Seq<char>, j: int) -> int
    decreases chars.len() - j,
{
    if j >= chars.len() {
        chars.len() as int
    } else if chars[j] == '\x07' {
        j + 1
    } else if chars[j] == '\x1b' && j + 1 < chars.len() && chars[j + 1] == '\\' {
        j + 2
    } else {
        osc_end(chars, j + 1)
    }
}

/// First index `>= from` holding `;`, or `s.len()`.
pub open spec fn next_semi(s: Seq<char>, from: int) -> int
    decreases s.len() - from,
{
    if from >= s.len() {
        s.len() as int
    } else if s[from] == ';' {
        from
    } else {
        next_semi(s, from + 1)
    }
}

/// Bounds of the `n`-th `;`-separated field of `s` counted from the field
/// that starts at `from` (`str::split(';').nth(n)`).
pub open spec fn field_from(s: Seq<char>, from: int, n: nat) -> Option<(int, int)>
    decreases n,
{
    let e = next_semi(s, from);
    if n == 0 {
        Some((from, e))
    } else if e >= s.len() {
        None
    } else {
        field_from(s, e + 1, (n - 1) as nat)
    }
}

/// The bytes of an all-ASCII char sequence.
pub open spec fn ascii_bytes(s: Seq<char>) -> Option<Seq<u8>> {
    if forall|k: int| 0 <= k < s.len() ==> (#[trigger] s[k]) as u32 <= 0x7f {
        Some(Seq::new(s.len(), |k: int| s[k] as u32 as u8))
    } else {
        None
    }
}

/// The `n`-th parameter as a `usize`, or `def` when it is absent or not a
/// number.
pub open spec fn csi_param(params: Seq<char>, n: nat, def: int) -> int {
    match field_from(params, 0, n) {
        Some((a, b)) => match ascii_bytes(params.subrange(a, b)) {
            Some(bytes) => match parse_int_spec(bytes, false, 0, usize::MAX as int) {
                Some(v) => v,
                None => def,
            },
            None => def,
        },
        None => def,
    }
}

pub open spec fn sat_sub(a: int, b: int) -> int {
    if a >= b {
        a - b
    } else {
        0
    }
}

pub open spec fn sat_add(a: int, b: int) -> int {
    if a + b > usize::MAX {
        usize::MAX as int
    } else {
        a + b
    }
}

pub open spec fn max1(v: int) -> int {
    if v >= 1 {
        v
    } else {
        1
    }
}

pub open spec fn min_int(a: int, b: int) -> int {
    if a <= b {
        a
    } else {
        b
    }
}

/// `line` with the chars in `[lo, hi)` blanked.
pub open spec fn blank_range(line: Seq<char>, lo: int, hi: int) -> Seq<char> {
    Seq::new(line.len(), |k: int| if lo <= k < hi { ' ' } else { line[k] })
}

/// The effect of a CSI sequence with final `fin` on the line and column.
pub open spec fn echo_csi(line: Seq<char>, col: int, fin: char, params: Seq<char>) -> (Seq<
    char,
>, int) {
    if fin == 'H' || fin == 'f' {
        (line, sat_sub(csi_param(params, 1, 1), 1))
    } else if fin == 'G' {
        (line, sat_sub(csi_param(params, 0, 1), 1))
    } else if fin == 'C' {
        (line, sat_add(col, max1(csi_param(params, 0, 1))))
    } else if fin == 'D' {
        (line, sat_sub(col, max1(csi_param(params, 0, 1))))
    } else if fin == 'K' {
        let mode = csi_param(params, 0, 0);
        if mode == 0 {
            (line.take(min_int(col, line.len() as int)), col)
        } else if mode == 2 {
            (Seq::empty(), col)
        } else {
            (blank_range(line, 0, col), col)
        }
    } else if fin == 'X' {
        let end = min_int(sat_add(col, max1(csi_param(params, 0, 1))), line.len() as int);
        (blank_range(line, col, end), col)
    } else {
        (line, col)
    }
}

/// Writes printable `c` at `col`, padding with spaces up to it.
pub open spec fn echo_put(line: Seq<char>, col: int, c: char) -> Seq<char> {
    let padded = if line.len() < col {
        line + Seq::new((col - line.len()) as nat, |k: int| ' ')
    } else {
        line
    };
    if col < padded.len() {
        padded.update(col, c)
    } else {
        padded.push(c)
    }
}

/// One emulation step at `i`: the next index, line and column, and whether
/// the emulation stops (an unterminated CSI).
pub open spec fn echo_step(chars: Seq<char>, i: int, line: Seq<char>, col: int) -> (
    int,
    Seq<char>,
    int,
    bool,
) {
    let c = chars[i];
    if c == '\x1b' {
        let i1 = i + 1;
        if i1 < chars.len() && chars[i1] == '[' {
            let ps = i1 + 1;
            let k = csi_end(chars, ps);
            if k >= chars.len() {
                (k, line, col, true)
            } else {
                let (l2, c2) = echo_csi(line, col, chars[k], chars.subrange(ps, k));
                (k + 1, l2, c2, false)
            }
        } else if i1 < chars.len() && chars[i1] == ']' {
            (osc_end(chars, i1 + 1), line, col, false)
        } else {
            (i1 + 1, line, col, false)
        }
    } else if c == '\r' {
        (i + 1, line, 0, false)
    } else if c == '\x08' {
        (i + 1, line, sat_sub(col, 1), false)
    } else if c as u32 >= 0x20 {
        (i + 1, echo_put(line, col, c), col + 1, false)
    } else {
        (i + 1, line, col, false)
    }
}

proof fn lemma_csi_end_bounds(chars: Seq<char>, j: int)
    requires
        0 <= j,
    ensures
        j <= csi_end(chars, j) || (j > chars.len() && csi_end(chars, j) == chars.len()),
        csi_end(chars, j) <= chars.len(),
        csi_end(chars, j) < chars.len() ==> is_csi_final(chars[csi_end(chars, j)]),
        forall|k: int| j <= k < csi_end(chars, j) ==> !is_csi_final(#[trigger] chars[k]),
    decreases chars.len() - j,
{
    if j < chars.len() && !is_csi_final(chars[j]) {
        lemma_csi_end_bounds(chars, j + 1);
    }
}

proof fn lemma_osc_end_bounds(chars: Seq<char>, j: int)
    requires
        0 <= j,
    ensures
        osc_end(chars, j) <= chars.len() || osc_end(chars, j) == j,
        osc_end(chars, j) > j || j >= chars.len(),
        osc_end(chars, j) <= chars.len() + 0 || j >= chars.len(),
    decreases chars.len() - j,
{
    if j < chars.len() && chars[j] != '\x07' && !(chars[j] == '\x1b' && j + 1 < chars.len()
        && chars[j + 1] == '\\') {
        lemma_osc_end_bounds(chars, j + 1);
    }
}

proof fn lemma_echo_step_progress(chars: Seq<char>, i: int, line: Seq<char>, col: int)
    requires
        0 <= i < chars.len(),
    ensures
        echo_step(chars, i, line, col).0 > i,
{
    let c = chars[i];
    if c == '\x1b' {
        let i1 = i + 1;
        if i1 < chars.len() && chars[i1] == '[' {
            lemma_csi_end_bounds(chars, i1 + 1);
        } else if i1 < chars.len() && chars[i1] == ']' {
            lemma_osc_end_bounds(chars, i1 + 1);
        }
    }
}

/// Erase in line to its end (`ESC [ K`, `ESC [ 0 K`): the cursor stays, no
/// character is left at or past its column, and every character before it
/// is kept as it was.
pub proof fn lemma_erase_to_end_of_line(line: Seq<char>, col: int, params: Seq<char>)
    requires
        params == Seq::<char>::empty() || params == seq!['0'],
        col >= 0,
    ensures
        ({
            let (after, c2) = echo_csi(line, col, 'K', params);
            &&& c2 == col
            &&& after.len() <= col
            &&& after.len() <= line.len()
            &&& forall|k: int| 0 <= k < col && k < line.len() ==> #[trigger] after[k] == line[k]
        }),
{
    assert(next_semi(params, 0) == params.len()) by {
        if params.len() == 1 {
            assert(next_semi(params, 1) == 1);
        }
    }
    let f = params.subrange(0, params.len() as int);
    assert(f =~= params);
    if params.len() == 1 {
        let b = ascii_bytes(f).unwrap();
        assert(b =~= seq![48u8]);
        assert(crate::decimal::all_digits(b));
        assert(b.drop_last() =~= Seq::<u8>::empty());
        assert(crate::decimal::dec_value(b.drop_last()) == 0);
        assert(b.last() == 48u8);
        assert(crate::decimal::dec_value(b) == 0);
    }
    assert(csi_param(params, 0, 0) == 0);
}

/// What each CSI sequence may do to the emulated line: none lengthens it;
/// only erasures (`K`, `X`) change it, and they keep the cursor, only blank
/// or cut characters, and never blank one at or past the cursor for `K`
/// nor one before the cursor for `X` (which blanks the cursor cell itself);
/// cursor forward (`C`) moves right by at least one column unless it
/// saturates, cursor back (`D`) moves left by at least one unless at the
/// first column.
pub proof fn lemma_csi_effects(line: Seq<char>, col: int, fin: char, params: Seq<char>)
    requires
        0 <= col <= usize::MAX,
        line.len() <= usize::MAX,
    ensures
        ({
            let (after, c2) = echo_csi(line, col, fin, params);
            &&& after.len() <= line.len()
            &&& c2 >= 0
            &&& fin != 'K' && fin != 'X' ==> after == line
            &&& (fin == 'K' || fin == 'X') ==> c2 == col
            &&& (fin == 'K' || fin == 'X') ==> forall|k: int|
                0 <= k < after.len() ==> #[trigger] after[k] == line[k] || after[k] == ' '
            &&& fin == 'K' ==> forall|k: int| col <= k < after.len() ==> #[trigger] after[k] == line[k]
            &&& fin == 'X' ==> after.len() == line.len()
            &&& fin == 'X' ==> forall|k: int| 0 <= k < col && k < after.len() ==> #[trigger] after[k] == line[k]
            &&& fin == 'X' && col < line.len() ==> after[col] == ' '
            &&& fin == 'C' ==> c2 > col || c2 == usize::MAX
            &&& fin == 'C' ==> c2 >= col
            &&& fin == 'D' ==> c2 < col || c2 == 0
            &&& fin == 'D' ==> c2 <= col
        }),
{
    let (after, c2) = echo_csi(line, col, fin, params);
    if fin == 'K' {
        let mode = csi_param(params, 0, 0);
        if mode == 0 {
            assert(after == line.take(min_int(col, line.len() as int)));
        } else if mode == 2 {
        } else {
            assert(after == blank_range(line, 0, col));
        }
    } else if fin == 'X' {
        let end = min_int(sat_add(col, max1(csi_param(params, 0, 1))), line.len() as int);
        assert(after == blank_range(line, col, end));
        if col < line.len() {
            assert(col < end);
        }
    }
}

/// A printable character overwrites the cell at the cursor, padding the
/// line with spaces up to it; every other cell keeps its character.
pub proof fn lemma_put_writes_at_cursor(line: Seq<char>, col: int, c: char)
    requires
        col >= 0,
    ensures
        ({
            let r = echo_put(line, col, c);
            &&& r.len() == (if line.len() > col + 1 { line.len() as int } else { col + 1 })
            &&& r[col] == c
            &&& forall|k: int|
                0 <= k < r.len() && k != col ==> #[trigger] r[k] == (if k < line.len() {
                    line[k]
                } else {
                    ' '
                })
        }),
{
}

/// One emulation step on an ordinary character: a printable one is written
/// at the cursor, which then moves one column right; carriage return moves
/// the cursor to the first column and backspace one column left (not past
/// the first), neither touching the line.
pub proof fn lemma_step_on_plain_char(chars: Seq<char>, i: int, line: Seq<char>, col: int)
    requires
        0 <= i < chars.len(),
        col >= 0,
        chars[i] != '\x1b',
    ensures
        ({
            let (i2, l2, c2, stop) = echo_step(chars, i, line, col);
            let c = chars[i];
            &&& i2 == i + 1
            &&& !stop
            &&& c == '\r' ==> l2 == line && c2 == 0
            &&& c == '\x08' ==> l2 == line && c2 == (if col > 0 { col - 1 } else { 0 })
            &&& c != '\r' && c != '\x08' && c as u32 >= 0x20 ==> l2 == echo_put(line, col, c)
                && c2 == col + 1
            &&& (c as u32) < 0x20 && c != '\r' && c != '\x08' ==> l2 == line && c2 == col
        }),
{
}

/// Erase the whole line (`ESC [ 2 K`): nothing is left on it.
pub proof fn lemma_erase_whole_line(line: Seq<char>, col: int)
    ensures
        echo_csi(line, col, 'K', seq!['2']).0.len() == 0,
        echo_csi(line, col, 'K', seq!['2']).1 == col,
{
    let params = seq!['2'];
    assert(next_semi(params, 1) == 1);
    assert(next_semi(params, 0) == 1);
    let f = params.subrange(0, 1);
    assert(f =~= params);
    let b = ascii_bytes(f).unwrap();
    assert(b =~= seq![50u8]);
    assert(crate::decimal::all_digits(b));
    assert(b.drop_last() =~= Seq::<u8>::empty());
    assert(crate::decimal::dec_value(b.drop_last()) == 0);
    assert(b.last() == 50u8);
    assert(crate::decimal::dec_value(b) == 2);
    assert(csi_param(params, 0, 0) == 2);
}

/// The line left after emulating `chars` from index `i`.
pub open spec fn echo_run(chars: Seq<char>, i: int, line: Seq<char>, col: int) -> Seq<char>
    decreases chars.len() - i,
{
    if i < 0 || i >= chars.len() {
        line
    } else {
        let (i2, l2, c2, stop) = echo_step(chars, i, line, col);
        if stop || i2 <= i || i2 >= chars.len() {
            l2
        } else {
            echo_run(chars, i2, l2, c2)
        }
    }
}

/// The command text an echoed command region renders to: the bytes decoded
/// lossily, replayed on one line, then trimmed.
pub open spec fn command_echo_spec(bytes: Seq<u8>) -> Seq<char> {
    trim_spec(echo_run(utf8_lossy_chars(bytes), 0, Seq::empty(), 0))
}

/// Every char of `s` is one that the line emulation writes as it is.
pub open spec fn echo_printable(s: Seq<char>) -> bool {
    forall|k: int| 0 <= k < s.len() ==> (#[trigger] s[k]) as u32 >= 0x20
}

proof fn lemma_echo_csi_printable(line: Seq<char>, col: int, fin: char, params: Seq<char>)
    requires
        echo_printable(line),
        col >= 0,
    ensures
        echo_printable(echo_csi(line, col, fin, params).0),
        echo_csi(line, col, fin, params).1 >= 0,
{
    let r = echo_csi(line, col, fin, params).0;
    assert forall|k: int| 0 <= k < r.len() implies (#[trigger] r[k]) as u32 >= 0x20 by {
        if fin == 'K' && csi_param(params, 0, 0) == 0 {
            assert(r[k] == line[k]);
        }
    }
}

proof fn lemma_echo_put_printable(line: Seq<char>, col: int, c: char)
    requires
        echo_printable(line),
        col >= 0,
        c as u32 >= 0x20,
    ensures
        echo_printable(echo_put(line, col, c)),
{
    let padded = if line.len() < col {
        line + Seq::new((col - line.len()) as nat, |k: int| ' ')
    } else {
        line
    };
    assert(echo_printable(padded));
}

/// The emulated line only ever holds chars at or above U+0020.
proof fn lemma_echo_run_printable(chars: Seq<char>, i: int, line: Seq<char>, col: int)
    requires
        echo_printable(line),
        col >= 0,
    ensures
        echo_printable(echo_run(chars, i, line, col)),
    decreases chars.len() - i,
{
    if 0 <= i < chars.len() {
        let (i2, l2, c2, stop) = echo_step(chars, i, line, col);
        let c = chars[i];
        if c == '\x1b' {
            let i1 = i + 1;
            if i1 < chars.len() && chars[i1] == '[' {
                let k = csi_end(chars, i1 + 1);
                if k < chars.len() {
                    lemma_echo_csi_printable(line, col, chars[k], chars.subrange(i1 + 1, k));
                }
            }
        } else if c != '\r' && c != '\x08' && c as u32 >= 0x20 {
            lemma_echo_put_printable(line, col, c);
        }
        if !(stop || i2 <= i || i2 >= chars.len()) {
            lemma_echo_run_printable(chars, i2, l2, c2);
        }
    }
}

/// Replaying a line of printable chars from column `i`, with its first `i`
/// chars already written, writes the rest of it.
proof fn lemma_echo_run_identity(r: Seq<char>, i: int)
    requires
        echo_printable(r),
        0 <= i <= r.len(),
    ensures
        echo_run(r, i, r.take(i), i) == r,
    decreases r.len() - i,
{
    if i == r.len() {
        assert(r.take(i) =~= r);
    } else {
        let c = r[i];
        assert(c as u32 >= 0x20);
        assert(echo_put(r.take(i), i, c) =~= r.take(i + 1));
        if i + 1 < r.len() {
            lemma_echo_run_identity(r, i + 1);
        } else {
            assert(r.take(i + 1) =~= r);
        }
    }
}

/// Rendering is idempotent: the UTF-8 bytes of a rendered command line
/// render to that same line.
pub proof fn lemma_command_echo_idempotent(bytes: Seq<u8>)
    ensures
        command_echo_spec(vstd::utf8::encode_utf8(command_echo_spec(bytes))) == command_echo_spec(
            bytes,
        ),
{
    let line = echo_run(utf8_lossy_chars(bytes), 0, Seq::empty(), 0);
    lemma_echo_run_printable(utf8_lossy_chars(bytes), 0, Seq::empty(), 0);
    let r = trim_spec(line);
    lemma_trim_spec_shape(line);
    assert(echo_printable(r));
    let enc = vstd::utf8::encode_utf8(r);
    vstd::utf8::encode_utf8_valid_utf8(r);
    vstd::utf8::encode_utf8_decode_utf8(r);
    lemma_lossy_of_valid(enc);
    lemma_echo_run_identity(r, 0);
    assert(r.take(0) =~= Seq::<char>::empty());
    lemma_trim_idempotent(line);
}

fn next_semi_exec(s: &[char], from: usize) -> (e: usize)
    requires
        from <= s@.len(),
    ensures
        e == next_semi(s@, from as int),
        from <= e <= s@.len(),
{
    let mut e = from;
    while e < s.len() && s[e] != ';'
        invariant
            from <= e <= s@.len(),
            next_semi(s@, e as int) == next_semi(s@, from as int),
        decreases s@.len() - e,
    {
        e = e + 1;
    }
    e
}

fn field_bounds(params: &[char], n: usize) -> (r: Option<(usize, usize)>)
    ensures
        r matches Some((a, b)) ==> a <= b <= params@.len(),
        field_from(params@, 0, n as nat) == (match r {
            Some((a, b)) => Some((a as int, b as int)),
            None => None,
        }),
{
    let mut from: usize = 0;
    let mut k: usize = n;
    loop
        invariant
            from <= params@.len(),
            k <= n,
            field_from(params@, from as int, k as nat) == field_from(params@, 0, n as nat),
        decreases k,
    {
        let e = next_semi_exec(params, from);
        if k == 0 {
            return Some((from, e));
        }
        if e >= params.len() {
            return None;
        }
        from = e + 1;
        k = k - 1;
    }
}

fn csi_param_exec(params: &[char], n: usize, def: usize) -> (r: usize)
    ensures
        r == csi_param(params@, n as nat, def as int),
{
    let fb = field_bounds(params, n);
    if fb.is_none() {
        assert(field_from(params@, 0, n as nat) is None);
        return def;
    }
    let (from, e) = fb.unwrap();
    assert(field_from(params@, 0, n as nat) == Some((from as int, e as int)));
    let ghost f = params@.subrange(from as int, e as int);
    let mut bytes: Vec<u8> = Vec::new();
    let mut j: usize = from;
    while j < e
        invariant
            from <= j <= e <= params@.len(),
            f == params@.subrange(from as int, e as int),
            field_from(params@, 0, n as nat) == Some((from as int, e as int)),
            bytes@.len() == j - from,
            forall|q: int| 0 <= q < j - from ==> (#[trigger] f[q]) as u32 <= 0x7f,
            forall|q: int| 0 <= q < j - from ==> bytes@[q] == (#[trigger] f[q]) as u32 as u8,
        decreases e - j,
    {
        let c = params[j];
        assert(f[j - from] == c);
        if c as u32 > 0x7f {
            assert(!(f[j - from] as u32 <= 0x7f));
            assert(ascii_bytes(f) is None);
            assert(csi_param(params@, n as nat, def as int) == def as int);
            return def;
        }
        bytes.push(c as u32 as u8);
        j = j + 1;
    }
    assert(ascii_bytes(f) == Some(bytes@)) by {
        assert(Seq::new(f.len(), |k: int| f[k] as u32 as u8) =~= bytes@);
    }
    match parse_int(bytes.as_slice(), false, 0, usize::MAX as i128) {
        Some(v) => v as usize,
        None => def,
    }
}

fn csi_end_exec(chars: &[char], j: usize) -> (k: usize)
    requires
        j <= chars@.len(),
    ensures
        k == csi_end(chars@, j as int),
        j <= k <= chars@.len(),
{
    let mut i = j;
    while i < chars.len() && !(0x40u32 <= chars[i] as u32 && chars[i] as u32 <= 0x7eu32)
        invariant
            j <= i <= chars@.len(),
            csi_end(chars@, i as int) == csi_end(chars@, j as int),
        decreases chars@.len() - i,
    {
        i = i + 1;
    }
    i
}

fn osc_end_exec(chars: &[char], j: usize) -> (k: usize)
    requires
        j <= chars@.len(),
    ensures
        k == osc_end(chars@, j as int),
        j <= k <= chars@.len(),
        k > j || j == chars@.len(),
{
    let n = chars.len();
    let mut i = j;
    while i < n
        invariant
            j <= i <= n,
            n == chars@.len(),
            osc_end(chars@, i as int) == osc_end(chars@, j as int),
        decreases n - i,
    {
        if chars[i] == '\x07' {
            return i + 1;
        }
        if chars[i] == '\x1b' && i + 1 < n && chars[i + 1] == '\\' {
            return i + 2;
        }
        i = i + 1;
    }
    i
}

fn blank(line: &mut Vec<char>, lo: usize, hi: usize)
    ensures
        final(line)@ == blank_range(old(line)@, lo as int, hi as int),
{
    let n = line.len();
    let mut k: usize = 0;
    while k < n
        invariant
            n == line@.len(),
            n == old(line)@.len(),
            k <= n,
            forall|q: int|
                0 <= q < k ==> line@[q] == (if lo <= q < hi {
                    ' '
                } else {
                    old(line)@[q]
                }),
            forall|q: int| k <= q < n ==> line@[q] == old(line)@[q],
        decreases n - k,
    {
        if lo <= k && k < hi {
            line.set(k, ' ');
        }
        k = k + 1;
    }
    assert(line@ =~= blank_range(old(line)@, lo as int, hi as int));
}

fn apply_csi(line: &mut Vec<char>, col: usize, fin: char, params: &[char]) -> (c2: usize)
    ensures
        (final(line)@, c2 as int) == echo_csi(old(line)@, col as int, fin, params@),
{
    if fin == 'H' || fin == 'f' {
        csi_param_exec(params, 1, 1).saturating_sub(1)
    } else if fin == 'G' {
        csi_param_exec(params, 0, 1).saturating_sub(1)
    } else if fin == 'C' {
        let v = csi_param_exec(params, 0, 1);
        let m = if v >= 1 {
            v
        } else {
            1
        };
        col.saturating_add(m)
    } else if fin == 'D' {
        let v = csi_param_exec(params, 0, 1);
        let m = if v >= 1 {
            v
        } else {
            1
        };
        col.saturating_sub(m)
    } else if fin == 'K' {
        let mode = csi_param_exec(params, 0, 0);
        if mode == 0 {
            if col < line.len() {
                line.truncate(col);
            }
            assert(line@ =~= old(line)@.take(min_int(col as int, old(line)@.len() as int)));
        } else if mode == 2 {
            line.clear();
            assert(line@ =~= Seq::<char>::empty());
        } else {
            blank(line, 0, col);
        }
        col
    } else if fin == 'X' {
        let v = csi_param_exec(params, 0, 1);
        let m = if v >= 1 {
            v
        } else {
            1
        };
        let s = col.saturating_add(m);
        let end = if s <= line.len() {
            s
        } else {
            line.len()
        };
        blank(line, col, end);
        col
    } else {
        col
    }
}

fn put_char(line: &mut Vec<char>, col: usize, c: char)
    ensures
        final(line)@ == echo_put(old(line)@, col as int, c),
        final(line)@.len() > col,
{
    let ghost padded = if old(line)@.len() < col {
        old(line)@ + Seq::new((col - old(line)@.len()) as nat, |k: int| ' ')
    } else {
        old(line)@
    };
    while line.len() < col
        invariant
            old(line)@.len() <= line@.len(),
            old(line)@.len() < col ==> line@.len() <= col,
            line@ =~= padded.take(line@.len() as int),
            old(line)@.len() >= col ==> line@ == old(line)@,
            padded == (if old(line)@.len() < col {
                old(line)@ + Seq::new((col - old(line)@.len()) as nat, |k: int| ' ')
            } else {
                old(line)@
            }),
        decreases col - line@.len(),
    {
        assert(padded[line@.len() as int] == ' ');
        line.push(' ');
    }
    assert(line@ =~= padded);
    if col < line.len() {
        line.set(col, c);
    } else {
        line.push(c);
    }
}

/// The final command line of an echoed command region.
///
/// PSReadLine redraws the input on nearly every keystroke and ConPTY
/// reprojects each redraw at absolute columns, so printables overwrite at the
/// cursor column while CR/CUP/CHA/CUF/CUB move it and EL/ECH erase. Rows are
/// collapsed onto the one line. A column move past `usize::MAX` saturates.
pub fn render_command_echo(bytes: &[u8]) -> (s: String)
    ensures
        s@ == command_echo_spec(bytes@),
{
    let chars = decode_lossy(bytes);
    let cs = chars.as_slice();
    let n = chars.len();
    let mut line: Vec<char> = Vec::new();
    let mut col: usize = 0;
    let mut i: usize = 0;
    let ghost target = echo_run(chars@, 0, Seq::empty(), 0);
    while i < n
        invariant
            n == chars@.len(),
            cs@ == chars@,
            echo_run(chars@, i as int, line@, col as int) == target,
        decreases n + 1 - i,
    {
        proof {
            lemma_echo_step_progress(chars@, i as int, line@, col as int);
        }
        let c = chars[i];
        if c == '\x1b' {
            if i + 1 < n && chars[i + 1] == '[' {
                let ps = i + 2;
                let k = csi_end_exec(cs, ps);
                if k < n {
                    let fin = chars[k];
                    let params = &cs[ps..k];
                    assert(params@ =~= chars@.subrange(ps as int, k as int));
                    col = apply_csi(&mut line, col, fin, params);
                    i = k + 1;
                } else {
                    i = n;
                }
            } else if i + 1 < n && chars[i + 1] == ']' {
                i = osc_end_exec(cs, i + 2);
            } else if i + 1 < n {
                i = i + 2;
            } else {
                i = n;
            }
        } else if c == '\r' {
            col = 0;
            i = i + 1;
        } else if c == '\x08' {
            col = col.saturating_sub(1);
            i = i + 1;
        } else if c as u32 >= 0x20u32 {
            put_char(&mut line, col, c);
            let l = line.len();
            assert(col < l);
            col = col + 1;
            i = i + 1;
        } else {
            i = i + 1;
        }
    }
    let trimmed = trim_chars(line.as_slice());
    string_from_chars(trimmed.as_slice())
}

} // verus!
