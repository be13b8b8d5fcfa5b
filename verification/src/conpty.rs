//! ConPTY resize-echo realignment: CSI scanning of resize repaints and
//! rewriting of their cursor-position (CUP) rows.

use vstd::prelude::*;

use crate::decimal::{
    all_digits, dec_digits, dec_value, is_digit, parse_int, parse_int_spec, push_decimal,
};

verus! {

/// Whether `bytes` looks like typed input that ConPTY may echo back during a
/// resize: 1..=32 printable bytes.
pub open spec fn echo_input_spec(bytes: Seq<u8>) -> bool {
    bytes.len() > 0 && bytes.len() <= 32 && forall|i: int|
        0 <= i < bytes.len() ==> (#[trigger] bytes[i]) >= 0x20 && bytes[i] != 0x7f && bytes[i]
            != 0x1b
}

pub fn is_conpty_resize_echo_input(bytes: &[u8]) -> (r: bool)
    ensures
        r == echo_input_spec(bytes@),
{
    if bytes.len() == 0 || bytes.len() > 32 {
        return false;
    }
    let mut i: usize = 0;
    while i < bytes.len()
        invariant
            i <= bytes@.len(),
            forall|k: int|
                0 <= k < i ==> (#[trigger] bytes@[k]) >= 0x20 && bytes@[k] != 0x7f && bytes@[k]
                    != 0x1b,
        decreases bytes@.len() - i,
    {
        let b = bytes[i];
        if !(b >= 0x20 && b != 0x7f && b != 0x1b) {
            return false;
        }
        i = i + 1;
    }
    true
}

pub open spec fn is_param_byte(b: u8) -> bool {
    is_digit(b) || b == 0x3bu8
}

/// First index `>= j` that is not a digit or `;`, or `b.len()`.
pub open spec fn params_end(b: Seq<u8>, j: int) -> int
    decreases b.len() - j,
{
    if j >= b.len() {
        b.len() as int
    } else if is_param_byte(b[j]) {
        params_end(b, j + 1)
    } else {
        j
    }
}

/// The CSI sequences with digit/`;` parameters in `b` from `i`, as
/// `(start, final)` index pairs: `b[start] = ESC`, `b[start + 1] = '['`, the
/// parameters are `b[start + 2 .. final]`, and `b[final]` is the final byte.
pub open spec fn csi_list(b: Seq<u8>, i: int) -> Seq<(int, int)>
    decreases b.len() - i,
{
    if i < 0 || i >= b.len() {
        Seq::empty()
    } else if b[i] == 0x1bu8 && i + 1 < b.len() && b[i + 1] == 0x5bu8 {
        let fin = params_end(b, i + 2);
        if fin < b.len() && fin >= i + 2 {
            seq![(i, fin)] + csi_list(b, fin + 1)
        } else {
            Seq::empty()
        }
    } else {
        csi_list(b, i + 1)
    }
}

pub open spec fn is_cup(fin: u8) -> bool {
    fin == 0x48u8 || fin == 0x66u8
}

pub open spec fn parse_u16_spec(s: Seq<u8>) -> Option<u16> {
    match parse_int_spec(s, false, 0, 65535) {
        Some(v) => Some(v as u16),
        None => None,
    }
}

/// Index of the first `;` in `p`, or `p.len()`.
pub open spec fn semi_index(p: Seq<u8>, i: int) -> int
    decreases p.len() - i,
{
    if i >= p.len() {
        p.len() as int
    } else if p[i] == 0x3bu8 {
        i
    } else {
        semi_index(p, i + 1)
    }
}

/// `row;col` CUP parameters; either half is `None` when absent or not a
/// `u16`.
pub open spec fn cup_row_col_spec(p: Seq<u8>) -> (Option<u16>, Option<u16>) {
    let i = semi_index(p, 0);
    if i < p.len() {
        (parse_u16_spec(p.take(i)), parse_u16_spec(p.skip(i + 1)))
    } else {
        (parse_u16_spec(p), None)
    }
}

/// The explicit row of the CSI at `(s, f)` if it is a CUP.
pub open spec fn csi_cup_row(b: Seq<u8>, sf: (int, int)) -> Option<u16> {
    if is_cup(b[sf.1]) {
        cup_row_col_spec(b.subrange(sf.0 + 2, sf.1)).0
    } else {
        None
    }
}

pub open spec fn csi_cup_col(b: Seq<u8>, sf: (int, int)) -> Option<u16> {
    if is_cup(b[sf.1]) {
        cup_row_col_spec(b.subrange(sf.0 + 2, sf.1)).1
    } else {
        None
    }
}

/// The row of the last CUP with an explicit row among `l`.
pub open spec fn last_cup_in(b: Seq<u8>, l: Seq<(int, int)>) -> Option<u16>
    decreases l.len(),
{
    if l.len() == 0 {
        None
    } else {
        match csi_cup_row(b, l.last()) {
            Some(r) => Some(r),
            None => last_cup_in(b, l.drop_last()),
        }
    }
}

/// The row of the first CUP with an explicit row among `l`.
pub open spec fn first_cup_in(b: Seq<u8>, l: Seq<(int, int)>) -> Option<u16>
    decreases l.len(),
{
    if l.len() == 0 {
        None
    } else {
        match first_cup_in(b, l.drop_last()) {
            Some(r) => Some(r),
            None => csi_cup_row(b, l.last()),
        }
    }
}

pub open spec fn max_u16(a: u16, b: u16) -> u16 {
    if a >= b {
        a
    } else {
        b
    }
}

pub open spec fn unwrap_or_zero(o: Option<u16>) -> u16 {
    match o {
        Some(v) => v,
        None => 0,
    }
}

/// The maximum CUP row and column among `l` (absent halves count as 0).
pub open spec fn max_cup_in(b: Seq<u8>, l: Seq<(int, int)>) -> (u16, u16)
    decreases l.len(),
{
    if l.len() == 0 {
        (0, 0)
    } else {
        let (r, c) = max_cup_in(b, l.drop_last());
        if is_cup(b[l.last().1]) {
            (
                max_u16(r, unwrap_or_zero(csi_cup_row(b, l.last()))),
                max_u16(c, unwrap_or_zero(csi_cup_col(b, l.last()))),
            )
        } else {
            (r, c)
        }
    }
}

pub open spec fn has_erase_display_in(b: Seq<u8>, l: Seq<(int, int)>) -> bool {
    exists|k: int| 0 <= k < l.len() && b[(#[trigger] l[k]).1] == 0x4au8
}

proof fn lemma_params_end_bounds(b: Seq<u8>, j: int)
    requires
        0 <= j,
    ensures
        params_end(b, j) >= j || j > b.len(),
        params_end(b, j) <= b.len() || j > b.len(),
        params_end(b, j) < b.len() ==> !is_param_byte(b[params_end(b, j)]),
        forall|k: int| j <= k < params_end(b, j) ==> is_param_byte(#[trigger] b[k]),
    decreases b.len() - j,
{
    if j < b.len() && is_param_byte(b[j]) {
        lemma_params_end_bounds(b, j + 1);
    }
}

/// Each pair lies inside `b`, starts with `ESC [` and spans parameter
/// bytes.
proof fn lemma_csi_elem(b: Seq<u8>, i: int, k: int)
    requires
        0 <= i,
        0 <= k < csi_list(b, i).len(),
    ensures
        i <= csi_list(b, i)[k].0,
        csi_list(b, i)[k].0 + 2 <= csi_list(b, i)[k].1 < b.len(),
        b[csi_list(b, i)[k].0] == 0x1bu8,
        forall|q: int|
            csi_list(b, i)[k].0 + 2 <= q < csi_list(b, i)[k].1 ==> is_param_byte(#[trigger] b[q]),
    decreases b.len() - i,
{
    if i < b.len() {
        if b[i] == 0x1bu8 && i + 1 < b.len() && b[i + 1] == 0x5bu8 {
            let fin = params_end(b, i + 2);
            lemma_params_end_bounds(b, i + 2);
            if fin < b.len() && fin >= i + 2 {
                let rest = csi_list(b, fin + 1);
                assert(csi_list(b, i) == seq![(i, fin)] + rest);
                if k > 0 {
                    assert(csi_list(b, i)[k] == rest[k - 1]);
                    lemma_csi_elem(b, fin + 1, k - 1);
                }
            }
        } else {
            lemma_csi_elem(b, i + 1, k);
        }
    }
}

/// The CSI sequences of `bytes`, in order (see `csi_list`).
pub fn csi_sequences(bytes: &[u8]) -> (r: Vec<(usize, usize)>)
    ensures
        r@.len() == csi_list(bytes@, 0).len(),
        forall|k: int|
            0 <= k < r@.len() ==> (#[trigger] r@[k]).0 as int == csi_list(bytes@, 0)[k].0
                && r@[k].1 as int == csi_list(bytes@, 0)[k].1,
{
    let n = bytes.len();
    let mut out: Vec<(usize, usize)> = Vec::new();
    let mut i: usize = 0;
    while i < n
        invariant
            i <= n + 1,
            n == bytes@.len(),
            out@.len() + csi_list(bytes@, i as int).len() == csi_list(bytes@, 0).len(),
            forall|k: int|
                0 <= k < out@.len() ==> (#[trigger] out@[k]).0 as int == csi_list(bytes@, 0)[k].0
                    && out@[k].1 as int == csi_list(bytes@, 0)[k].1,
            forall|k: int|
                0 <= k < csi_list(bytes@, i as int).len() ==> csi_list(bytes@, 0)[out@.len() + k]
                    == #[trigger] csi_list(bytes@, i as int)[k],
        decreases n + 1 - i,
    {
        if bytes[i] == 0x1bu8 && i + 1 < n && bytes[i + 1] == 0x5bu8 {
            let mut fin = i + 2;
            proof {
                lemma_params_end_bounds(bytes@, i + 2);
            }
            while fin < n && ((48u8 <= bytes[fin] && bytes[fin] <= 57u8) || bytes[fin] == 0x3bu8)
                invariant
                    i + 2 <= fin <= n,
                    n == bytes@.len(),
                    params_end(bytes@, fin as int) == params_end(bytes@, i + 2),
                decreases n - fin,
            {
                fin = fin + 1;
            }
            if fin < n {
                let ghost l = csi_list(bytes@, i as int);
                assert(l == seq![(i as int, fin as int)] + csi_list(bytes@, fin + 1));
                assert(l[0] == (i as int, fin as int));
                out.push((i, fin));
                assert forall|k: int| 0 <= k < csi_list(bytes@, fin + 1).len() implies csi_list(
                    bytes@,
                    0,
                )[out@.len() + k] == #[trigger] csi_list(bytes@, fin + 1)[k] by {
                    assert(l[k + 1] == csi_list(bytes@, fin + 1)[k]);
                }
                i = fin + 1;
            } else {
                assert(csi_list(bytes@, i as int).len() == 0);
                i = n;
            }
        } else {
            i = i + 1;
        }
    }
    assert(csi_list(bytes@, i as int).len() == 0);
    out
}


fn parse_u16(s: &[u8]) -> (r: Option<u16>)
    ensures
        r == parse_u16_spec(s@),
{
    match parse_int(s, false, 0, 65535) {
        Some(v) => Some(v as u16),
        None => None,
    }
}

/// Parse `row;col` CUP parameters.
pub fn cup_row_col(params: &[u8]) -> (r: (Option<u16>, Option<u16>))
    ensures
        r == cup_row_col_spec(params@),
{
    let n = params.len();
    let mut i: usize = 0;
    while i < n && params[i] != 0x3bu8
        invariant
            i <= n,
            n == params@.len(),
            semi_index(params@, i as int) == semi_index(params@, 0),
        decreases n - i,
    {
        i = i + 1;
    }
    if i < n {
        let a = &params[0..i];
        let b = &params[i + 1..n];
        assert(a@ =~= params@.take(i as int));
        assert(b@ =~= params@.skip(i + 1));
        (parse_u16(a), parse_u16(b))
    } else {
        (parse_u16(params), None)
    }
}

fn cup_row_at(bytes: &[u8], s: usize, f: usize) -> (r: Option<u16>)
    requires
        s + 2 <= f < bytes@.len(),
    ensures
        r == csi_cup_row(bytes@, (s as int, f as int)),
{
    if bytes[f] == 0x48u8 || bytes[f] == 0x66u8 {
        let p = &bytes[s + 2..f];
        assert(p@ =~= bytes@.subrange(s + 2, f as int));
        cup_row_col(p).0
    } else {
        None
    }
}

proof fn lemma_take_push<A>(l: Seq<A>, k: int)
    requires
        0 <= k < l.len(),
    ensures
        l.take(k + 1).drop_last() == l.take(k),
        l.take(k + 1).last() == l[k],
        l.take(k + 1).len() == k + 1,
{
    assert(l.take(k + 1).drop_last() =~= l.take(k));
}

/// The row of the last CUP (`CSI row;col H/f`) in `bytes`: ConPTY's cursor
/// row after a redraw. `None` if no CUP has an explicit row.
pub fn last_cup_row(bytes: &[u8]) -> (r: Option<u16>)
    ensures
        r == last_cup_in(bytes@, csi_list(bytes@, 0)),
{
    let seqs = csi_sequences(bytes);
    let ghost l = csi_list(bytes@, 0);
    let mut last: Option<u16> = None;
    let mut k: usize = 0;
    while k < seqs.len()
        invariant
            k <= seqs@.len(),
            seqs@.len() == l.len(),
            l == csi_list(bytes@, 0),
            forall|q: int|
                0 <= q < seqs@.len() ==> (#[trigger] seqs@[q]).0 as int == l[q].0 && seqs@[q].1
                    as int == l[q].1,
            last == last_cup_in(bytes@, l.take(k as int)),
        decreases seqs@.len() - k,
    {
        let (s, f) = seqs[k];
        proof {
            lemma_csi_elem(bytes@, 0, k as int);
            lemma_take_push(l, k as int);
        }
        match cup_row_at(bytes, s, f) {
            Some(r) => {
                last = Some(r);
            },
            None => {},
        }
        k = k + 1;
    }
    assert(l.take(k as int) =~= l);
    last
}

fn first_cup_row(bytes: &[u8]) -> (r: Option<u16>)
    ensures
        r == first_cup_in(bytes@, csi_list(bytes@, 0)),
{
    let seqs = csi_sequences(bytes);
    let ghost l = csi_list(bytes@, 0);
    let mut first: Option<u16> = None;
    let mut k: usize = 0;
    while k < seqs.len()
        invariant
            k <= seqs@.len(),
            seqs@.len() == l.len(),
            l == csi_list(bytes@, 0),
            forall|q: int|
                0 <= q < seqs@.len() ==> (#[trigger] seqs@[q]).0 as int == l[q].0 && seqs@[q].1
                    as int == l[q].1,
            first == first_cup_in(bytes@, l.take(k as int)),
        decreases seqs@.len() - k,
    {
        let (s, f) = seqs[k];
        proof {
            lemma_csi_elem(bytes@, 0, k as int);
            lemma_take_push(l, k as int);
        }
        if first.is_none() && (bytes[f] == 0x48u8 || bytes[f] == 0x66u8) {
            first = cup_row_at(bytes, s, f);
        }
        k = k + 1;
    }
    assert(l.take(k as int) =~= l);
    first
}

/// The maximum row and column (both 1-based) addressed by any CUP in
/// `bytes`; `(0, 0)` if there is none.
pub fn max_cup_row_col(bytes: &[u8]) -> (r: (u16, u16))
    ensures
        r == max_cup_in(bytes@, csi_list(bytes@, 0)),
{
    let seqs = csi_sequences(bytes);
    let ghost l = csi_list(bytes@, 0);
    let mut max_row: u16 = 0;
    let mut max_col: u16 = 0;
    let mut k: usize = 0;
    while k < seqs.len()
        invariant
            k <= seqs@.len(),
            seqs@.len() == l.len(),
            l == csi_list(bytes@, 0),
            forall|q: int|
                0 <= q < seqs@.len() ==> (#[trigger] seqs@[q]).0 as int == l[q].0 && seqs@[q].1
                    as int == l[q].1,
            (max_row, max_col) == max_cup_in(bytes@, l.take(k as int)),
        decreases seqs@.len() - k,
    {
        let (s, f) = seqs[k];
        proof {
            lemma_csi_elem(bytes@, 0, k as int);
            lemma_take_push(l, k as int);
        }
        if bytes[f] == 0x48u8 || bytes[f] == 0x66u8 {
            let p = &bytes[s + 2..f];
            assert(p@ =~= bytes@.subrange(s + 2, f as int));
            let (row, col) = cup_row_col(p);
            let rv = match row {
                Some(v) => v,
                None => 0,
            };
            let cv = match col {
                Some(v) => v,
                None => 0,
            };
            if rv > max_row {
                max_row = rv;
            }
            if cv > max_col {
                max_col = cv;
            }
        }
        k = k + 1;
    }
    assert(l.take(k as int) =~= l);
    (max_row, max_col)
}

pub fn contains_csi_erase_display(bytes: &[u8]) -> (r: bool)
    ensures
        r == has_erase_display_in(bytes@, csi_list(bytes@, 0)),
{
    let seqs = csi_sequences(bytes);
    let ghost l = csi_list(bytes@, 0);
    let mut k: usize = 0;
    while k < seqs.len()
        invariant
            k <= seqs@.len(),
            seqs@.len() == l.len(),
            l == csi_list(bytes@, 0),
            forall|q: int|
                0 <= q < seqs@.len() ==> (#[trigger] seqs@[q]).0 as int == l[q].0 && seqs@[q].1
                    as int == l[q].1,
            forall|q: int| 0 <= q < k ==> bytes@[(#[trigger] l[q]).1] != 0x4au8,
        decreases seqs@.len() - k,
    {
        let (s, f) = seqs[k];
        proof {
            lemma_csi_elem(bytes@, 0, k as int);
        }
        if bytes[f] == 0x4au8 {
            assert(bytes@[l[k as int].1] == 0x4au8);
            return true;
        }
        k = k + 1;
    }
    false
}

/// Rows to scroll up so the engine's prompt row matches ConPTY's repaint,
/// with the repaint's cursor row (0-based): `None` without a CUP, when the
/// repaint does not answer the latched resize, or when nothing to push.
pub open spec fn su_realign_spec(
    repaint: Seq<u8>,
    r_ghostty: u16,
    latched_cols: u16,
    latched_rows: u16,
    engine_cols: u16,
    engine_rows: u16,
) -> Option<(u16, u16)> {
    match last_cup_in(repaint, csi_list(repaint, 0)) {
        None => None,
        Some(last) => {
            let r_conpty: int = if last >= 1 {
                last - 1
            } else {
                0
            };
            let (max_row, max_col) = max_cup_in(repaint, csi_list(repaint, 0));
            let fits = engine_cols == latched_cols && engine_rows == latched_rows && max_row
                <= latched_rows && max_col <= latched_cols;
            if !fits || r_ghostty <= r_conpty {
                None
            } else {
                Some(((r_ghostty - r_conpty) as u16, r_conpty as u16))
            }
        },
    }
}

pub fn su_realign_count(
    repaint: &[u8],
    r_ghostty: u16,
    latched_cols: u16,
    latched_rows: u16,
    engine_cols: u16,
    engine_rows: u16,
) -> (r: Option<(u16, u16)>)
    ensures
        r == su_realign_spec(
            repaint@,
            r_ghostty,
            latched_cols,
            latched_rows,
            engine_cols,
            engine_rows,
        ),
{
    let last = match last_cup_row(repaint) {
        Some(v) => v,
        None => {
            return None;
        },
    };
    let r_conpty = last.saturating_sub(1);
    let (max_row, max_col) = max_cup_row_col(repaint);
    let fits = engine_cols == latched_cols && engine_rows == latched_rows && max_row
        <= latched_rows && max_col <= latched_cols;
    if !fits || r_ghostty <= r_conpty {
        return None;
    }
    let d = r_ghostty - r_conpty;
    let n = if d < r_ghostty {
        d
    } else {
        r_ghostty
    };
    if n > 0 {
        Some((n, r_conpty))
    } else {
        None
    }
}

/// Whether `bytes` is ConPTY's resize repaint of the input line: at most
/// 512 bytes without line breaks, erasing the display, whose first CUP row
/// differs from the target row.
pub open spec fn resize_repaint_spec(bytes: Seq<u8>, target_row_1based: u16) -> bool {
    &&& target_row_1based != 0
    &&& bytes.len() > 0
    &&& bytes.len() <= 512
    &&& forall|i: int| 0 <= i < bytes.len() ==> (#[trigger] bytes[i]) != 0x0du8 && bytes[i] != 0x0au8
    &&& has_erase_display_in(bytes, csi_list(bytes, 0))
    &&& (first_cup_in(bytes, csi_list(bytes, 0)) matches Some(row) && row != target_row_1based)
}

pub fn is_conpty_resize_repaint(bytes: &[u8], target_row_1based: u16) -> (r: bool)
    ensures
        r == resize_repaint_spec(bytes@, target_row_1based),
{
    if target_row_1based == 0 || bytes.len() == 0 || bytes.len() > 512 {
        return false;
    }
    let mut i: usize = 0;
    while i < bytes.len()
        invariant
            i <= bytes@.len(),
            forall|k: int| 0 <= k < i ==> (#[trigger] bytes@[k]) != 0x0du8 && bytes@[k] != 0x0au8,
        decreases bytes@.len() - i,
    {
        if bytes[i] == 0x0du8 || bytes[i] == 0x0au8 {
            return false;
        }
        i = i + 1;
    }
    if !contains_csi_erase_display(bytes) {
        return false;
    }
    match first_cup_row(bytes) {
        Some(row) => row != target_row_1based,
        None => false,
    }
}


/// Consecutive CSI sequences do not overlap.
proof fn lemma_csi_order(b: Seq<u8>, i: int, k: int)
    requires
        0 <= i,
        0 <= k,
        k + 1 < csi_list(b, i).len(),
    ensures
        csi_list(b, i)[k].1 < csi_list(b, i)[k + 1].0,
    decreases b.len() - i,
{
    if i < b.len() {
        if b[i] == 0x1bu8 && i + 1 < b.len() && b[i + 1] == 0x5bu8 {
            let fin = params_end(b, i + 2);
            lemma_params_end_bounds(b, i + 2);
            if fin < b.len() && fin >= i + 2 {
                let rest = csi_list(b, fin + 1);
                assert(csi_list(b, i) == seq![(i, fin)] + rest);
                assert(csi_list(b, i)[k + 1] == rest[k]);
                if k == 0 {
                    lemma_csi_elem(b, fin + 1, 0);
                } else {
                    assert(csi_list(b, i)[k] == rest[k - 1]);
                    lemma_csi_order(b, fin + 1, k - 1);
                }
            }
        } else {
            lemma_csi_order(b, i + 1, k);
        }
    }
}

/// `(row + delta).max(1) as u16`.
pub open spec fn shifted_row(row: u16, delta: int) -> u16 {
    let x = row + delta;
    let y = if x >= 1 {
        x
    } else {
        1
    };
    (y % 65536) as u16
}

/// The rewrite of the CUPs among `l`: the output so far and how much of
/// `b` it has copied.
pub open spec fn rewrite_fold(b: Seq<u8>, delta: int, l: Seq<(int, int)>) -> (Seq<u8>, int)
    decreases l.len(),
{
    if l.len() == 0 {
        (Seq::empty(), 0)
    } else {
        let (out, copied) = rewrite_fold(b, delta, l.drop_last());
        let sf = l.last();
        match csi_cup_row(b, sf) {
            Some(row) => {
                let nr = shifted_row(row, delta);
                if nr == row {
                    (out, copied)
                } else {
                    let params = b.subrange(sf.0 + 2, sf.1);
                    let re = semi_index(params, 0);
                    (
                        out + b.subrange(copied, sf.0) + seq![0x1bu8, 0x5bu8] + dec_digits(
                            nr as nat,
                        ) + params.skip(re) + seq![b[sf.1]],
                        sf.1 + 1,
                    )
                }
            },
            None => (out, copied),
        }
    }
}

/// ConPTY positions the cursor with the last CUP of a redraw: shift every
/// CUP row by the distance from that row to the target row, preserving the
/// rows of a wrapped redraw. `None` when nothing changes.
pub open spec fn rewrite_spec(b: Seq<u8>, target_row_1based: u16) -> Option<Seq<u8>> {
    if target_row_1based == 0 {
        None
    } else {
        match last_cup_in(b, csi_list(b, 0)) {
            None => None,
            Some(last) => {
                let delta = target_row_1based - last;
                if delta == 0 {
                    None
                } else {
                    let (out, copied) = rewrite_fold(b, delta, csi_list(b, 0));
                    if copied == 0 {
                        None
                    } else {
                        Some(out + b.skip(copied))
                    }
                }
            },
        }
    }
}

pub fn rewrite_conpty_resize_echo_cup_rows(bytes: &[u8], target_row_1based: u16) -> (r: Option<
    Vec<u8>,
>)
    ensures
        match r {
            Some(v) => rewrite_spec(bytes@, target_row_1based) == Some(v@),
            None => rewrite_spec(bytes@, target_row_1based) is None,
        },
{
    if target_row_1based == 0 {
        return None;
    }
    let conpty_cursor_row = match last_cup_row(bytes) {
        Some(v) => v,
        None => {
            return None;
        },
    };
    let delta: i32 = target_row_1based as i32 - conpty_cursor_row as i32;
    if delta == 0 {
        return None;
    }
    let seqs = csi_sequences(bytes);
    let ghost l = csi_list(bytes@, 0);
    let mut out: Vec<u8> = Vec::new();
    let mut copied: usize = 0;
    let mut k: usize = 0;
    proof {
        if l.len() > 0 {
            lemma_csi_elem(bytes@, 0, 0);
        }
    }
    while k < seqs.len()
        invariant
            k <= seqs@.len(),
            seqs@.len() == l.len(),
            l == csi_list(bytes@, 0),
            -65535 <= delta <= 65535,
            forall|q: int|
                0 <= q < seqs@.len() ==> (#[trigger] seqs@[q]).0 as int == l[q].0 && seqs@[q].1
                    as int == l[q].1,
            (out@, copied as int) == rewrite_fold(bytes@, delta as int, l.take(k as int)),
            copied <= bytes@.len(),
            k < l.len() ==> copied <= l[k as int].0,
        decreases seqs@.len() - k,
    {
        let (s, f) = seqs[k];
        proof {
            lemma_csi_elem(bytes@, 0, k as int);
            lemma_take_push(l, k as int);
            if k + 1 < l.len() {
                lemma_csi_order(bytes@, 0, k as int);
                lemma_csi_elem(bytes@, 0, k + 1);
            }
        }
        match cup_row_at(bytes, s, f) {
            Some(row) => {
                let x: i32 = row as i32 + delta;
                let y: i32 = if x >= 1 {
                    x
                } else {
                    1
                };
                let new_row: u16 = (y % 65536) as u16;
                if new_row != row {
                    let params = &bytes[s + 2..f];
                    assert(params@ =~= bytes@.subrange(s + 2, f as int));
                    let pn = params.len();
                    let mut re: usize = 0;
                    while re < pn && params[re] != 0x3bu8
                        invariant
                            re <= pn,
                            pn == params@.len(),
                            semi_index(params@, re as int) == semi_index(params@, 0),
                        decreases pn - re,
                    {
                        re = re + 1;
                    }
                    let ghost out0 = out@;
                    out.extend_from_slice(&bytes[copied..s]);
                    out.push(0x1bu8);
                    out.push(0x5bu8);
                    push_decimal(&mut out, new_row as u64);
                    out.extend_from_slice(&params[re..pn]);
                    out.push(bytes[f]);
                    assert(out@ =~= out0 + bytes@.subrange(copied as int, s as int) + seq![
                        0x1bu8,
                        0x5bu8,
                    ] + dec_digits(new_row as nat) + params@.skip(re as int) + seq![
                        bytes@[f as int],
                    ]);
                    copied = f + 1;
                }
            },
            None => {},
        }
        k = k + 1;
    }
    assert(l.take(k as int) =~= l);
    if copied == 0 {
        return None;
    }
    let tail = &bytes[copied..bytes.len()];
    assert(tail@ =~= bytes@.skip(copied as int));
    out.extend_from_slice(tail);
    Some(out)
}

} // verus!
