//! A read-only view of the visible grid and the selection boundary searches
//! over it (word, line and bracket), in visible-row coordinates.
//!
//! Boundaries are detected on the visible viewport; a logical line that
//! soft-wraps past the viewport edge clips there.

use vstd::prelude::*;

use crate::cell::{Square, Wide, blank_square, is_spacer_wide};
use crate::pos::{Column, Line, Pos};
use crate::row::Row;
use crate::selection::pos_lt;
use crate::text::str_contains_char;

verus! {

/// The mathematical model of a visible grid: the cells of each row, the
/// width, and per row whether it soft-wraps into the next.
pub struct GridModel {
    pub cells: Seq<Seq<Square>>,
    pub cols: usize,
    pub wrapped: Seq<bool>,
}

impl GridModel {
    pub open spec fn rows_count(&self) -> int {
        self.cells.len() as int
    }

    pub open spec fn width(&self) -> int {
        self.cols as int
    }

    /// Index of the last column (0 for an empty width).
    pub open spec fn last_col_spec(&self) -> int {
        if self.width() > 0 {
            self.width() - 1
        } else {
            0
        }
    }

    /// The cell at `p`; blank outside the rows.
    pub open spec fn cell_at(&self, p: Pos) -> Square {
        if 0 <= p.row.0 < self.cells.len() && p.col.0 < self.cells[p.row.0 as int].len() {
            self.cells[p.row.0 as int][p.col.0 as int]
        } else {
            blank_square()
        }
    }

    /// Whether row `y` soft-wraps into the next row.
    pub open spec fn wrapped_at(&self, y: int) -> bool {
        0 <= y < self.wrapped.len() && self.wrapped[y]
    }

    /// Number of rows that carry a soft-wrap flag.
    pub open spec fn wrapped_len(&self) -> int {
        self.wrapped.len() as int
    }

    pub open spec fn wf(&self) -> bool {
        &&& self.cells.len() <= i32::MAX
        &&& self.wrapped.len() <= i32::MAX
    }

    pub proof fn lemma_wrapped_len(&self, y: int)
        requires
            self.wrapped_at(y),
        ensures
            0 <= y < self.wrapped_len(),
    {
    }

    pub proof fn lemma_wf_bounds(&self)
        requires
            self.wf(),
        ensures
            0 <= self.rows_count() <= i32::MAX,
            0 <= self.width() <= usize::MAX,
            0 <= self.wrapped_len() <= i32::MAX,
    {
    }
}

/// A read-only view of the visible grid: rows of cells, the width, and per
/// row whether it soft-wraps into the next.
pub struct VisibleGrid<'a> {
    rows: &'a [Row<Square>],
    cols: usize,
    wrapped: &'a [bool],
}

/// A `Pos` in visible-row coordinates.
pub fn vpos(row: usize, col: usize) -> (p: Pos)
    requires
        row <= i32::MAX,
    ensures
        p.row.0 == row,
        p.col.0 == col,
{
    Pos::new(Line(row as i32), Column(col))
}

/// The model of a grid made of `rows`, `cols` wide.
pub open spec fn grid_model(rows: Seq<Row<Square>>, cols: usize, wrapped: Seq<bool>) -> GridModel {
    GridModel { cells: rows.map_values(|r: Row<Square>| r.inner@), cols, wrapped }
}

impl<'a> View for VisibleGrid<'a> {
    type V = GridModel;

    closed spec fn view(&self) -> GridModel {
        grid_model(self.rows@, self.cols, self.wrapped@)
    }
}

impl<'a> VisibleGrid<'a> {
    pub open spec fn rows_count(&self) -> int {
        self@.rows_count()
    }

    pub open spec fn width(&self) -> int {
        self@.width()
    }

    pub open spec fn last_col_spec(&self) -> int {
        self@.last_col_spec()
    }

    pub open spec fn cell_at(&self, p: Pos) -> Square {
        self@.cell_at(p)
    }

    pub open spec fn wrapped_at(&self, y: int) -> bool {
        self@.wrapped_at(y)
    }

    pub open spec fn wrapped_len(&self) -> int {
        self@.wrapped_len()
    }

    pub open spec fn wf(&self) -> bool {
        self@.wf()
    }

    pub proof fn lemma_wrapped_len(&self, y: int)
        requires
            self.wrapped_at(y),
        ensures
            0 <= y < self.wrapped_len(),
    {
    }

    pub proof fn lemma_wf_bounds(&self)
        requires
            self.wf(),
        ensures
            0 <= self.rows_count() <= i32::MAX,
            0 <= self.width() <= usize::MAX,
            0 <= self.wrapped_len() <= i32::MAX,
    {
    }

    pub fn new(rows: &'a [Row<Square>], cols: usize, wrapped: &'a [bool]) -> (g: Self)
        requires
            rows@.len() <= i32::MAX,
            wrapped@.len() <= i32::MAX,
        ensures
            g.wf(),
            g@ == grid_model(rows@, cols, wrapped@),
    {
        VisibleGrid { rows, cols, wrapped }
    }

    pub fn cols(&self) -> (c: usize)
        ensures
            c == self.width(),
    {
        self.cols
    }

    pub fn last_col(&self) -> (c: usize)
        ensures
            c == self.last_col_spec(),
    {
        self.cols.saturating_sub(1)
    }

    pub fn rows_len(&self) -> (n: i32)
        requires
            self.wf(),
        ensures
            n == self.rows_count(),
    {
        self.rows.len() as i32
    }

    pub fn cell(&self, p: Pos) -> (s: Square)
        ensures
            s == self.cell_at(p),
    {
        let y = p.row.0;
        if y < 0 {
            return Square::blank();
        }
        let yu = y as usize;
        if yu >= self.rows.len() {
            return Square::blank();
        }
        let row = &self.rows[yu];
        if p.col.0 >= row.inner.len() {
            return Square::blank();
        }
        row.inner[p.col.0]
    }

    /// Whether row `y` soft-wraps into the next row.
    pub fn wrapped(&self, y: i32) -> (w: bool)
        ensures
            w == self.wrapped_at(y as int),
    {
        if y < 0 {
            return false;
        }
        let yu = y as usize;
        if yu < self.wrapped.len() {
            self.wrapped[yu]
        } else {
            false
        }
    }

    /// The cell to the left, wrapping to the previous row. `None` at the
    /// top-left.
    pub fn prev(&self, p: Pos) -> (r: Option<Pos>)
        ensures
            r == prev_spec(self@, p),
    {
        if p.col.0 > 0 {
            Some(Pos::new(p.row, Column(p.col.0 - 1)))
        } else if p.row.0 > 0 {
            Some(Pos::new(Line(p.row.0 - 1), Column(self.last_col())))
        } else {
            None
        }
    }

    /// The cell to the right, wrapping to the next row. `None` at the
    /// bottom-right.
    pub fn next(&self, p: Pos) -> (r: Option<Pos>)
        requires
            self.wf(),
        ensures
            r == next_spec(self@, p),
    {
        if p.col.0 < self.last_col() {
            Some(Pos::new(p.row, Column(p.col.0 + 1)))
        } else if (p.row.0 as i64) + 1 < self.rows_len() as i64 {
            Some(Pos::new(Line(p.row.0 + 1), Column(0)))
        } else {
            None
        }
    }

    pub fn is_spacer(&self, p: Pos) -> (r: bool)
        ensures
            r == is_spacer_at(self@, p),
    {
        let w = self.cell(p).wide();
        match w {
            Wide::Spacer | Wide::LeadingSpacer => true,
            _ => false,
        }
    }
}

pub open spec fn prev_spec(g: GridModel, p: Pos) -> Option<Pos> {
    if p.col.0 > 0 {
        Some(Pos { row: p.row, col: Column((p.col.0 - 1) as usize) })
    } else if p.row.0 > 0 {
        Some(Pos { row: Line((p.row.0 - 1) as i32), col: Column(g.last_col_spec() as usize) })
    } else {
        None
    }
}

pub open spec fn next_spec(g: GridModel, p: Pos) -> Option<Pos> {
    if p.col.0 < g.last_col_spec() {
        Some(Pos { row: p.row, col: Column((p.col.0 + 1) as usize) })
    } else if p.row.0 + 1 < g.rows_count() {
        Some(Pos { row: Line((p.row.0 + 1) as i32), col: Column(0) })
    } else {
        None
    }
}

pub open spec fn is_spacer_at(g: GridModel, p: Pos) -> bool {
    is_spacer_wide(g.cell_at(p).width)
}

/// A hard line break: the last column of a row that does not wrap.
pub open spec fn hard_break_at(g: GridModel, p: Pos) -> bool {
    p.col.0 == g.last_col_spec() && !g.wrapped_at(p.row.0 as int)
}

/// Measure that `prev` decreases.
pub open spec fn back_measure(g: GridModel, p: Pos) -> int {
    (if p.row.0 > 0 {
        p.row.0 as int
    } else {
        0
    }) * (g.last_col_spec() + 1) + p.col.0
}

/// Measure that `next` decreases.
pub open spec fn fwd_measure(g: GridModel, p: Pos) -> int {
    let l = g.last_col_spec();
    let c = if p.col.0 < l + 1 {
        p.col.0 as int
    } else {
        l + 1
    };
    (if g.rows_count() - p.row.0 > 0 {
        g.rows_count() - p.row.0
    } else {
        0
    }) * (l + 2) + (l + 1 - c)
}

pub proof fn lemma_prev_measure(g: GridModel, p: Pos)
    requires
        prev_spec(g, p) is Some,
    ensures
        0 <= back_measure(g, prev_spec(g, p).unwrap()) < back_measure(g, p),
{
    let l = g.last_col_spec();
    let q = prev_spec(g, p).unwrap();
    if p.col.0 == 0 {
        assert(back_measure(g, q) == (p.row.0 - 1) * (l + 1) + l);
        assert(back_measure(g, p) == p.row.0 * (l + 1)) by (nonlinear_arith)
            requires
                back_measure(g, p) == (p.row.0 as int) * (l + 1) + 0,
        ;
        assert((p.row.0 - 1) * (l + 1) + l == p.row.0 * (l + 1) - 1) by (nonlinear_arith);
        assert((p.row.0 - 1) * (l + 1) >= 0) by (nonlinear_arith)
            requires
                p.row.0 >= 1,
                l >= 0,
        ;
    } else {
        let r = if p.row.0 > 0 {
            p.row.0 as int
        } else {
            0
        };
        assert(r * (l + 1) >= 0) by (nonlinear_arith)
            requires
                r >= 0,
                l >= 0,
        ;
    }
}

pub proof fn lemma_next_measure(g: GridModel, p: Pos)
    requires
        next_spec(g, p) is Some,
        g.rows_count() <= i32::MAX,
    ensures
        0 <= fwd_measure(g, next_spec(g, p).unwrap()) < fwd_measure(g, p),
{
    let l = g.last_col_spec();
    let q = next_spec(g, p).unwrap();
    let rc = g.rows_count();
    if p.col.0 < l {
        let r = if rc - p.row.0 > 0 {
            rc - p.row.0
        } else {
            0
        };
        assert(r * (l + 2) >= 0) by (nonlinear_arith)
            requires
                r >= 0,
                l >= 0,
        ;
    } else {
        let a = rc - p.row.0;
        assert(a >= 2);
        assert((a - 1) * (l + 2) + (l + 1) < a * (l + 2)) by (nonlinear_arith)
            requires
                l >= 0,
        ;
        assert((a - 1) * (l + 2) >= 0) by (nonlinear_arith)
            requires
                a >= 1,
                l >= 0,
        ;
        assert(fwd_measure(g, q) == (a - 1) * (l + 2) + (l + 1));
        let c = if p.col.0 < l + 1 {
            p.col.0 as int
        } else {
            l + 1
        };
        assert(fwd_measure(g, p) == a * (l + 2) + (l + 1 - c));
    }
}


/// `p` lies on one of the visible rows.
pub open spec fn in_rows(g: GridModel, p: Pos) -> bool {
    0 <= p.row.0 < g.rows_count()
}

/// Walking left from a cell on a visible row ends on a visible row.
pub proof fn lemma_walk_left_in_rows(g: GridModel, cur: Pos, last: Pos, needles: Seq<char>)
    requires
        in_rows(g, cur),
        in_rows(g, last),
    ensures
        match walk_left(g, cur, last, needles) {
            Ok(p) => in_rows(g, p),
            Err(p) => in_rows(g, p),
        },
    decreases back_measure(g, cur),
{
    match prev_spec(g, cur) {
        None => {},
        Some(p) => {
            lemma_prev_measure(g, cur);
            if !hard_break_at(g, p) && !(!is_spacer_at(g, p) && needles.contains(g.cell_at(p).ch)) {
                lemma_walk_left_in_rows(g, p, p, needles);
            }
        },
    }
}

/// Walking right from a cell on a visible row ends on a visible row.
pub proof fn lemma_walk_right_in_rows(g: GridModel, cur: Pos, last: Pos, needles: Seq<char>)
    requires
        in_rows(g, cur),
        in_rows(g, last),
        g.rows_count() <= i32::MAX,
    ensures
        match walk_right(g, cur, last, needles) {
            Ok(p) => in_rows(g, p),
            Err(p) => in_rows(g, p),
        },
    decreases fwd_measure(g, cur),
{
    if !is_spacer_at(g, cur) && needles.contains(g.cell_at(cur).ch) {
    } else if hard_break_at(g, cur) {
    } else {
        match next_spec(g, cur) {
            Some(p) => {
                lemma_next_measure(g, cur);
                lemma_walk_right_in_rows(g, p, p, needles);
            },
            None => {},
        }
    }
}

/// Skipping wide spacers from a visible row ends on a visible row.
pub proof fn lemma_skip_spacers_in_rows(g: GridModel, q: Pos)
    requires
        in_rows(g, q),
        g.rows_count() <= i32::MAX,
    ensures
        in_rows(g, skip_spacers_right(g, q)),
    decreases fwd_measure(g, q),
{
    match next_spec(g, q) {
        None => {},
        Some(n) => {
            lemma_next_measure(g, q);
            if is_spacer_at(g, n) {
                lemma_skip_spacers_in_rows(g, n);
            }
        },
    }
}

/// The semantic word boundaries of a cell on a visible row lie on visible
/// rows.
pub proof fn lemma_semantic_in_rows(g: GridModel, point: Pos, needles: Seq<char>)
    requires
        in_rows(g, point),
        g.rows_count() <= i32::MAX,
    ensures
        in_rows(g, semantic_left_spec(g, point, needles)),
        in_rows(g, semantic_right_spec(g, point, needles)),
{
    lemma_walk_left_in_rows(g, point, point, needles);
    match inline_left_spec(g, point, needles) {
        Ok(p) => lemma_skip_spacers_in_rows(g, p),
        Err(p) => {},
    }
    if !hard_break_at(g, point) {
        lemma_walk_right_in_rows(g, point, point, needles);
    }
}

/// Walking right from above the bottom edge of the grid ends above it.
proof fn lemma_walk_right_above(g: GridModel, cur: Pos, last: Pos, needles: Seq<char>)
    requires
        cur.row.0 < g.rows_count(),
        last.row.0 < g.rows_count(),
        g.rows_count() <= i32::MAX,
    ensures
        match walk_right(g, cur, last, needles) {
            Ok(p) => p.row.0 < g.rows_count(),
            Err(p) => p.row.0 < g.rows_count(),
        },
    decreases fwd_measure(g, cur),
{
    if !is_spacer_at(g, cur) && needles.contains(g.cell_at(cur).ch) {
    } else if hard_break_at(g, cur) {
    } else {
        match next_spec(g, cur) {
            Some(p) => {
                lemma_next_measure(g, cur);
                lemma_walk_right_above(g, p, p, needles);
            },
            None => {},
        }
    }
}

/// The semantic boundary to the right of a cell above the bottom edge of
/// the grid lies above it too.
pub proof fn lemma_semantic_right_above(g: GridModel, point: Pos, needles: Seq<char>)
    requires
        point.row.0 < g.rows_count(),
        g.rows_count() <= i32::MAX,
    ensures
        semantic_right_spec(g, point, needles).row.0 < g.rows_count(),
{
    if !hard_break_at(g, point) {
        lemma_walk_right_above(g, point, point, needles);
    }
}

/// A bracket walk from a cell on a visible row ends on a visible row.
pub proof fn lemma_bracket_walk_in_rows(
    g: GridModel,
    cur: Pos,
    forward: bool,
    start: char,
    end: char,
    skip: int,
)
    requires
        in_rows(g, cur),
        g.rows_count() <= i32::MAX,
    ensures
        bracket_walk(g, cur, forward, start, end, skip) matches Some(p) ==> in_rows(g, p),
    decreases dir_measure(g, cur, forward),
{
    match step_spec(g, cur, forward) {
        None => {},
        Some(p) => {
            if forward {
                lemma_next_measure(g, cur);
            } else {
                lemma_prev_measure(g, cur);
            }
            let c = g.cell_at(p).ch;
            if !(c == end && skip == 0) {
                if c == start {
                    lemma_bracket_walk_in_rows(g, p, forward, start, end, skip + 1);
                } else if c == end {
                    lemma_bracket_walk_in_rows(g, p, forward, start, end, skip - 1);
                } else {
                    lemma_bracket_walk_in_rows(g, p, forward, start, end, skip);
                }
            }
        },
    }
}

/// The logical line holding a visible row stays within the visible rows.
pub proof fn lemma_line_rows(g: GridModel, r: int)
    requires
        0 <= r < g.rows_count(),
    ensures
        0 <= line_start_row(g, r) <= r,
        r <= line_end_row(g, r) < g.rows_count(),
    decreases g.rows_count() - r,
{
    lemma_line_start_rows(g, r);
    if r + 1 < g.rows_count() && g.wrapped_at(r) {
        lemma_line_rows(g, r + 1);
    }
}

proof fn lemma_line_start_rows(g: GridModel, r: int)
    requires
        0 <= r,
    ensures
        0 <= line_start_row(g, r) <= r,
    decreases r,
{
    if r > 0 && g.wrapped_at(r - 1) {
        lemma_line_start_rows(g, r - 1);
    }
}

/// Walking left from `cur` (`last` = the last cell passed): the first cell
/// whose char is in `needles`, or `Err` with the last cell passed before a
/// hard line break or the top-left.
pub open spec fn walk_left(g: GridModel, cur: Pos, last: Pos, needles: Seq<char>) -> Result<
    Pos,
    Pos,
>
    decreases back_measure(g, cur),
{
    match prev_spec(g, cur) {
        None => Err(last),
        Some(p) => {
            proof {
                lemma_prev_measure(g, cur);
            }
            if hard_break_at(g, p) {
                Err(last)
            } else if !is_spacer_at(g, p) && needles.contains(g.cell_at(p).ch) {
                Ok(p)
            } else {
                walk_left(g, p, p, needles)
            }
        },
    }
}

/// Walking right from `cur`: the first cell (from `cur` itself) whose char
/// is in `needles`, or `Err` with the last cell reached at a hard line break
/// or the bottom-right.
pub open spec fn walk_right(g: GridModel, cur: Pos, last: Pos, needles: Seq<char>) -> Result<
    Pos,
    Pos,
>
    decreases fwd_measure(g, cur),
    when g.rows_count() <= i32::MAX
{
    if !is_spacer_at(g, cur) && needles.contains(g.cell_at(cur).ch) {
        Ok(cur)
    } else if hard_break_at(g, cur) {
        Err(last)
    } else {
        match next_spec(g, cur) {
            Some(p) => {
                proof {
                    lemma_next_measure(g, cur);
                }
                walk_right(g, p, p, needles)
            },
            None => Err(last),
        }
    }
}

pub open spec fn inline_left_spec(g: GridModel, point: Pos, needles: Seq<char>) -> Result<
    Pos,
    Pos,
> {
    walk_left(g, point, point, needles)
}

pub open spec fn inline_right_spec(g: GridModel, point: Pos, needles: Seq<char>) -> Result<
    Pos,
    Pos,
> {
    if hard_break_at(g, point) {
        Err(point)
    } else {
        walk_right(g, point, point, needles)
    }
}

/// The first cell after `q` that is not a wide spacer (or the last one
/// reachable).
pub open spec fn skip_spacers_right(g: GridModel, q: Pos) -> Pos
    decreases fwd_measure(g, q),
    when g.rows_count() <= i32::MAX
{
    match next_spec(g, q) {
        None => q,
        Some(n) => {
            proof {
                lemma_next_measure(g, q);
            }
            if !is_spacer_at(g, n) {
                n
            } else {
                skip_spacers_right(g, n)
            }
        },
    }
}

/// Word start at or left of `point` (semantic selection).
pub open spec fn semantic_left_spec(g: GridModel, point: Pos, needles: Seq<char>) -> Pos {
    match inline_left_spec(g, point, needles) {
        Ok(p) => skip_spacers_right(g, p),
        Err(p) => p,
    }
}

/// Word end at or right of `point` (semantic selection).
pub open spec fn semantic_right_spec(g: GridModel, point: Pos, needles: Seq<char>) -> Pos {
    match inline_right_spec(g, point, needles) {
        Ok(p) => match prev_spec(g, p) {
            Some(q) => q,
            None => p,
        },
        Err(p) => p,
    }
}

/// The first visible row of the logical line holding row `r`.
pub open spec fn line_start_row(g: GridModel, r: int) -> int
    decreases r,
{
    if r > 0 && g.wrapped_at(r - 1) {
        line_start_row(g, r - 1)
    } else {
        r
    }
}

/// The last visible row of the logical line holding row `r`.
pub open spec fn line_end_row(g: GridModel, r: int) -> int
    decreases g.rows_count() - r,
{
    if r + 1 < g.rows_count() && g.wrapped_at(r) {
        line_end_row(g, r + 1)
    } else {
        r
    }
}

/// The bracket that matches `c`, and whether it lies forward.
pub open spec fn bracket_partner(c: char) -> Option<(bool, char)> {
    if c == '(' {
        Some((true, ')'))
    } else if c == ')' {
        Some((false, '('))
    } else if c == '[' {
        Some((true, ']'))
    } else if c == ']' {
        Some((false, '['))
    } else if c == '{' {
        Some((true, '}'))
    } else if c == '}' {
        Some((false, '{'))
    } else if c == '<' {
        Some((true, '>'))
    } else if c == '>' {
        Some((false, '<'))
    } else {
        None
    }
}

pub open spec fn step_spec(g: GridModel, p: Pos, forward: bool) -> Option<Pos> {
    if forward {
        next_spec(g, p)
    } else {
        prev_spec(g, p)
    }
}

pub open spec fn dir_measure(g: GridModel, p: Pos, forward: bool) -> int {
    if forward {
        fwd_measure(g, p)
    } else {
        back_measure(g, p)
    }
}

/// Walking from `cur`, the cell holding `end` once the `start`/`end` pairs
/// opened since the walk began (`skip`) are closed.
pub open spec fn bracket_walk(
    g: GridModel,
    cur: Pos,
    forward: bool,
    start: char,
    end: char,
    skip: int,
) -> Option<Pos>
    decreases dir_measure(g, cur, forward),
    when g.rows_count() <= i32::MAX
{
    match step_spec(g, cur, forward) {
        None => None,
        Some(p) => {
            proof {
                if forward {
                    lemma_next_measure(g, cur);
                } else {
                    lemma_prev_measure(g, cur);
                }
            }
            let c = g.cell_at(p).ch;
            if c == end && skip == 0 {
                Some(p)
            } else if c == start {
                bracket_walk(g, p, forward, start, end, skip + 1)
            } else if c == end {
                bracket_walk(g, p, forward, start, end, skip - 1)
            } else {
                bracket_walk(g, p, forward, start, end, skip)
            }
        },
    }
}

/// The bracket matching the one at `point`, if `point` holds a bracket and
/// its match is in the grid.
pub open spec fn bracket_spec(g: GridModel, point: Pos) -> Option<Pos> {
    let c = g.cell_at(point).ch;
    match bracket_partner(c) {
        None => None,
        Some((forward, end)) => bracket_walk(g, point, forward, c, end, 0),
    }
}

/// A cell on a visible row, within the width.
pub open spec fn in_grid(g: GridModel, p: Pos) -> bool {
    in_rows(g, p) && 0 <= p.col.0 <= g.last_col_spec()
}

/// The cell `i` steps from `a` in the direction `forward` (wrapping rows),
/// if the grid goes that far.
pub open spec fn succ(g: GridModel, a: Pos, forward: bool, i: nat) -> Option<Pos>
    decreases i,
{
    if i == 0 {
        Some(a)
    } else {
        match succ(g, a, forward, (i - 1) as nat) {
            Some(x) => step_spec(g, x, forward),
            None => None,
        }
    }
}

/// How a cell holding `c` moves the nesting depth of a `start`/`end` pair.
pub open spec fn depth_delta(c: char, start: char, end: char) -> int {
    if c == start {
        1
    } else if c == end {
        -1
    } else {
        0
    }
}

/// The nesting depth over the cells strictly between `a` and the cell `i`
/// steps from it.
pub open spec fn depth_between(
    g: GridModel,
    a: Pos,
    forward: bool,
    start: char,
    end: char,
    i: nat,
) -> int
    decreases i,
{
    if i <= 1 {
        0
    } else {
        depth_between(g, a, forward, start, end, (i - 1) as nat) + match succ(
            g,
            a,
            forward,
            (i - 1) as nat,
        ) {
            Some(x) => depth_delta(g.cell_at(x).ch, start, end),
            None => 0,
        }
    }
}

/// A step stays on the grid, and the opposite step undoes it.
proof fn lemma_step_in_grid(g: GridModel, x: Pos, forward: bool)
    requires
        g.wf(),
        in_grid(g, x),
        step_spec(g, x, forward) is Some,
    ensures
        in_grid(g, step_spec(g, x, forward).unwrap()),
        step_spec(g, step_spec(g, x, forward).unwrap(), !forward) == Some(x),
{
    let l = g.last_col_spec();
    let y = step_spec(g, x, forward).unwrap();
    if forward {
        if x.col.0 < l {
            assert(y == Pos { row: x.row, col: Column((x.col.0 + 1) as usize) });
            assert(prev_spec(g, y) == Some(Pos { row: x.row, col: Column(x.col.0) }));
        } else {
            assert(x.col.0 == l);
            assert(y == Pos { row: Line((x.row.0 + 1) as i32), col: Column(0) });
            assert(prev_spec(g, y) == Some(
                Pos { row: Line((y.row.0 - 1) as i32), col: Column(l as usize) },
            ));
            assert(Line((y.row.0 - 1) as i32) == x.row);
        }
    } else {
        if x.col.0 > 0 {
            assert(y == Pos { row: x.row, col: Column((x.col.0 - 1) as usize) });
            assert(next_spec(g, y) == Some(Pos { row: x.row, col: Column(x.col.0) }));
        } else {
            assert(y == Pos { row: Line((x.row.0 - 1) as i32), col: Column(l as usize) });
            assert(next_spec(g, y) == Some(
                Pos { row: Line((y.row.0 + 1) as i32), col: Column(0) },
            ));
            assert(Line((y.row.0 + 1) as i32) == x.row);
            assert(Column(0) == x.col);
        }
    }
}

proof fn lemma_succ_in_grid(g: GridModel, a: Pos, forward: bool, i: nat)
    requires
        g.wf(),
        in_grid(g, a),
    ensures
        succ(g, a, forward, i) matches Some(x) ==> in_grid(g, x),
    decreases i,
{
    if i > 0 {
        lemma_succ_in_grid(g, a, forward, (i - 1) as nat);
        if let Some(x) = succ(g, a, forward, (i - 1) as nat) {
            if step_spec(g, x, forward) is Some {
                lemma_step_in_grid(g, x, forward);
            }
        }
    }
}

proof fn lemma_succ_prefix(g: GridModel, a: Pos, forward: bool, i: nat, n: nat)
    requires
        i <= n,
        succ(g, a, forward, n) is Some,
    ensures
        succ(g, a, forward, i) is Some,
    decreases n - i,
{
    if i < n {
        lemma_succ_prefix(g, a, forward, (i + 1) as nat, n);
    }
}

/// Walking back from the cell `i` steps from `a`, with the depth of the
/// cells between as skip count, the walk ends at `a`: the depth never drops
/// below zero on the way, so no earlier bracket like `a`'s ends the walk.
proof fn lemma_walk_back_to_start(
    g: GridModel,
    a: Pos,
    forward: bool,
    start: char,
    end: char,
    n: nat,
    i: nat,
)
    requires
        g.wf(),
        in_grid(g, a),
        g.cell_at(a).ch == start,
        start != end,
        1 <= i <= n,
        succ(g, a, forward, n) is Some,
        forall|m: nat| 1 <= m <= n ==> #[trigger] depth_between(g, a, forward, start, end, m) >= 0,
    ensures
        bracket_walk(
            g,
            succ(g, a, forward, i).unwrap(),
            !forward,
            end,
            start,
            depth_between(g, a, forward, start, end, i),
        ) == Some(a),
    decreases i,
{
    lemma_succ_prefix(g, a, forward, i, n);
    lemma_succ_in_grid(g, a, forward, (i - 1) as nat);
    let x = succ(g, a, forward, (i - 1) as nat).unwrap();
    let cur = succ(g, a, forward, i).unwrap();
    lemma_step_in_grid(g, x, forward);
    assert(step_spec(g, cur, !forward) == Some(x));
    let k = depth_between(g, a, forward, start, end, i);
    let c = g.cell_at(x).ch;
    if i == 1 {
        assert(x == a);
        assert(k == 0);
    } else {
        let i1 = (i - 1) as nat;
        assert(depth_between(g, a, forward, start, end, i1) >= 0);
        assert(k == depth_between(g, a, forward, start, end, i1) + depth_delta(c, start, end));
        lemma_walk_back_to_start(g, a, forward, start, end, n, i1);
        if c == start {
            assert(k >= 1);
        }
    }
}

/// Following the walk from the cell `i` steps from `a` (its skip count the
/// depth so far, never negative): where it finds the match, the walk back
/// from that match ends at `a`.
proof fn lemma_walk_then_back(g: GridModel, a: Pos, forward: bool, start: char, end: char, i: nat)
    requires
        g.wf(),
        in_grid(g, a),
        g.cell_at(a).ch == start,
        start != end,
        succ(g, a, forward, i) is Some,
        forall|m: nat|
            1 <= m <= i + 1 ==> #[trigger] depth_between(g, a, forward, start, end, m) >= 0,
        bracket_walk(
            g,
            succ(g, a, forward, i).unwrap(),
            forward,
            start,
            end,
            depth_between(g, a, forward, start, end, i + 1),
        ) is Some,
    ensures
        ({
            let q = bracket_walk(
                g,
                succ(g, a, forward, i).unwrap(),
                forward,
                start,
                end,
                depth_between(g, a, forward, start, end, i + 1),
            ).unwrap();
            &&& g.cell_at(q).ch == end
            &&& bracket_walk(g, q, !forward, end, start, 0) == Some(a)
        }),
    decreases dir_measure(g, succ(g, a, forward, i).unwrap(), forward),
{
    let cur = succ(g, a, forward, i).unwrap();
    let k = depth_between(g, a, forward, start, end, i + 1);
    let p = step_spec(g, cur, forward).unwrap();
    if forward {
        lemma_next_measure(g, cur);
    } else {
        lemma_prev_measure(g, cur);
    }
    assert(succ(g, a, forward, (i + 1) as nat) == Some(p));
    let c = g.cell_at(p).ch;
    assert(depth_between(g, a, forward, start, end, (i + 2) as nat) == k + depth_delta(
        c,
        start,
        end,
    ));
    if c == end && k == 0 {
        lemma_walk_back_to_start(g, a, forward, start, end, (i + 1) as nat, (i + 1) as nat);
    } else {
        assert forall|m: nat| 1 <= m <= i + 2 implies #[trigger] depth_between(
            g,
            a,
            forward,
            start,
            end,
            m,
        ) >= 0 by {
            if m == i + 2 {
                if c == end {
                    assert(k >= 1);
                }
            }
        }
        lemma_walk_then_back(g, a, forward, start, end, (i + 1) as nat);
    }
}

/// What a bracket walk finds lies beyond where it started, in the walk's
/// direction.
proof fn lemma_walk_ordered(
    g: GridModel,
    cur: Pos,
    forward: bool,
    start: char,
    end: char,
    skip: int,
)
    requires
        g.wf(),
    ensures
        bracket_walk(g, cur, forward, start, end, skip) matches Some(q) ==> if forward {
            pos_lt(cur, q)
        } else {
            pos_lt(q, cur)
        },
    decreases dir_measure(g, cur, forward),
{
    if let Some(p) = step_spec(g, cur, forward) {
        if forward {
            lemma_next_measure(g, cur);
        } else {
            lemma_prev_measure(g, cur);
        }
        let c = g.cell_at(p).ch;
        let skip2 = if c == start {
            skip + 1
        } else if c == end {
            skip - 1
        } else {
            skip
        };
        lemma_walk_ordered(g, p, forward, start, end, skip2);
    }
}

/// Bracket matching is an involution: when the bracket at `p` matches the
/// one at `q`, `q` is another cell holding the partner of `p`'s bracket,
/// it lies forward exactly when `p`'s bracket opens, and it matches back to
/// `p`.
pub proof fn lemma_bracket_involution(g: GridModel, p: Pos)
    requires
        g.wf(),
        p.col.0 < g.width(),
        bracket_spec(g, p) is Some,
    ensures
        ({
            let q = bracket_spec(g, p).unwrap();
            let (forward, partner) = bracket_partner(g.cell_at(p).ch).unwrap();
            &&& g.cell_at(q).ch == partner
            &&& bracket_partner(partner) == Some((!forward, g.cell_at(p).ch))
            &&& bracket_spec(g, q) == Some(p)
            &&& q != p
            &&& forward ==> pos_lt(p, q)
            &&& !forward ==> pos_lt(q, p)
        }),
{
    let c = g.cell_at(p).ch;
    let (forward, end) = bracket_partner(c).unwrap();
    lemma_walk_ordered(g, p, forward, c, end, 0);
    assert(0 <= p.row.0 < g.rows_count()) by {
        if !(0 <= p.row.0 < g.rows_count()) {
            assert(g.cell_at(p) == blank_square());
        }
    }
    assert(in_grid(g, p));
    assert(succ(g, p, forward, 0) == Some(p));
    assert(depth_between(g, p, forward, c, end, 1) == 0);
    lemma_walk_then_back(g, p, forward, c, end, 0);
}

impl<'a> VisibleGrid<'a> {
    /// Searching left, the next cell whose char is in `needles`: `Ok` when
    /// found, `Err` at a line break or the grid top.
    fn inline_search_left(&self, point: Pos, needles: &str) -> (r: Result<Pos, Pos>)
        ensures
            r == inline_left_spec(self@, point, needles@),
    {
        let mut last = point;
        let mut cur = point;
        loop
            invariant
                walk_left(self@, cur, last, needles@) == walk_left(self@, point, point, needles@),
            decreases back_measure(self@, cur),
        {
            let p = match self.prev(cur) {
                Some(p) => p,
                None => {
                    return Err(last);
                },
            };
            proof {
                lemma_prev_measure(self@, cur);
            }
            if p.col.0 == self.last_col() && !self.wrapped(p.row.0) {
                return Err(last);
            }
            last = p;
            let sq = self.cell(p);
            if !self.is_spacer(p) && str_contains_char(needles, sq.c()) {
                return Ok(p);
            }
            cur = p;
        }
    }

    /// Searching right, the next cell (from `point` itself) whose char is in
    /// `needles`.
    fn inline_search_right(&self, point: Pos, needles: &str) -> (r: Result<Pos, Pos>)
        requires
            self.wf(),
        ensures
            r == inline_right_spec(self@, point, needles@),
    {
        proof {
            self.lemma_wf_bounds();
        }
        if point.col.0 == self.last_col() && !self.wrapped(point.row.0) {
            return Err(point);
        }
        let mut last = point;
        let mut cur = point;
        loop
            invariant
                self.wf(),
                self.rows_count() <= i32::MAX,
                walk_right(self@, cur, last, needles@) == walk_right(
                    self@,
                    point,
                    point,
                    needles@,
                ),
                inline_right_spec(self@, point, needles@) == walk_right(
                    self@,
                    point,
                    point,
                    needles@,
                ),
            decreases fwd_measure(self@, cur),
        {
            let sq = self.cell(cur);
            if !self.is_spacer(cur) && str_contains_char(needles, sq.c()) {
                return Ok(cur);
            }
            if cur.col.0 == self.last_col() && !self.wrapped(cur.row.0) {
                return Err(last);
            }
            match self.next(cur) {
                Some(p) => {
                    proof {
                        lemma_next_measure(self@, cur);
                    }
                    last = p;
                    cur = p;
                },
                None => {
                    return Err(last);
                },
            }
        }
    }

    /// Word boundary to the left of `point` (semantic selection).
    pub fn semantic_search_left(&self, point: Pos, needles: &str) -> (r: Pos)
        requires
            self.wf(),
        ensures
            r == semantic_left_spec(self@, point, needles@),
    {
        proof {
            self.lemma_wf_bounds();
        }
        match self.inline_search_left(point, needles) {
            Ok(p) => {
                let mut q = p;
                loop
                    invariant
                        self.wf(),
                        self.rows_count() <= i32::MAX,
                        skip_spacers_right(self@, q) == skip_spacers_right(self@, p),
                        semantic_left_spec(self@, point, needles@) == skip_spacers_right(self@, p),
                    decreases fwd_measure(self@, q),
                {
                    match self.next(q) {
                        Some(n) => {
                            proof {
                                lemma_next_measure(self@, q);
                            }
                            q = n;
                            if !self.is_spacer(q) {
                                return q;
                            }
                        },
                        None => {
                            return q;
                        },
                    }
                }
            },
            Err(p) => p,
        }
    }

    /// Word boundary to the right of `point` (semantic selection).
    pub fn semantic_search_right(&self, point: Pos, needles: &str) -> (r: Pos)
        requires
            self.wf(),
        ensures
            r == semantic_right_spec(self@, point, needles@),
    {
        match self.inline_search_right(point, needles) {
            Ok(p) => match self.prev(p) {
                Some(q) => q,
                None => p,
            },
            Err(p) => p,
        }
    }

    /// Start of the logical line at `point`, following soft-wrap upward.
    pub fn row_search_left(&self, point: Pos) -> (r: Pos)
        ensures
            r.row.0 == line_start_row(self@, point.row.0 as int),
            r.col.0 == 0,
    {
        let mut row = point.row.0;
        while row > 0 && self.wrapped(row - 1)
            invariant
                line_start_row(self@, row as int) == line_start_row(self@, point.row.0 as int),
            decreases row,
        {
            row = row - 1;
        }
        Pos::new(Line(row), Column(0))
    }

    /// End of the logical line at `point`, following soft-wrap downward.
    pub fn row_search_right(&self, point: Pos) -> (r: Pos)
        requires
            self.wf(),
        ensures
            r.row.0 == line_end_row(self@, point.row.0 as int),
            r.col.0 == self.last_col_spec(),
    {
        proof {
            self.lemma_wf_bounds();
        }
        let n = self.rows_len();
        let mut row = point.row.0;
        while (row as i64) + 1 < n as i64 && self.wrapped(row)
            invariant
                n == self.rows_count(),
                line_end_row(self@, row as int) == line_end_row(self@, point.row.0 as int),
            decreases n - row,
        {
            row = row + 1;
        }
        Pos::new(Line(row), Column(self.last_col()))
    }

    /// The matching bracket for the bracket at `point`, if any.
    pub fn bracket_search(&self, point: Pos) -> (r: Option<Pos>)
        requires
            self.wf(),
        ensures
            r == bracket_spec(self@, point),
    {
        proof {
            self.lemma_wf_bounds();
        }
        let start_char = self.cell(point).c();
        let (forward, end_char) = if start_char == '(' {
            (true, ')')
        } else if start_char == ')' {
            (false, '(')
        } else if start_char == '[' {
            (true, ']')
        } else if start_char == ']' {
            (false, '[')
        } else if start_char == '{' {
            (true, '}')
        } else if start_char == '}' {
            (false, '{')
        } else if start_char == '<' {
            (true, '>')
        } else if start_char == '>' {
            (false, '<')
        } else {
            return None;
        };
        proof {
            self.lemma_bracket_start_in_grid(point);
        }
        let ghost m0 = dir_measure(self@, point, forward);
        let mut skip_pairs: i128 = 0;
        let mut cur = point;
        let ghost mut steps: int = 0;
        loop
            invariant
                self.wf(),
                self.rows_count() <= i32::MAX,
                0 <= steps,
                steps + dir_measure(self@, cur, forward) <= m0,
                0 <= dir_measure(self@, cur, forward),
                m0 < 0x1_0000_0000_0000_0000_0000_0000,
                -steps <= skip_pairs <= steps,
                bracket_walk(self@, cur, forward, start_char, end_char, skip_pairs as int)
                    == bracket_walk(self@, point, forward, start_char, end_char, 0),
                bracket_spec(self@, point) == bracket_walk(
                    self@,
                    point,
                    forward,
                    start_char,
                    end_char,
                    0,
                ),
            decreases dir_measure(self@, cur, forward),
        {
            let next = if forward {
                self.next(cur)
            } else {
                self.prev(cur)
            };
            let p = match next {
                Some(p) => p,
                None => {
                    return None;
                },
            };
            proof {
                if forward {
                    lemma_next_measure(self@, cur);
                } else {
                    lemma_prev_measure(self@, cur);
                }
                steps = steps + 1;
            }
            let c = self.cell(p).c();
            if c == end_char && skip_pairs == 0 {
                return Some(p);
            } else if c == start_char {
                skip_pairs = skip_pairs + 1;
            } else if c == end_char {
                skip_pairs = skip_pairs - 1;
            }
            cur = p;
        }
    }

    /// A cell holding a bracket lies in the grid, so both walk measures
    /// start small.
    proof fn lemma_bracket_start_in_grid(&self, point: Pos)
        requires
            self.wf(),
            bracket_partner(self.cell_at(point).ch) is Some,
        ensures
            0 <= point.row.0 < self.rows_count(),
            0 <= dir_measure(self@, point, true) < 0x1_0000_0000_0000_0000_0000_0000,
            0 <= dir_measure(self@, point, false) < 0x1_0000_0000_0000_0000_0000_0000,
    {
        let l = self.last_col_spec();
        let r = point.row.0 as int;
        let rc = self.rows_count();
        assert(0 <= l <= usize::MAX);
        assert(r * (l + 1) <= 0x8000_0000 * 0x1_0000_0000_0000_0000) by (nonlinear_arith)
            requires
                0 <= r <= 0x8000_0000,
                0 <= l + 1 <= 0x1_0000_0000_0000_0000,
        ;
        assert(r * (l + 1) >= 0) by (nonlinear_arith)
            requires
                0 <= r,
                0 <= l + 1,
        ;
        assert((rc - r) * (l + 2) <= 0x8000_0000 * 0x1_0000_0000_0000_0001) by (nonlinear_arith)
            requires
                0 <= rc - r <= 0x8000_0000,
                0 <= l + 2 <= 0x1_0000_0000_0000_0001,
        ;
        assert((rc - r) * (l + 2) >= 0) by (nonlinear_arith)
            requires
                0 <= rc - r,
                0 <= l + 2,
        ;
    }
}

} // verus!
