//! Text selection state and its conversion to a grid range.
//!
//! A selection starts when the mouse is pressed and is finalized when the
//! button is released. Anchors are SCREEN coordinates.

use vstd::prelude::*;

use crate::grid::{
    GridModel,
    VisibleGrid, bracket_spec, line_end_row, line_start_row, semantic_left_spec,
    semantic_right_spec, in_rows, lemma_semantic_in_rows, lemma_line_rows, bracket_partner,
    lemma_bracket_walk_in_rows,
};
use crate::pos::{Column, Direction, Line, Pos};

verus! {

/// Characters that split words for semantic selection (Windows Terminal's
/// default set).
pub const WORD_DELIMITERS: &'static str = " ./\\()\"'-:,.;<>~!@#$%^&*|+=[]{}~?\u{2502}\t\0";

/// `a` comes strictly before `b` in reading order.
pub open spec fn pos_lt(a: Pos, b: Pos) -> bool {
    a.row.0 < b.row.0 || (a.row.0 == b.row.0 && a.col.0 < b.col.0)
}

pub open spec fn pos_le(a: Pos, b: Pos) -> bool {
    pos_lt(a, b) || a == b
}

pub fn pos_less(a: Pos, b: Pos) -> (r: bool)
    ensures
        r == pos_lt(a, b),
{
    a.row.0 < b.row.0 || (a.row.0 == b.row.0 && a.col.0 < b.col.0)
}

/// A point and the side of its cell.
#[derive(Debug, Copy, Clone, PartialEq, Eq, Structural)]
pub struct Anchor {
    pub point: Pos,
    pub side: Direction,
}

impl Anchor {
    fn new(point: Pos, side: Direction) -> (a: Anchor)
        ensures
            a.point == point,
            a.side == side,
    {
        Anchor { point, side }
    }
}

/// A range of selected cells, top-left to bottom-right.
#[derive(Copy, Clone, Debug, Eq, PartialEq, Structural)]
pub struct SelectionRange {
    pub start: Pos,
    pub end: Pos,
    pub is_block: bool,
}

impl SelectionRange {
    pub fn new(start: Pos, end: Pos, is_block: bool) -> (r: Self)
        requires
            pos_le(start, end),
        ensures
            r == (SelectionRange { start, end, is_block }),
    {
        Self { start, end, is_block }
    }
}

/// The kinds of selection.
#[derive(Debug, Copy, Clone, PartialEq, Eq, Structural)]
pub enum SelectionType {
    /// Exactly the cells between the anchors.
    Simple,
    /// A rectangle.
    Block,
    /// Whole words.
    Semantic,
    /// Whole logical lines.
    Lines,
}

/// One end of a range of lines (`std::ops::Bound` over `Line`).
#[derive(Debug, Copy, Clone, PartialEq, Eq, Structural)]
pub enum LineBound {
    Included(Line),
    Excluded(Line),
    Unbounded,
}

/// A selection: its kind and the anchors where it started and where it
/// currently ends.
#[derive(Debug, Clone, PartialEq, Eq, Structural)]
pub struct Selection {
    ty: SelectionType,
    region_start: Anchor,
    region_end: Anchor,
}

/// The anchors in reading order.
pub open spec fn ordered(a: Anchor, b: Anchor) -> (Anchor, Anchor) {
    if pos_lt(b.point, a.point) {
        (b, a)
    } else {
        (a, b)
    }
}

pub open spec fn simple_empty(a: Anchor, b: Anchor) -> bool {
    let (s, e) = ordered(a, b);
    s == e || (s.side == Direction::Right && e.side == Direction::Left && s.point.row
        == e.point.row && s.point.col.0 + 1 == e.point.col.0)
}

pub open spec fn block_empty(s: Anchor, e: Anchor) -> bool {
    (s.point.col == e.point.col && s.side == e.side) || (s.point.col.0 + 1 == e.point.col.0
        && s.side == Direction::Right && e.side == Direction::Left) || (e.point.col.0 + 1
        == s.point.col.0 && s.side == Direction::Left && e.side == Direction::Right)
}

pub open spec fn selection_empty(ty: SelectionType, s: Anchor, e: Anchor) -> bool {
    match ty {
        SelectionType::Simple => simple_empty(s, e),
        SelectionType::Block => block_empty(s, e),
        _ => false,
    }
}

pub open spec fn lower_line(b: LineBound) -> int {
    match b {
        LineBound::Included(l) => l.0 as int,
        LineBound::Excluded(l) => l.0 + 1,
        LineBound::Unbounded => i32::MIN as int,
    }
}

pub open spec fn upper_line(b: LineBound) -> int {
    match b {
        LineBound::Included(l) => l.0 as int,
        LineBound::Excluded(l) => l.0 - 1,
        LineBound::Unbounded => i32::MAX as int,
    }
}

pub open spec fn bound_ok(lo: LineBound, hi: LineBound) -> bool {
    (lo matches LineBound::Excluded(l) ==> l.0 < i32::MAX) && (hi matches LineBound::Excluded(
        l,
    ) ==> l.0 > i32::MIN)
}

/// `a` moved up by `vt` rows.
pub open spec fn shift_up(a: Anchor, vt: i32) -> Anchor {
    Anchor { point: Pos { row: Line((a.point.row.0 - vt) as i32), col: a.point.col }, side: a.side }
}

pub open spec fn shift_ok(a: Anchor, vt: i32) -> bool {
    i32::MIN <= a.point.row.0 - vt <= i32::MAX
}

/// A simple selection as a range: a start to the right of its cell or an
/// end to the left of its cell leaves that cell out.
pub open spec fn simple_range_spec(s: Anchor, e: Anchor, columns: int) -> SelectionRange {
    let end = if e.side == Direction::Left && s.point != e.point {
        if e.point.col.0 == 0 {
            Pos { row: Line((e.point.row.0 - 1) as i32), col: Column((columns - 1) as usize) }
        } else {
            Pos { row: e.point.row, col: Column((e.point.col.0 - 1) as usize) }
        }
    } else {
        e.point
    };
    let start = if s.side == Direction::Right && s.point != end {
        if s.point.col.0 + 1 == columns {
            Pos { row: Line((s.point.row.0 + 1) as i32), col: Column(0) }
        } else {
            Pos { row: s.point.row, col: Column((s.point.col.0 + 1) as usize) }
        }
    } else {
        s.point
    };
    SelectionRange { start, end, is_block: false }
}

pub open spec fn simple_range_ok(s: Anchor, e: Anchor, columns: int) -> bool {
    &&& (e.side == Direction::Left && s.point != e.point && e.point.col.0 == 0) ==> (columns > 0
        && e.point.row.0 > i32::MIN)
    &&& (s.side == Direction::Right) ==> (s.point.col.0 + 1 <= usize::MAX
        && (s.point.col.0 + 1 == columns ==> s.point.row.0 < i32::MAX))
}

/// A block selection as a rectangle, top-left to bottom-right.
pub open spec fn block_range_spec(s0: Anchor, e0: Anchor) -> SelectionRange {
    let swap = s0.point.col.0 > e0.point.col.0;
    let s = if swap {
        Anchor { point: Pos { row: s0.point.row, col: e0.point.col }, side: e0.side }
    } else {
        s0
    };
    let e = if swap {
        Anchor { point: Pos { row: e0.point.row, col: s0.point.col }, side: s0.side }
    } else {
        e0
    };
    let end = if e.side == Direction::Left && s.point != e.point && e.point.col.0 > 0 {
        Pos { row: e.point.row, col: Column((e.point.col.0 - 1) as usize) }
    } else {
        e.point
    };
    let start = if s.side == Direction::Right && s.point != end {
        Pos { row: s.point.row, col: Column((s.point.col.0 + 1) as usize) }
    } else {
        s.point
    };
    SelectionRange { start, end, is_block: true }
}

/// The anchor of a block drag that lies in the leftmost column (the start
/// one when both share a column).
pub open spec fn left_anchor(s0: Anchor, e0: Anchor) -> Anchor {
    if s0.point.col.0 > e0.point.col.0 {
        e0
    } else {
        s0
    }
}

/// The anchor of a block drag that lies in the rightmost column.
pub open spec fn right_anchor(s0: Anchor, e0: Anchor) -> Anchor {
    if s0.point.col.0 > e0.point.col.0 {
        s0
    } else {
        e0
    }
}

/// A simple range runs forward from its start anchor's cell to its end
/// anchor's cell: it starts there, or one cell later when the start anchor
/// is on its cell's right side, and ends there, or one cell earlier when
/// the end anchor is on its cell's left side; it never ends before it
/// starts (anchors in reading order, within `columns` columns).
pub proof fn lemma_simple_range_runs_between_anchors(s: Anchor, e: Anchor, columns: int)
    requires
        pos_le(s.point, e.point),
        s.point.col.0 < columns,
        e.point.col.0 < columns,
        columns <= usize::MAX,
        simple_range_ok(s, e, columns),
        !simple_empty(s, e),
    ensures
        ({
            let r = simple_range_spec(s, e, columns);
            &&& !r.is_block
            &&& pos_le(s.point, r.start)
            &&& pos_le(r.end, e.point)
            &&& pos_le(r.start, r.end)
            &&& r.start != s.point ==> s.side == Direction::Right
            &&& r.end != e.point ==> e.side == Direction::Left
        }),
{
}

/// A block range keeps the rows of its anchors and spans the columns
/// between them, whichever way the drag went: it starts in the left
/// anchor's column, or the one after when that anchor is on its cell's
/// right side, and ends in the right anchor's column, or the one before
/// when that anchor is on its cell's left side. So its start column is at
/// most one past its end column, except for a drag down a single column
/// from the right side of a cell to the left side of another. (Columns stop
/// short of `usize::MAX`, so the column after an anchor exists.)
pub proof fn lemma_block_range_spans_anchor_columns(s0: Anchor, e0: Anchor)
    requires
        s0.point.col.0 < usize::MAX,
        e0.point.col.0 < usize::MAX,
    ensures
        ({
            let r = block_range_spec(s0, e0);
            let l = left_anchor(s0, e0);
            let h = right_anchor(s0, e0);
            &&& r.is_block
            &&& r.start.row == s0.point.row
            &&& r.end.row == e0.point.row
            &&& r.start.col.0 == l.point.col.0 || (r.start.col.0 == l.point.col.0 + 1 && l.side
                == Direction::Right)
            &&& r.end.col.0 == h.point.col.0 || (r.end.col.0 + 1 == h.point.col.0 && h.side
                == Direction::Left)
            &&& l.point.col.0 <= h.point.col.0
            &&& !(s0.point.col == e0.point.col && s0.side == Direction::Right && e0.side
                == Direction::Left) ==> r.start.col.0 <= r.end.col.0 + 1
        }),
{
}

/// Exchanging the columns and sides of the two anchors of a block drag
/// (dragging the other way across the same columns) selects the same
/// rectangle.
pub proof fn lemma_block_range_direction_free(s0: Anchor, e0: Anchor)
    requires
        s0.point.col != e0.point.col,
    ensures
        block_range_spec(s0, e0) == block_range_spec(
            Anchor { point: Pos { row: s0.point.row, col: e0.point.col }, side: e0.side },
            Anchor { point: Pos { row: e0.point.row, col: s0.point.col }, side: s0.side },
        ),
{
}

/// A word selection: from a bracket to its match, else word start to word
/// end.
pub open spec fn semantic_range_spec(g: GridModel, start: Pos, end: Pos, needles: Seq<char>) -> SelectionRange {
    if start == end && bracket_spec(g, start) is Some {
        let m = bracket_spec(g, start).unwrap();
        if (m.row == start.row && m.col.0 < start.col.0) || m.row.0 < start.row.0 {
            SelectionRange { start: m, end, is_block: false }
        } else {
            SelectionRange { start, end: m, is_block: false }
        }
    } else {
        SelectionRange {
            start: semantic_left_spec(g, start, needles),
            end: semantic_right_spec(g, end, needles),
            is_block: false,
        }
    }
}

/// A line selection: from the start of the first logical line to the end of
/// the last.
pub open spec fn lines_range_spec(g: GridModel, start: Pos, end: Pos) -> SelectionRange {
    SelectionRange {
        start: Pos { row: Line(line_start_row(g, start.row.0 as int) as i32), col: Column(0) },
        end: Pos {
            row: Line(line_end_row(g, end.row.0 as int) as i32),
            col: Column(g.last_col_spec() as usize),
        },
        is_block: false,
    }
}

/// Expanding a cell on a visible row by word or line keeps both ends on
/// visible rows.
pub proof fn lemma_expand_in_rows(g: GridModel, p: Pos, needles: Seq<char>)
    requires
        g.wf(),
        in_rows(g, p),
    ensures
        in_rows(g, semantic_range_spec(g, p, p, needles).start),
        in_rows(g, semantic_range_spec(g, p, p, needles).end),
        in_rows(g, lines_range_spec(g, p, p).start),
        in_rows(g, lines_range_spec(g, p, p).end),
{
    g.lemma_wf_bounds();
    lemma_semantic_in_rows(g, p, needles);
    lemma_line_rows(g, p.row.0 as int);
    match bracket_partner(g.cell_at(p).ch) {
        None => {},
        Some((forward, end)) => lemma_bracket_walk_in_rows(g, p, forward, g.cell_at(p).ch, end, 0),
    }
}

impl Selection {
    pub closed spec fn kind(&self) -> SelectionType {
        self.ty
    }

    pub closed spec fn start_anchor(&self) -> Anchor {
        self.region_start
    }

    pub closed spec fn end_anchor(&self) -> Anchor {
        self.region_end
    }

    pub fn ty(&self) -> (t: SelectionType)
        ensures
            t == self.kind(),
    {
        self.ty
    }

    pub fn new(ty: SelectionType, location: Pos, side: Direction) -> (s: Selection)
        ensures
            s.kind() == ty,
            s.start_anchor() == (Anchor { point: location, side }),
            s.end_anchor() == (Anchor { point: location, side }),
    {
        Self {
            region_start: Anchor::new(location, side),
            region_end: Anchor::new(location, side),
            ty,
        }
    }

    /// Update the end of the selection.
    pub fn update(&mut self, point: Pos, side: Direction)
        ensures
            final(self).kind() == old(self).kind(),
            final(self).start_anchor() == old(self).start_anchor(),
            final(self).end_anchor() == (Anchor { point, side }),
    {
        self.region_end = Anchor::new(point, side);
    }

    /// Whether the selection covers no cell: a simple selection whose
    /// anchors coincide or face each other across one cell boundary, or a
    /// block selection whose columns do so on any lines. Word and line
    /// selections are never empty.
    pub fn is_empty(&self) -> (r: bool)
        ensures
            r == selection_empty(self.kind(), self.start_anchor(), self.end_anchor()),
    {
        match self.ty {
            SelectionType::Simple => {
                let mut start = self.region_start;
                let mut end = self.region_end;
                if pos_less(end.point, start.point) {
                    let t = start;
                    start = end;
                    end = t;
                }
                start == end || (start.side == Direction::Right && end.side == Direction::Left
                    && start.point.row == end.point.row && (start.point.col.0 as u128) + 1
                    == end.point.col.0 as u128)
            },
            SelectionType::Block => {
                let start = self.region_start;
                let end = self.region_end;
                (start.point.col == end.point.col && start.side == end.side) || ((
                start.point.col.0 as u128) + 1 == end.point.col.0 as u128 && start.side
                    == Direction::Right && end.side == Direction::Left) || ((end.point.col.0
                    as u128) + 1 == start.point.col.0 as u128 && start.side == Direction::Left
                    && end.side == Direction::Right)
            },
            SelectionType::Semantic | SelectionType::Lines => false,
        }
    }

    /// Whether the selection's lines meet the line range `[lo, hi]`.
    pub fn intersects_range(&self, lo: LineBound, hi: LineBound) -> (r: bool)
        requires
            bound_ok(lo, hi),
        ensures
            r == ({
                let a = self.start_anchor().point.row.0;
                let b = self.end_anchor().point.row.0;
                let top = if a <= b { a } else { b };
                let bottom = if a <= b { b } else { a };
                upper_line(hi) >= top && lower_line(lo) <= bottom
            }),
    {
        let mut start = self.region_start.point.row.0;
        let mut end = self.region_end.point.row.0;
        if start > end {
            let t = start;
            start = end;
            end = t;
        }
        let range_top: i32 = match lo {
            LineBound::Included(l) => l.0,
            LineBound::Excluded(l) => l.0 + 1,
            LineBound::Unbounded => i32::MIN,
        };
        let range_bottom: i32 = match hi {
            LineBound::Included(l) => l.0,
            LineBound::Excluded(l) => l.0 - 1,
            LineBound::Unbounded => i32::MAX,
        };
        range_bottom >= start && range_top <= end
    }

    /// What `to_range_engine` needs of its inputs: the anchors, moved to
    /// visible rows, stay in `i32`, and the columns a simple or block range
    /// steps to stay in `usize`.
    pub open spec fn range_ok(&self, columns: int, viewport_top: i32) -> bool {
        let (s, e) = ordered(self.start_anchor(), self.end_anchor());
        &&& shift_ok(self.start_anchor(), viewport_top)
        &&& shift_ok(self.end_anchor(), viewport_top)
        &&& self.kind() == SelectionType::Simple ==> simple_range_ok(
            shift_up(s, viewport_top),
            shift_up(e, viewport_top),
            columns,
        )
        &&& self.kind() == SelectionType::Block ==> (e.point.col.0 + 1 <= usize::MAX
            && s.point.col.0 + 1 <= usize::MAX)
    }

    /// The selection as a visible-grid range of `g`, when it is not empty;
    /// `viewport_top` is the SCREEN row of the top visible row.
    pub open spec fn engine_range(
        &self,
        g: GridModel,
        viewport_top: i32,
        escape_chars: Seq<char>,
    ) -> Option<SelectionRange> {
        let (s0, e0) = ordered(self.start_anchor(), self.end_anchor());
        let s = shift_up(s0, viewport_top);
        let e = shift_up(e0, viewport_top);
        match self.kind() {
            SelectionType::Simple => if selection_empty(
                self.kind(),
                self.start_anchor(),
                self.end_anchor(),
            ) {
                None
            } else {
                Some(simple_range_spec(s, e, g.width()))
            },
            SelectionType::Block => if selection_empty(
                self.kind(),
                self.start_anchor(),
                self.end_anchor(),
            ) {
                None
            } else {
                Some(block_range_spec(s, e))
            },
            SelectionType::Lines => Some(lines_range_spec(g, s.point, e.point)),
            SelectionType::Semantic => Some(semantic_range_spec(g, s.point, e.point, escape_chars)),
        }
    }

    /// A non-empty block selection becomes a rectangle from the top
    /// anchor's row to the bottom anchor's row (moved to visible rows),
    /// spanning the columns between the two anchors' columns in whichever
    /// order they were dragged.
    pub proof fn lemma_block_selection_rectangle(
        &self,
        g: GridModel,
        viewport_top: i32,
        escape_chars: Seq<char>,
    )
        requires
            self.kind() == SelectionType::Block,
            self.range_ok(g.width(), viewport_top),
        ensures
            ({
                let a = self.start_anchor();
                let b = self.end_anchor();
                let lo = if a.point.col.0 <= b.point.col.0 {
                    a.point.col.0
                } else {
                    b.point.col.0
                };
                let hi = if a.point.col.0 <= b.point.col.0 {
                    b.point.col.0
                } else {
                    a.point.col.0
                };
                match self.engine_range(g, viewport_top, escape_chars) {
                    Some(r) => {
                        &&& r.is_block
                        &&& r.start.row.0 == (if pos_lt(b.point, a.point) {
                            b.point.row.0
                        } else {
                            a.point.row.0
                        }) - viewport_top
                        &&& r.end.row.0 == (if pos_lt(b.point, a.point) {
                            a.point.row.0
                        } else {
                            b.point.row.0
                        }) - viewport_top
                        &&& lo <= r.start.col.0 <= lo + 1
                        &&& hi <= r.end.col.0 + 1
                        &&& r.end.col.0 <= hi
                        &&& a.point.col != b.point.col ==> r.start.col.0 <= r.end.col.0 + 1
                    },
                    None => block_empty(a, b),
                }
            }),
    {
        let (s0, e0) = ordered(self.start_anchor(), self.end_anchor());
        lemma_block_range_spans_anchor_columns(
            shift_up(s0, viewport_top),
            shift_up(e0, viewport_top),
        );
    }

    /// The selection as a visible-grid range, when it is not empty. Anchors
    /// are SCREEN rows; `viewport_top` is the SCREEN row of the top visible
    /// row. The range may lie partly off-screen.
    pub fn to_range_engine(&self, grid: &VisibleGrid, viewport_top: i32, escape_chars: &str) -> (r:
        Option<SelectionRange>)
        requires
            grid.wf(),
            self.range_ok(grid.width(), viewport_top),
        ensures
            r == self.engine_range(grid@, viewport_top, escape_chars@),
    {
        let columns = grid.cols();
        let mut start = self.region_start;
        let mut end = self.region_end;
        if pos_less(end.point, start.point) {
            let t = start;
            start = end;
            end = t;
        }
        start.point.row = Line(start.point.row.0 - viewport_top);
        end.point.row = Line(end.point.row.0 - viewport_top);
        match self.ty {
            SelectionType::Simple => self.range_simple(start, end, columns),
            SelectionType::Block => self.range_block(start, end),
            SelectionType::Lines => Some(Self::range_lines_engine(grid, start.point, end.point)),
            SelectionType::Semantic => Some(
                Self::range_semantic_engine(grid, start.point, end.point, escape_chars),
            ),
        }
    }

    /// The word or line a click at `point` selects, as a double or triple
    /// click does on the live screen; `None` for the kinds that do not expand
    /// from a single point.
    pub fn expand_point(grid: &VisibleGrid, point: Pos, ty: SelectionType, escape_chars: &str) -> (r:
        Option<SelectionRange>)
        requires
            grid.wf(),
        ensures
            r == (match ty {
                SelectionType::Semantic => Some(
                    semantic_range_spec(grid@, point, point, escape_chars@),
                ),
                SelectionType::Lines => Some(lines_range_spec(grid@, point, point)),
                _ => None,
            }),
    {
        match ty {
            SelectionType::Semantic => Some(
                Self::range_semantic_engine(grid, point, point, escape_chars),
            ),
            SelectionType::Lines => Some(Self::range_lines_engine(grid, point, point)),
            SelectionType::Simple | SelectionType::Block => None,
        }
    }

    fn range_semantic_engine(grid: &VisibleGrid, start: Pos, end: Pos, escape_chars: &str) -> (r:
        SelectionRange)
        requires
            grid.wf(),
        ensures
            r == semantic_range_spec(grid@, start, end, escape_chars@),
    {
        if start == end {
            if let Some(matching) = grid.bracket_search(start) {
                if (matching.row == start.row && matching.col.0 < start.col.0) || matching.row.0
                    < start.row.0 {
                    return SelectionRange { start: matching, end, is_block: false };
                } else {
                    return SelectionRange { start, end: matching, is_block: false };
                }
            }
        }
        let s = grid.semantic_search_left(start, escape_chars);
        let e = grid.semantic_search_right(end, escape_chars);
        SelectionRange { start: s, end: e, is_block: false }
    }

    fn range_lines_engine(grid: &VisibleGrid, start: Pos, end: Pos) -> (r: SelectionRange)
        requires
            grid.wf(),
        ensures
            r == lines_range_spec(grid@, start, end),
    {
        let s = grid.row_search_left(start);
        let e = grid.row_search_right(end);
        SelectionRange { start: s, end: e, is_block: false }
    }

    fn range_simple(&self, start0: Anchor, end0: Anchor, columns: usize) -> (r: Option<
        SelectionRange,
    >)
        requires
            simple_range_ok(start0, end0, columns as int),
        ensures
            r == (if selection_empty(self.kind(), self.start_anchor(), self.end_anchor()) {
                None
            } else {
                Some(simple_range_spec(start0, end0, columns as int))
            }),
    {
        if self.is_empty() {
            return None;
        }
        let mut start = start0;
        let mut end = end0;
        if end.side == Direction::Left && start.point != end.point {
            if end.point.col.0 == 0 {
                end.point.col = Column(columns - 1);
                end.point.row = Line(end.point.row.0 - 1);
            } else {
                end.point.col = Column(end.point.col.0 - 1);
            }
        }
        if start.side == Direction::Right && start.point != end.point {
            start.point.col = Column(start.point.col.0 + 1);
            if start.point.col.0 == columns {
                start.point.col = Column(0);
                start.point.row = Line(start.point.row.0 + 1);
            }
        }
        Some(SelectionRange { start: start.point, end: end.point, is_block: false })
    }

    fn range_block(&self, start0: Anchor, end0: Anchor) -> (r: Option<SelectionRange>)
        requires
            end0.point.col.0 + 1 <= usize::MAX,
            start0.point.col.0 + 1 <= usize::MAX,
        ensures
            r == (if selection_empty(self.kind(), self.start_anchor(), self.end_anchor()) {
                None
            } else {
                Some(block_range_spec(start0, end0))
            }),
    {
        if self.is_empty() {
            return None;
        }
        let mut start = start0;
        let mut end = end0;
        if start.point.col.0 > end.point.col.0 {
            let ts = start.side;
            start.side = end.side;
            end.side = ts;
            let tc = start.point.col;
            start.point.col = end.point.col;
            end.point.col = tc;
        }
        if end.side == Direction::Left && start.point != end.point && end.point.col.0 > 0 {
            end.point.col = Column(end.point.col.0 - 1);
        }
        if start.side == Direction::Right && start.point != end.point {
            start.point.col = Column(start.point.col.0 + 1);
        }
        Some(SelectionRange { start: start.point, end: end.point, is_block: true })
    }
}

/// Per-row selection interval, in column indices.
#[derive(Clone, Copy, Debug, PartialEq, Eq, Structural)]
pub struct RowSelection {
    pub lo: u16,
    pub hi: u16,
}

pub open spec fn min_usize(a: usize, b: usize) -> usize {
    if a <= b {
        a
    } else {
        b
    }
}

/// The selected interval of visible row `y`: `None` outside the selection's
/// rows or for a zero width; a block selection has the same span on every
/// row; a linear one runs from its start column (first row) to its end
/// column (last row), full width in between; columns are clipped to the
/// width.
pub open spec fn row_selection_spec(sel: Option<SelectionRange>, y: usize, cols: usize) -> Option<
    RowSelection,
> {
    match sel {
        None => None,
        Some(sel) => {
            let line = y as i32;
            if cols == 0 || line < sel.start.row.0 || line > sel.end.row.0 {
                None
            } else {
                let cols_max = (cols - 1) as usize;
                if sel.is_block {
                    Some(
                        RowSelection {
                            lo: min_usize(sel.start.col.0, cols_max) as u16,
                            hi: min_usize(sel.end.col.0, cols_max) as u16,
                        },
                    )
                } else {
                    let lo = if line == sel.start.row.0 {
                        sel.start.col.0
                    } else {
                        0
                    };
                    let hi = if line == sel.end.row.0 {
                        sel.end.col.0
                    } else {
                        cols_max
                    };
                    Some(
                        RowSelection {
                            lo: min_usize(lo, cols_max) as u16,
                            hi: min_usize(hi, cols_max) as u16,
                        },
                    )
                }
            }
        },
    }
}

/// The selection interval, if any, of visible row `y`.
pub fn row_selection_for(sel: Option<SelectionRange>, y: usize, cols: usize) -> (r: Option<
    RowSelection,
>)
    ensures
        r == row_selection_spec(sel, y, cols),
{
    let sel = match sel {
        Some(s) => s,
        None => {
            return None;
        },
    };
    if cols == 0 {
        return None;
    }
    let line = y as i32;
    if line < sel.start.row.0 || line > sel.end.row.0 {
        return None;
    }
    let cols_max = cols - 1;
    if sel.is_block {
        let lo = if sel.start.col.0 < cols_max {
            sel.start.col.0
        } else {
            cols_max
        };
        let hi = if sel.end.col.0 < cols_max {
            sel.end.col.0
        } else {
            cols_max
        };
        return Some(RowSelection { lo: lo as u16, hi: hi as u16 });
    }
    let lo = if line == sel.start.row.0 {
        sel.start.col.0
    } else {
        0
    };
    let hi = if line == sel.end.row.0 {
        sel.end.col.0
    } else {
        cols_max
    };
    let lo2 = if lo < cols_max {
        lo
    } else {
        cols_max
    };
    let hi2 = if hi < cols_max {
        hi
    } else {
        cols_max
    };
    Some(RowSelection { lo: lo2 as u16, hi: hi2 as u16 })
}

} // verus!
