//! Selections in the frozen block history: the click-count modes, the drag
//! state, the per-row spans a selection paints, and word or line expansion
//! over a block's rows the way the live screen expands them.

use vstd::prelude::*;

use crate::cell::{Square, Wide, blank_square};
use crate::grid::{GridModel, VisibleGrid, grid_model};
use crate::pos::{Column, Line, Pos};
use crate::row::Row;
use crate::selection::{
    Selection, SelectionType, WORD_DELIMITERS, lemma_expand_in_rows, lines_range_spec,
    semantic_range_spec,
};

verus! {

/// A position in the frozen history: store item, physical block row, column.
#[derive(Debug, Clone, Copy, PartialEq, Eq, Structural)]
pub struct BlockPoint {
    pub item: usize,
    pub line: usize,
    pub col: u32,
}

/// `(item, line)` of `a` comes strictly before `(item, line)` of `b`.
pub open spec fn row_before(ai: usize, al: usize, bi: usize, bl: usize) -> bool {
    ai < bi || (ai == bi && al < bl)
}

/// The selection mode for a run of `click_count` clicks.
pub open spec fn click_mode(click_count: usize) -> SelectionType {
    if click_count == 2 {
        SelectionType::Semantic
    } else if click_count >= 3 {
        SelectionType::Lines
    } else {
        SelectionType::Simple
    }
}

pub fn selection_type_for_click_count(click_count: usize) -> (t: SelectionType)
    ensures
        t == click_mode(click_count),
{
    if click_count == 2 {
        SelectionType::Semantic
    } else if click_count >= 3 {
        SelectionType::Lines
    } else {
        SelectionType::Simple
    }
}

/// The drag state of a frozen-region selection.
pub struct FrozenModel {
    /// The selection: (anchor, head), both inclusive cell points.
    pub selection: Option<(BlockPoint, BlockPoint)>,
    /// The anchor of a drag in progress.
    pub anchor: Option<BlockPoint>,
}

pub open spec fn frozen_begin(m: FrozenModel, anchor: BlockPoint) -> FrozenModel {
    FrozenModel { selection: None, anchor: Some(anchor) }
}

pub open spec fn frozen_select(
    m: FrozenModel,
    selection: Option<(BlockPoint, BlockPoint)>,
) -> FrozenModel {
    FrozenModel { selection, anchor: None }
}

pub open spec fn frozen_extend(m: FrozenModel, head: BlockPoint) -> FrozenModel {
    match m.anchor {
        Some(a) => FrozenModel { selection: Some((a, head)), anchor: m.anchor },
        None => m,
    }
}

pub open spec fn frozen_commit(m: FrozenModel) -> FrozenModel {
    FrozenModel { selection: m.selection, anchor: None }
}

pub open spec fn frozen_clear(m: FrozenModel) -> FrozenModel {
    FrozenModel { selection: None, anchor: m.anchor }
}

/// The frozen-region selection and the drag that builds it. The selection
/// is only created on the first move of a drag, so a plain click selects
/// nothing.
pub struct FrozenSelection {
    selection: Option<(BlockPoint, BlockPoint)>,
    anchor: Option<BlockPoint>,
}

impl View for FrozenSelection {
    type V = FrozenModel;

    closed spec fn view(&self) -> FrozenModel {
        FrozenModel { selection: self.selection, anchor: self.anchor }
    }
}

impl Default for FrozenSelection {
    fn default() -> (s: Self)
        ensures
            s@ == (FrozenModel { selection: None, anchor: None }),
    {
        FrozenSelection { selection: None, anchor: None }
    }
}

impl FrozenSelection {
    /// Start a drag from `anchor`, dropping whatever was selected.
    pub fn begin(&mut self, anchor: BlockPoint)
        ensures
            final(self)@ == frozen_begin(old(self)@, anchor),
    {
        self.selection = None;
        self.anchor = Some(anchor);
    }

    /// Take a range whole, as a double- or triple-click does; the anchor
    /// goes with it.
    pub fn select(&mut self, selection: Option<(BlockPoint, BlockPoint)>)
        ensures
            final(self)@ == frozen_select(old(self)@, selection),
    {
        self.selection = selection;
        self.anchor = None;
    }

    pub fn anchor(&self) -> (a: Option<BlockPoint>)
        ensures
            a == self@.anchor,
    {
        self.anchor
    }

    /// Grow the selection to `head`, reporting whether a drag was in
    /// progress.
    pub fn extend(&mut self, head: BlockPoint) -> (r: bool)
        ensures
            r == old(self)@.anchor is Some,
            final(self)@ == frozen_extend(old(self)@, head),
    {
        match self.anchor {
            Some(anchor) => {
                self.selection = Some((anchor, head));
                true
            },
            None => false,
        }
    }

    /// End a drag, reporting whether one was open.
    pub fn commit(&mut self) -> (r: bool)
        ensures
            r == old(self)@.anchor is Some,
            final(self)@ == frozen_commit(old(self)@),
    {
        let open = self.anchor.is_some();
        self.anchor = None;
        open
    }

    /// Drop the selection, reporting whether one was showing.
    pub fn clear(&mut self) -> (r: bool)
        ensures
            r == old(self)@.selection is Some,
            final(self)@ == frozen_clear(old(self)@),
    {
        let showing = self.selection.is_some();
        self.selection = None;
        showing
    }

    pub fn current(&self) -> (s: Option<(BlockPoint, BlockPoint)>)
        ensures
            s == self@.selection,
    {
        self.selection
    }
}

/// A click that is released without a drag selects nothing, whatever was
/// selected before.
pub proof fn lemma_click_selects_nothing(m: FrozenModel, anchor: BlockPoint)
    ensures
        frozen_commit(frozen_begin(m, anchor)).selection is None,
        frozen_commit(frozen_begin(m, anchor)).anchor is None,
{
}

/// A drag selects from its anchor to the last point it reached.
pub proof fn lemma_drag_selects_anchor_to_head(
    m: FrozenModel,
    anchor: BlockPoint,
    first: BlockPoint,
    head: BlockPoint,
)
    ensures
        frozen_commit(frozen_extend(frozen_extend(frozen_begin(m, anchor), first), head)).selection
            == Some((anchor, head)),
{
}

pub open spec fn min_u32(a: u32, b: u32) -> u32 {
    if a <= b {
        a
    } else {
        b
    }
}

pub open spec fn to_u16(x: u32) -> u16 {
    if x <= u16::MAX {
        x as u16
    } else {
        u16::MAX
    }
}

/// The selected column span of block row `row` of item `item`: row-local,
/// end-exclusive, for a selection of inclusive cells `[a, b]`.
pub open spec fn span_spec(
    selection: Option<(BlockPoint, BlockPoint)>,
    item: usize,
    row: usize,
    cols: u32,
) -> Option<(u16, u16)> {
    match selection {
        None => None,
        Some((a, b)) => if row_before(item, row, a.item, a.line) || row_before(
            b.item,
            b.line,
            item,
            row,
        ) {
            None
        } else {
            let width: u32 = if cols >= 1 {
                cols
            } else {
                1
            };
            let lo: u32 = if item == a.item && row == a.line {
                a.col
            } else {
                0
            };
            let hi0: u32 = if item == b.item && row == b.line {
                if b.col < u32::MAX {
                    (b.col + 1) as u32
                } else {
                    u32::MAX
                }
            } else {
                width
            };
            let hi = min_u32(hi0, width);
            if lo < hi {
                Some((to_u16(lo), to_u16(hi)))
            } else {
                None
            }
        },
    }
}

/// The selected column span of one block row, row-local and end-exclusive.
/// The selection covers inclusive cells `[a, b]` in (item, row, col) order.
pub fn block_selection_span(
    selection: Option<(BlockPoint, BlockPoint)>,
    item: usize,
    row: usize,
    cols: u32,
) -> (r: Option<(u16, u16)>)
    ensures
        r == span_spec(selection, item, row, cols),
{
    let (a, b) = match selection {
        Some(s) => s,
        None => {
            return None;
        },
    };
    if item < a.item || (item == a.item && row < a.line) || b.item < item || (b.item == item
        && b.line < row) {
        return None;
    }
    let width: u32 = if cols >= 1 {
        cols
    } else {
        1
    };
    let lo: u32 = if item == a.item && row == a.line {
        a.col
    } else {
        0
    };
    let hi0: u32 = if item == b.item && row == b.line {
        b.col.saturating_add(1)
    } else {
        width
    };
    let hi: u32 = if hi0 <= width {
        hi0
    } else {
        width
    };
    if lo < hi {
        let lo16: u16 = if lo <= 0xffff {
            lo as u16
        } else {
            0xffff
        };
        let hi16: u16 = if hi <= 0xffff {
            hi as u16
        } else {
            0xffff
        };
        Some((lo16, hi16))
    } else {
        None
    }
}

/// One cell as a frozen block row hands it out: its column, its text and
/// its part in a wide character.
pub struct VisitedCell {
    pub x: u16,
    pub text: String,
    pub wide: Wide,
}

/// One frozen block row: the cells it visits and whether it soft-wraps.
pub struct BlockRowRead {
    pub cells: Vec<VisitedCell>,
    pub wrapped: bool,
}

/// A frozen block as its rows read: `None` where a row could not be read.
pub struct FrozenBlock {
    pub cols: u16,
    pub rows: Vec<Option<BlockRowRead>>,
}

/// The first char of a cell's text (`'\0'` for none).
pub open spec fn first_char(s: Seq<char>) -> char {
    if s.len() > 0 {
        s[0]
    } else {
        '\0'
    }
}

/// `cells` with the visited cells written over them in order, skipping
/// those past the width.
pub open spec fn paint(cells: Seq<Square>, visits: Seq<VisitedCell>, cols: int) -> Seq<Square>
    decreases visits.len(),
{
    if visits.len() == 0 {
        cells
    } else {
        let v = visits.last();
        let c = paint(cells, visits.drop_last(), cols);
        if (v.x as int) < cols {
            c.update(v.x as int, Square { ch: first_char(v.text@), width: v.wide })
        } else {
            c
        }
    }
}

pub open spec fn blank_cells(cols: int) -> Seq<Square> {
    Seq::new(cols as nat, |i: int| blank_square())
}

/// The cells of a row that visits `visits`, `cols` wide.
pub open spec fn row_cells(cols: int, visits: Seq<VisitedCell>) -> Seq<Square> {
    paint(blank_cells(cols), visits, cols)
}

/// Whether row `r` soft-wraps, or `None` when it cannot be read.
pub open spec fn wrapped_of(b: FrozenBlock, r: int) -> Option<bool> {
    match b.rows@[r] {
        Some(rr) => Some(rr.wrapped),
        None => None,
    }
}

/// The first row of the logical line holding row `r` (`None` when a row
/// on the way cannot be read).
pub open spec fn line_first(b: FrozenBlock, r: int) -> Option<int>
    decreases r,
{
    if r <= 0 {
        Some(r)
    } else {
        match wrapped_of(b, r - 1) {
            None => None,
            Some(w) => if w {
                line_first(b, r - 1)
            } else {
                Some(r)
            },
        }
    }
}

/// The last row of the logical line holding row `r`.
pub open spec fn line_last(b: FrozenBlock, r: int) -> Option<int>
    decreases b.rows@.len() - r,
{
    if r + 1 >= b.rows@.len() {
        Some(r)
    } else {
        match wrapped_of(b, r) {
            None => None,
            Some(w) => if w {
                line_last(b, r + 1)
            } else {
                Some(r)
            },
        }
    }
}

pub open spec fn all_read(b: FrozenBlock, first: int, last: int) -> bool {
    forall|i: int| first <= i <= last ==> (#[trigger] b.rows@[i]) is Some
}

/// The rows `first..=last` of `b` as the live screen's grid.
pub open spec fn block_grid(b: FrozenBlock, first: int, last: int) -> GridModel {
    GridModel {
        cells: Seq::new(
            (last - first + 1) as nat,
            |i: int| row_cells(b.cols as int, b.rows@[first + i]->Some_0.cells@),
        ),
        cols: b.cols as usize,
        wrapped: Seq::new((last - first + 1) as nat, |i: int| b.rows@[first + i]->Some_0.wrapped),
    }
}

pub open spec fn min_int(a: int, b: int) -> int {
    if a <= b {
        a
    } else {
        b
    }
}

/// A range of `g` as block points, `first` rows down.
pub open spec fn block_points(first: int, start: Pos, end: Pos) -> ((usize, u32), (usize, u32)) {
    (
        ((first + start.row.0) as usize, start.col.0 as u32),
        ((first + end.row.0) as usize, end.col.0 as u32),
    )
}

/// The range a click of `selection_type` at (`line`, `col`) of `b` selects.
pub open spec fn block_range_spec(
    b: FrozenBlock,
    line: int,
    col: u32,
    selection_type: SelectionType,
) -> Option<((usize, u32), (usize, u32))> {
    let cols = b.cols as int;
    if cols == 0 || line >= b.rows@.len() {
        None
    } else {
        match line_first(b, line) {
            None => None,
            Some(first) => match line_last(b, line) {
                None => None,
                Some(last) => if selection_type == SelectionType::Simple || selection_type
                    == SelectionType::Block {
                    let c = min_int(col as int, cols - 1) as u32;
                    Some(((line as usize, c), (line as usize, c)))
                } else if !all_read(b, first, last) {
                    None
                } else {
                    let g = block_grid(b, first, last);
                    let point = Pos {
                        row: Line((line - first) as i32),
                        col: Column(min_int(col as int, cols - 1) as usize),
                    };
                    let range = if selection_type == SelectionType::Semantic {
                        semantic_range_spec(g, point, point, WORD_DELIMITERS@)
                    } else {
                        lines_range_spec(g, point, point)
                    };
                    Some(block_points(first, range.start, range.end))
                },
            },
        }
    }
}

/// The first char of `text`, or `'\0'`.
fn text_first_char(text: &String) -> (c: char)
    ensures
        c == first_char(text@),
{
    let t = text.as_str();
    if t.unicode_len() > 0 {
        t.get_char(0)
    } else {
        '\0'
    }
}

/// A `cols`-wide row of cells with `visits` written in.
fn materialize(cols: usize, visits: &Vec<VisitedCell>) -> (r: Row<Square>)
    ensures
        r.inner@ == row_cells(cols as int, visits@),
{
    let mut row = Row::new(cols);
    assert(row.inner@ =~= blank_cells(cols as int));
    let mut i: usize = 0;
    while i < visits.len()
        invariant
            i <= visits@.len(),
            row.inner@.len() == cols,
            row.inner@ == paint(blank_cells(cols as int), visits@.take(i as int), cols as int),
        decreases visits@.len() - i,
    {
        let v = &visits[i];
        let x = v.x as usize;
        proof {
            assert(visits@.take(i as int + 1).drop_last() =~= visits@.take(i as int));
            assert(visits@.take(i as int + 1).last() == visits@[i as int]);
        }
        if x < cols {
            let ch = text_first_char(&v.text);
            row.inner.set(x, Square { ch, width: v.wide });
        }
        i = i + 1;
    }
    assert(visits@.take(visits@.len() as int) =~= visits@);
    row
}

/// The first row of the logical line holding `line`.
fn logical_first(block: &FrozenBlock, line: usize) -> (r: Option<usize>)
    requires
        line < block.rows@.len(),
    ensures
        match r {
            Some(f) => line_first(*block, line as int) == Some(f as int) && f <= line,
            None => line_first(*block, line as int) is None,
        },
{
    let mut first = line;
    while first > 0
        invariant
            first <= line < block.rows@.len(),
            line_first(*block, first as int) == line_first(*block, line as int),
        decreases first,
    {
        match &block.rows[first - 1] {
            None => {
                return None;
            },
            Some(r) => {
                if !r.wrapped {
                    return Some(first);
                }
            },
        }
        first = first - 1;
    }
    Some(first)
}

/// The last row of the logical line holding `line`.
fn logical_last(block: &FrozenBlock, line: usize) -> (r: Option<usize>)
    requires
        line < block.rows@.len(),
    ensures
        match r {
            Some(l) => line_last(*block, line as int) == Some(l as int) && line <= l < block.rows@.len(),
            None => line_last(*block, line as int) is None,
        },
{
    let n = block.rows.len();
    let mut last = line;
    while last + 1 < n
        invariant
            n == block.rows@.len(),
            line <= last < n,
            line_last(*block, last as int) == line_last(*block, line as int),
        decreases n - last,
    {
        match &block.rows[last] {
            None => {
                return None;
            },
            Some(r) => {
                if !r.wrapped {
                    return Some(last);
                }
            },
        }
        last = last + 1;
    }
    Some(last)
}

/// The range a click of `selection_type` at row `line`, column `col` of a
/// frozen block selects, as inclusive block points: a word or a logical
/// line expands the way it would on the live screen; a simple or block
/// click selects its cell.
pub fn block_selection_range(
    block: &FrozenBlock,
    line: usize,
    col: u32,
    selection_type: SelectionType,
) -> (r: Option<((usize, u32), (usize, u32))>)
    requires
        block.rows@.len() <= i32::MAX,
    ensures
        r == block_range_spec(*block, line as int, col, selection_type),
{
    let cols: usize = block.cols as usize;
    if cols == 0 || line >= block.rows.len() {
        return None;
    }
    let first = match logical_first(block, line) {
        Some(f) => f,
        None => {
            return None;
        },
    };
    let last = match logical_last(block, line) {
        Some(l) => l,
        None => {
            return None;
        },
    };
    let c: usize = if (col as usize) < cols - 1 {
        col as usize
    } else {
        cols - 1
    };
    match selection_type {
        SelectionType::Simple | SelectionType::Block => {
            return Some(((line, c as u32), (line, c as u32)));
        },
        _ => {},
    }
    let mut rows: Vec<Row<Square>> = Vec::new();
    let mut wrapped: Vec<bool> = Vec::new();
    let mut row = first;
    while row <= last
        invariant
            first <= row <= last + 1,
            last < block.rows@.len(),
            block.rows@.len() <= i32::MAX,
            cols == block.cols,
            cols != 0,
            line < block.rows@.len(),
            line_first(*block, line as int) == Some(first as int),
            line_last(*block, line as int) == Some(last as int),
            selection_type != SelectionType::Simple,
            selection_type != SelectionType::Block,
            rows@.len() == row - first,
            wrapped@.len() == row - first,
            forall|i: int|
                0 <= i < row - first ==> (#[trigger] block.rows@[first + i]) is Some
                    && rows@[i].inner@ == row_cells(cols as int, block.rows@[first + i]->Some_0.cells@)
                    && wrapped@[i] == block.rows@[first + i]->Some_0.wrapped,
        decreases last + 1 - row,
    {
        match &block.rows[row] {
            None => {
                proof {
                    assert(block.rows@[row as int] is None);
                }
                return None;
            },
            Some(rr) => {
                let cells = materialize(cols, &rr.cells);
                rows.push(cells);
                wrapped.push(rr.wrapped);
            },
        }
        row = row + 1;
    }
    proof {
        assert forall|i: int| first <= i <= last implies (#[trigger] block.rows@[i]) is Some by {
            assert(block.rows@[first + (i - first)] is Some);
        }
    }
    let grid = VisibleGrid::new(rows.as_slice(), cols, wrapped.as_slice());
    let ghost g = block_grid(*block, first as int, last as int);
    proof {
        assert(grid@.cells =~= g.cells);
        assert(grid@.wrapped =~= g.wrapped);
        assert(grid@ == g);
    }
    let point = Pos::new(Line((line - first) as i32), Column(c));
    let range = match Selection::expand_point(&grid, point, selection_type, WORD_DELIMITERS) {
        Some(range) => range,
        None => {
            return None;
        },
    };
    proof {
        lemma_expand_in_rows(g, point, WORD_DELIMITERS@);
    }
    let start = (first + range.start.row.0 as usize, range.start.col.0 as u32);
    let end = (first + range.end.row.0 as usize, range.end.col.0 as u32);
    Some((start, end))
}

/// One per-block piece of a frozen selection: the item, and its start and
/// inclusive end within the block (`None` = the block's own start or end).
#[derive(Debug, Clone, Copy)]
pub struct FrozenPiece {
    pub item: usize,
    pub start: Option<(usize, u32)>,
    pub end: Option<(usize, u32)>,
}

pub open spec fn point_le(a: BlockPoint, b: BlockPoint) -> bool {
    a.item < b.item || (a.item == b.item && (a.line < b.line || (a.line == b.line && a.col
        <= b.col)))
}

/// The pieces of a frozen selection between `a` and `b` (in either order)
/// over items that `has_block` says hold a block, in item order.
pub open spec fn pieces_spec(has_block: Seq<bool>, a0: BlockPoint, b0: BlockPoint) -> Seq<
    FrozenPiece,
> {
    let (a, b) = if point_le(a0, b0) {
        (a0, b0)
    } else {
        (b0, a0)
    };
    pieces_upto(has_block, a, b, has_block.len() as int)
}

pub open spec fn pieces_upto(has_block: Seq<bool>, a: BlockPoint, b: BlockPoint, n: int) -> Seq<
    FrozenPiece,
>
    decreases n,
{
    if n <= 0 {
        Seq::empty()
    } else {
        let i = n - 1;
        let before = pieces_upto(has_block, a, b, n - 1);
        if i < a.item || i > b.item || !has_block[i] {
            before
        } else {
            before.push(
                FrozenPiece {
                    item: i as usize,
                    start: if i == a.item {
                        Some((a.line, a.col))
                    } else {
                        None
                    },
                    end: if i == b.item {
                        Some((b.line, b.col))
                    } else {
                        None
                    },
                },
            )
        }
    }
}

/// The per-block ranges of the frozen selection (inclusive endpoints), in
/// item order; `has_block[i]` says whether item `i` holds a block.
pub fn frozen_selection_pieces(has_block: &[bool], a: BlockPoint, b: BlockPoint) -> (r: Vec<
    FrozenPiece,
>)
    ensures
        r@ == pieces_spec(has_block@, a, b),
{
    let ordered = a.item < b.item || (a.item == b.item && (a.line < b.line || (a.line == b.line
        && a.col <= b.col)));
    let (lo, hi) = if ordered {
        (a, b)
    } else {
        (b, a)
    };
    let mut out: Vec<FrozenPiece> = Vec::new();
    let mut i: usize = 0;
    while i < has_block.len()
        invariant
            i <= has_block@.len(),
            out@ == pieces_upto(has_block@, lo, hi, i as int),
            pieces_spec(has_block@, a, b) == pieces_upto(has_block@, lo, hi, has_block@.len() as int),
        decreases has_block@.len() - i,
    {
        if !(i < lo.item || i > hi.item) && has_block[i] {
            out.push(
                FrozenPiece {
                    item: i,
                    start: if i == lo.item {
                        Some((lo.line, lo.col))
                    } else {
                        None
                    },
                    end: if i == hi.item {
                        Some((hi.line, hi.col))
                    } else {
                        None
                    },
                },
            );
        }
        i = i + 1;
    }
    out
}

} // verus!
