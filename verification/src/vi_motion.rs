//! Vi-mode cursor motions over the visible grid, in visible-row
//! coordinates, clamped at the viewport edge.

use vstd::prelude::*;

use crate::cell::{Square, Wide, is_spacer_wide};
use crate::grid::{
    GridModel,
    VisibleGrid, back_measure, bracket_spec, dir_measure, fwd_measure, is_spacer_at,
    lemma_next_measure, lemma_prev_measure, next_spec, prev_spec, semantic_left_spec,
    semantic_right_spec, skip_spacers_right, walk_left, walk_right, inline_left_spec,
    inline_right_spec, hard_break_at, in_rows, lemma_semantic_in_rows, bracket_partner,
    lemma_semantic_right_above,
    lemma_bracket_walk_in_rows, lemma_bracket_involution,
};
use crate::pos::{Column, Direction, Line, Pos};
use crate::selection::{pos_le, pos_lt};
use crate::text::str_contains_char;

verus! {

/// Vi mode motions.
#[derive(Debug, Copy, Clone, PartialEq, Eq, Structural)]
pub enum ViMotion {
    Up,
    Down,
    Left,
    Right,
    /// Start of line.
    First,
    /// End of line.
    Last,
    /// First non-empty cell.
    FirstOccupied,
    /// Top of screen.
    High,
    /// Center of screen.
    Middle,
    /// Bottom of screen.
    Low,
    /// Start of a semantically separated word.
    SemanticLeft,
    /// Start of the next semantically separated word.
    SemanticRight,
    /// End of the previous semantically separated word.
    SemanticLeftEnd,
    /// End of a semantically separated word.
    SemanticRightEnd,
    /// Start of a whitespace separated word.
    WordLeft,
    /// Start of the next whitespace separated word.
    WordRight,
    /// End of the previous whitespace separated word.
    WordLeftEnd,
    /// End of a whitespace separated word.
    WordRightEnd,
    /// The opposing bracket.
    Bracket,
}

pub open spec fn mk_pos(row: int, col: int) -> Pos {
    Pos { row: Line(row as i32), col: Column(col as usize) }
}

/// Whitespace (not a wide spacer): NUL, space or tab.
pub open spec fn is_space_at(g: GridModel, p: Pos) -> bool {
    let c = g.cell_at(p);
    !is_spacer_wide(c.width) && (c.ch == '\0' || c.ch == ' ' || c.ch == '\t')
}

/// The row at `p` soft-wraps and `p` is its last column.
pub open spec fn is_wrap_at(g: GridModel, p: Pos) -> bool {
    p.col.0 == g.last_col_spec() && g.wrapped_at(p.row.0 as int)
}

pub open spec fn is_boundary_at(g: GridModel, p: Pos, d: Direction) -> bool {
    (p.row.0 <= 0 && p.col.0 == 0 && d == Direction::Left) || (p.row.0 == g.rows_count() - 1
        && p.col.0 + 1 >= g.width() && d == Direction::Right)
}

pub open spec fn advance_spec(g: GridModel, p: Pos, d: Direction) -> Pos {
    if d == Direction::Left {
        match prev_spec(g, p) {
            Some(q) => q,
            None => p,
        }
    } else {
        match next_spec(g, p) {
            Some(q) => q,
            None => p,
        }
    }
}

pub open spec fn measure(g: GridModel, p: Pos, d: Direction) -> int {
    dir_measure(g, p, d == Direction::Right)
}

pub open spec fn sat_dec(c: usize) -> int {
    if c > 0 {
        c - 1
    } else {
        0
    }
}

/// Jump to the end of a wide character in direction `d`.
pub open spec fn expand_wide_spec(g: GridModel, p: Pos, d: Direction) -> Pos {
    let l = g.last_col_spec();
    let w = g.cell_at(p).width;
    if d == Direction::Right && w == Wide::LeadingSpacer {
        mk_pos(p.row.0 + 1, 1)
    } else if d == Direction::Right && w == Wide::Wide {
        mk_pos(p.row.0 as int, if p.col.0 + 1 <= l { p.col.0 + 1 } else { l })
    } else if d == Direction::Left && (w == Wide::Wide || w == Wide::Spacer) {
        let p1 = if w == Wide::Spacer {
            mk_pos(p.row.0 as int, sat_dec(p.col.0))
        } else {
            p
        };
        match prev_spec(g, p1) {
            Some(pv) => if g.cell_at(pv).width == Wide::LeadingSpacer {
                pv
            } else {
                p1
            },
            None => p1,
        }
    } else {
        p
    }
}

/// The first non-space cell of row `row` at or after column `c`.
pub open spec fn first_occ_from(g: GridModel, row: int, c: int) -> Option<Pos>
    decreases g.width() - c,
{
    if c < 0 || c >= g.width() {
        None
    } else if !is_space_at(g, mk_pos(row, c)) {
        Some(mk_pos(row, c))
    } else {
        first_occ_from(g, row, c + 1)
    }
}

/// The last non-space cell of row `row` before column `c`.
pub open spec fn last_occ_below(g: GridModel, row: int, c: int) -> Option<Pos>
    decreases c,
{
    if c <= 0 {
        None
    } else if !is_space_at(g, mk_pos(row, c - 1)) {
        Some(mk_pos(row, c - 1))
    } else {
        last_occ_below(g, row, c - 1)
    }
}

pub open spec fn first_occ(g: GridModel, row: int) -> Option<Pos> {
    first_occ_from(g, row, 0)
}

pub open spec fn last_occ(g: GridModel, row: int) -> Option<Pos> {
    last_occ_below(g, row, g.width())
}

/// Follow soft wraps down from row `row`: the first row at or below it
/// that does not wrap.
pub open spec fn wrap_down_row(g: GridModel, row: int) -> int
    decreases g.wrapped_len() - row,
{
    if g.wrapped_at(row) {
        proof {
            g.lemma_wrapped_len(row);
        }
        wrap_down_row(g, row + 1)
    } else {
        row
    }
}

/// The end of the line (`$`).
pub open spec fn last_spec(g: GridModel, pos: Pos) -> Pos {
    let p1 = expand_wide_spec(g, pos, Direction::Right);
    let occ = match last_occ(g, p1.row.0 as int) {
        Some(o) => o,
        None => mk_pos(0, 0),
    };
    if p1.col.0 < occ.col.0 {
        occ
    } else if is_wrap_at(g, p1) {
        let p2 = mk_pos(wrap_down_row(g, p1.row.0 as int), p1.col.0 as int);
        match last_occ(g, p2.row.0 as int) {
            Some(o) => o,
            None => p2,
        }
    } else {
        mk_pos(p1.row.0 as int, g.last_col_spec())
    }
}

/// Scanning up from `line` through rows that wrap into the next, the first
/// non-space cell of the topmost row that has one (else `acc`).
pub open spec fn up_scan(g: GridModel, line: int, acc: Option<Pos>) -> Option<Pos>
    decreases line + 1,
{
    if line < 0 || !g.wrapped_at(line) {
        acc
    } else {
        up_scan(
            g,
            line - 1,
            match first_occ(g, line) {
                Some(o) => Some(o),
                None => acc,
            },
        )
    }
}

/// Scanning down from `line` through the logical line, the first non-space
/// cell (else the last cell of the line).
pub open spec fn down_scan(g: GridModel, line: int) -> Pos
    decreases g.wrapped_len() - line,
{
    match first_occ(g, line) {
        Some(o) => o,
        None => if !g.wrapped_at(line) {
            mk_pos(line, g.last_col_spec())
        } else {
            proof {
                g.lemma_wrapped_len(line);
            }
            down_scan(g, line + 1)
        },
    }
}

/// The first non-empty cell (`^`).
pub open spec fn first_occupied_spec(g: GridModel, pos: Pos) -> Pos {
    let l = g.last_col_spec();
    let p1 = expand_wide_spec(g, pos, Direction::Left);
    let occ = match first_occ(g, p1.row.0 as int) {
        Some(o) => o,
        None => mk_pos(p1.row.0 as int, l),
    };
    if p1 == occ {
        match up_scan(g, p1.row.0 - 1, None) {
            Some(o) => o,
            None => down_scan(g, p1.row.0 as int),
        }
    } else {
        occ
    }
}

/// A walk from `p` in direction `d` can go on until the viewport boundary:
/// leftward from anywhere, rightward from above the bottom edge (below it,
/// no step reaches the bottom-right corner).
pub open spec fn walkable(g: GridModel, p: Pos, d: Direction) -> bool {
    d == Direction::Left || p.row.0 < g.rows_count()
}

/// Move while the next cell is (or is not) whitespace, stopping at the
/// viewport boundary.
pub open spec fn skip_run(g: GridModel, p: Pos, d: Direction, space: bool) -> Pos
    decreases measure(g, p, d),
    when walkable(g, p, d) && g.rows_count() <= i32::MAX
{
    if !is_boundary_at(g, p, d) && is_space_at(g, advance_spec(g, p, d)) == space {
        proof {
            lemma_advance(g, p, d);
        }
        skip_run(g, advance_spec(g, p, d), d, space)
    } else {
        p
    }
}

/// Move while the current cell is (or is not) whitespace, stopping at the
/// viewport boundary.
pub open spec fn walk_while(g: GridModel, p: Pos, d: Direction, space: bool) -> Pos
    decreases measure(g, p, d),
    when walkable(g, p, d) && g.rows_count() <= i32::MAX
{
    if !is_boundary_at(g, p, d) && is_space_at(g, p) == space {
        proof {
            lemma_advance(g, p, d);
        }
        walk_while(g, advance_spec(g, p, d), d, space)
    } else {
        p
    }
}

/// Away from the boundary, a step moves and stays in the grid.
pub proof fn lemma_advance(g: GridModel, p: Pos, d: Direction)
    requires
        walkable(g, p, d),
        !is_boundary_at(g, p, d),
        g.rows_count() <= i32::MAX,
    ensures
        walkable(g, advance_spec(g, p, d), d),
        in_rows(g, p) ==> in_rows(g, advance_spec(g, p, d)),
        0 <= measure(g, advance_spec(g, p, d), d) < measure(g, p, d),
{
    if d == Direction::Left {
        lemma_prev_measure(g, p);
    } else {
        lemma_next_measure(g, p);
    }
}

pub open spec fn expand_semantic_spec(g: GridModel, esc: Seq<char>, p: Pos, d: Direction) -> Pos {
    let cell = g.cell_at(p);
    if esc.contains(cell.ch) && !is_spacer_wide(cell.width) {
        p
    } else if d == Direction::Left {
        semantic_left_spec(g, p, esc)
    } else {
        semantic_right_spec(g, p, esc)
    }
}

/// Move by semantically separated word (`w`/`b`/`e`/`ge`).
pub open spec fn semantic_spec(
    g: GridModel,
    esc: Seq<char>,
    pos: Pos,
    d: Direction,
    side: Direction,
) -> Pos {
    let p1 = expand_wide_spec(g, pos, d);
    let p2 = if d != side && !is_boundary_at(g, p1, d) {
        expand_semantic_spec(g, esc, p1, d)
    } else {
        p1
    };
    let p3 = skip_run(g, p2, d, true);
    let p4 = if !is_boundary_at(g, p3, d) {
        advance_spec(g, p3, d)
    } else {
        p3
    };
    if d == side && !is_boundary_at(g, p4, d) {
        expand_semantic_spec(g, esc, p4, d)
    } else {
        p4
    }
}

/// Move by whitespace separated word (`W`/`B`/`E`/`gE`).
pub open spec fn word_spec(g: GridModel, pos: Pos, d: Direction, side: Direction) -> Pos {
    let p1 = expand_wide_spec(g, pos, d);
    if d == side {
        skip_run(g, skip_run(g, p1, d, true), d, false)
    } else {
        walk_while(g, walk_while(g, p1, d, false), d, true)
    }
}

/// The first row of the logical line ending at `row`, for `0` (`First`).
pub open spec fn up_first(g: GridModel, row: int) -> int
    decreases row,
{
    if row > 0 && g.wrapped_at(row - 1) {
        up_first(g, row - 1)
    } else {
        row
    }
}

pub open spec fn occ_col(o: Option<Pos>) -> int {
    match o {
        Some(p) => p.col.0 as int,
        None => 0,
    }
}

/// The result of vi motion `motion` from `pos`.
pub open spec fn vi_motion_spec(g: GridModel, esc: Seq<char>, pos: Pos, motion: ViMotion) -> Pos {
    let l = g.last_col_spec();
    match motion {
        ViMotion::Up => if pos.row.0 > 0 {
            mk_pos(pos.row.0 - 1, pos.col.0 as int)
        } else {
            pos
        },
        ViMotion::Down => if pos.row.0 + 1 < g.rows_count() {
            mk_pos(pos.row.0 + 1, pos.col.0 as int)
        } else {
            pos
        },
        ViMotion::Left => {
            let p1 = expand_wide_spec(g, pos, Direction::Left);
            let wrap_pos = mk_pos(p1.row.0 - 1, l);
            if p1.col.0 == 0 && p1.row.0 > 0 && is_wrap_at(g, wrap_pos) {
                wrap_pos
            } else {
                mk_pos(p1.row.0 as int, sat_dec(p1.col.0))
            }
        },
        ViMotion::Right => {
            let p1 = expand_wide_spec(g, pos, Direction::Right);
            if is_wrap_at(g, p1) {
                mk_pos(p1.row.0 + 1, 0)
            } else {
                mk_pos(p1.row.0 as int, if p1.col.0 + 1 <= l { p1.col.0 + 1 } else { l })
            }
        },
        ViMotion::First => {
            let p1 = expand_wide_spec(g, pos, Direction::Left);
            mk_pos(if p1.col.0 == 0 { up_first(g, p1.row.0 as int) } else { p1.row.0 as int }, 0)
        },
        ViMotion::Last => last_spec(g, pos),
        ViMotion::FirstOccupied => first_occupied_spec(g, pos),
        ViMotion::High => mk_pos(0, occ_col(first_occ(g, 0))),
        ViMotion::Middle => {
            let line = if g.rows_count() >= 2 { g.rows_count() / 2 - 1 } else { 0 };
            mk_pos(line, occ_col(first_occ(g, line)))
        },
        ViMotion::Low => {
            let line = g.rows_count() - 1;
            mk_pos(line, occ_col(first_occ(g, line)))
        },
        ViMotion::SemanticLeft => semantic_spec(g, esc, pos, Direction::Left, Direction::Left),
        ViMotion::SemanticRight => semantic_spec(g, esc, pos, Direction::Right, Direction::Left),
        ViMotion::SemanticLeftEnd => semantic_spec(g, esc, pos, Direction::Left, Direction::Right),
        ViMotion::SemanticRightEnd => semantic_spec(
            g,
            esc,
            pos,
            Direction::Right,
            Direction::Right,
        ),
        ViMotion::WordLeft => word_spec(g, pos, Direction::Left, Direction::Left),
        ViMotion::WordRight => word_spec(g, pos, Direction::Right, Direction::Left),
        ViMotion::WordLeftEnd => word_spec(g, pos, Direction::Left, Direction::Right),
        ViMotion::WordRightEnd => word_spec(g, pos, Direction::Right, Direction::Right),
        ViMotion::Bracket => match bracket_spec(g, pos) {
            Some(q) => q,
            None => pos,
        },
    }
}

/// Where a vi cursor can stand: on a visible row, within the width, and not
/// on the padding before a wide character that wraps past the last row.
pub open spec fn vi_domain(g: GridModel, pos: Pos) -> bool {
    &&& g.wf()
    &&& in_rows(g, pos)
    &&& pos.col.0 <= g.last_col_spec()
    &&& g.cell_at(pos).width == Wide::LeadingSpacer ==> pos.row.0 + 1 < g.rows_count() && 1
        <= g.last_col_spec()
}

/// What `vi_motion` needs of `pos`: a step down or right needs the row
/// below, and a step left the row above, to exist as a number; a rightward
/// word or semantic motion needs a walk that comes to an end; every other
/// motion works from anywhere.
pub open spec fn vi_motion_ok(g: GridModel, pos: Pos, motion: ViMotion) -> bool {
    &&& g.wf()
    &&& match motion {
        ViMotion::Up | ViMotion::High | ViMotion::Middle | ViMotion::Low | ViMotion::First
        | ViMotion::Last | ViMotion::FirstOccupied | ViMotion::Bracket => true,
        ViMotion::Down | ViMotion::Right => pos.row.0 < i32::MAX,
        ViMotion::Left => pos.row.0 > i32::MIN,
        ViMotion::SemanticLeft | ViMotion::SemanticLeftEnd | ViMotion::WordLeft
        | ViMotion::WordLeftEnd => true,
        _ => walk_ends(g, pos, Direction::Right),
    }
}

/// A word or semantic motion from `pos` in direction `d` comes to an end:
/// always leftward; rightward only from above the bottom edge once a wide
/// char's padding is crossed, since below it the walk never reaches the
/// bottom-right corner.
pub open spec fn walk_ends(g: GridModel, pos: Pos, d: Direction) -> bool {
    walkable(g, expand_wide_spec(g, pos, d), d)
}

/// Whether the cell at `pos` is whitespace (not a wide spacer).
fn is_space(g: &VisibleGrid, pos: Pos) -> (r: bool)
    ensures
        r == is_space_at(g@, pos),
{
    let cell = g.cell(pos);
    let spacer = match cell.wide() {
        Wide::Spacer | Wide::LeadingSpacer => true,
        _ => false,
    };
    !spacer && (cell.c() == '\0' || cell.c() == ' ' || cell.c() == '\t')
}

/// Whether the row at `pos` soft-wraps and `pos` is its last column.
fn is_wrap(g: &VisibleGrid, pos: Pos) -> (r: bool)
    ensures
        r == is_wrap_at(g@, pos),
{
    pos.col.0 == g.last_col() && g.wrapped(pos.row.0)
}

/// Whether `pos` is at the viewport boundary in `direction`.
fn is_boundary(g: &VisibleGrid, pos: Pos, direction: Direction) -> (r: bool)
    requires
        g.wf(),
    ensures
        r == is_boundary_at(g@, pos, direction),
{
    (pos.row.0 <= 0 && pos.col.0 == 0 && direction == Direction::Left) || ((pos.row.0 as i64)
        == (g.rows_len() as i64) - 1 && (g.cols() == 0 || pos.col.0 >= g.cols() - 1) && direction
        == Direction::Right)
}

/// Advance `pos` by one cell in `direction`, staying put at the grid edge.
fn advance(g: &VisibleGrid, pos: Pos, direction: Direction) -> (r: Pos)
    requires
        g.wf(),
    ensures
        r == advance_spec(g@, pos, direction),
{
    if direction == Direction::Left {
        match g.prev(pos) {
            Some(q) => q,
            None => pos,
        }
    } else {
        match g.next(pos) {
            Some(q) => q,
            None => pos,
        }
    }
}

/// Jump to the end of a wide character.
fn expand_wide(g: &VisibleGrid, pos: Pos, direction: Direction) -> (r: Pos)
    requires
        g.wf(),
        direction == Direction::Right && g.cell_at(pos).width == Wide::LeadingSpacer ==> pos.row.0
            < i32::MAX,
    ensures
        r == expand_wide_spec(g@, pos, direction),
        in_rows(g@, pos) && (direction == Direction::Right && g.cell_at(pos).width
            == Wide::LeadingSpacer ==> pos.row.0 + 1 < g.rows_count()) ==> in_rows(g@, r),
{
    proof {
        g.lemma_wf_bounds();
    }
    let last_column = g.last_col();
    let wide = g.cell(pos).wide();
    match direction {
        Direction::Right => match wide {
            Wide::LeadingSpacer => Pos::new(Line(pos.row.0 + 1), Column(1)),
            Wide::Wide => Pos::new(
                pos.row,
                Column(
                    if pos.col.0 < last_column {
                        pos.col.0 + 1
                    } else {
                        last_column
                    },
                ),
            ),
            _ => pos,
        },
        Direction::Left => match wide {
            Wide::Wide | Wide::Spacer => {
                let p1 = match wide {
                    Wide::Spacer => Pos::new(pos.row, Column(pos.col.0.saturating_sub(1))),
                    _ => pos,
                };
                match g.prev(p1) {
                    Some(prev) => match g.cell(prev).wide() {
                        Wide::LeadingSpacer => prev,
                        _ => p1,
                    },
                    None => p1,
                }
            },
            _ => pos,
        },
    }
}

/// The first non-space cell of row `row`.
fn first_occupied_in_line(g: &VisibleGrid, row: i32) -> (r: Option<Pos>)
    ensures
        r == first_occ(g@, row as int),
{
    let cols = g.cols();
    let mut col: usize = 0;
    while col < cols
        invariant
            cols == g.width(),
            col <= cols,
            first_occ_from(g@, row as int, col as int) == first_occ(g@, row as int),
        decreases cols - col,
    {
        let p = Pos::new(Line(row), Column(col));
        if !is_space(g, p) {
            return Some(p);
        }
        col = col + 1;
    }
    None
}

/// The last non-space cell of row `row`.
fn last_occupied_in_line(g: &VisibleGrid, row: i32) -> (r: Option<Pos>)
    ensures
        r == last_occ(g@, row as int),
{
    let mut col: usize = g.cols();
    while col > 0
        invariant
            last_occ_below(g@, row as int, col as int) == last_occ(g@, row as int),
        decreases col,
    {
        let p = Pos::new(Line(row), Column(col - 1));
        if !is_space(g, p) {
            return Some(p);
        }
        col = col - 1;
    }
    None
}

/// The end of the line (`$`).
fn last(g: &VisibleGrid, pos: Pos) -> (r: Pos)
    requires
        g.wf(),
    ensures
        r == last_spec(g@, pos),
{
    proof {
        g.lemma_wf_bounds();
    }
    let p1 = expand_wide(g, pos, Direction::Right);
    let occupied = match last_occupied_in_line(g, p1.row.0) {
        Some(o) => o,
        None => Pos::new(Line(0), Column(0)),
    };
    if p1.col.0 < occupied.col.0 {
        occupied
    } else if is_wrap(g, p1) {
        let mut row = p1.row.0;
        while g.wrapped(row)
            invariant
                g.wf(),
                g.wrapped_len() <= i32::MAX,
                wrap_down_row(g@, row as int) == wrap_down_row(g@, p1.row.0 as int),
            decreases g.wrapped_len() - row,
        {
            proof {
                g.lemma_wrapped_len(row as int);
            }
            row = row + 1;
        }
        let p2 = Pos::new(Line(row), p1.col);
        match last_occupied_in_line(g, row) {
            Some(o) => o,
            None => p2,
        }
    } else {
        Pos::new(p1.row, Column(g.last_col()))
    }
}

/// The first non-empty cell of the logical line (`^`).
fn first_occupied(g: &VisibleGrid, pos: Pos) -> (r: Pos)
    requires
        g.wf(),
    ensures
        r == first_occupied_spec(g@, pos),
{
    proof {
        g.lemma_wf_bounds();
    }
    let last_column = g.last_col();
    let p1 = expand_wide(g, pos, Direction::Left);
    let occupied = match first_occupied_in_line(g, p1.row.0) {
        Some(o) => o,
        None => Pos::new(p1.row, Column(last_column)),
    };
    if p1 == occupied {
        let mut above: Option<Pos> = None;
        let mut line: i32 = p1.row.0;
        while line > 0 && g.wrapped(line - 1)
            invariant
                line <= p1.row.0,
                up_scan(g@, line - 1, above) == up_scan(g@, p1.row.0 - 1, None),
            decreases line,
        {
            above = match first_occupied_in_line(g, line - 1) {
                Some(o) => Some(o),
                None => above,
            };
            line = line - 1;
        }
        match above {
            Some(o) => o,
            None => {
                let mut line: i32 = p1.row.0;
                loop
                    invariant
                        g.wrapped_len() <= i32::MAX,
                        down_scan(g@, line as int) == down_scan(g@, p1.row.0 as int),
                        first_occupied_spec(g@, pos) == down_scan(g@, p1.row.0 as int),
                        last_column == g.last_col_spec(),
                    decreases g.wrapped_len() - line,
                {
                    match first_occupied_in_line(g, line) {
                        Some(o) => {
                            return o;
                        },
                        None => {},
                    }
                    if !g.wrapped(line) {
                        return Pos::new(Line(line), Column(last_column));
                    }
                    proof {
                        g.lemma_wrapped_len(line as int);
                    }
                    line = line + 1;
                }
            },
        }
    } else {
        occupied
    }
}

/// From `pos`, step while the next cell is (`space`) or is not whitespace,
/// stopping at the viewport boundary.
fn skip_while_next(g: &VisibleGrid, pos: Pos, direction: Direction, space: bool) -> (r: Pos)
    requires
        g.wf(),
        walkable(g@, pos, direction),
    ensures
        r == skip_run(g@, pos, direction, space),
        walkable(g@, r, direction),
{
    proof {
        g.lemma_wf_bounds();
    }
    let mut cur = pos;
    let mut next_pos = advance(g, cur, direction);
    while !is_boundary(g, cur, direction) && is_space(g, next_pos) == space
        invariant
            g.wf(),
            g.rows_count() <= i32::MAX,
            walkable(g@, cur, direction),
            next_pos == advance_spec(g@, cur, direction),
            skip_run(g@, cur, direction, space) == skip_run(g@, pos, direction, space),
        decreases measure(g@, cur, direction),
    {
        proof {
            lemma_advance(g@, cur, direction);
        }
        cur = next_pos;
        next_pos = advance(g, cur, direction);
    }
    cur
}

/// From `pos`, step while the current cell is (`space`) or is not
/// whitespace, stopping at the viewport boundary.
fn step_while(g: &VisibleGrid, pos: Pos, direction: Direction, space: bool) -> (r: Pos)
    requires
        g.wf(),
        walkable(g@, pos, direction),
    ensures
        r == walk_while(g@, pos, direction, space),
        walkable(g@, r, direction),
{
    proof {
        g.lemma_wf_bounds();
    }
    let mut cur = pos;
    while !is_boundary(g, cur, direction) && is_space(g, cur) == space
        invariant
            g.wf(),
            g.rows_count() <= i32::MAX,
            walkable(g@, cur, direction),
            walk_while(g@, cur, direction, space) == walk_while(g@, pos, direction, space),
        decreases measure(g@, cur, direction),
    {
        proof {
            lemma_advance(g@, cur, direction);
        }
        cur = advance(g, cur, direction);
    }
    cur
}

/// The semantic word boundary at `pos` in `direction`, unless `pos` holds
/// a separator.
fn expand_semantic(g: &VisibleGrid, escape_chars: &str, pos: Pos, direction: Direction) -> (r: Pos)
    requires
        g.wf(),
        walkable(g@, pos, direction),
    ensures
        r == expand_semantic_spec(g@, escape_chars@, pos, direction),
        walkable(g@, r, direction),
{
    proof {
        g.lemma_wf_bounds();
        if direction == Direction::Right {
            lemma_semantic_right_above(g@, pos, escape_chars@);
        }
    }
    let cell = g.cell(pos);
    let spacer = match cell.wide() {
        Wide::Spacer | Wide::LeadingSpacer => true,
        _ => false,
    };
    if str_contains_char(escape_chars, cell.c()) && !spacer {
        pos
    } else if direction == Direction::Left {
        g.semantic_search_left(pos, escape_chars)
    } else {
        g.semantic_search_right(pos, escape_chars)
    }
}

/// Move by semantically separated word, like `w`/`b`/`e`/`ge`.
fn semantic(g: &VisibleGrid, escape_chars: &str, pos: Pos, direction: Direction, side: Direction) -> (r: Pos)
    requires
        g.wf(),
        walk_ends(g@, pos, direction),
    ensures
        r == semantic_spec(g@, escape_chars@, pos, direction, side),
{
    let mut p = expand_wide(g, pos, direction);
    if direction != side && !is_boundary(g, p, direction) {
        p = expand_semantic(g, escape_chars, p, direction);
    }
    p = skip_while_next(g, p, direction, true);
    if !is_boundary(g, p, direction) {
        proof {
            g.lemma_wf_bounds();
            lemma_advance(g@, p, direction);
        }
        p = advance(g, p, direction);
    }
    if direction == side && !is_boundary(g, p, direction) {
        p = expand_semantic(g, escape_chars, p, direction);
    }
    p
}

/// Move by whitespace separated word, like `W`/`B`/`E`/`gE`.
fn word(g: &VisibleGrid, pos: Pos, direction: Direction, side: Direction) -> (r: Pos)
    requires
        g.wf(),
        walk_ends(g@, pos, direction),
    ensures
        r == word_spec(g@, pos, direction, side),
{
    let p = expand_wide(g, pos, direction);
    if direction == side {
        let q = skip_while_next(g, p, direction, true);
        skip_while_next(g, q, direction, false)
    } else {
        let q = step_while(g, p, direction, false);
        step_while(g, q, direction, true)
    }
}

/// Apply vi `motion` to `pos` (visible-row coordinates) over the visible
/// grid; `escape_chars` separates semantic words. The result is clamped to
/// the viewport.
pub fn vi_motion(g: &VisibleGrid, escape_chars: &str, pos: Pos, motion: ViMotion) -> (r: Pos)
    requires
        vi_motion_ok(g@, pos, motion),
    ensures
        r == vi_motion_spec(g@, escape_chars@, pos, motion),
{
    proof {
        g.lemma_wf_bounds();
    }
    let last_column = g.last_col();
    match motion {
        ViMotion::Up => if pos.row.0 > 0 {
            Pos::new(Line(pos.row.0 - 1), pos.col)
        } else {
            pos
        },
        ViMotion::Down => if pos.row.0 + 1 < g.rows_len() {
            Pos::new(Line(pos.row.0 + 1), pos.col)
        } else {
            pos
        },
        ViMotion::Left => {
            let p1 = expand_wide(g, pos, Direction::Left);
            let wrap_pos = Pos::new(Line(p1.row.0 - 1), Column(last_column));
            if p1.col.0 == 0 && p1.row.0 > 0 && is_wrap(g, wrap_pos) {
                wrap_pos
            } else {
                Pos::new(p1.row, Column(p1.col.0.saturating_sub(1)))
            }
        },
        ViMotion::Right => {
            let p1 = expand_wide(g, pos, Direction::Right);
            if is_wrap(g, p1) {
                proof {
                    g.lemma_wrapped_len(p1.row.0 as int);
                }
                Pos::new(Line(p1.row.0 + 1), Column(0))
            } else {
                Pos::new(
                    p1.row,
                    Column(
                        if p1.col.0 < last_column {
                            p1.col.0 + 1
                        } else {
                            last_column
                        },
                    ),
                )
            }
        },
        ViMotion::First => {
            let p1 = expand_wide(g, pos, Direction::Left);
            let mut row = p1.row.0;
            if p1.col.0 == 0 {
                while row > 0 && g.wrapped(row - 1)
                    invariant
                        up_first(g@, row as int) == up_first(g@, p1.row.0 as int),
                    decreases row,
                {
                    row = row - 1;
                }
            }
            Pos::new(Line(row), Column(0))
        },
        ViMotion::Last => last(g, pos),
        ViMotion::FirstOccupied => first_occupied(g, pos),
        ViMotion::High => {
            let col = match first_occupied_in_line(g, 0) {
                Some(o) => o.col,
                None => Column(0),
            };
            Pos::new(Line(0), col)
        },
        ViMotion::Middle => {
            // Clamped to the viewport: a one-row viewport stays on its row.
            let half = g.rows_len() / 2;
            let line = if half >= 1 {
                half - 1
            } else {
                0
            };
            let col = match first_occupied_in_line(g, line) {
                Some(o) => o.col,
                None => Column(0),
            };
            Pos::new(Line(line), col)
        },
        ViMotion::Low => {
            let line = g.rows_len() - 1;
            let col = match first_occupied_in_line(g, line) {
                Some(o) => o.col,
                None => Column(0),
            };
            Pos::new(Line(line), col)
        },
        ViMotion::SemanticLeft => semantic(
            g,
            escape_chars,
            pos,
            Direction::Left,
            Direction::Left,
        ),
        ViMotion::SemanticRight => semantic(
            g,
            escape_chars,
            pos,
            Direction::Right,
            Direction::Left,
        ),
        ViMotion::SemanticLeftEnd => semantic(
            g,
            escape_chars,
            pos,
            Direction::Left,
            Direction::Right,
        ),
        ViMotion::SemanticRightEnd => semantic(
            g,
            escape_chars,
            pos,
            Direction::Right,
            Direction::Right,
        ),
        ViMotion::WordLeft => word(g, pos, Direction::Left, Direction::Left),
        ViMotion::WordRight => word(g, pos, Direction::Right, Direction::Left),
        ViMotion::WordLeftEnd => word(g, pos, Direction::Left, Direction::Right),
        ViMotion::WordRightEnd => word(g, pos, Direction::Right, Direction::Right),
        ViMotion::Bracket => match g.bracket_search(pos) {
            Some(q) => q,
            None => pos,
        },
    }
}

proof fn lemma_skip_run_in_rows(g: GridModel, p: Pos, d: Direction, space: bool)
    requires
        in_rows(g, p),
        g.rows_count() <= i32::MAX,
    ensures
        in_rows(g, skip_run(g, p, d, space)),
    decreases measure(g, p, d),
{
    if !is_boundary_at(g, p, d) && is_space_at(g, advance_spec(g, p, d)) == space {
        lemma_advance(g, p, d);
        lemma_skip_run_in_rows(g, advance_spec(g, p, d), d, space);
    }
}

proof fn lemma_walk_while_in_rows(g: GridModel, p: Pos, d: Direction, space: bool)
    requires
        in_rows(g, p),
        g.rows_count() <= i32::MAX,
    ensures
        in_rows(g, walk_while(g, p, d, space)),
    decreases measure(g, p, d),
{
    if !is_boundary_at(g, p, d) && is_space_at(g, p) == space {
        lemma_advance(g, p, d);
        lemma_walk_while_in_rows(g, advance_spec(g, p, d), d, space);
    }
}

proof fn lemma_wrap_down_below(g: GridModel, row: int)
    requires
        0 <= row < g.rows_count(),
        !g.wrapped_at(g.rows_count() - 1),
    ensures
        row <= wrap_down_row(g, row) < g.rows_count(),
    decreases g.wrapped_len() - row,
{
    if g.wrapped_at(row) {
        g.lemma_wrapped_len(row);
        lemma_wrap_down_below(g, row + 1);
    }
}

proof fn lemma_down_scan_below(g: GridModel, line: int)
    requires
        0 <= line < g.rows_count() <= i32::MAX,
        !g.wrapped_at(g.rows_count() - 1),
    ensures
        in_rows(g, down_scan(g, line)),
    decreases g.wrapped_len() - line,
{
    lemma_first_occ_row(g, line, 0);
    if first_occ(g, line) is None && g.wrapped_at(line) {
        g.lemma_wrapped_len(line);
        lemma_down_scan_below(g, line + 1);
    }
}

proof fn lemma_up_scan_rows(g: GridModel, line: int, acc: Option<Pos>)
    requires
        line < g.rows_count(),
        acc matches Some(a) ==> in_rows(g, a),
        line + 1 <= i32::MAX,
    ensures
        up_scan(g, line, acc) matches Some(a) ==> in_rows(g, a),
    decreases line + 1,
{
    if !(line < 0 || !g.wrapped_at(line)) {
        lemma_first_occ_row(g, line, 0);
        lemma_up_scan_rows(
            g,
            line - 1,
            match first_occ(g, line) {
                Some(o) => Some(o),
                None => acc,
            },
        );
    }
}

proof fn lemma_first_occ_row(g: GridModel, row: int, c: int)
    requires
        i32::MIN <= row <= i32::MAX,
    ensures
        first_occ_from(g, row, c) matches Some(o) ==> o.row.0 == row,
    decreases g.width() - c,
{
    if !(c < 0 || c >= g.width()) && is_space_at(g, mk_pos(row, c)) {
        lemma_first_occ_row(g, row, c + 1);
    }
}

proof fn lemma_last_occ_row(g: GridModel, row: int, c: int)
    requires
        i32::MIN <= row <= i32::MAX,
    ensures
        last_occ_below(g, row, c) matches Some(o) ==> o.row.0 == row,
    decreases c,
{
    if c > 0 && is_space_at(g, mk_pos(row, c - 1)) {
        lemma_last_occ_row(g, row, c - 1);
    }
}

proof fn lemma_up_first_rows(g: GridModel, row: int)
    requires
        0 <= row,
    ensures
        0 <= up_first(g, row) <= row,
    decreases row,
{
    if row > 0 && g.wrapped_at(row - 1) {
        lemma_up_first_rows(g, row - 1);
    }
}

/// Vi motions stay in the viewport: from any cell where the vi cursor can
/// stand, every motion lands on a visible row, provided the last row does not
/// wrap past the bottom (a motion that follows such a wrap leaves the
/// viewport for the caller to scroll).
pub proof fn lemma_vi_motion_stays_in_viewport(
    g: GridModel,
    esc: Seq<char>,
    pos: Pos,
    motion: ViMotion,
)
    requires
        vi_domain(g, pos),
        !g.wrapped_at(g.rows_count() - 1),
    ensures
        in_rows(g, vi_motion_spec(g, esc, pos, motion)),
{
    g.lemma_wf_bounds();
    let l = g.last_col_spec();
    match motion {
        ViMotion::First => {
            let p1 = expand_wide_spec(g, pos, Direction::Left);
            lemma_up_first_rows(g, p1.row.0 as int);
        },
        ViMotion::Last => {
            let p1 = expand_wide_spec(g, pos, Direction::Right);
            lemma_last_occ_row(g, p1.row.0 as int, g.width());
            if is_wrap_at(g, p1) {
                lemma_wrap_down_below(g, p1.row.0 as int);
                let r = wrap_down_row(g, p1.row.0 as int);
                lemma_last_occ_row(g, r, g.width());
            }
        },
        ViMotion::FirstOccupied => {
            let p1 = expand_wide_spec(g, pos, Direction::Left);
            lemma_first_occ_row(g, p1.row.0 as int, 0);
            lemma_up_scan_rows(g, p1.row.0 - 1, None);
            lemma_down_scan_below(g, p1.row.0 as int);
        },
        ViMotion::High => {
            lemma_first_occ_row(g, 0, 0);
        },
        ViMotion::Middle => {
            lemma_first_occ_row(g, if g.rows_count() >= 2 { g.rows_count() / 2 - 1 } else { 0 }, 0);
        },
        ViMotion::Low => {
            lemma_first_occ_row(g, g.rows_count() - 1, 0);
        },
        ViMotion::SemanticLeft | ViMotion::SemanticRight | ViMotion::SemanticLeftEnd
        | ViMotion::SemanticRightEnd => {
            let (d, side) = match motion {
                ViMotion::SemanticLeft => (Direction::Left, Direction::Left),
                ViMotion::SemanticRight => (Direction::Right, Direction::Left),
                ViMotion::SemanticLeftEnd => (Direction::Left, Direction::Right),
                _ => (Direction::Right, Direction::Right),
            };
            let p1 = expand_wide_spec(g, pos, d);
            lemma_semantic_in_rows(g, p1, esc);
            let p2 = if d != side && !is_boundary_at(g, p1, d) {
                expand_semantic_spec(g, esc, p1, d)
            } else {
                p1
            };
            lemma_skip_run_in_rows(g, p2, d, true);
            let p3 = skip_run(g, p2, d, true);
            if !is_boundary_at(g, p3, d) {
                lemma_advance(g, p3, d);
            }
            let p4 = if !is_boundary_at(g, p3, d) {
                advance_spec(g, p3, d)
            } else {
                p3
            };
            lemma_semantic_in_rows(g, p4, esc);
        },
        ViMotion::WordLeft | ViMotion::WordRight | ViMotion::WordLeftEnd
        | ViMotion::WordRightEnd => {
            let (d, side) = match motion {
                ViMotion::WordLeft => (Direction::Left, Direction::Left),
                ViMotion::WordRight => (Direction::Right, Direction::Left),
                ViMotion::WordLeftEnd => (Direction::Left, Direction::Right),
                _ => (Direction::Right, Direction::Right),
            };
            let p1 = expand_wide_spec(g, pos, d);
            lemma_skip_run_in_rows(g, p1, d, true);
            lemma_skip_run_in_rows(g, skip_run(g, p1, d, true), d, false);
            lemma_walk_while_in_rows(g, p1, d, false);
            lemma_walk_while_in_rows(g, walk_while(g, p1, d, false), d, true);
        },
        ViMotion::Bracket => {
            match bracket_partner(g.cell_at(pos).ch) {
                None => {},
                Some((forward, end)) => lemma_bracket_walk_in_rows(
                    g,
                    pos,
                    forward,
                    g.cell_at(pos).ch,
                    end,
                    0,
                ),
            }
        },
        _ => {},
    }
}


/// A cell of a visible row within the width.
pub open spec fn on_cell(g: GridModel, p: Pos) -> bool {
    in_rows(g, p) && p.col.0 <= g.last_col_spec()
}

/// The last cell of a whitespace-separated word: not blank, with a blank
/// cell right after it.
pub open spec fn word_end_at(g: GridModel, y: Pos) -> bool {
    &&& !is_space_at(g, y)
    &&& next_spec(g, y) is Some
    &&& is_space_at(g, next_spec(g, y).unwrap())
}

/// The cell before a cell of the grid is the one right before it in reading
/// order: the next cell after it is the first.
proof fn lemma_prev_adjacent(g: GridModel, p: Pos)
    requires
        g.wf(),
        on_cell(g, p),
        prev_spec(g, p) is Some,
    ensures
        on_cell(g, prev_spec(g, p).unwrap()),
        pos_lt(prev_spec(g, p).unwrap(), p),
        next_spec(g, prev_spec(g, p).unwrap()) == Some(p),
        forall|y: Pos| on_cell(g, y) && pos_lt(prev_spec(g, p).unwrap(), y) ==> pos_le(p, y),
{
    g.lemma_wf_bounds();
}

/// Walking left while the current cell is (`space`) or is not blank, from a
/// cell of the grid: it ends on a cell of the grid at or before the start,
/// at the boundary or on a cell of the other kind; every cell it passed is
/// of the walked kind, and when it moved, the cell right after where it
/// ended is one it passed.
proof fn lemma_walk_left_while(g: GridModel, p: Pos, space: bool)
    requires
        g.wf(),
        on_cell(g, p),
    ensures
        ({
            let w = walk_while(g, p, Direction::Left, space);
            &&& on_cell(g, w)
            &&& pos_le(w, p)
            &&& is_boundary_at(g, w, Direction::Left) || is_space_at(g, w) != space
            &&& forall|y: Pos|
                on_cell(g, y) && pos_lt(w, y) && pos_le(y, p) ==> #[trigger] is_space_at(g, y)
                    == space
            &&& w != p ==> next_spec(g, w) is Some && pos_le(next_spec(g, w).unwrap(), p)
                && is_space_at(g, next_spec(g, w).unwrap()) == space
        }),
    decreases measure(g, p, Direction::Left),
{
    g.lemma_wf_bounds();
    if !is_boundary_at(g, p, Direction::Left) && is_space_at(g, p) == space {
        lemma_advance(g, p, Direction::Left);
        let q = advance_spec(g, p, Direction::Left);
        lemma_prev_adjacent(g, p);
        assert(q == prev_spec(g, p).unwrap());
        lemma_walk_left_while(g, q, space);
        let w = walk_while(g, q, Direction::Left, space);
        assert(walk_while(g, p, Direction::Left, space) == w);
        assert forall|y: Pos|
            on_cell(g, y) && pos_lt(w, y) && pos_le(y, p) implies #[trigger] is_space_at(g, y)
            == space by {
            if y != p {
                if pos_lt(q, y) {
                    assert(pos_le(p, y));
                }
            }
        }
    }
}

/// `gE` moves to the end of the previous whitespace-separated word: it
/// lands on the viewport's first cell or on a non-blank cell whose next
/// cell is blank and lies at or before the start, and skips no word end on
/// the way (from a start that is not part of a wide character).
pub proof fn lemma_word_left_end_lands_on_previous_word_end(g: GridModel, esc: Seq<char>, pos: Pos)
    requires
        g.wf(),
        on_cell(g, pos),
    ensures
        ({
            let r = vi_motion_spec(g, esc, pos, ViMotion::WordLeftEnd);
            &&& on_cell(g, r)
            &&& pos_le(r, pos)
            &&& is_boundary_at(g, r, Direction::Left) || (word_end_at(g, r) && pos_le(
                next_spec(g, r).unwrap(),
                pos,
            ))
            &&& !(g.cell_at(pos).width == Wide::Wide || g.cell_at(pos).width == Wide::Spacer)
                ==> forall|y: Pos|
                on_cell(g, y) && pos_lt(r, y) && pos_lt(y, pos) ==> !#[trigger] word_end_at(g, y)
        }),
{
    g.lemma_wf_bounds();
    let p1 = expand_wide_spec(g, pos, Direction::Left);
    assert(on_cell(g, p1) && pos_le(p1, pos)) by {
        let w = g.cell_at(pos).width;
        if w == Wide::Wide || w == Wide::Spacer {
            let pa = if w == Wide::Spacer {
                mk_pos(pos.row.0 as int, sat_dec(pos.col.0))
            } else {
                pos
            };
            if prev_spec(g, pa) is Some {
                lemma_prev_adjacent(g, pa);
            }
        }
    }
    lemma_walk_left_while(g, p1, false);
    let q0 = walk_while(g, p1, Direction::Left, false);
    lemma_walk_left_while(g, q0, true);
    let r = walk_while(g, q0, Direction::Left, true);
    assert(r == vi_motion_spec(g, esc, pos, ViMotion::WordLeftEnd));
    if !(g.cell_at(pos).width == Wide::Wide || g.cell_at(pos).width == Wide::Spacer) {
        assert(p1 == pos);
        assert forall|y: Pos|
            on_cell(g, y) && pos_lt(r, y) && pos_lt(y, pos) implies !#[trigger] word_end_at(g, y) by {
            if pos_le(y, q0) {
                assert(is_space_at(g, y));
            } else {
                assert(!is_space_at(g, y));
                assert(prev_spec(g, next_spec(g, y).unwrap()) == Some(y));
                let n = next_spec(g, y).unwrap();
                if on_cell(g, n) {
                    assert(pos_le(n, pos)) by {
                        if pos_lt(pos, n) {
                            lemma_prev_adjacent(g, n);
                        }
                    }
                    assert(!is_space_at(g, n));
                }
            }
        }
    }
}


/// The first cell of a whitespace-separated word: not blank, with a blank
/// cell right before it.
pub open spec fn word_start_at(g: GridModel, y: Pos) -> bool {
    &&& !is_space_at(g, y)
    &&& prev_spec(g, y) is Some
    &&& is_space_at(g, prev_spec(g, y).unwrap())
}

/// The cell after a cell of the grid is the one right after it in reading
/// order.
proof fn lemma_next_adjacent(g: GridModel, p: Pos)
    requires
        g.wf(),
        on_cell(g, p),
        next_spec(g, p) is Some,
    ensures
        on_cell(g, next_spec(g, p).unwrap()),
        pos_lt(p, next_spec(g, p).unwrap()),
        prev_spec(g, next_spec(g, p).unwrap()) == Some(p),
        forall|y: Pos| on_cell(g, y) && pos_lt(y, next_spec(g, p).unwrap()) ==> pos_le(y, p),
{
    g.lemma_wf_bounds();
}

/// Stepping left while the cell before is (`space`) or is not blank: it
/// ends on a cell of the grid at or before the start, at the boundary or
/// before a cell of the other kind, and every cell from the end up to
/// (not including) the start is of the stepped kind.
proof fn lemma_skip_left(g: GridModel, p: Pos, space: bool)
    requires
        g.wf(),
        on_cell(g, p),
    ensures
        ({
            let w = skip_run(g, p, Direction::Left, space);
            &&& on_cell(g, w)
            &&& pos_le(w, p)
            &&& is_boundary_at(g, w, Direction::Left) || (prev_spec(g, w) is Some
                && is_space_at(g, prev_spec(g, w).unwrap()) != space)
            &&& forall|y: Pos|
                on_cell(g, y) && pos_le(w, y) && pos_lt(y, p) ==> #[trigger] is_space_at(g, y)
                    == space
        }),
    decreases measure(g, p, Direction::Left),
{
    g.lemma_wf_bounds();
    if !is_boundary_at(g, p, Direction::Left) {
        lemma_prev_adjacent(g, p);
    }
    if !is_boundary_at(g, p, Direction::Left) && is_space_at(g, advance_spec(g, p, Direction::Left))
        == space {
        lemma_advance(g, p, Direction::Left);
        let q = advance_spec(g, p, Direction::Left);
        lemma_skip_left(g, q, space);
        let w = skip_run(g, q, Direction::Left, space);
        assert(skip_run(g, p, Direction::Left, space) == w);
        assert forall|y: Pos|
            on_cell(g, y) && pos_le(w, y) && pos_lt(y, p) implies #[trigger] is_space_at(g, y)
            == space by {
            if y != q && pos_lt(q, y) {
                assert(pos_le(p, y));
            }
        }
    }
}

/// Stepping right while the cell after is (`space`) or is not blank: the
/// mirror of `lemma_skip_left`.
proof fn lemma_skip_right(g: GridModel, p: Pos, space: bool)
    requires
        g.wf(),
        on_cell(g, p),
    ensures
        ({
            let w = skip_run(g, p, Direction::Right, space);
            &&& on_cell(g, w)
            &&& pos_le(p, w)
            &&& is_boundary_at(g, w, Direction::Right) || (next_spec(g, w) is Some
                && is_space_at(g, next_spec(g, w).unwrap()) != space)
            &&& forall|y: Pos|
                on_cell(g, y) && pos_lt(p, y) && pos_le(y, w) ==> #[trigger] is_space_at(g, y)
                    == space
        }),
    decreases measure(g, p, Direction::Right),
{
    g.lemma_wf_bounds();
    if !is_boundary_at(g, p, Direction::Right) {
        lemma_advance(g, p, Direction::Right);
        lemma_next_adjacent(g, p);
    }
    if !is_boundary_at(g, p, Direction::Right) && is_space_at(
        g,
        advance_spec(g, p, Direction::Right),
    ) == space {
        let q = advance_spec(g, p, Direction::Right);
        lemma_skip_right(g, q, space);
        let w = skip_run(g, q, Direction::Right, space);
        assert(skip_run(g, p, Direction::Right, space) == w);
        assert forall|y: Pos|
            on_cell(g, y) && pos_lt(p, y) && pos_le(y, w) implies #[trigger] is_space_at(g, y)
            == space by {
            if y != q && pos_lt(y, q) {
                assert(pos_le(y, p));
            }
        }
    }
}

/// Walking right while the current cell is (`space`) or is not blank: the
/// mirror of `lemma_walk_left_while`.
proof fn lemma_walk_right_while(g: GridModel, p: Pos, space: bool)
    requires
        g.wf(),
        on_cell(g, p),
    ensures
        ({
            let w = walk_while(g, p, Direction::Right, space);
            &&& on_cell(g, w)
            &&& pos_le(p, w)
            &&& is_boundary_at(g, w, Direction::Right) || is_space_at(g, w) != space
            &&& forall|y: Pos|
                on_cell(g, y) && pos_le(p, y) && pos_lt(y, w) ==> #[trigger] is_space_at(g, y)
                    == space
            &&& w != p ==> prev_spec(g, w) is Some && pos_le(p, prev_spec(g, w).unwrap())
                && is_space_at(g, prev_spec(g, w).unwrap()) == space
        }),
    decreases measure(g, p, Direction::Right),
{
    g.lemma_wf_bounds();
    if !is_boundary_at(g, p, Direction::Right) && is_space_at(g, p) == space {
        lemma_advance(g, p, Direction::Right);
        let q = advance_spec(g, p, Direction::Right);
        lemma_next_adjacent(g, p);
        lemma_walk_right_while(g, q, space);
        let w = walk_while(g, q, Direction::Right, space);
        assert(walk_while(g, p, Direction::Right, space) == w);
        assert forall|y: Pos|
            on_cell(g, y) && pos_le(p, y) && pos_lt(y, w) implies #[trigger] is_space_at(g, y)
            == space by {
            if y != p {
                if pos_lt(y, q) {
                    assert(pos_le(y, p));
                }
            }
        }
    }
}

/// `B` moves to the start of the current or previous whitespace-separated
/// word: it lands on the viewport's first cell or on a non-blank cell after
/// a blank one, before the start, and skips no word start on the way (from
/// a start that is not part of a wide character).
pub proof fn lemma_word_left_lands_on_word_start(g: GridModel, esc: Seq<char>, pos: Pos)
    requires
        g.wf(),
        on_cell(g, pos),
        !(g.cell_at(pos).width == Wide::Wide || g.cell_at(pos).width == Wide::Spacer),
    ensures
        ({
            let r = vi_motion_spec(g, esc, pos, ViMotion::WordLeft);
            &&& on_cell(g, r)
            &&& pos_le(r, pos)
            &&& is_boundary_at(g, r, Direction::Left) || (word_start_at(g, r) && pos_lt(r, pos))
            &&& forall|y: Pos|
                on_cell(g, y) && pos_lt(r, y) && pos_lt(y, pos) ==> !#[trigger] word_start_at(g, y)
        }),
{
    g.lemma_wf_bounds();
    let p1 = expand_wide_spec(g, pos, Direction::Left);
    assert(p1 == pos);
    lemma_skip_left(g, p1, true);
    let q = skip_run(g, p1, Direction::Left, true);
    lemma_skip_left(g, q, false);
    let r = skip_run(g, q, Direction::Left, false);
    assert(r == vi_motion_spec(g, esc, pos, ViMotion::WordLeft));
    if !is_boundary_at(g, q, Direction::Left) {
        lemma_prev_adjacent(g, q);
        lemma_advance(g, q, Direction::Left);
        assert(r != q);
        assert(!is_space_at(g, r));
    }
    assert forall|y: Pos|
        on_cell(g, y) && pos_lt(r, y) && pos_lt(y, pos) implies !#[trigger] word_start_at(g, y) by {
        if pos_le(y, q) {
            lemma_prev_adjacent(g, y);
            let py = prev_spec(g, y).unwrap();
            assert(pos_le(r, py)) by {
                if pos_lt(py, r) {
                    assert(pos_le(y, r));
                }
            }
            if y == q {
                assert(!is_space_at(g, py));
            } else {
                assert(pos_lt(py, q));
                assert(!is_space_at(g, py));
            }
        } else {
            assert(is_space_at(g, y));
        }
    }
}

/// `E` moves to the end of the current or next whitespace-separated word:
/// it lands on the viewport's last cell or on a non-blank cell before a
/// blank one, after the start, and skips no word end on the way (from a
/// start that is not part of a wide character).
pub proof fn lemma_word_right_end_lands_on_word_end(g: GridModel, esc: Seq<char>, pos: Pos)
    requires
        g.wf(),
        on_cell(g, pos),
        !(g.cell_at(pos).width == Wide::Wide || g.cell_at(pos).width == Wide::LeadingSpacer),
    ensures
        ({
            let r = vi_motion_spec(g, esc, pos, ViMotion::WordRightEnd);
            &&& on_cell(g, r)
            &&& pos_le(pos, r)
            &&& is_boundary_at(g, r, Direction::Right) || (word_end_at(g, r) && pos_lt(pos, r))
            &&& forall|y: Pos|
                on_cell(g, y) && pos_lt(pos, y) && pos_lt(y, r) ==> !#[trigger] word_end_at(g, y)
        }),
{
    g.lemma_wf_bounds();
    let p1 = expand_wide_spec(g, pos, Direction::Right);
    assert(p1 == pos);
    lemma_skip_right(g, p1, true);
    let q = skip_run(g, p1, Direction::Right, true);
    lemma_skip_right(g, q, false);
    let r = skip_run(g, q, Direction::Right, false);
    assert(r == vi_motion_spec(g, esc, pos, ViMotion::WordRightEnd));
    if !is_boundary_at(g, q, Direction::Right) {
        lemma_next_adjacent(g, q);
        lemma_advance(g, q, Direction::Right);
        assert(r != q);
        assert(!is_space_at(g, r));
    }
    assert forall|y: Pos|
        on_cell(g, y) && pos_lt(pos, y) && pos_lt(y, r) implies !#[trigger] word_end_at(g, y) by {
        if pos_le(q, y) {
            lemma_advance(g, y, Direction::Right);
            lemma_next_adjacent(g, y);
            let ny = next_spec(g, y).unwrap();
            assert(pos_le(ny, r)) by {
                if pos_lt(r, ny) {
                    assert(pos_le(r, y));
                }
            }
            if y == q {
                assert(!is_space_at(g, ny));
            } else {
                assert(pos_lt(q, ny));
                assert(!is_space_at(g, ny));
            }
        } else {
            assert(is_space_at(g, y));
        }
    }
}

/// `W` moves to the start of the next whitespace-separated word: it lands
/// on the viewport's last cell or on a non-blank cell after a blank one,
/// after the start, and skips no word start on the way (from a start that
/// is not part of a wide character).
pub proof fn lemma_word_right_lands_on_next_word_start(g: GridModel, esc: Seq<char>, pos: Pos)
    requires
        g.wf(),
        on_cell(g, pos),
        !(g.cell_at(pos).width == Wide::Wide || g.cell_at(pos).width == Wide::LeadingSpacer),
    ensures
        ({
            let r = vi_motion_spec(g, esc, pos, ViMotion::WordRight);
            &&& on_cell(g, r)
            &&& pos_le(pos, r)
            &&& is_boundary_at(g, r, Direction::Right) || (word_start_at(g, r) && pos_lt(pos, r))
            &&& forall|y: Pos|
                on_cell(g, y) && pos_lt(pos, y) && pos_lt(y, r) ==> !#[trigger] word_start_at(g, y)
        }),
{
    g.lemma_wf_bounds();
    let p1 = expand_wide_spec(g, pos, Direction::Right);
    assert(p1 == pos);
    lemma_walk_right_while(g, p1, false);
    let q = walk_while(g, p1, Direction::Right, false);
    lemma_walk_right_while(g, q, true);
    let r = walk_while(g, q, Direction::Right, true);
    assert(r == vi_motion_spec(g, esc, pos, ViMotion::WordRight));
    assert forall|y: Pos|
        on_cell(g, y) && pos_lt(pos, y) && pos_lt(y, r) implies !#[trigger] word_start_at(g, y) by {
        if pos_lt(y, q) {
            lemma_prev_adjacent(g, y);
            let py = prev_spec(g, y).unwrap();
            assert(pos_le(pos, py)) by {
                if pos_lt(py, pos) {
                    assert(pos_le(y, pos));
                }
            }
            assert(!is_space_at(g, py));
        } else {
            assert(is_space_at(g, y));
        }
    }
}


proof fn lemma_first_occ_from(g: GridModel, row: int, c: int)
    requires
        i32::MIN <= row <= i32::MAX,
        0 <= c,
    ensures
        first_occ_from(g, row, c) matches Some(o) ==> o.row.0 == row && c <= o.col.0 < g.width()
            && !is_space_at(g, o) && forall|k: int|
            c <= k < o.col.0 ==> #[trigger] is_space_at(g, mk_pos(row, k)),
        first_occ_from(g, row, c) is None ==> forall|k: int|
            c <= k < g.width() ==> #[trigger] is_space_at(g, mk_pos(row, k)),
    decreases g.width() - c,
{
    if c < g.width() && is_space_at(g, mk_pos(row, c)) {
        lemma_first_occ_from(g, row, c + 1);
    }
}

/// The screen jumps (`H`, `M`, `L`) go to the top, middle (clamped to the
/// top of a one-row viewport) and bottom visible row, onto its first
/// non-blank cell, or its first column when the row is blank; every cell
/// before the landing column is blank. The line steps (`k`, `j`) move one
/// row up or down in the same column, staying put at the top or bottom.
pub proof fn lemma_vi_screen_and_line_motions(g: GridModel, esc: Seq<char>, pos: Pos)
    requires
        g.wf(),
        g.rows_count() > 0,
        g.width() > 0,
    ensures
        ({
            let high = vi_motion_spec(g, esc, pos, ViMotion::High);
            let mid = vi_motion_spec(g, esc, pos, ViMotion::Middle);
            let low = vi_motion_spec(g, esc, pos, ViMotion::Low);
            let up = vi_motion_spec(g, esc, pos, ViMotion::Up);
            let down = vi_motion_spec(g, esc, pos, ViMotion::Down);
            &&& high.row.0 == 0
            &&& low.row.0 == g.rows_count() - 1
            &&& mid.row.0 == (if g.rows_count() >= 2 { g.rows_count() / 2 - 1 } else { 0 })
            &&& forall|p: Pos|
                (p == high || p == mid || p == low) ==> 0 <= p.col.0 < g.width() && (
                !is_space_at(g, p) || p.col.0 == 0) && forall|k: int|
                    0 <= k < p.col.0 ==> #[trigger] is_space_at(g, mk_pos(p.row.0 as int, k))
            &&& pos.row.0 > 0 ==> up.row.0 == pos.row.0 - 1 && up.col == pos.col
            &&& pos.row.0 <= 0 ==> up == pos
            &&& pos.row.0 + 1 < g.rows_count() ==> down.row.0 == pos.row.0 + 1 && down.col == pos.col
            &&& pos.row.0 + 1 >= g.rows_count() ==> down == pos
        }),
{
    g.lemma_wf_bounds();
    let rc = g.rows_count();
    let mline: int = if rc >= 2 { rc / 2 - 1 } else { 0 };
    lemma_first_occ_from(g, 0, 0);
    lemma_first_occ_from(g, mline, 0);
    lemma_first_occ_from(g, rc - 1, 0);
}


/// `%` jumps from a bracket to the cell holding its partner, and `%` from
/// there jumps back; off a bracket, or with no match, it stays.
pub proof fn lemma_vi_bracket_jumps_back_and_forth(g: GridModel, esc: Seq<char>, pos: Pos)
    requires
        g.wf(),
        pos.col.0 < g.width(),
    ensures
        ({
            let r = vi_motion_spec(g, esc, pos, ViMotion::Bracket);
            ||| r == pos && bracket_spec(g, pos) is None
            ||| {
                &&& bracket_partner(g.cell_at(pos).ch) matches Some((_, partner))
                &&& g.cell_at(r).ch == partner
                &&& r != pos
                &&& vi_motion_spec(g, esc, r, ViMotion::Bracket) == pos
            }
        }),
{
    if bracket_spec(g, pos) is Some {
        lemma_bracket_involution(g, pos);
    }
}


/// `l` and `h` on a narrow cell step to the neighbouring cell of the same
/// logical line: across a soft wrap to the next or previous row, and not
/// past the end of a row that does not wrap or the start of one not
/// continued from above.
pub proof fn lemma_vi_left_right_step_within_line(g: GridModel, esc: Seq<char>, pos: Pos)
    requires
        g.wf(),
        on_cell(g, pos),
        g.cell_at(pos).width == Wide::Narrow,
    ensures
        ({
            let right = vi_motion_spec(g, esc, pos, ViMotion::Right);
            let left = vi_motion_spec(g, esc, pos, ViMotion::Left);
            let l = g.last_col_spec();
            &&& pos.col.0 < l ==> Some(right) == next_spec(g, pos)
            &&& pos.col.0 == l && g.wrapped_at(pos.row.0 as int) ==> right == mk_pos(
                pos.row.0 + 1,
                0,
            )
            &&& pos.col.0 == l && !g.wrapped_at(pos.row.0 as int) ==> right == pos
            &&& pos.col.0 > 0 ==> Some(left) == prev_spec(g, pos)
            &&& pos.col.0 == 0 && pos.row.0 > 0 && g.wrapped_at(pos.row.0 - 1) ==> Some(left)
                == prev_spec(g, pos)
            &&& pos.col.0 == 0 && !(pos.row.0 > 0 && g.wrapped_at(pos.row.0 - 1)) ==> left == pos
        }),
{
    g.lemma_wf_bounds();
}

} // verus!
