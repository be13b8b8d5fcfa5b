//! Grid coordinates: lines, columns, points and directions.

use vstd::prelude::*;

verus! {

/// A horizontal direction; also used as the side of a cell.
#[derive(Debug, Copy, Clone, PartialEq, Eq, Structural)]
pub enum Direction {
    Left,
    Right,
}

/// A grid line. Negative lines lie in the scrollback history.
#[derive(Debug, Copy, Clone, PartialEq, Eq, Structural, Default, PartialOrd, Ord)]
pub struct Line(pub i32);

/// A grid column.
#[derive(Debug, Copy, Clone, PartialEq, Eq, Structural, Default, PartialOrd, Ord)]
pub struct Column(pub usize);

/// A point in the grid.
#[derive(Debug, Copy, Clone, PartialEq, Eq, Structural, Default)]
pub struct Pos {
    pub row: Line,
    pub col: Column,
}

impl Pos {
    pub fn new(row: Line, col: Column) -> (p: Pos)
        ensures
            p.row == row,
            p.col == col,
    {
        Pos { row, col }
    }
}

/// The shape of the cursor.
#[derive(Debug, Copy, Clone, PartialEq, Eq, Structural)]
pub enum CursorShape {
    Block,
    Underline,
    Beam,
    HollowBlock,
    Hidden,
}

/// Where the cursor is and how it is drawn.
#[derive(Debug, Copy, Clone, PartialEq, Eq, Structural)]
pub struct CursorState {
    pub pos: Pos,
    pub content: CursorShape,
}

impl CursorState {
    pub fn is_visible(&self) -> (r: bool)
        ensures
            r == (self.content != CursorShape::Hidden),
    {
        match self.content {
            CursorShape::Hidden => false,
            _ => true,
        }
    }
}

/// A value at a grid position.
#[derive(Debug, PartialEq, Eq)]
pub struct Indexed<T> {
    pub pos: Pos,
    pub square: T,
}

} // verus!
