//! The part of a grid cell that the selection and motion searches read.

use vstd::prelude::*;

verus! {

/// How a cell takes part in a wide (double-width) character.
#[derive(Debug, Copy, Clone, PartialEq, Eq, Structural)]
pub enum Wide {
    Narrow,
    /// The base cell of a wide character.
    Wide,
    /// The trailing cell of a wide character.
    Spacer,
    /// The padding cell at a line end before a wide character that wrapped.
    LeadingSpacer,
}

/// A grid cell: its first codepoint (`'\0'` when never written) and its
/// part in a wide character.
#[derive(Debug, Copy, Clone, PartialEq, Eq, Structural)]
pub struct Square {
    pub ch: char,
    pub width: Wide,
}

pub open spec fn blank_square() -> Square {
    Square { ch: '\0', width: Wide::Narrow }
}

pub open spec fn is_spacer_wide(w: Wide) -> bool {
    w == Wide::Spacer || w == Wide::LeadingSpacer
}

impl Square {
    /// A never-written cell.
    pub fn blank() -> (s: Square)
        ensures
            s == blank_square(),
    {
        Square { ch: '\0', width: Wide::Narrow }
    }

    pub fn c(&self) -> (c: char)
        ensures
            c == self.ch,
    {
        self.ch
    }

    pub fn wide(&self) -> (w: Wide)
        ensures
            w == self.width,
    {
        self.width
    }

    pub fn set_c(&mut self, c: char)
        ensures
            final(self).ch == c,
            final(self).width == old(self).width,
    {
        self.ch = c;
    }

    pub fn set_wide(&mut self, w: Wide)
        ensures
            final(self).width == w,
            final(self).ch == old(self).ch,
    {
        self.width = w;
    }
}

impl Default for Square {
    fn default() -> (s: Square)
        ensures
            s == blank_square(),
    {
        Square::blank()
    }
}

} // verus!
