//! A row of grid cells.

use vstd::prelude::*;

verus! {

/// A row in the grid.
#[derive(Clone, Debug)]
pub struct Row<T> {
    pub inner: Vec<T>,
    /// Set when at least one cell holds a kitty Unicode graphics-protocol
    /// placeholder (U+10EEEE).
    pub kitty_virtual_placeholder: bool,
}

impl<T> Default for Row<T> {
    /// An empty row.
    fn default() -> (r: Self)
        ensures
            r.inner@.len() == 0,
            !r.kitty_virtual_placeholder,
    {
        Row { inner: Vec::new(), kitty_virtual_placeholder: false }
    }
}

/// What a grid cell offers the grid: whether it is empty, and resetting it
/// to a template.
pub trait GridSquare: Sized {
    fn is_empty(&self) -> bool;

    fn reset(&mut self, template: &Self);
}

impl<T> Row<T> {
    pub fn len(&self) -> (n: usize)
        ensures
            n == self.inner@.len(),
    {
        self.inner.len()
    }
}

impl Row<crate::cell::Square> {
    /// A row of `columns` blank cells.
    pub fn new(columns: usize) -> (r: Self)
        ensures
            r.inner@.len() == columns,
            forall|i: int| 0 <= i < columns ==> r.inner@[i] == crate::cell::blank_square(),
            !r.kitty_virtual_placeholder,
    {
        let mut inner: Vec<crate::cell::Square> = Vec::with_capacity(columns);
        let mut i: usize = 0;
        while i < columns
            invariant
                i <= columns,
                inner@.len() == i,
                forall|k: int| 0 <= k < i ==> inner@[k] == crate::cell::blank_square(),
            decreases columns - i,
        {
            inner.push(crate::cell::Square::blank());
            i = i + 1;
        }
        Row { inner, kitty_virtual_placeholder: false }
    }
}

} // verus!
