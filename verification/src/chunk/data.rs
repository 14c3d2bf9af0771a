//! The flat cell array underneath a chunk.

use vstd::prelude::*;

verus! {

/// A flat array of cells, viewed as the sequence of its values.
pub struct Data<T> {
    cells: Vec<T>,
}

impl<T> View for Data<T> {
    type V = Seq<T>;

    closed spec fn view(&self) -> Seq<T> {
        self.cells@
    }
}

impl<T> Data<T> {
    /// Allocates n cells, every one holding `val`.
    pub fn new(val: T, n: usize) -> (r: Self) where T: Copy
        ensures
            r@.len() == n,
            forall|i: int| 0 <= i < n ==> r@[i] == val,
    {
        let mut cells: Vec<T> = Vec::new();
        while cells.len() < n
            invariant
                cells.len() <= n,
                forall|i: int| 0 <= i < cells.len() ==> cells@[i] == val,
            decreases n - cells.len(),
        {
            cells.push(val);
        }
        Self { cells }
    }

    /// Reads the cell at `index`.
    pub fn get(&self, index: usize) -> (r: &T)
        requires
            index < self@.len(),
        ensures
            *r == self@[index as int],
    {
        &self.cells[index]
    }

    /// Overwrites the cell at `index` with `val`.
    pub fn set(&mut self, index: usize, val: T)
        requires
            index < old(self)@.len(),
        ensures
            final(self)@ == old(self)@.update(index as int, val),
        no_unwind
    {
        self.cells[index] = val;
    }
}

} // verus!
