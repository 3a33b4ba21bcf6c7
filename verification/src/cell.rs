//! The two-valued symbol a determined grid cell holds.

use vstd::prelude::*;

verus! {

/// A determined cell of the grid: one of the two symbols of the puzzle.
/// An unknown cell is represented as `None` at the grid level, never
/// inside `Cell`.
#[derive(Debug, Clone, Copy, PartialEq, Eq, Structural)]
pub enum Cell {
    Zero,
    One,
}

impl Cell {
    /// The other symbol: `Zero` and `One` exchange places.
    pub fn negate(self) -> (r: Cell)
        ensures
            r == self.spec_negate(),
    {
        match self {
            Cell::Zero => Cell::One,
            Cell::One => Cell::Zero,
        }
    }

    /// What `negate` returns.
    pub open spec fn spec_negate(self) -> Cell {
        match self {
            Cell::Zero => Cell::One,
            Cell::One => Cell::Zero,
        }
    }
}

} // verus!
