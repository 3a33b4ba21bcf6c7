//! The error kinds the library reports.

use vstd::prelude::*;

verus! {

/// Everything that can go wrong while parsing, validating or solving a
/// grid. Each value aborts the call it arises in and is returned to the
/// caller; none is swallowed.
#[derive(Debug, Clone, Copy, PartialEq, Eq, Structural)]
pub enum GridError {
    /// Parsing met a character other than `'0'`, `'1'`, `'-'`, space or tab.
    InvalidChar(char),
    /// A non-blank row's cell count differs from the established width:
    /// `WidthMismatch(expected, actual)`.
    WidthMismatch(usize, usize),
    /// The input held no non-blank row.
    EmptyGrid,
    /// Three consecutive equal determined symbols in a row or column.
    AdjacentCells,
    /// A fully determined row or column with unequal symbol counts.
    LaneUnbalanced,
    /// Two identical fully determined rows, or two identical fully
    /// determined columns.
    SameLanes,
    /// The solver exhausted the search space: no completion of the grid
    /// satisfies the rules.
    Unsatisfiable,
}

} // verus!
