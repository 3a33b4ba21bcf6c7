//! The mathematical model of a grid and of the puzzle's rules.
//!
//! A grid is modelled as its rows: a sequence of equal-length sequences
//! of optional cells. Every contract of the executable library speaks in
//! terms of the functions of this module.

use vstd::prelude::*;

use crate::cell::Cell;
use crate::error::GridError;

verus! {

/// The model of a grid: one sequence per row, each entry a determined
/// cell or `None` for an unknown cell.
pub type Rows = Seq<Seq<Option<Cell>>>;

/// A well-formed grid: at least one row, at least one column, and every
/// row of the same length (rectangularity).
pub open spec fn wf_rows(r: Rows) -> bool {
    &&& r.len() >= 1
    &&& r[0].len() >= 1
    &&& forall|i: int| 0 <= i < r.len() ==> #[trigger] r[i].len() == r[0].len()
}

/// The number of columns of the grid.
pub open spec fn width_of(r: Rows) -> int {
    r[0].len() as int
}

/// The number of rows of the grid.
pub open spec fn height_of(r: Rows) -> int {
    r.len() as int
}

/// Three equal determined symbols at columns `j`, `j + 1`, `j + 2` of row `i`.
pub open spec fn row_triple_at(r: Rows, i: int, j: int) -> bool {
    &&& r[i][j] is Some
    &&& r[i][j] == r[i][j + 1]
    &&& r[i][j] == r[i][j + 2]
}

/// Some row holds three consecutive equal determined symbols.
pub open spec fn has_row_triple(r: Rows) -> bool {
    exists|i: int, j: int|
        0 <= i < height_of(r) && 0 <= j && j + 2 < width_of(r) && #[trigger] row_triple_at(r, i, j)
}

/// Three equal determined symbols at rows `i`, `i + 1`, `i + 2` of column `j`.
pub open spec fn col_triple_at(r: Rows, i: int, j: int) -> bool {
    &&& r[i][j] is Some
    &&& r[i][j] == r[i + 1][j]
    &&& r[i][j] == r[i + 2][j]
}

/// Some column holds three consecutive equal determined symbols.
pub open spec fn has_col_triple(r: Rows) -> bool {
    exists|i: int, j: int|
        0 <= i && i + 2 < height_of(r) && 0 <= j < width_of(r) && #[trigger] col_triple_at(r, i, j)
}

/// How many cells of the line are determined and hold the symbol `c`.
pub open spec fn count_cell(s: Seq<Option<Cell>>, c: Cell) -> int
    decreases s.len(),
{
    if s.len() == 0 {
        0
    } else {
        count_cell(s.drop_last(), c) + if s.last() == Some(c) {
            1int
        } else {
            0int
        }
    }
}

/// A fully determined line: no unknown cell.
pub open spec fn line_full(s: Seq<Option<Cell>>) -> bool {
    forall|k: int| 0 <= k < s.len() ==> #[trigger] s[k] is Some
}

/// Equal counts of the two symbols.
pub open spec fn balanced(s: Seq<Option<Cell>>) -> bool {
    count_cell(s, Cell::Zero) == count_cell(s, Cell::One)
}

/// Column `j` of the grid, read top to bottom.
pub open spec fn col_seq(r: Rows, j: int) -> Seq<Option<Cell>> {
    Seq::new(r.len(), |i: int| r[i][j])
}

/// Row `i` is fully determined but not balanced.
pub open spec fn row_unbalanced_at(r: Rows, i: int) -> bool {
    line_full(r[i]) && !balanced(r[i])
}

/// Some fully determined row is unbalanced.
pub open spec fn has_unbalanced_row(r: Rows) -> bool {
    exists|i: int| 0 <= i < height_of(r) && #[trigger] row_unbalanced_at(r, i)
}

/// Column `j` is fully determined but not balanced.
pub open spec fn col_unbalanced_at(r: Rows, j: int) -> bool {
    line_full(col_seq(r, j)) && !balanced(col_seq(r, j))
}

/// Some fully determined column is unbalanced.
pub open spec fn has_unbalanced_col(r: Rows) -> bool {
    exists|j: int| 0 <= j < width_of(r) && #[trigger] col_unbalanced_at(r, j)
}

/// Two equal-length lines are both fully determined and identical
/// cell by cell.
pub open spec fn dup_pair(a: Seq<Option<Cell>>, b: Seq<Option<Cell>>) -> bool {
    forall|k: int| #![trigger a[k]] 0 <= k < a.len() ==> a[k] is Some && a[k] == b[k]
}

/// Rows `i0` and `i1` are both fully determined and identical.
pub open spec fn dup_rows_at(r: Rows, i0: int, i1: int) -> bool {
    dup_pair(r[i0], r[i1])
}

/// Some pair of distinct fully determined rows is identical.
pub open spec fn has_dup_rows(r: Rows) -> bool {
    exists|i0: int, i1: int| 0 <= i0 < i1 < height_of(r) && #[trigger] dup_rows_at(r, i0, i1)
}

/// Columns `j0` and `j1` are both fully determined and identical.
pub open spec fn dup_cols_at(r: Rows, j0: int, j1: int) -> bool {
    dup_pair(col_seq(r, j0), col_seq(r, j1))
}

/// Some pair of distinct fully determined columns is identical.
pub open spec fn has_dup_cols(r: Rows) -> bool {
    exists|j0: int, j1: int| 0 <= j0 < j1 < width_of(r) && #[trigger] dup_cols_at(r, j0, j1)
}

/// The verdict of the validity checker on a grid: the first violated
/// rule family in the fixed order triple-run, balance, distinct lines,
/// or `Ok` when none is violated.
pub open spec fn validity(r: Rows) -> Result<(), GridError> {
    if has_row_triple(r) || has_col_triple(r) {
        Err(GridError::AdjacentCells)
    } else if has_unbalanced_row(r) || has_unbalanced_col(r) {
        Err(GridError::LaneUnbalanced)
    } else if has_dup_rows(r) || has_dup_cols(r) {
        Err(GridError::SameLanes)
    } else {
        Ok(())
    }
}

/// The grid violates none of the puzzle's rules.
pub open spec fn valid(r: Rows) -> bool {
    validity(r) is Ok
}

/// Every cell of the grid is determined.
pub open spec fn filled(r: Rows) -> bool {
    forall|i: int| 0 <= i < r.len() ==> line_full(#[trigger] r[i])
}

/// The two grids have the same number of rows and the same row lengths.
pub open spec fn same_shape(p: Rows, q: Rows) -> bool {
    &&& q.len() == p.len()
    &&& forall|i: int| 0 <= i < p.len() ==> #[trigger] q[i].len() == p[i].len()
}

/// `q` refines `p`: same shape, and every cell determined in `p` holds
/// the same symbol in `q`. Unknown cells of `p` are free in `q`.
pub open spec fn extends(p: Rows, q: Rows) -> bool {
    &&& same_shape(p, q)
    &&& forall|i: int, j: int|
        #![trigger p[i][j], q[i][j]]
        0 <= i < p.len() && 0 <= j < p[i].len() && p[i][j] is Some ==> q[i][j] == p[i][j]
}

/// How many cells of the line are unknown.
pub open spec fn unknowns_in_line(s: Seq<Option<Cell>>) -> nat
    decreases s.len(),
{
    if s.len() == 0 {
        0
    } else {
        unknowns_in_line(s.drop_last()) + if s.last() is None {
            1nat
        } else {
            0nat
        }
    }
}

/// How many cells of the grid are unknown.
pub open spec fn unknown_count(r: Rows) -> nat
    decreases r.len(),
{
    if r.len() == 0 {
        0
    } else {
        unknown_count(r.drop_last()) + unknowns_in_line(r.last())
    }
}

/// The grid with the one cell at row `i`, column `j` replaced by `v`.
pub open spec fn update_cell(r: Rows, i: int, j: int, v: Option<Cell>) -> Rows {
    r.update(i, r[i].update(j, v))
}

/// The cell a recognized non-blank input character stands for.
pub open spec fn token_of(c: char) -> Option<Cell> {
    if c == '0' {
        Some(Cell::Zero)
    } else if c == '1' {
        Some(Cell::One)
    } else {
        None
    }
}

/// Parsing one text line from position `i` on: spaces and tabs are
/// skipped, `'0'`, `'1'` and `'-'` become cells in order, and the first
/// other character is the error.
pub open spec fn parse_line_from(s: Seq<char>, i: int) -> Result<Seq<Option<Cell>>, char>
    decreases s.len() - i,
{
    if i < 0 || i >= s.len() {
        Ok(Seq::empty())
    } else if s[i] == ' ' || s[i] == '\t' {
        parse_line_from(s, i + 1)
    } else if s[i] == '0' || s[i] == '1' || s[i] == '-' {
        match parse_line_from(s, i + 1) {
            Ok(t) => Ok(seq![token_of(s[i])] + t),
            Err(c) => Err(c),
        }
    } else {
        Err(s[i])
    }
}

/// Parsing one whole text line.
pub open spec fn parse_line(s: Seq<char>) -> Result<Seq<Option<Cell>>, char> {
    parse_line_from(s, 0)
}

/// The cells already parsed, put in front of the outcome of parsing the
/// rest of the line.
pub open spec fn prepend_cells(a: Seq<Option<Cell>>, r: Result<Seq<Option<Cell>>, char>) -> Result<
    Seq<Option<Cell>>,
    char,
> {
    match r {
        Ok(t) => Ok(a + t),
        Err(c) => Err(c),
    }
}

/// Parsing the lines from position `i` on, with the rows parsed so far
/// in `acc`: blank lines are skipped, a row of the wrong width stops
/// the parse, and no usable row at all is an empty grid.
pub open spec fn parse_lines_from(lines: Seq<Seq<char>>, i: int, acc: Rows) -> Result<
    Rows,
    GridError,
>
    decreases lines.len() - i,
{
    if i < 0 || i >= lines.len() {
        if acc.len() == 0 {
            Err(GridError::EmptyGrid)
        } else {
            Ok(acc)
        }
    } else {
        match parse_line(lines[i]) {
            Err(c) => Err(GridError::InvalidChar(c)),
            Ok(row) => if row.len() == 0 {
                parse_lines_from(lines, i + 1, acc)
            } else if acc.len() > 0 && row.len() != acc.last().len() {
                Err(GridError::WidthMismatch(acc.last().len() as usize, row.len() as usize))
            } else {
                parse_lines_from(lines, i + 1, acc.push(row))
            },
        }
    }
}

/// What parsing a sequence of text lines yields: the grid's rows, or
/// the first error met.
pub open spec fn parse_spec(lines: Seq<Seq<char>>) -> Result<Rows, GridError> {
    parse_lines_from(lines, 0, Seq::empty())
}

/// The character a cell is rendered as.
pub open spec fn char_of_token(t: Option<Cell>) -> char {
    match t {
        Some(Cell::Zero) => '0',
        Some(Cell::One) => '1',
        None => '-',
    }
}

/// One rendered text line: the line's symbols separated by single
/// spaces, with no leading or trailing blank.
pub open spec fn render_line(s: Seq<Option<Cell>>) -> Seq<char>
    decreases s.len(),
{
    if s.len() == 0 {
        Seq::empty()
    } else if s.len() == 1 {
        seq![char_of_token(s[0])]
    } else {
        render_line(s.drop_last()) + seq![' ', char_of_token(s.last())]
    }
}

/// The rendered text lines of a grid, one per row.
pub open spec fn render_lines_spec(r: Rows) -> Seq<Seq<char>> {
    Seq::new(r.len(), |i: int| render_line(r[i]))
}

/// The rendered text of a grid: its rendered rows separated by line
/// breaks, with no trailing break.
pub open spec fn render_text(r: Rows) -> Seq<char>
    decreases r.len(),
{
    if r.len() == 0 {
        Seq::empty()
    } else if r.len() == 1 {
        render_line(r[0])
    } else {
        render_text(r.drop_last()) + seq!['\n'] + render_line(r.last())
    }
}

} // verus!
