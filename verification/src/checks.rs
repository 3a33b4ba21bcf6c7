//! The validity checker: read-only inspection of a grid against the
//! puzzle's rules, on partial as well as full grids.

use vstd::prelude::*;

use crate::cell::Cell;
use crate::error::GridError;
use crate::grid::Grid;
use crate::model;

verus! {

/// Counts never exceed the line's length.
proof fn lemma_count_cell_bounds(s: Seq<Option<Cell>>, c: Cell)
    ensures
        0 <= model::count_cell(s, c) <= s.len(),
    decreases s.len(),
{
    if s.len() > 0 {
        lemma_count_cell_bounds(s.drop_last(), c);
    }
}

impl Grid {
    /// Whether every cell of the grid is determined.
    pub fn is_filled(&self) -> (b: bool)
        requires
            self.wf(),
        ensures
            b == model::filled(self@),
    {
        let h = self.height();
        let w = self.width();
        let mut i: usize = 0;
        while i < h
            invariant
                self.wf(),
                i <= h,
                h == model::height_of(self@),
                w == model::width_of(self@),
                forall|a: int| 0 <= a < i ==> model::line_full(#[trigger] self@[a]),
            decreases h - i,
        {
            let mut j: usize = 0;
            while j < w
                invariant
                    self.wf(),
                    i < h,
                    j <= w,
                    h == model::height_of(self@),
                    w == model::width_of(self@),
                    forall|k: int| 0 <= k < j ==> #[trigger] self@[i as int][k] is Some,
                decreases w - j,
            {
                if self.get(i, j).is_none() {
                    return false;
                }
                j = j + 1;
            }
            proof {
                assert(self@[i as int].len() == model::width_of(self@));
            }
            i = i + 1;
        }
        true
    }

    /// Rejects three consecutive equal determined symbols in any row or
    /// column; unknown cells never trigger it. `Ok` exactly when no row
    /// and no column holds such a window.
    pub fn check_cells(&self) -> (r: Result<(), GridError>)
        requires
            self.wf(),
        ensures
            r is Ok <==> (!model::has_row_triple(self@) && !model::has_col_triple(self@)),
            r is Err ==> r == Err::<(), GridError>(GridError::AdjacentCells),
    {
        let h = self.height();
        let w = self.width();
        if w >= 3 {
            let mut i: usize = 0;
            while i < h
                invariant
                    self.wf(),
                    i <= h,
                    w >= 3,
                    h == model::height_of(self@),
                    w == model::width_of(self@),
                    forall|a: int, b: int|
                        0 <= a < i && 0 <= b && b + 2 < w ==> !(#[trigger] model::row_triple_at(
                            self@,
                            a,
                            b,
                        )),
                decreases h - i,
            {
                let mut j: usize = 0;
                while j + 2 < w
                    invariant
                        self.wf(),
                        i < h,
                        j + 2 <= w,
                        w >= 3,
                        h == model::height_of(self@),
                        w == model::width_of(self@),
                        forall|b: int|
                            0 <= b < j ==> !(#[trigger] model::row_triple_at(self@, i as int, b)),
                    decreases w - j,
                {
                    let c0 = self.get(i, j);
                    let c1 = self.get(i, j + 1);
                    let c2 = self.get(i, j + 2);
                    if let (Some(x), Some(y), Some(z)) = (c0, c1, c2) {
                        if x == y && y == z {
                            proof {
                                assert(model::row_triple_at(self@, i as int, j as int));
                            }
                            return Err(GridError::AdjacentCells);
                        }
                    }
                    j = j + 1;
                }
                i = i + 1;
            }
        }
        if h >= 3 {
            let mut j: usize = 0;
            while j < w
                invariant
                    self.wf(),
                    j <= w,
                    h >= 3,
                    h == model::height_of(self@),
                    w == model::width_of(self@),
                    !model::has_row_triple(self@),
                    forall|a: int, b: int|
                        0 <= a && a + 2 < h && 0 <= b < j ==> !(#[trigger] model::col_triple_at(
                            self@,
                            a,
                            b,
                        )),
                decreases w - j,
            {
                let mut i: usize = 0;
                while i + 2 < h
                    invariant
                        self.wf(),
                        j < w,
                        i + 2 <= h,
                        h >= 3,
                        h == model::height_of(self@),
                        w == model::width_of(self@),
                        forall|a: int|
                            0 <= a < i ==> !(#[trigger] model::col_triple_at(self@, a, j as int)),
                    decreases h - i,
                {
                    let c0 = self.get(i, j);
                    let c1 = self.get(i + 1, j);
                    let c2 = self.get(i + 2, j);
                    if let (Some(x), Some(y), Some(z)) = (c0, c1, c2) {
                        if x == y && y == z {
                            proof {
                                assert(model::col_triple_at(self@, i as int, j as int));
                            }
                            return Err(GridError::AdjacentCells);
                        }
                    }
                    i = i + 1;
                }
                j = j + 1;
            }
        }
        Ok(())
    }

    /// Counts both symbols along row `i`; `full` says whether the row
    /// holds no unknown cell.
    fn row_counts(&self, i: usize) -> (t: (bool, usize, usize))
        requires
            self.wf(),
            i < model::height_of(self@),
        ensures
            t.0 == model::line_full(self@[i as int]),
            t.0 ==> t.1 == model::count_cell(self@[i as int], Cell::Zero) && t.2
                == model::count_cell(self@[i as int], Cell::One),
    {
        let ghost row = self@[i as int];
        let w = self.width();
        let mut zeros: usize = 0;
        let mut ones: usize = 0;
        let mut full = true;
        let mut j: usize = 0;
        proof {
            assert(row.take(0) =~= Seq::<Option<Cell>>::empty());
            assert(self@[i as int].len() == model::width_of(self@));
        }
        while j < w
            invariant
                self.wf(),
                i < model::height_of(self@),
                j <= w,
                w == model::width_of(self@),
                row == self@[i as int],
                row.len() == w,
                zeros == model::count_cell(row.take(j as int), Cell::Zero),
                ones == model::count_cell(row.take(j as int), Cell::One),
                full == model::line_full(row.take(j as int)),
            decreases w - j,
        {
            proof {
                assert(row.take(j + 1).drop_last() =~= row.take(j as int));
                assert(row.take(j + 1).last() == row[j as int]);
                lemma_count_cell_bounds(row.take(j as int), Cell::Zero);
                lemma_count_cell_bounds(row.take(j as int), Cell::One);
            }
            match self.get(i, j) {
                Some(Cell::Zero) => {
                    zeros = zeros + 1;
                },
                Some(Cell::One) => {
                    ones = ones + 1;
                },
                None => {
                    full = false;
                },
            }
            proof {
                assert(model::line_full(row.take(j + 1)) == (model::line_full(row.take(j as int))
                    && row[j as int] is Some));
            }
            j = j + 1;
        }
        proof {
            assert(row.take(w as int) =~= row);
        }
        (full, zeros, ones)
    }

    /// Counts both symbols along column `j`; `full` says whether the
    /// column holds no unknown cell.
    fn col_counts(&self, j: usize) -> (t: (bool, usize, usize))
        requires
            self.wf(),
            j < model::width_of(self@),
        ensures
            t.0 == model::line_full(model::col_seq(self@, j as int)),
            t.0 ==> t.1 == model::count_cell(model::col_seq(self@, j as int), Cell::Zero) && t.2
                == model::count_cell(model::col_seq(self@, j as int), Cell::One),
    {
        let ghost col = model::col_seq(self@, j as int);
        let h = self.height();
        let mut zeros: usize = 0;
        let mut ones: usize = 0;
        let mut full = true;
        let mut i: usize = 0;
        proof {
            assert(col.take(0) =~= Seq::<Option<Cell>>::empty());
        }
        while i < h
            invariant
                self.wf(),
                j < model::width_of(self@),
                i <= h,
                h == model::height_of(self@),
                col == model::col_seq(self@, j as int),
                col.len() == h,
                zeros == model::count_cell(col.take(i as int), Cell::Zero),
                ones == model::count_cell(col.take(i as int), Cell::One),
                full == model::line_full(col.take(i as int)),
            decreases h - i,
        {
            proof {
                assert(col.take(i + 1).drop_last() =~= col.take(i as int));
                assert(col.take(i + 1).last() == col[i as int]);
                assert(col[i as int] == self@[i as int][j as int]);
                lemma_count_cell_bounds(col.take(i as int), Cell::Zero);
                lemma_count_cell_bounds(col.take(i as int), Cell::One);
            }
            match self.get(i, j) {
                Some(Cell::Zero) => {
                    zeros = zeros + 1;
                },
                Some(Cell::One) => {
                    ones = ones + 1;
                },
                None => {
                    full = false;
                },
            }
            proof {
                assert(model::line_full(col.take(i + 1)) == (model::line_full(col.take(i as int))
                    && col[i as int] is Some));
            }
            i = i + 1;
        }
        proof {
            assert(col.take(h as int) =~= col);
        }
        (full, zeros, ones)
    }

    /// Rejects a fully determined row or column whose symbol counts
    /// differ; a line holding an unknown cell is skipped. `Ok` exactly
    /// when every fully determined line is balanced.
    pub fn check_balance(&self) -> (r: Result<(), GridError>)
        requires
            self.wf(),
        ensures
            r is Ok <==> (!model::has_unbalanced_row(self@) && !model::has_unbalanced_col(self@)),
            r is Err ==> r == Err::<(), GridError>(GridError::LaneUnbalanced),
    {
        let h = self.height();
        let w = self.width();
        let mut i: usize = 0;
        while i < h
            invariant
                self.wf(),
                i <= h,
                h == model::height_of(self@),
                w == model::width_of(self@),
                forall|a: int| 0 <= a < i ==> !(#[trigger] model::row_unbalanced_at(self@, a)),
            decreases h - i,
        {
            let (full, zeros, ones) = self.row_counts(i);
            if full && zeros != ones {
                proof {
                    assert(model::row_unbalanced_at(self@, i as int));
                }
                return Err(GridError::LaneUnbalanced);
            }
            i = i + 1;
        }
        let mut j: usize = 0;
        while j < w
            invariant
                self.wf(),
                j <= w,
                h == model::height_of(self@),
                w == model::width_of(self@),
                !model::has_unbalanced_row(self@),
                forall|b: int| 0 <= b < j ==> !(#[trigger] model::col_unbalanced_at(self@, b)),
            decreases w - j,
        {
            let (full, zeros, ones) = self.col_counts(j);
            if full && zeros != ones {
                proof {
                    assert(model::col_unbalanced_at(self@, j as int));
                }
                return Err(GridError::LaneUnbalanced);
            }
            j = j + 1;
        }
        Ok(())
    }

    /// Whether rows `i0` and `i1` are both fully determined and
    /// identical cell by cell.
    fn rows_dup(&self, i0: usize, i1: usize) -> (d: bool)
        requires
            self.wf(),
            i0 < model::height_of(self@),
            i1 < model::height_of(self@),
        ensures
            d == model::dup_rows_at(self@, i0 as int, i1 as int),
    {
        let w = self.width();
        let mut j: usize = 0;
        proof {
            assert(self@[i0 as int].len() == model::width_of(self@));
        }
        while j < w
            invariant
                self.wf(),
                i0 < model::height_of(self@),
                i1 < model::height_of(self@),
                j <= w,
                w == model::width_of(self@),
                forall|k: int|
                    0 <= k < j ==> #[trigger] self@[i0 as int][k] is Some && self@[i0 as int][k]
                        == self@[i1 as int][k],
            decreases w - j,
        {
            let a = self.get(i0, j);
            let b = self.get(i1, j);
            let pair_holds = match (a, b) {
                (Some(x), Some(y)) => x == y,
                _ => false,
            };
            if !pair_holds {
                proof {
                    assert(!(self@[i0 as int][j as int] is Some && self@[i0 as int][j as int]
                        == self@[i1 as int][j as int]));
                    assert(!model::dup_rows_at(self@, i0 as int, i1 as int));
                }
                return false;
            }
            j = j + 1;
        }
        proof {
            assert(self@[i0 as int].len() == model::width_of(self@));
        }
        true
    }

    /// Whether columns `j0` and `j1` are both fully determined and
    /// identical cell by cell.
    fn cols_dup(&self, j0: usize, j1: usize) -> (d: bool)
        requires
            self.wf(),
            j0 < model::width_of(self@),
            j1 < model::width_of(self@),
        ensures
            d == model::dup_cols_at(self@, j0 as int, j1 as int),
    {
        let ghost ca = model::col_seq(self@, j0 as int);
        let ghost cb = model::col_seq(self@, j1 as int);
        let h = self.height();
        let mut i: usize = 0;
        while i < h
            invariant
                self.wf(),
                j0 < model::width_of(self@),
                j1 < model::width_of(self@),
                i <= h,
                h == model::height_of(self@),
                ca == model::col_seq(self@, j0 as int),
                cb == model::col_seq(self@, j1 as int),
                forall|k: int| 0 <= k < i ==> #[trigger] ca[k] is Some && ca[k] == cb[k],
            decreases h - i,
        {
            let a = self.get(i, j0);
            let b = self.get(i, j1);
            proof {
                assert(ca[i as int] == self@[i as int][j0 as int]);
                assert(cb[i as int] == self@[i as int][j1 as int]);
            }
            let pair_holds = match (a, b) {
                (Some(x), Some(y)) => x == y,
                _ => false,
            };
            if !pair_holds {
                proof {
                    assert(!(ca[i as int] is Some && ca[i as int] == cb[i as int]));
                    assert(!model::dup_cols_at(self@, j0 as int, j1 as int));
                }
                return false;
            }
            i = i + 1;
        }
        true
    }

    /// Rejects two identical fully determined rows, and two identical
    /// fully determined columns; a pair is skipped the moment either
    /// line holds an unknown cell. `Ok` exactly when no such pair
    /// exists.
    pub fn check_lanes(&self) -> (r: Result<(), GridError>)
        requires
            self.wf(),
        ensures
            r is Ok <==> (!model::has_dup_rows(self@) && !model::has_dup_cols(self@)),
            r is Err ==> r == Err::<(), GridError>(GridError::SameLanes),
    {
        let h = self.height();
        let w = self.width();
        let mut i0: usize = 0;
        while i0 < h
            invariant
                self.wf(),
                i0 <= h,
                h == model::height_of(self@),
                w == model::width_of(self@),
                forall|a: int, b: int|
                    0 <= a < b < h && a < i0 ==> !(#[trigger] model::dup_rows_at(self@, a, b)),
            decreases h - i0,
        {
            let mut i1: usize = i0 + 1;
            while i1 < h
                invariant
                    self.wf(),
                    i0 < h,
                    i0 < i1,
                    h == model::height_of(self@),
                    w == model::width_of(self@),
                    forall|b: int|
                        i0 < b < i1 ==> !(#[trigger] model::dup_rows_at(self@, i0 as int, b)),
                decreases h - i1,
            {
                if self.rows_dup(i0, i1) {
                    return Err(GridError::SameLanes);
                }
                i1 = i1 + 1;
            }
            i0 = i0 + 1;
        }
        let mut j0: usize = 0;
        while j0 < w
            invariant
                self.wf(),
                j0 <= w,
                h == model::height_of(self@),
                w == model::width_of(self@),
                !model::has_dup_rows(self@),
                forall|a: int, b: int|
                    0 <= a < b < w && a < j0 ==> !(#[trigger] model::dup_cols_at(self@, a, b)),
            decreases w - j0,
        {
            let mut j1: usize = j0 + 1;
            while j1 < w
                invariant
                    self.wf(),
                    j0 < w,
                    j0 < j1,
                    h == model::height_of(self@),
                    w == model::width_of(self@),
                    forall|b: int|
                        j0 < b < j1 ==> !(#[trigger] model::dup_cols_at(self@, j0 as int, b)),
                decreases w - j1,
            {
                if self.cols_dup(j0, j1) {
                    return Err(GridError::SameLanes);
                }
                j1 = j1 + 1;
            }
            j0 = j0 + 1;
        }
        Ok(())
    }

    /// Runs the four rule families in their fixed order and returns the
    /// first violation: exactly `model::validity` of the grid.
    pub fn is_valid(&self) -> (r: Result<(), GridError>)
        requires
            self.wf(),
        ensures
            r == model::validity(self@),
    {
        match self.check_cells() {
            Err(e) => {
                return Err(e);
            },
            Ok(_) => {},
        }
        match self.check_balance() {
            Err(e) => {
                return Err(e);
            },
            Ok(_) => {},
        }
        match self.check_lanes() {
            Err(e) => {
                return Err(e);
            },
            Ok(_) => {},
        }
        Ok(())
    }
}

} // verus!
