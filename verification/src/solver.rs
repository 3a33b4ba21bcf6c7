//! The completion algorithm: backtracking search over the unknown
//! cells, with the validity checker run after every tentative
//! assignment.

use vstd::prelude::*;

use crate::cell::Cell;
use crate::error::GridError;
use crate::grid::Grid;
use crate::model;

verus! {

/// Replacing one cell changes the line's unknown count by exactly the
/// difference between the old and the new entry.
proof fn lemma_unknowns_in_line_update(s: Seq<Option<Cell>>, j: int, v: Option<Cell>)
    requires
        0 <= j < s.len(),
    ensures
        model::unknowns_in_line(s.update(j, v)) == model::unknowns_in_line(s) - (if s[j] is None {
            1int
        } else {
            0int
        }) + (if v is None {
            1int
        } else {
            0int
        }),
    decreases s.len(),
{
    let t = s.update(j, v);
    if j == s.len() - 1 {
        assert(t.drop_last() =~= s.drop_last());
    } else {
        lemma_unknowns_in_line_update(s.drop_last(), j, v);
        assert(t.drop_last() =~= s.drop_last().update(j, v));
    }
}

/// Replacing one row changes the grid's unknown count by exactly the
/// difference between the old and the new row.
proof fn lemma_unknown_count_update_row(r: model::Rows, i: int, row: Seq<Option<Cell>>)
    requires
        0 <= i < r.len(),
    ensures
        model::unknown_count(r.update(i, row)) == model::unknown_count(r)
            - model::unknowns_in_line(r[i]) + model::unknowns_in_line(row),
    decreases r.len(),
{
    let t = r.update(i, row);
    if i == r.len() - 1 {
        assert(t.drop_last() =~= r.drop_last());
    } else {
        lemma_unknown_count_update_row(r.drop_last(), i, row);
        assert(t.drop_last() =~= r.drop_last().update(i, row));
    }
}

/// Replacing one cell changes the grid's unknown count by exactly the
/// difference between the old and the new entry.
proof fn lemma_unknown_count_set(r: model::Rows, i: int, j: int, v: Option<Cell>)
    requires
        0 <= i < r.len(),
        0 <= j < r[i].len(),
    ensures
        model::unknown_count(model::update_cell(r, i, j, v)) == model::unknown_count(r) - (if r[i][j]
            is None {
            1int
        } else {
            0int
        }) + (if v is None {
            1int
        } else {
            0int
        }),
{
    lemma_unknowns_in_line_update(r[i], j, v);
    lemma_unknown_count_update_row(r, i, r[i].update(j, v));
}

/// A grid extends itself.
proof fn lemma_extends_refl(p: model::Rows)
    ensures
        model::extends(p, p),
{
}

/// Extension is transitive.
proof fn lemma_extends_trans(a: model::Rows, b: model::Rows, c: model::Rows)
    requires
        model::extends(a, b),
        model::extends(b, c),
    ensures
        model::extends(a, c),
{
    assert forall|i: int, j: int|
        #![trigger a[i][j], c[i][j]]
        0 <= i < a.len() && 0 <= j < a[i].len() && a[i][j] is Some implies c[i][j] == a[i][j] by {
        assert(b[i][j] == a[i][j]);
        assert(c[i][j] == b[i][j]);
    }
}

/// Determining one unknown cell yields an extension of the grid.
proof fn lemma_update_extends(p: model::Rows, i: int, j: int, v: Option<Cell>)
    requires
        0 <= i < p.len(),
        0 <= j < p[i].len(),
        p[i][j] is None,
    ensures
        model::extends(p, model::update_cell(p, i, j, v)),
{
    let q = model::update_cell(p, i, j, v);
    assert forall|a: int| 0 <= a < p.len() implies #[trigger] q[a].len() == p[a].len() by {}
    assert forall|a: int, b: int|
        #![trigger p[a][b], q[a][b]]
        0 <= a < p.len() && 0 <= b < p[a].len() && p[a][b] is Some implies q[a][b] == p[a][b] by {}
}

/// A filled extension of a grid whose cell `(i, j)` is unknown also
/// extends the grid with that cell set to whatever the extension holds
/// there.
proof fn lemma_completion_refines_update(p: model::Rows, q: model::Rows, i: int, j: int)
    requires
        model::extends(p, q),
        model::filled(q),
        0 <= i < p.len(),
        0 <= j < p[i].len(),
    ensures
        model::extends(model::update_cell(p, i, j, q[i][j]), q),
{
    let u = model::update_cell(p, i, j, q[i][j]);
    assert forall|a: int| 0 <= a < u.len() implies #[trigger] q[a].len() == u[a].len() by {
        assert(q[a].len() == p[a].len());
    }
    assert forall|a: int, b: int|
        #![trigger u[a][b], q[a][b]]
        0 <= a < u.len() && 0 <= b < u[a].len() && u[a][b] is Some implies q[a][b] == u[a][b] by {
        if a == i && b == j {
            assert(u[a][b] == q[i][j]);
        } else {
            assert(u[a][b] == p[a][b]);
            if p[a][b] is Some {
                assert(q[a][b] == p[a][b]);
            } else {
                assert(!(u[a][b] is Some));
            }
        }
    }
}

/// A violation of the rules survives every extension of the grid:
/// determining more cells can never repair it.
proof fn lemma_invalid_persists(p: model::Rows, q: model::Rows)
    requires
        model::wf_rows(p),
        model::extends(p, q),
        !model::valid(p),
    ensures
        !model::valid(q),
{
    assert(q.len() == p.len());
    assert(q[0].len() == p[0].len());
    assert(model::width_of(q) == model::width_of(p));
    if model::has_row_triple(p) {
        let (i, j) = choose|i: int, j: int|
            0 <= i < model::height_of(p) && 0 <= j && j + 2 < model::width_of(p)
                && #[trigger] model::row_triple_at(p, i, j);
        assert(p[i].len() == p[0].len());
        assert(q[i][j] == p[i][j]);
        assert(q[i][j + 1] == p[i][j + 1]);
        assert(q[i][j + 2] == p[i][j + 2]);
        assert(model::row_triple_at(q, i, j));
        assert(model::has_row_triple(q));
    } else if model::has_col_triple(p) {
        let (i, j) = choose|i: int, j: int|
            0 <= i && i + 2 < model::height_of(p) && 0 <= j < model::width_of(p)
                && #[trigger] model::col_triple_at(p, i, j);
        assert(p[i].len() == p[0].len());
        assert(p[i + 1].len() == p[0].len());
        assert(p[i + 2].len() == p[0].len());
        assert(q[i][j] == p[i][j]);
        assert(q[i + 1][j] == p[i + 1][j]);
        assert(q[i + 2][j] == p[i + 2][j]);
        assert(model::col_triple_at(q, i, j));
        assert(model::has_col_triple(q));
    } else if model::has_unbalanced_row(p) {
        let i = choose|i: int|
            0 <= i < model::height_of(p) && #[trigger] model::row_unbalanced_at(p, i);
        assert(p[i].len() == p[0].len());
        assert forall|k: int| 0 <= k < q[i].len() implies #[trigger] q[i][k] == p[i][k] by {
            assert(p[i][k] is Some);
        }
        assert(q[i] =~= p[i]);
        assert(model::row_unbalanced_at(q, i));
        assert(model::has_unbalanced_row(q));
    } else if model::has_unbalanced_col(p) {
        let j = choose|j: int|
            0 <= j < model::width_of(p) && #[trigger] model::col_unbalanced_at(p, j);
        assert forall|k: int| 0 <= k < q.len() implies #[trigger] q[k][j] == p[k][j] by {
            assert(p[k].len() == p[0].len());
            assert(model::col_seq(p, j)[k] == p[k][j]);
            assert(p[k][j] is Some);
        }
        assert(model::col_seq(q, j) =~= model::col_seq(p, j));
        assert(model::col_unbalanced_at(q, j));
        assert(model::has_unbalanced_col(q));
    } else if model::has_dup_rows(p) {
        let (i0, i1) = choose|i0: int, i1: int|
            0 <= i0 < i1 < model::height_of(p) && #[trigger] model::dup_rows_at(p, i0, i1);
        assert(model::dup_rows_at(p, i0, i1));
        assert(model::dup_pair(p[i0], p[i1]));
        assert(p[i0].len() == p[0].len());
        assert(p[i1].len() == p[0].len());
        assert(q[i0].len() == p[i0].len());
        assert forall|k: int|
            #![trigger q[i0][k]]
            0 <= k < q[i0].len() implies q[i0][k] is Some && q[i0][k] == q[i1][k] by {
            assert(0 <= k < p[i0].len());
            assert(p[i0][k] is Some && p[i0][k] == p[i1][k]);
            assert(q[i0][k] == p[i0][k]);
            assert(q[i1][k] == p[i1][k]);
        }
        assert(model::dup_rows_at(q, i0, i1));
        assert(model::has_dup_rows(q));
    } else {
        assert(model::has_dup_cols(p));
        let (j0, j1) = choose|j0: int, j1: int|
            0 <= j0 < j1 < model::width_of(p) && #[trigger] model::dup_cols_at(p, j0, j1);
        let ca = model::col_seq(p, j0);
        let cb = model::col_seq(p, j1);
        let qa = model::col_seq(q, j0);
        let qb = model::col_seq(q, j1);
        assert forall|k: int|
            #![trigger qa[k]]
            0 <= k < qa.len() implies qa[k] is Some && qa[k] == qb[k] by {
            assert(p[k].len() == p[0].len());
            assert(ca[k] is Some && ca[k] == cb[k]);
            assert(ca[k] == p[k][j0] && cb[k] == p[k][j1]);
            assert(q[k][j0] == p[k][j0]);
            assert(q[k][j1] == p[k][j1]);
        }
        assert(model::dup_cols_at(q, j0, j1));
        assert(model::has_dup_cols(q));
    }
}

impl Grid {
    /// One backtracking step: picks an unknown cell, tries both
    /// symbols, keeps an assignment only while the checker still
    /// passes, and undoes it otherwise. Returns whether a filled valid
    /// completion was reached; on failure the grid is exactly as it
    /// was, and no completion of it is valid.
    fn solve_rec(&mut self) -> (found: bool)
        requires
            old(self).wf(),
            model::valid(old(self)@),
        ensures
            final(self).wf(),
            found ==> model::extends(old(self)@, final(self)@) && model::filled(final(self)@)
                && model::valid(final(self)@),
            !found ==> final(self)@ == old(self)@ && (forall|q: model::Rows|
                model::extends(old(self)@, q) && model::filled(q) ==> !model::valid(q)),
        decreases model::unknown_count(old(self)@),
    {
        let ghost p = self@;
        let (i, j) = match self.find_unknown() {
            None => {
                proof {
                    lemma_extends_refl(p);
                }
                return true;
            },
            Some(ij) => ij,
        };
        proof {
            assert(self@[i as int].len() == model::width_of(self@));
        }
        let ghost p0 = model::update_cell(p, i as int, j as int, Some(Cell::Zero));
        let ghost p1 = model::update_cell(p, i as int, j as int, Some(Cell::One));
        proof {
            lemma_unknown_count_set(p, i as int, j as int, Some(Cell::Zero));
            lemma_unknown_count_set(p, i as int, j as int, Some(Cell::One));
            lemma_update_extends(p, i as int, j as int, Some(Cell::Zero));
            lemma_update_extends(p, i as int, j as int, Some(Cell::One));
        }
        self.set_cell(i, j, Some(Cell::Zero));
        let ok0 = self.is_valid().is_ok();
        if ok0 {
            if self.solve_rec() {
                proof {
                    lemma_extends_trans(p, p0, self@);
                }
                return true;
            }
        }
        proof {
            if !ok0 {
                assert forall|q: model::Rows|
                    model::extends(p0, q) && model::filled(q) implies !model::valid(q) by {
                    lemma_invalid_persists(p0, q);
                }
            }
            assert(forall|q: model::Rows|
                model::extends(p0, q) && model::filled(q) ==> !model::valid(q));
        }
        self.set_cell(i, j, Some(Cell::One));
        proof {
            assert(self@[i as int] =~= p[i as int].update(j as int, Some(Cell::One)));
            assert(self@ =~= p1);
        }
        let ok1 = self.is_valid().is_ok();
        if ok1 {
            if self.solve_rec() {
                proof {
                    lemma_extends_trans(p, p1, self@);
                }
                return true;
            }
        }
        proof {
            if !ok1 {
                assert forall|q: model::Rows|
                    model::extends(p1, q) && model::filled(q) implies !model::valid(q) by {
                    lemma_invalid_persists(p1, q);
                }
            }
            assert(forall|q: model::Rows|
                model::extends(p1, q) && model::filled(q) ==> !model::valid(q));
        }
        self.set_cell(i, j, None);
        proof {
            assert(self@[i as int] =~= p[i as int]);
            assert(self@ =~= p);
            assert forall|q: model::Rows|
                model::extends(p, q) && model::filled(q) implies !model::valid(q) by {
                assert(model::line_full(q[i as int]));
                assert(q[i as int].len() == p[i as int].len());
                assert(q[i as int][j as int] is Some);
                lemma_completion_refines_update(p, q, i as int, j as int);
                let v = q[i as int][j as int];
                if v == Some(Cell::Zero) {
                    assert(model::extends(p0, q));
                } else {
                    assert(v == Some(Cell::One));
                    assert(model::extends(p1, q));
                }
            }
        }
        false
    }

    /// Completes the grid in place.
    ///
    /// An invalid grid is rejected with its first rule violation. A
    /// valid grid is either filled into a completion that passes the
    /// checker (`Ok`), or left exactly as it was with `Unsatisfiable`,
    /// in which case no assignment of its unknown cells satisfies the
    /// rules. Success is returned exactly when the grid is valid and
    /// some valid completion exists.
    pub fn solve(&mut self) -> (r: Result<(), GridError>)
        requires
            old(self).wf(),
        ensures
            final(self).wf(),
            match r {
                Ok(_) => model::extends(old(self)@, final(self)@) && model::filled(final(self)@)
                    && model::valid(final(self)@),
                Err(e) => final(self)@ == old(self)@ && match model::validity(old(self)@) {
                    Err(e0) => e == e0,
                    Ok(_) => e == GridError::Unsatisfiable && (forall|q: model::Rows|
                        model::extends(old(self)@, q) && model::filled(q) ==> !model::valid(q)),
                },
            },
            r is Ok <==> (model::valid(old(self)@) && exists|q: model::Rows|
                model::extends(old(self)@, q) && model::filled(q) && model::valid(q)),
    {
        let ghost p = self@;
        match self.is_valid() {
            Err(e) => {
                return Err(e);
            },
            Ok(_) => {},
        }
        if self.solve_rec() {
            proof {
                assert(model::extends(p, self@) && model::filled(self@) && model::valid(self@));
            }
            Ok(())
        } else {
            Err(GridError::Unsatisfiable)
        }
    }
}

} // verus!
