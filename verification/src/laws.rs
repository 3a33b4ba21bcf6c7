//! The library's stated laws: parsing inverts rendering, and the
//! checker rejects each kind of rule violation wherever it occurs.

use vstd::prelude::*;

use crate::cell::Cell;
use crate::error::GridError;
use crate::model;

verus! {

/// Parsing a concatenation splits into parsing the two parts: position
/// `a.len() + k` of `a + b` behaves as position `k` of `b`.
proof fn lemma_parse_line_shift(a: Seq<char>, b: Seq<char>, k: int)
    requires
        0 <= k <= b.len(),
    ensures
        model::parse_line_from(a + b, a.len() + k) == model::parse_line_from(b, k),
    decreases b.len() - k,
{
    let s = a + b;
    if k >= b.len() {
        assert(a.len() + k >= s.len());
    } else {
        assert(s[a.len() + k] == b[k]);
        lemma_parse_line_shift(a, b, k + 1);
    }
}

/// Parsing from a position inside the first part of a concatenation:
/// the outcome is the first part's cells followed by the second
/// part's, or the first error met.
proof fn lemma_parse_line_concat(a: Seq<char>, b: Seq<char>, i: int)
    requires
        0 <= i <= a.len(),
    ensures
        model::parse_line_from(a + b, i) == (match model::parse_line_from(a, i) {
            Ok(t) => match model::parse_line(b) {
                Ok(u) => Ok::<Seq<Option<Cell>>, char>(t + u),
                Err(c) => Err(c),
            },
            Err(c) => Err(c),
        }),
    decreases a.len() - i,
{
    let s = a + b;
    if i == a.len() {
        lemma_parse_line_shift(a, b, 0);
        match model::parse_line(b) {
            Ok(u) => {
                assert(Seq::<Option<Cell>>::empty() + u =~= u);
            },
            Err(_) => {},
        }
    } else {
        assert(s[i] == a[i]);
        lemma_parse_line_concat(a, b, i + 1);
        if a[i] == ' ' || a[i] == '\t' {
        } else if a[i] == '0' || a[i] == '1' || a[i] == '-' {
            match model::parse_line_from(a, i + 1) {
                Ok(t) => {
                    match model::parse_line(b) {
                        Ok(u) => {
                            assert(seq![model::token_of(a[i])] + (t + u) =~= (seq![model::token_of(
                                a[i],
                            )] + t) + u);
                        },
                        Err(_) => {},
                    }
                },
                Err(_) => {},
            }
        }
    }
}

/// A rendered line parses back to exactly the line it came from.
proof fn lemma_parse_render_line(row: Seq<Option<Cell>>)
    requires
        row.len() >= 1,
    ensures
        model::parse_line(model::render_line(row)) == Ok::<Seq<Option<Cell>>, char>(row),
    decreases row.len(),
{
    if row.len() == 1 {
        let s = model::render_line(row);
        let c = model::char_of_token(row[0]);
        assert(s =~= seq![c]);
        assert(model::parse_line_from(s, 1) == Ok::<Seq<Option<Cell>>, char>(Seq::empty()));
        assert(model::token_of(c) == row[0]);
        assert(seq![row[0]] + Seq::<Option<Cell>>::empty() =~= row);
    } else {
        lemma_parse_render_line(row.drop_last());
        let a = model::render_line(row.drop_last());
        let b = seq![' ', model::char_of_token(row.last())];
        assert(model::render_line(row) == a + b);
        lemma_parse_line_concat(a, b, 0);
        let c = model::char_of_token(row.last());
        assert(b[0] == ' ' && b[1] == c);
        assert(model::parse_line_from(b, 2) == Ok::<Seq<Option<Cell>>, char>(Seq::empty()));
        assert(model::parse_line_from(b, 1) == Ok::<Seq<Option<Cell>>, char>(
            seq![model::token_of(c)] + Seq::empty(),
        ));
        assert(model::token_of(c) == row.last());
        assert(seq![row.last()] + Seq::<Option<Cell>>::empty() =~= seq![row.last()]);
        assert(model::parse_line(b) == Ok::<Seq<Option<Cell>>, char>(seq![row.last()]));
        assert(row.drop_last() + seq![row.last()] =~= row);
    }
}

/// Feeding the rendered lines of a well-formed grid back into the
/// parser, from row `k` on with the first `k` rows already accepted,
/// reproduces the grid.
proof fn lemma_parse_render_lines_from(r: model::Rows, k: int)
    requires
        model::wf_rows(r),
        0 <= k <= r.len(),
    ensures
        model::parse_lines_from(model::render_lines_spec(r), k, r.take(k)) == Ok::<
            model::Rows,
            GridError,
        >(r),
    decreases r.len() - k,
{
    let ls = model::render_lines_spec(r);
    if k == r.len() {
        assert(r.take(k) =~= r);
    } else {
        assert(r[k].len() == r[0].len());
        lemma_parse_render_line(r[k]);
        assert(ls[k] == model::render_line(r[k]));
        if k > 0 {
            assert(r.take(k).last() == r[k - 1]);
            assert(r[k - 1].len() == r[0].len());
        }
        assert(r.take(k).push(r[k]) =~= r.take(k + 1));
        lemma_parse_render_lines_from(r, k + 1);
    }
}

/// Parsing is a left-inverse of rendering: the rendered text lines of
/// any well-formed grid parse back to exactly that grid.
pub proof fn lemma_parse_render_roundtrip(r: model::Rows)
    requires
        model::wf_rows(r),
    ensures
        model::parse_spec(model::render_lines_spec(r)) == Ok::<model::Rows, GridError>(r),
{
    assert(r.take(0) =~= Seq::<Seq<Option<Cell>>>::empty());
    lemma_parse_render_lines_from(r, 0);
}

/// The checker rejects any row holding a window of three equal
/// determined symbols, with `AdjacentCells`.
pub proof fn lemma_checker_rejects_row_triple(r: model::Rows, i: int, j: int)
    requires
        0 <= i < model::height_of(r),
        0 <= j,
        j + 2 < model::width_of(r),
        model::row_triple_at(r, i, j),
    ensures
        model::validity(r) == Err::<(), GridError>(GridError::AdjacentCells),
{
    assert(model::has_row_triple(r));
}

/// The checker rejects any column holding a window of three equal
/// determined symbols, with `AdjacentCells`.
pub proof fn lemma_checker_rejects_col_triple(r: model::Rows, i: int, j: int)
    requires
        0 <= i,
        i + 2 < model::height_of(r),
        0 <= j < model::width_of(r),
        model::col_triple_at(r, i, j),
    ensures
        model::validity(r) == Err::<(), GridError>(GridError::AdjacentCells),
{
    assert(model::has_col_triple(r));
}

/// The checker rejects a grid with a fully determined row whose two
/// symbol counts differ.
pub proof fn lemma_checker_rejects_unbalanced_row(r: model::Rows, i: int)
    requires
        0 <= i < model::height_of(r),
        model::line_full(r[i]),
        !model::balanced(r[i]),
    ensures
        model::validity(r) is Err,
{
    assert(model::row_unbalanced_at(r, i));
    assert(model::has_unbalanced_row(r));
}

/// The checker rejects a grid with a fully determined column whose two
/// symbol counts differ.
pub proof fn lemma_checker_rejects_unbalanced_col(r: model::Rows, j: int)
    requires
        0 <= j < model::width_of(r),
        model::line_full(model::col_seq(r, j)),
        !model::balanced(model::col_seq(r, j)),
    ensures
        model::validity(r) is Err,
{
    assert(model::col_unbalanced_at(r, j));
    assert(model::has_unbalanced_col(r));
}

/// The checker rejects a grid with two fully determined rows that are
/// identical cell by cell.
pub proof fn lemma_checker_rejects_identical_rows(r: model::Rows, i0: int, i1: int)
    requires
        model::wf_rows(r),
        0 <= i0 < i1 < model::height_of(r),
        model::line_full(r[i0]),
        forall|k: int| 0 <= k < model::width_of(r) ==> #[trigger] r[i0][k] == r[i1][k],
    ensures
        model::validity(r) is Err,
{
    assert(r[i0].len() == r[0].len());
    assert forall|k: int| #![trigger r[i0][k]] 0 <= k < r[i0].len() implies r[i0][k] is Some
        && r[i0][k] == r[i1][k] by {}
    assert(model::dup_rows_at(r, i0, i1));
    assert(model::has_dup_rows(r));
}

/// The checker rejects a grid with two fully determined columns that
/// are identical cell by cell.
pub proof fn lemma_checker_rejects_identical_cols(r: model::Rows, j0: int, j1: int)
    requires
        model::wf_rows(r),
        0 <= j0 < j1 < model::width_of(r),
        model::line_full(model::col_seq(r, j0)),
        forall|k: int|
            0 <= k < model::height_of(r) ==> #[trigger] model::col_seq(r, j0)[k] == model::col_seq(
                r,
                j1,
            )[k],
    ensures
        model::validity(r) is Err,
{
    let ca = model::col_seq(r, j0);
    assert forall|k: int| #![trigger ca[k]] 0 <= k < ca.len() implies ca[k] is Some && ca[k]
        == model::col_seq(r, j1)[k] by {}
    assert(model::dup_cols_at(r, j0, j1));
    assert(model::has_dup_cols(r));
}

} // verus!
