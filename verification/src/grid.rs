//! The grid data container: construction from text, indexing, rendering.

use vstd::prelude::*;
use vstd::std_specs::iter::IteratorSpec;

use crate::cell::Cell;
use crate::error::GridError;
use crate::model;

verus! {

/// The character sequences of a vector of text lines.
pub open spec fn lines_view(lines: &Vec<String>) -> Seq<Seq<char>> {
    lines@.map_values(|s: String| s@)
}

/// The model of a vector of rows of optional cells.
pub open spec fn rows_view(rows: Seq<Vec<Option<Cell>>>) -> model::Rows {
    rows.map_values(|row: Vec<Option<Cell>>| row@)
}

/// A rectangular grid of optional cells. Every row has exactly `width`
/// entries, there is at least one row and one column, and the struct's
/// invariant `wf` holds from construction on.
#[derive(Debug)]
pub struct Grid {
    cells: Vec<Vec<Option<Cell>>>,
    width: usize,
    height: usize,
}

impl View for Grid {
    type V = model::Rows;

    closed spec fn view(&self) -> model::Rows {
        self.cells@.map_values(|row: Vec<Option<Cell>>| row@)
    }
}

impl Grid {
    /// The two dimension fields agree with the model.
    pub closed spec fn dims_ok(&self) -> bool {
        &&& self.width == model::width_of(self@)
        &&& self.height == model::height_of(self@)
    }

    /// The structural invariant: the model is well formed and the two
    /// dimension fields agree with it.
    pub open spec fn wf(&self) -> bool {
        &&& model::wf_rows(self@)
        &&& self.dims_ok()
    }

    /// The number of columns.
    pub fn width(&self) -> (w: usize)
        requires
            self.wf(),
        ensures
            w == model::width_of(self@),
    {
        self.width
    }

    /// The number of rows.
    pub fn height(&self) -> (h: usize)
        requires
            self.wf(),
        ensures
            h == model::height_of(self@),
    {
        self.height
    }

    /// The characters of a text line, in order.
    fn line_chars(s: &String) -> (r: Vec<char>)
        ensures
            r@ == s@,
    {
        let mut it = s.as_str().chars();
        let mut r: Vec<char> = Vec::new();
        loop
            invariant
                it.obeys_prophetic_iter_laws(),
                it.decrease() is Some,
                r@ + it.remaining() == s@,
            ensures
                r@ == s@,
            decreases it.decrease()->0,
        {
            match it.next() {
                Some(c) => {
                    r.push(c);
                },
                None => {
                    proof {
                        assert(r@ + it.remaining() =~= r@);
                    }
                    break ;
                },
            }
        }
        r
    }

    /// One text line as a row of cells: spaces and tabs ignored, the
    /// recognized symbols taken in order, any other character rejected.
    fn parse_row(s: &String) -> (r: Result<Vec<Option<Cell>>, GridError>)
        ensures
            match r {
                Ok(v) => model::parse_line(s@) == Ok::<Seq<Option<Cell>>, char>(v@),
                Err(e) => model::parse_line(s@) matches Err(c) && e == GridError::InvalidChar(c),
            },
    {
        let cs = Self::line_chars(s);
        let mut acc: Vec<Option<Cell>> = Vec::new();
        let mut k: usize = 0;
        while k < cs.len()
            invariant
                k <= cs.len(),
                cs@ == s@,
                model::parse_line(s@) == model::prepend_cells(
                    acc@,
                    model::parse_line_from(s@, k as int),
                ),
            decreases cs.len() - k,
        {
            let c = cs[k];
            if c == ' ' || c == '\t' {
                // blanks contribute no cell
            } else if c == '0' {
                proof {
                    Self::lemma_prepend_step(acc@, s@, k as int);
                }
                acc.push(Some(Cell::Zero));
            } else if c == '1' {
                proof {
                    Self::lemma_prepend_step(acc@, s@, k as int);
                }
                acc.push(Some(Cell::One));
            } else if c == '-' {
                proof {
                    Self::lemma_prepend_step(acc@, s@, k as int);
                }
                acc.push(None);
            } else {
                return Err(GridError::InvalidChar(c));
            }
            k = k + 1;
        }
        proof {
            assert(acc@ + Seq::<Option<Cell>>::empty() =~= acc@);
        }
        Ok(acc)
    }

    /// Pushing the token at position `k` onto the parsed prefix keeps
    /// the relation between the whole line and the rest of it.
    proof fn lemma_prepend_step(acc: Seq<Option<Cell>>, s: Seq<char>, k: int)
        requires
            0 <= k < s.len(),
            s[k] == '0' || s[k] == '1' || s[k] == '-',
        ensures
            model::prepend_cells(acc, model::parse_line_from(s, k)) == model::prepend_cells(
                acc.push(model::token_of(s[k])),
                model::parse_line_from(s, k + 1),
            ),
    {
        match model::parse_line_from(s, k + 1) {
            Ok(t) => {
                assert(acc + (seq![model::token_of(s[k])] + t) =~= acc.push(
                    model::token_of(s[k]),
                ) + t);
            },
            Err(_) => {},
        }
    }

    /// Builds a grid from text lines.
    ///
    /// Recognized characters are `'0'`, `'1'`, `'-'`, space and tab;
    /// blank lines are skipped; every non-blank line must yield the
    /// same number of cells; at least one non-blank line is required.
    /// The result is exactly what `model::parse_spec` says of the
    /// lines' characters, and a returned grid is well formed.
    pub fn parse(lines: &Vec<String>) -> (r: Result<Grid, GridError>)
        ensures
            match r {
                Ok(g) => g.wf() && model::parse_spec(lines_view(lines)) == Ok::<
                    model::Rows,
                    GridError,
                >(g@),
                Err(e) => model::parse_spec(lines_view(lines)) == Err::<model::Rows, GridError>(e),
            },
    {
        let ghost lv = lines_view(lines);
        let mut rows: Vec<Vec<Option<Cell>>> = Vec::new();
        proof {
            assert(rows_view(rows@) =~= Seq::<Seq<Option<Cell>>>::empty());
        }
        let mut k: usize = 0;
        while k < lines.len()
            invariant
                k <= lines.len(),
                lv == lines_view(lines),
                rows@.len() > 0 ==> rows@[0]@.len() >= 1,
                forall|t: int| 0 <= t < rows@.len() ==> #[trigger] rows@[t]@.len() == rows@[0]@.len(),
                model::parse_spec(lv) == model::parse_lines_from(lv, k as int, rows_view(rows@)),
            decreases lines.len() - k,
        {
            proof {
                assert(lv[k as int] == lines@[k as int]@);
            }
            match Self::parse_row(&lines[k]) {
                Err(e) => {
                    return Err(e);
                },
                Ok(row) => {
                    if row.len() > 0 {
                        if rows.len() > 0 {
                            let prev = rows[rows.len() - 1].len();
                            proof {
                                assert(rows_view(rows@).last() == rows@.last()@);
                            }
                            if row.len() != prev {
                                return Err(GridError::WidthMismatch(prev, row.len()));
                            }
                        }
                        proof {
                            assert(rows_view(rows@.push(row)) =~= rows_view(rows@).push(row@));
                        }
                        rows.push(row);
                    }
                },
            }
            k = k + 1;
        }
        if rows.len() == 0 {
            return Err(GridError::EmptyGrid);
        }
        let width = rows[0].len();
        let height = rows.len();
        let g = Grid { cells: rows, width, height };
        proof {
            assert(g@ == rows_view(g.cells@));
        }
        Ok(g)
    }

    /// Appends the one-character text form of a cell.
    fn push_symbol(out: &mut String, t: Option<Cell>)
        ensures
            final(out)@ == old(out)@ + seq![model::char_of_token(t)],
    {
        match t {
            Some(Cell::Zero) => {
                proof {
                    reveal_strlit("0");
                    assert("0"@ =~= seq!['0']);
                }
                out.append("0");
            },
            Some(Cell::One) => {
                proof {
                    reveal_strlit("1");
                    assert("1"@ =~= seq!['1']);
                }
                out.append("1");
            },
            None => {
                proof {
                    reveal_strlit("-");
                    assert("-"@ =~= seq!['-']);
                }
                out.append("-");
            },
        }
    }

    /// Row `i` rendered as text: its symbols separated by single spaces.
    fn render_row(&self, i: usize) -> (r: String)
        requires
            self.wf(),
            i < model::height_of(self@),
        ensures
            r@ == model::render_line(self@[i as int]),
    {
        let ghost row = self@[i as int];
        let mut out = String::new();
        let mut j: usize = 0;
        let w = self.width;
        proof {
            assert(self@[i as int].len() == model::width_of(self@));
            assert(row.take(0) =~= Seq::<Option<Cell>>::empty());
        }
        while j < w
            invariant
                self.wf(),
                i < model::height_of(self@),
                j <= w,
                w == model::width_of(self@),
                row == self@[i as int],
                out@ == model::render_line(row.take(j as int)),
            decreases w - j,
        {
            proof {
                assert(row.len() == model::width_of(self@));
                assert(row.take(j + 1).drop_last() =~= row.take(j as int));
                assert(row.take(j + 1).last() == row[j as int]);
            }
            if j > 0 {
                proof {
                    reveal_strlit(" ");
                    assert(" "@ =~= seq![' ']);
                }
                out.append(" ");
                let ghost c = model::char_of_token(row[j as int]);
                proof {
                    assert(model::render_line(row.take(j as int)) + seq![' '] + seq![c]
                        =~= model::render_line(row.take(j as int)) + seq![' ', c]);
                }
            }
            Self::push_symbol(&mut out, self.get(i, j));
            proof {
                if j == 0 {
                    assert(out@ =~= model::render_line(row.take(j + 1)));
                }
            }
            j = j + 1;
        }
        proof {
            assert(row.take(w as int) =~= row);
        }
        out
    }

    /// The grid rendered as text lines, one per row.
    pub fn render_lines(&self) -> (r: Vec<String>)
        requires
            self.wf(),
        ensures
            lines_view(&r) == model::render_lines_spec(self@),
    {
        let mut r: Vec<String> = Vec::new();
        let mut i: usize = 0;
        while i < self.height
            invariant
                self.wf(),
                i <= model::height_of(self@),
                r@.len() == i,
                forall|t: int|
                    0 <= t < i ==> #[trigger] r@[t]@ == model::render_line(self@[t]),
            decreases self.height - i,
        {
            let line = self.render_row(i);
            r.push(line);
            i = i + 1;
        }
        proof {
            assert(lines_view(&r) =~= model::render_lines_spec(self@));
        }
        r
    }

    /// The grid rendered as one text: rendered rows separated by line
    /// breaks, with no trailing break.
    pub fn render(&self) -> (r: String)
        requires
            self.wf(),
        ensures
            r@ == model::render_text(self@),
    {
        let mut out = String::new();
        let mut i: usize = 0;
        proof {
            assert(self@.take(0) =~= Seq::<Seq<Option<Cell>>>::empty());
        }
        while i < self.height
            invariant
                self.wf(),
                i <= model::height_of(self@),
                out@ == model::render_text(self@.take(i as int)),
            decreases self.height - i,
        {
            proof {
                assert(self@.take(i + 1).drop_last() =~= self@.take(i as int));
                assert(self@.take(i + 1).last() == self@[i as int]);
            }
            if i > 0 {
                proof {
                    reveal_strlit("\n");
                    assert("\n"@ =~= seq!['\n']);
                }
                out.append("\n");
            }
            let line = self.render_row(i);
            out.append(line.as_str());
            proof {
                if i == 0 {
                    assert(out@ =~= model::render_text(self@.take(i + 1)));
                } else {
                    assert(model::render_text(self@.take(i as int)) + seq!['\n'] + model::render_line(
                        self@[i as int],
                    ) =~= out@);
                }
            }
            i = i + 1;
        }
        proof {
            assert(self@.take(model::height_of(self@)) =~= self@);
        }
        out
    }

    /// Replaces the cell at row `i`, column `j`. The dimensions and all
    /// other cells are untouched.
    pub fn set_cell(&mut self, i: usize, j: usize, v: Option<Cell>)
        requires
            old(self).wf(),
            i < model::height_of(old(self)@),
            j < model::width_of(old(self)@),
        ensures
            final(self).wf(),
            final(self)@ == model::update_cell(old(self)@, i as int, j as int, v),
    {
        proof {
            assert(self@[i as int].len() == model::width_of(self@));
            assert(self.cells@[i as int]@ == self@[i as int]);
        }
        let ghost p = self@;
        self.cells[i][j] = v;
        proof {
            assert(self@ =~= model::update_cell(p, i as int, j as int, v));
            assert(model::wf_rows(self@));
        }
    }

    /// Whether the cell at `(i, j)` sits next to two equal determined
    /// neighbours in its row or column, so that one of its two values
    /// would close a window of three: such a cell has at most one
    /// legal value left.
    fn forced_at(&self, i: usize, j: usize) -> bool
        requires
            self.wf(),
            i < model::height_of(self@),
            j < model::width_of(self@),
    {
        let h = self.height();
        let w = self.width();
        if j >= 2 {
            if let (Some(x), Some(y)) = (self.get(i, j - 2), self.get(i, j - 1)) {
                if x == y {
                    return true;
                }
            }
        }
        if j >= 1 && j + 1 < w {
            if let (Some(x), Some(y)) = (self.get(i, j - 1), self.get(i, j + 1)) {
                if x == y {
                    return true;
                }
            }
        }
        if w - j > 2 {
            if let (Some(x), Some(y)) = (self.get(i, j + 1), self.get(i, j + 2)) {
                if x == y {
                    return true;
                }
            }
        }
        if i >= 2 {
            if let (Some(x), Some(y)) = (self.get(i - 2, j), self.get(i - 1, j)) {
                if x == y {
                    return true;
                }
            }
        }
        if i >= 1 && i + 1 < h {
            if let (Some(x), Some(y)) = (self.get(i - 1, j), self.get(i + 1, j)) {
                if x == y {
                    return true;
                }
            }
        }
        if h - i > 2 {
            if let (Some(x), Some(y)) = (self.get(i + 1, j), self.get(i + 2, j)) {
                if x == y {
                    return true;
                }
            }
        }
        false
    }

    /// An unknown cell with at most one legal value left, if there is
    /// one, else the first unknown cell in reading order; ties are
    /// broken by reading order throughout. `None` exactly when the
    /// grid is fully determined.
    pub fn find_unknown(&self) -> (r: Option<(usize, usize)>)
        requires
            self.wf(),
        ensures
            match r {
                None => model::filled(self@),
                Some(ij) => ij.0 < model::height_of(self@) && ij.1 < model::width_of(self@)
                    && self@[ij.0 as int][ij.1 as int] is None,
            },
    {
        let h = self.height();
        let w = self.width();
        let mut i: usize = 0;
        while i < h
            invariant
                self.wf(),
                i <= h,
                h == model::height_of(self@),
                w == model::width_of(self@),
            decreases h - i,
        {
            let mut j: usize = 0;
            while j < w
                invariant
                    self.wf(),
                    i < h,
                    j <= w,
                    h == model::height_of(self@),
                    w == model::width_of(self@),
                decreases w - j,
            {
                if self.get(i, j).is_none() && self.forced_at(i, j) {
                    return Some((i, j));
                }
                j = j + 1;
            }
            i = i + 1;
        }
        let mut i: usize = 0;
        while i < h
            invariant
                self.wf(),
                i <= h,
                h == model::height_of(self@),
                w == model::width_of(self@),
                forall|a: int| 0 <= a < i ==> model::line_full(#[trigger] self@[a]),
            decreases h - i,
        {
            let mut j: usize = 0;
            while j < w
                invariant
                    self.wf(),
                    i < h,
                    j <= w,
                    h == model::height_of(self@),
                    w == model::width_of(self@),
                    forall|k: int| 0 <= k < j ==> #[trigger] self@[i as int][k] is Some,
                decreases w - j,
            {
                if self.get(i, j).is_none() {
                    return Some((i, j));
                }
                j = j + 1;
            }
            proof {
                assert(self@[i as int].len() == model::width_of(self@));
            }
            i = i + 1;
        }
        None
    }

    /// The cell at row `i`, column `j`.
    pub fn get(&self, i: usize, j: usize) -> (c: Option<Cell>)
        requires
            self.wf(),
            i < model::height_of(self@),
            j < model::width_of(self@),
        ensures
            c == self@[i as int][j as int],
    {
        proof {
            assert(self@[i as int].len() == model::width_of(self@));
        }
        self.cells[i][j]
    }
}

} // verus!
