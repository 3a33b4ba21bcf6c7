use takuzu::Cell;
use takuzu::Grid;
use takuzu::GridError;

fn lines(xs: &[&str]) -> Vec<String> {
    xs.iter().map(|s| s.to_string()).collect()
}

#[test]
fn parses_and_solves_four_by_four() {
    let input = lines(&["1 0 - -", "0 - - 1", "- - 0 1", "- 1 1 -"]);
    let mut g = Grid::parse(&input).unwrap();
    assert_eq!(g.width(), 4);
    assert_eq!(g.height(), 4);
    assert!(g.solve().is_ok());
    // The puzzle has exactly one completion.
    assert_eq!(g.render(), "1 0 1 0\n0 1 0 1\n1 0 0 1\n0 1 1 0");
    assert!(g.is_filled());
    assert!(g.is_valid().is_ok());
    // Every row and column holds two of each symbol.
    for i in 0..4 {
        let mut row_zeros = 0;
        let mut col_zeros = 0;
        for j in 0..4 {
            if g.get(i, j) == Some(Cell::Zero) {
                row_zeros += 1;
            }
            if g.get(j, i) == Some(Cell::Zero) {
                col_zeros += 1;
            }
        }
        assert_eq!(row_zeros, 2);
        assert_eq!(col_zeros, 2);
    }
}

#[test]
fn triple_in_row_fails_validation() {
    let g = Grid::parse(&lines(&["0 0 0"])).unwrap();
    assert_eq!(g.is_valid(), Err(GridError::AdjacentCells));
}

#[test]
fn triple_anywhere_in_row_fails_validation() {
    let g = Grid::parse(&lines(&["- 1 1 1"])).unwrap();
    assert_eq!(g.is_valid(), Err(GridError::AdjacentCells));
}

#[test]
fn triple_in_column_fails_validation() {
    let g = Grid::parse(&lines(&["0 -", "0 -", "0 -"])).unwrap();
    assert_eq!(g.is_valid(), Err(GridError::AdjacentCells));
}

#[test]
fn unknown_cells_never_make_a_triple() {
    let g = Grid::parse(&lines(&["0 - 0 -", "- - - -"])).unwrap();
    assert!(g.is_valid().is_ok());
}

#[test]
fn width_mismatch_fails_parsing() {
    let r = Grid::parse(&lines(&["0 1", "0 1 0"]));
    assert!(matches!(r, Err(GridError::WidthMismatch(2, 3))));
}

#[test]
fn blank_input_fails_parsing() {
    let r = Grid::parse(&lines(&["", "   ", "\t"]));
    assert!(matches!(r, Err(GridError::EmptyGrid)));
}

#[test]
fn no_input_fails_parsing() {
    let r = Grid::parse(&Vec::new());
    assert!(matches!(r, Err(GridError::EmptyGrid)));
}

#[test]
fn invalid_char_fails_parsing() {
    let r = Grid::parse(&lines(&["0 x 1"]));
    assert!(matches!(r, Err(GridError::InvalidChar('x'))));
}

#[test]
fn invalid_char_in_later_line_fails_parsing() {
    let r = Grid::parse(&lines(&["0 1", "1 x"]));
    assert!(matches!(r, Err(GridError::InvalidChar('x'))));
}

#[test]
fn unbalanced_row_fails_validation() {
    let g = Grid::parse(&lines(&["0 0", "1 1"])).unwrap();
    assert_eq!(g.is_valid(), Err(GridError::LaneUnbalanced));
}

#[test]
fn unbalanced_column_fails_validation() {
    let g = Grid::parse(&lines(&["0 1", "0 1"])).unwrap();
    assert_eq!(g.is_valid(), Err(GridError::LaneUnbalanced));
}

#[test]
fn line_with_unknown_cell_skips_balance() {
    let g = Grid::parse(&lines(&["0 0 - -", "- - - -"])).unwrap();
    assert!(g.is_valid().is_ok());
}

#[test]
fn identical_rows_fail_validation() {
    let g = Grid::parse(&lines(&["0 1 0 1", "0 1 0 1", "- - - -", "- - - -"])).unwrap();
    assert_eq!(g.is_valid(), Err(GridError::SameLanes));
}

#[test]
fn identical_columns_fail_validation() {
    let g = Grid::parse(&lines(&["0 0 1 1", "1 1 0 0"])).unwrap();
    assert_eq!(g.is_valid(), Err(GridError::SameLanes));
}

#[test]
fn rows_with_unknown_cells_skip_distinctness() {
    let g = Grid::parse(&lines(&["0 1 - -", "0 1 - -", "- - - -", "- - - -"])).unwrap();
    assert!(g.is_valid().is_ok());
}

#[test]
fn solve_rejects_invalid_grid_with_its_violation() {
    let mut g = Grid::parse(&lines(&["0 0 0"])).unwrap();
    assert_eq!(g.solve(), Err(GridError::AdjacentCells));
    // The grid is left as it was.
    assert_eq!(g.render(), "0 0 0");
}

#[test]
fn solve_reports_unsatisfiable_and_restores_the_grid() {
    // Any determined cell makes a one-cell column unbalanced, so this
    // valid partial grid has no valid completion.
    let mut g = Grid::parse(&lines(&["- -"])).unwrap();
    assert!(g.is_valid().is_ok());
    assert_eq!(g.solve(), Err(GridError::Unsatisfiable));
    assert_eq!(g.render(), "- -");
}

#[test]
fn solve_keeps_a_filled_valid_grid() {
    let mut g = Grid::parse(&lines(&["0 1", "1 0"])).unwrap();
    assert!(g.solve().is_ok());
    assert_eq!(g.render(), "0 1\n1 0");
}

#[test]
fn solve_fills_every_unknown_cell() {
    let input = lines(&["- - - -", "- 1 - -", "- - - 0", "1 - - -"]);
    let mut g = Grid::parse(&input).unwrap();
    if g.solve().is_ok() {
        assert!(g.is_filled());
        assert!(g.is_valid().is_ok());
    } else {
        panic!("this puzzle has a completion");
    }
}

#[test]
fn rendering_then_parsing_round_trips() {
    let input = lines(&["1 0 - -", "0 - - 1", "- - 0 1", "- 1 1 -"]);
    let g = Grid::parse(&input).unwrap();
    let again = Grid::parse(&g.render_lines()).unwrap();
    assert_eq!(again.render(), g.render());
    assert_eq!(g.render(), "1 0 - -\n0 - - 1\n- - 0 1\n- 1 1 -");
}

#[test]
fn parsing_normalizes_whitespace() {
    let g = Grid::parse(&lines(&["  1\t\t0  ", "0   1"])).unwrap();
    assert_eq!(g.render(), "1 0\n0 1");
}

#[test]
fn blank_lines_are_skipped() {
    let g = Grid::parse(&lines(&["", "0 1", " \t ", "1 0", ""])).unwrap();
    assert_eq!(g.height(), 2);
    assert_eq!(g.width(), 2);
    assert_eq!(g.render(), "0 1\n1 0");
}

#[test]
fn get_reads_cells_by_coordinate() {
    let g = Grid::parse(&lines(&["1 0 -"])).unwrap();
    assert_eq!(g.get(0, 0), Some(Cell::One));
    assert_eq!(g.get(0, 1), Some(Cell::Zero));
    assert_eq!(g.get(0, 2), None);
}

#[test]
fn negate_swaps_the_symbols() {
    assert_eq!(Cell::Zero.negate(), Cell::One);
    assert_eq!(Cell::One.negate(), Cell::Zero);
}

#[test]
fn find_unknown_reports_the_first_gap() {
    let g = Grid::parse(&lines(&["0 1", "- 0"])).unwrap();
    assert_eq!(g.find_unknown(), Some((1, 0)));
    let full = Grid::parse(&lines(&["0 1", "1 0"])).unwrap();
    assert_eq!(full.find_unknown(), None);
    assert!(full.is_filled());
}
