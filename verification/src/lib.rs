//! A verified engine for two-symbol logic grid puzzles.
//!
//! A puzzle is a rectangular grid whose cells hold `Zero`, `One`, or are
//! still unknown. A finished grid must have no three consecutive equal
//! symbols in any row or column, an equal count of both symbols in every
//! row and column, and no two identical rows or columns. The library
//! parses a grid from text lines, renders it back, checks the rules on
//! partial grids, and completes a partial grid by verified backtracking
//! search.

pub mod cell;
pub mod error;
pub mod model;
pub mod grid;
pub mod checks;
pub mod solver;
pub mod laws;

pub use cell::Cell;
pub use error::GridError;
pub use grid::Grid;
