//! Core logic of a Minesweeper-style puzzle game: grid storage with bounds
//! checking, neighborhood computation, mine placement with a safe starting
//! zone and incrementally maintained adjacency counts, flood-fill reveal,
//! and two single-pass solver heuristics.

use vstd::prelude::*;

pub mod field;
pub mod flood;
pub mod grid;
pub mod matrix;
pub mod rng;
pub mod session;
pub mod solver;

pub use field::Field;
pub use field::FieldCell;
pub use grid::Grid;
pub use grid::GridModel;
pub use grid::MinesError;
pub use matrix::Cell;
pub use matrix::EqCell;
pub use matrix::MatrixExt;
pub use matrix::MatrixExtPartEq;
pub use rng::FixedSource;
pub use rng::RandomSource;
pub use rng::ThreadRandom;
pub use session::CellView;
pub use session::Session;

verus! {

} // verus!
