//! A Connect Four engine: the rules of the game on a 6x7 grid and a
//! depth-bounded alpha-beta search with a transposition cache.

use vstd::prelude::*;

pub mod app;
pub mod board;
pub mod cache_key;
pub mod evaluation;
pub mod horizon;
pub mod line;
pub mod player;
pub mod position;
pub mod replay;
pub mod search;
pub mod solver;
pub mod symmetry;

pub use app::ConnectFourApp;
pub use board::{Board, Cell};
pub use player::Player;
pub use position::Position;
pub use search::MoveResult;
pub use solver::Solver;

verus! {

/// Number of rows of the grid; row 0 is the top row.
pub const ROWS: usize = 6;

/// Number of columns of the grid.
pub const COLS: usize = 7;

} // verus!
