//! Grid model and slide/merge rules of a 2048-style sliding-tile puzzle.
pub mod board;
pub mod cell;
pub mod direction;
pub mod errors;
pub mod game;
pub mod line;
mod random;

pub use board::Board;
pub use cell::Cell;
pub use direction::{Axis, Direction};
pub use errors::{BoardError, CellError};
pub use game::{Game, GameError};
