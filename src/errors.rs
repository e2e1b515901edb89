//! Failures reported by the board and its cells.
use vstd::prelude::*;

use crate::direction::{Axis, Direction};

verus! {

/// Why a board operation failed. No failure leaves the board changed.
#[derive(Debug, PartialEq, Eq)]
pub enum BoardError {
    /// A row or column index outside `min..=max`; `value` is the index given.
    RangeError { min: usize, max: usize, value: usize },
    /// A cell at the given coordinates could not be used.
    CellError { row: usize, column: usize, error: CellError },
    /// Text that names no direction; `direction` is the text given.
    InvalidDirection { direction: String },
    /// A direction handed to the resolver of an axis it does not lie on.
    InvalidMoveDirection(Direction, Axis),
    /// Merging two tiles of value `tile` would exceed the largest representable tile.
    Overflow { tile: u128 },
    /// No empty cell is left to spawn a tile into.
    BoardFull,
}

/// Why a cell could not be used.
#[derive(Debug, Clone, Copy, PartialEq, Eq)]
pub enum CellError {
    /// The cell holds no value.
    NoValue,
}

} // verus!
