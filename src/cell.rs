//! A single square of the grid: empty, or holding a tile.
use vstd::prelude::*;

use crate::random::random_coin;

verus! {

/// A square of the grid.
#[derive(Debug, Clone, Copy, PartialEq, Eq, Structural)]
pub enum Cell {
    /// A tile of the given value.
    Filled(u128),
    /// No tile.
    Empty,
}

/// Whether `v` is a power of two no smaller than 2: the values that tiles take.
pub open spec fn is_tile_value(v: int) -> bool
    decreases v,
{
    if v < 2 {
        false
    } else if v == 2 {
        true
    } else {
        v % 2 == 0 && is_tile_value(v / 2)
    }
}

/// Whether `c` is one of the two tiles that a spawn can produce.
pub open spec fn is_fresh_tile(c: Cell) -> bool {
    c == Cell::Filled(2) || c == Cell::Filled(4)
}

/// The value of a fresh tile for a side of the coin: 2 on heads, 4 on tails.
pub open spec fn fresh_value(heads: bool) -> u128 {
    if heads {
        2
    } else {
        4
    }
}

/// The value of a freshly spawned tile, given the side of a fair coin: 2 on heads,
/// 4 on tails.
pub fn tile_value(heads: bool) -> (r: u128)
    ensures
        r == fresh_value(heads),
{
    if heads {
        2
    } else {
        4
    }
}

impl Cell {
    /// Well-formed: a filled cell holds a power of two no smaller than 2.
    pub open spec fn wf(self) -> bool {
        match self {
            Cell::Filled(v) => is_tile_value(v as int),
            Cell::Empty => true,
        }
    }

    /// The value held, if any.
    pub open spec fn value_of(self) -> Option<u128> {
        match self {
            Cell::Filled(v) => Some(v),
            Cell::Empty => None,
        }
    }

    /// A freshly generated tile: 2 or 4, each with even odds.
    pub fn new() -> (r: Cell)
        ensures
            is_fresh_tile(r),
    {
        let mut cell = Cell::empty();
        cell.gen_filled_cell();
        cell
    }

    /// An empty cell.
    pub fn empty() -> (r: Cell)
        ensures
            r == Cell::Empty,
    {
        Cell::Empty
    }

    /// Overwrites this cell, whatever it held, with a tile of 2 or 4 drawn with even odds.
    pub fn gen_filled_cell(&mut self)
        ensures
            is_fresh_tile(*final(self)),
    {
        let heads = random_coin();
        self.set_value(tile_value(heads));
    }

    /// Whether a tile is present.
    pub fn is_filled(&self) -> (r: bool)
        ensures
            r == (*self is Filled),
    {
        match self {
            Cell::Filled(_) => true,
            Cell::Empty => false,
        }
    }

    /// Whether no tile is present.
    pub fn is_empty(&self) -> (r: bool)
        ensures
            r == (*self is Empty),
    {
        match self {
            Cell::Filled(_) => false,
            Cell::Empty => true,
        }
    }

    /// The tile's value, or `None` for an empty cell.
    pub fn get_value(&self) -> (r: Option<u128>)
        ensures
            r == self.value_of(),
    {
        match self {
            Cell::Filled(value) => Some(*value),
            Cell::Empty => None,
        }
    }

    /// Puts a tile of `value` here, whatever the cell held before.
    pub fn set_value(&mut self, value: u128)
        ensures
            *final(self) == Cell::Filled(value),
    {
        *self = Cell::Filled(value);
    }
}

} // verus!
