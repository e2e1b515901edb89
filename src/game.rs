//! A game session: the board a player moves on.
use vstd::prelude::*;

use crate::board::{filled_cells, two_fresh_tiles, Board};
use crate::cell::Cell;
use crate::errors::BoardError;

verus! {

/// Why a game operation failed.
#[derive(Debug, PartialEq, Eq)]
pub enum GameError {
    /// The board refused the operation.
    BoardError(BoardError),
}

impl From<BoardError> for GameError {
    fn from(error: BoardError) -> (r: GameError) {
        GameError::BoardError(error)
    }
}

impl vstd::std_specs::convert::FromSpecImpl<BoardError> for GameError {
    open spec fn obeys_from_spec() -> bool {
        true
    }

    open spec fn from_spec(error: BoardError) -> GameError {
        GameError::BoardError(error)
    }
}

/// A game session, owning its board.
#[derive(Debug, Clone, Copy, PartialEq, Eq)]
pub struct Game {
    board: Board,
}

impl View for Game {
    type V = Seq<Cell>;

    /// The cells of the board, in storage order.
    closed spec fn view(&self) -> Seq<Cell> {
        self.board@
    }
}

impl Game {
    /// A new session on a board of two fresh tiles at different places. Never fails.
    pub fn new() -> (r: Result<Game, GameError>)
        ensures
            match r {
                Ok(game) => two_fresh_tiles(game@) && filled_cells(game@).len() == 2,
                Err(_) => false,
            },
    {
        match Board::gen_new() {
            Ok(board) => Ok(Game { board }),
            Err(e) => Err(GameError::from(e)),
        }
    }

    /// The board, for reading.
    pub fn get_board(&self) -> (r: &Board)
        ensures
            r@ == self@,
    {
        &self.board
    }

    /// The board, for changing: the session holds whatever the board becomes.
    pub fn get_board_mut(&mut self) -> (r: &mut Board)
        ensures
            r@ == old(self)@,
            final(self)@ == final(r)@,
    {
        &mut self.board
    }
}

} // verus!
