//! A square seen together with what stands on it.

use vstd::prelude::*;
use crate::board::pieces::Piece;
use crate::board::position::Position;

verus! {

/// A square of a board together with what stands on it.
#[derive(PartialEq, Eq, Clone, Copy, Debug, Structural)]
pub struct Cell {
    /// The piece on the cell.
    pub piece: Option<Piece>,
    /// The position of the cell on the board.
    pos: Position,
}

impl Cell {
    /// The position of the cell on the board.
    pub closed spec fn position(&self) -> Position {
        self.pos
    }

    /// What stands on the cell.
    pub closed spec fn held(&self) -> Option<Piece> {
        self.piece
    }

    /// The cell on `pos` with `piece` on it.
    pub fn new(piece: Option<Piece>, pos: Position) -> (cell: Cell)
        ensures
            cell.held() == piece,
            cell.position() == pos,
    {
        Self { piece, pos }
    }

    /// The position of the cell on the board.
    pub fn pos(&self) -> (pos: Position)
        ensures
            pos == self.position(),
    {
        self.pos
    }

    /// Whether nothing stands on the cell.
    pub fn is_empty(&self) -> (empty: bool)
        ensures
            empty == (self.held() is None),
    {
        self.piece.is_none()
    }
}

} // verus!
