//! The pieces: their kinds, their colours, and whether they have moved.

use vstd::prelude::*;

pub mod moves;

verus! {

/// What a piece is. The declaration order is the order of relative value,
/// least first, so the derived ordering ranks `Pawn` lowest and `King` highest.
#[derive(Debug, PartialEq, Eq, PartialOrd, Ord, Clone, Copy, Hash, Structural)]
pub enum PieceKind {
    Pawn,
    Knight,
    Bishop,
    Rook,
    Queen,
    King,
}

/// The two sides.
#[derive(Debug, PartialEq, Eq, Clone, Copy, Hash, Structural)]
pub enum PieceColor {
    White,
    Black,
}

/// A piece on the board.
#[derive(Debug, PartialEq, Eq, Clone, Copy, Hash, Structural)]
pub struct Piece {
    pub kind: PieceKind,
    pub color: PieceColor,
    /// Sticky: set once the piece has moved, never reset.
    pub moved: bool,
}

impl PieceKind {
    /// Relative value of the kind: `Pawn` is 0, `King` is 5.
    pub open spec fn spec_value(self) -> u8 {
        match self {
            PieceKind::Pawn => 0,
            PieceKind::Knight => 1,
            PieceKind::Bishop => 2,
            PieceKind::Rook => 3,
            PieceKind::Queen => 4,
            PieceKind::King => 5,
        }
    }

    #[verifier::when_used_as_spec(spec_value)]
    pub fn value(self) -> (v: u8)
        ensures
            v == self.spec_value(),
    {
        match self {
            PieceKind::Pawn => 0,
            PieceKind::Knight => 1,
            PieceKind::Bishop => 2,
            PieceKind::Rook => 3,
            PieceKind::Queen => 4,
            PieceKind::King => 5,
        }
    }
}

impl PieceColor {
    /// The other side.
    pub open spec fn spec_opposite(self) -> PieceColor {
        match self {
            PieceColor::White => PieceColor::Black,
            PieceColor::Black => PieceColor::White,
        }
    }

    /// The other side.
    #[verifier::when_used_as_spec(spec_opposite)]
    pub fn opposite(self) -> (c: PieceColor)
        ensures
            c == self.spec_opposite(),
    {
        match self {
            PieceColor::White => PieceColor::Black,
            PieceColor::Black => PieceColor::White,
        }
    }
}

impl Piece {
    /// A piece that has not moved yet.
    pub fn new(kind: PieceKind, color: PieceColor) -> (p: Piece)
        ensures
            p == (Piece { kind, color, moved: false }),
    {
        Self { kind, color, moved: false }
    }
}

} // verus!
