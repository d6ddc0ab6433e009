//! Coordinates on and around the board.

use vstd::prelude::*;
use crate::board::pieces::PieceColor;

pub mod selector;

verus! {

/// A coordinate: `i` is the rank and `j` the file. Squares of the board have
/// both in `0..=7`; arithmetic on coordinates may leave that range, and such
/// values are filtered before any lookup.
#[derive(PartialEq, Eq, Debug, Copy, Clone, Hash, Structural)]
pub struct Position {
    pub i: i8,
    pub j: i8,
}

impl Position {
    /// The highest rank of the board.
    pub const MAX_I: i8 = 7;

    /// The highest file of the board.
    pub const MAX_J: i8 = 7;

    /// Whether the coordinate names one of the 64 squares.
    pub open spec fn on_board(self) -> bool {
        0 <= self.i <= 7 && 0 <= self.j <= 7
    }

    /// Place of the square in rank-major order.
    pub open spec fn index(self) -> int {
        self.i * 8 + self.j
    }

    /// The coordinate with the given rank and file.
    pub open spec fn at(i: int, j: int) -> Position {
        Position { i: i as i8, j: j as i8 }
    }

    /// The coordinate `di` ranks and `dj` files away.
    pub open spec fn shift(self, di: int, dj: int) -> Position {
        Position::at(self.i + di, self.j + dj)
    }

    /// The colour-adaptive transform: the identity for White, the mirror
    /// image along the rank axis for Black.
    pub open spec fn mirror(self, color: PieceColor) -> Position {
        match color {
            PieceColor::White => self,
            PieceColor::Black => Position::at(7 - self.i, self.j as int),
        }
    }

    /// The square of file `j` on the highest rank.
    pub fn max_i(j: i8) -> (p: Position)
        ensures
            p == (Position { i: 7, j }),
    {
        Self { i: Position::MAX_I, j }
    }

    /// The square of rank `i` on the highest file.
    pub fn max_j(i: i8) -> (p: Position)
        ensures
            p == (Position { i, j: 7 }),
    {
        Self { i, j: Position::MAX_J }
    }

    /// The rank.
    pub fn i(&self) -> (r: i8)
        ensures
            r == self.i,
    {
        self.i
    }

    /// The file.
    pub fn j(&self) -> (r: i8)
        ensures
            r == self.j,
    {
        self.j
    }

    /// The coordinate with rank `i` and file `j`, on the board or not.
    pub fn new(i: i8, j: i8) -> (p: Position)
        ensures
            p == (Position { i, j }),
    {
        Self { i, j }
    }

    /// Whether the coordinate names one of the 64 squares.
    pub fn is_on_board(&self) -> (b: bool)
        ensures
            b == self.on_board(),
    {
        0 <= self.i && self.i <= 7 && 0 <= self.j && self.j <= 7
    }

    /// The colour-adaptive transform. Mirroring a rank below -120 would
    /// leave the range of `i8`.
    pub fn adaptive(self, color: PieceColor) -> (p: Position)
        requires
            color == PieceColor::Black ==> 7 - self.i <= i8::MAX,
        ensures
            p == self.mirror(color),
    {
        match color {
            PieceColor::White => Position::new(self.i, self.j),
            PieceColor::Black => Position::new(Position::MAX_I - self.i, self.j),
        }
    }
}

impl From<(i8, i8)> for Position {
    fn from(pair: (i8, i8)) -> (p: Position)
    {
        Position::new(pair.0, pair.1)
    }
}

impl vstd::std_specs::convert::FromSpecImpl<(i8, i8)> for Position {
    open spec fn obeys_from_spec() -> bool {
        true
    }

    open spec fn from_spec(pair: (i8, i8)) -> Position {
        Position { i: pair.0, j: pair.1 }
    }
}

} // verus!
