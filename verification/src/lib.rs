//! A chess rules engine: board state, pseudo-legal and legal move generation,
//! move application (castling, en passant, promotion) and check / checkmate
//! queries, each with a machine-checked contract.

use vstd::prelude::*;

pub mod board;
pub mod computer;
pub mod game;

verus! {

/// The side to move.
pub type Turn = crate::board::pieces::PieceColor;

} // verus!
