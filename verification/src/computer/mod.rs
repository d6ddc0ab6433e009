//! A player that looks one ply ahead: it takes what is worth taking, else
//! goes where it is not attacked, else moves anywhere.

use vstd::prelude::*;
use crate::board::pieces::moves::{get_legal_moves, is_safe_to_move, lands_safely, legal_moves};
use crate::board::pieces::{PieceColor, PieceKind};
use crate::board::position::Position;
use crate::board::laws::lemma_pieces_of_contains;
use crate::board::{immobile, pieces_of, Board, BoardView};

verus! {

/// A move: the square it starts from and the square it ends on.
pub type Move = (Position, Position);

/// The legal moves of the piece on `fr`, each with its origin.
pub open spec fn moves_from(b: BoardView, fr: Position, color: PieceColor) -> Seq<Move> {
    Seq::new(legal_moves(b, fr, color).len(), |k: int| (fr, legal_moves(b, fr, color)[k]))
}

/// The legal moves of the pieces on `squares`, square by square.
pub open spec fn moves_over(b: BoardView, color: PieceColor, squares: Seq<Position>) -> Seq<Move>
    decreases squares.len(),
{
    if squares.len() == 0 {
        Seq::empty()
    } else {
        moves_over(b, color, squares.drop_last()) + moves_from(b, squares.last(), color)
    }
}

/// Every legal move of `color`: piece by piece in rank-major order, and
/// for each piece in the order of its legal moves.
pub open spec fn all_legal_moves(b: BoardView, color: PieceColor) -> Seq<Move> {
    moves_over(b, color, pieces_of(b, color))
}

/// Whether a move takes an enemy piece at a price worth paying: the king
/// takes whatever it may; another piece takes where it then stands
/// unattacked, or where what it takes is worth no less than itself.
pub open spec fn takes_well(b: BoardView, color: PieceColor, m: Move) -> bool {
    &&& b.piece_at(m.0) matches Some(taker)
    &&& b.piece_at(m.1) matches Some(taken)
    &&& taken.color != color
    &&& taker.kind == PieceKind::King || lands_safely(b, m.0, m.1, color) || taker.kind.value()
        <= taken.kind.value()
}

/// `takes_well` as a predicate on moves.
pub open spec fn takes_well_pred(b: BoardView, color: PieceColor) -> spec_fn(Move) -> bool {
    |m: Move| takes_well(b, color, m)
}

/// Whether a move puts a piece other than the king on a square that no
/// enemy piece attacks.
pub open spec fn goes_safely(b: BoardView, color: PieceColor, m: Move) -> bool {
    &&& b.piece_at(m.0) matches Some(mover)
    &&& mover.kind != PieceKind::King
    &&& lands_safely(b, m.0, m.1, color)
}

/// `goes_safely` as a predicate on moves.
pub open spec fn goes_safely_pred(b: BoardView, color: PieceColor) -> spec_fn(Move) -> bool {
    |m: Move| goes_safely(b, color, m)
}

/// The moves among which the engine picks: the captures worth making if
/// there are any; else the moves onto unattacked squares if there are any;
/// else every legal move.
pub open spec fn preferred_moves(b: BoardView, color: PieceColor) -> Seq<Move> {
    let legal = all_legal_moves(b, color);
    let capturing = legal.filter(takes_well_pred(b, color));
    let safe = legal.filter(goes_safely_pred(b, color));
    if capturing.len() > 0 {
        capturing
    } else if safe.len() > 0 {
        safe
    } else {
        legal
    }
}

/// A move-selection strategy of one ply: it prefers a capture worth making
/// to a safe move, and a safe move to any other, and picks at random among
/// the moves that it prefers.
pub struct ComputerEngine;

impl ComputerEngine {
    /// Picks a move for `color`, which has a legal move.
    pub fn pick_move(&self, board: &Board, color: PieceColor) -> (m: Move)
        requires
            board.wf(),
            all_legal_moves(board@, color).len() > 0,
        ensures
            preferred_moves(board@, color).contains(m),
    {
        let pool = preferred(board, color);
        pick_random_move(pool)
    }
}

/// The moves among which the engine picks.
pub fn preferred(board: &Board, color: PieceColor) -> (pool: Vec<Move>)
    requires
        board.wf(),
    ensures
        pool@ == preferred_moves(board@, color),
{
    let legal_moves: Vec<Move> = extract_legal_moves(board, color);
    let capturing_moves: Vec<Move> = get_capturing_moves(board, color, &legal_moves);
    if capturing_moves.len() == 0 {
        let safe_moves = get_safe_moves(board, color, &legal_moves);
        if safe_moves.len() == 0 {
            return legal_moves;
        }
        return safe_moves;
    }
    capturing_moves
}

/// The moves of `legal_moves` that put a piece other than the king on an
/// unattacked square.
pub fn get_safe_moves(board: &Board, color: PieceColor, legal_moves: &Vec<Move>) -> (safe: Vec<Move>)
    requires
        board.wf(),
    ensures
        safe@ == legal_moves@.filter(goes_safely_pred(board@, color)),
{
    let mut safe_moves: Vec<Move> = Vec::new();
    let ghost pred = goes_safely_pred(board@, color);
    let mut k: usize = 0;
    while k < legal_moves.len()
        invariant
            k <= legal_moves.len(),
            board.wf(),
            pred == goes_safely_pred(board@, color),
            safe_moves@ == legal_moves@.take(k as int).filter(pred),
        decreases legal_moves.len() - k,
    {
        let (fr, to) = legal_moves[k];
        proof {
            let head = legal_moves@.take(k as int);
            assert(legal_moves@.take(k + 1) =~= head.push((fr, to)));
            head.lemma_filter_push((fr, to), pred);
        }
        k += 1;
        let fr_piece = match board.piece_on(fr) {
            None => {
                continue ;
            },
            Some(fr_piece) => fr_piece,
        };
        if fr_piece.kind == PieceKind::King {
            continue ;
        }
        if is_safe_to_move(fr, to, board, color) {
            safe_moves.push((fr, to));
        }
    }
    proof {
        assert(legal_moves@.take(k as int) =~= legal_moves@);
    }
    safe_moves
}

/// Every legal move of `color`.
pub fn extract_legal_moves(board: &Board, color: PieceColor) -> (all: Vec<Move>)
    requires
        board.wf(),
    ensures
        all@ == all_legal_moves(board@, color),
{
    let positions = board.get_all_pieces_pos_by_color(color);
    let mut all_legal_moves: Vec<Move> = Vec::new();
    let mut k: usize = 0;
    while k < positions.len()
        invariant
            k <= positions.len(),
            board.wf(),
            all_legal_moves@ == moves_over(board@, color, positions@.take(k as int)),
        decreases positions.len() - k,
    {
        let fr = positions[k];
        let moves = get_legal_moves(fr, board, &color);
        let ghost before = all_legal_moves@;
        let mut n: usize = 0;
        while n < moves.len()
            invariant
                n <= moves.len(),
                moves@ == legal_moves(board@, fr, color),
                all_legal_moves@ == before + moves_from(board@, fr, color).take(n as int),
            decreases moves.len() - n,
        {
            all_legal_moves.push((fr, moves[n]));
            n += 1;
        }
        proof {
            assert(positions@.take(k + 1).drop_last() =~= positions@.take(k as int));
        }
        k += 1;
    }
    proof {
        assert(positions@.take(k as int) =~= positions@);
    }
    all_legal_moves
}

/// The moves of `legal_moves` that take an enemy piece at a price worth paying.
pub fn get_capturing_moves(board: &Board, color: PieceColor, legal_moves: &Vec<Move>) -> (res: Vec<
    Move,
>)
    requires
        board.wf(),
    ensures
        res@ == legal_moves@.filter(takes_well_pred(board@, color)),
{
    let mut res: Vec<Move> = Vec::new();
    let ghost pred = takes_well_pred(board@, color);
    let mut k: usize = 0;
    while k < legal_moves.len()
        invariant
            k <= legal_moves.len(),
            board.wf(),
            pred == takes_well_pred(board@, color),
            res@ == legal_moves@.take(k as int).filter(pred),
        decreases legal_moves.len() - k,
    {
        let (fr, to) = legal_moves[k];
        proof {
            let head = legal_moves@.take(k as int);
            assert(legal_moves@.take(k + 1) =~= head.push((fr, to)));
            head.lemma_filter_push((fr, to), pred);
        }
        k += 1;
        if let Some(fr_piece) = board.piece_on(fr) {
            if let Some(to_piece) = board.piece_on(to) {
                if to_piece.color != color && (fr_piece.kind == PieceKind::King || is_safe_to_move(
                    fr,
                    to,
                    board,
                    color,
                ) || fr_piece.kind.value() <= to_piece.kind.value()) {
                    res.push((fr, to));
                }
            }
        }
    }
    proof {
        assert(legal_moves@.take(k as int) =~= legal_moves@);
    }
    res
}

/// The move of `moves` that the number `index` picks.
pub fn move_at(moves: &Vec<Move>, index: usize) -> (m: Move)
    requires
        index < moves.len(),
    ensures
        m == moves@[index as int],
{
    moves[index]
}

/// One of `moves`, picked at random: the one that `move_at` gives for a
/// number drawn below the length of `moves`.
pub fn pick_random_move(moves: Vec<Move>) -> (m: Move)
    requires
        moves.len() > 0,
    ensures
        moves@.contains(m),
{
    let fr_rand = random_below(moves.len());
    move_at(&moves, fr_rand)
}

/// A move is among the legal moves of the pieces on `squares` exactly if
/// it is a legal move of one of them.
proof fn lemma_moves_over_contains(b: BoardView, color: PieceColor, squares: Seq<Position>, m: Move)
    ensures
        moves_over(b, color, squares).contains(m) <==> squares.contains(m.0) && legal_moves(
            b,
            m.0,
            color,
        ).contains(m.1),
    decreases squares.len(),
{
    if squares.len() > 0 {
        let head = squares.drop_last();
        let last = squares.last();
        let from = moves_from(b, last, color);
        let legal = legal_moves(b, last, color);
        lemma_moves_over_contains(b, color, head, m);
        let all = moves_over(b, color, head) + from;
        if all.contains(m) {
            let k = choose|k: int| 0 <= k < all.len() && all[k] == m;
            if k < moves_over(b, color, head).len() {
                assert(moves_over(b, color, head)[k] == m);
                let n = choose|n: int| 0 <= n < head.len() && head[n] == m.0;
                assert(squares[n] == m.0);
            } else {
                let n = k - moves_over(b, color, head).len();
                assert(from[n] == m);
                assert(legal[n] == m.1);
                assert(squares[squares.len() - 1] == m.0);
            }
        }
        if squares.contains(m.0) && legal_moves(b, m.0, color).contains(m.1) {
            let n = choose|n: int| 0 <= n < squares.len() && squares[n] == m.0;
            if n < head.len() {
                assert(head[n] == m.0);
                let k = choose|k: int|
                    0 <= k < moves_over(b, color, head).len() && moves_over(b, color, head)[k]
                        == m;
                assert(all[k] == m);
            } else {
                let k = choose|k: int| 0 <= k < legal.len() && legal[k] == m.1;
                assert(from[k] == m);
                assert(all[moves_over(b, color, head).len() + k] == m);
            }
        }
    }
}

/// The legal moves of a side are the legal moves of its pieces.
pub proof fn lemma_all_legal_moves_contains(b: BoardView, color: PieceColor, fr: Position, to: Position)
    requires
        b.cells.len() == 64,
    ensures
        all_legal_moves(b, color).contains((fr, to)) <==> legal_moves(b, fr, color).contains(to),
{
    lemma_moves_over_contains(b, color, pieces_of(b, color), (fr, to));
    lemma_pieces_of_contains(b, color, fr);
}

/// A side has no legal move at all exactly if none of its pieces has one.
pub proof fn lemma_no_legal_move_iff_immobile(b: BoardView, color: PieceColor)
    requires
        b.cells.len() == 64,
    ensures
        all_legal_moves(b, color).len() == 0 <==> immobile(b, color),
{
    let all = all_legal_moves(b, color);
    if all.len() > 0 {
        let m = all[0];
        assert(all.contains(m));
        lemma_all_legal_moves_contains(b, color, m.0, m.1);
        assert(legal_moves(b, m.0, color).len() > 0);
        assert(b.has_color(m.0, color));
    }
    if !immobile(b, color) {
        let p = choose|p: Position|
            p.on_board() && b.has_color(p, color) && (#[trigger] legal_moves(b, p, color)).len()
                != 0;
        let to = legal_moves(b, p, color)[0];
        assert(legal_moves(b, p, color).contains(to));
        lemma_all_legal_moves_contains(b, color, p, to);
    }
}

/// Calls `gen_range` of `rand::Rng` on the thread-local generator
/// `rand::thread_rng()` with the range `0..len`. Trusted: the number that
/// comes back lies in that range, which must not be empty; that is all
/// that is known of it.
#[verifier::external_body]
pub(crate) fn random_below(len: usize) -> (r: usize)
    requires
        len > 0,
    ensures
        r < len,
{
    rand::Rng::gen_range(&mut rand::thread_rng(), 0..len)
}

} // verus!
