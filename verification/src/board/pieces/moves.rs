//! The moves of the pieces: the pseudo-legal moves of each kind, the test
//! that makes a pseudo-legal move a legal one, and what a move does to the
//! board.

use vstd::prelude::*;
use crate::board::pieces::{Piece, PieceColor, PieceKind};
use crate::board::position::selector::{
    diagonal_rays, horizontal_rays, landing, leap, vertical_rays, BoardPositionSelector,
};
use crate::board::position::Position;
use crate::board::laws::{
    is_castling, lemma_after_move_wf, lemma_legal_move_keeps_king_safe, sole_king,
};
use crate::board::{attacked, contains, king_safe, Board, BoardView};
use crate::Turn;

verus! {

/// The eight squares next to `p`, on the board or not.
pub open spec fn king_steps(p: Position) -> Seq<Position> {
    seq![
        p.shift(0, 1),
        p.shift(0, -1),
        p.shift(1, 0),
        p.shift(-1, 0),
        p.shift(1, 1),
        p.shift(1, -1),
        p.shift(-1, 1),
        p.shift(-1, -1),
    ]
}

/// The eight squares a knight's jump away from `p`, on the board or not.
pub open spec fn knight_jumps(p: Position) -> Seq<Position> {
    seq![
        p.shift(2, 1),
        p.shift(2, -1),
        p.shift(-2, 1),
        p.shift(-2, -1),
        p.shift(1, 2),
        p.shift(1, -2),
        p.shift(-1, 2),
        p.shift(-1, -2),
    ]
}

/// Every square of rank `i` whose file lies strictly between `lo` and `hi` is empty.
pub open spec fn rank_clear(b: BoardView, i: int, lo: int, hi: int) -> bool {
    forall|q: Position| q.i == i && lo < q.j < hi ==> (#[trigger] b.piece_at(q)) is None
}

/// Whether the king `king` on `p` may castle with the piece in the corner
/// of its rank on file `corner` (0 or 7): neither has moved, the corner
/// holds a rook of the king's colour, and every square strictly between
/// the two is empty. Whether any of these squares is attacked is not asked.
pub open spec fn may_castle(b: BoardView, p: Position, king: Piece, corner: int) -> bool {
    &&& !king.moved
    &&& b.piece_at(Position::at(p.i as int, corner)) matches Some(r) && r.kind == PieceKind::Rook
        && r.color == king.color && !r.moved
    &&& if p.j < corner {
        rank_clear(b, p.i as int, p.j as int, corner)
    } else {
        rank_clear(b, p.i as int, corner, p.j as int)
    }
}

/// Where the king `king` on `p` may go, its own safety left aside: the
/// adjacent squares, then the castling square towards file 7, then the one
/// towards file 0.
pub open spec fn king_moves(b: BoardView, p: Position, king: Piece) -> Seq<Position> {
    leap(b, king.color, king_steps(p)) + (if may_castle(b, p, king, 7) {
        leap(b, king.color, seq![p.shift(0, 2)])
    } else {
        Seq::empty()
    }) + (if may_castle(b, p, king, 0) {
        leap(b, king.color, seq![p.shift(0, -2)])
    } else {
        Seq::empty()
    })
}

/// The square `di` ranks ahead and `dj` files aside of `p`, as a piece of
/// `color` looks at the board.
pub open spec fn ahead(p: Position, color: PieceColor, di: int, dj: int) -> Position {
    p.mirror(color).shift(di, dj).mirror(color)
}

/// The pawn's advances: one square if it is empty, and a second from the
/// starting rank if the pawn has not moved and that square is empty too.
pub open spec fn pawn_advances(b: BoardView, p: Position, pawn: Piece) -> Seq<Position> {
    let one = ahead(p, pawn.color, 1, 0);
    let two = ahead(p, pawn.color, 2, 0);
    if one.on_board() && b.piece_at(one) is None {
        if !pawn.moved && p.mirror(pawn.color).i == 1 && b.piece_at(two) is None {
            seq![one, two]
        } else {
            seq![one]
        }
    } else {
        Seq::empty()
    }
}

/// The pawn's capture on `t`: only onto an enemy piece.
pub open spec fn pawn_capture(b: BoardView, color: PieceColor, t: Position) -> Seq<Position> {
    if b.piece_at(t) matches Some(q) && q.color != color {
        seq![t]
    } else {
        Seq::empty()
    }
}

/// Whether the pawn `pawn` on `p` may capture en passant: the target is set
/// and names an enemy pawn on the same rank, one file aside.
pub open spec fn passant_open(b: BoardView, p: Position, pawn: Piece) -> bool {
    &&& b.passant matches Some(t)
    &&& b.piece_at(t) matches Some(q)
    &&& q.kind == PieceKind::Pawn
    &&& q.color != pawn.color
    &&& t.i == p.i
    &&& (t.j == p.j + 1 || t.j == p.j - 1)
}

/// The en passant capture: the square diagonally ahead, behind the enemy
/// pawn, if it is an empty square of the board.
pub open spec fn en_passant(b: BoardView, p: Position, pawn: Piece) -> Seq<Position> {
    if passant_open(b, p, pawn) {
        let dest = ahead(p, pawn.color, 1, b.passant->0.j - p.j);
        if dest.on_board() && b.piece_at(dest) is None {
            seq![dest]
        } else {
            Seq::empty()
        }
    } else {
        Seq::empty()
    }
}

/// Where the pawn `pawn` on `p` may go: its advances, the capture towards
/// the higher file, the capture towards the lower file, the en passant capture.
pub open spec fn pawn_moves(b: BoardView, p: Position, pawn: Piece) -> Seq<Position> {
    pawn_advances(b, p, pawn) + pawn_capture(b, pawn.color, ahead(p, pawn.color, 1, 1))
        + pawn_capture(b, pawn.color, ahead(p, pawn.color, 1, -1)) + en_passant(b, p, pawn)
}

/// The pseudo-legal destinations of whatever stands on `p`, in the order
/// in which they are generated: the moves that fit the piece's pattern and
/// the occupancy of the board, whether or not they leave the mover's king
/// attacked. An empty square, or one outside the board, has none.
pub open spec fn pseudo_moves(b: BoardView, p: Position) -> Seq<Position> {
    match b.piece_at(p) {
        None => Seq::empty(),
        Some(piece) => match piece.kind {
            PieceKind::King => king_moves(b, p, piece),
            PieceKind::Queen => vertical_rays(b, piece.color, p) + horizontal_rays(
                b,
                piece.color,
                p,
            ) + diagonal_rays(b, piece.color, p),
            PieceKind::Knight => leap(b, piece.color, knight_jumps(p)),
            PieceKind::Bishop => diagonal_rays(b, piece.color, p),
            PieceKind::Rook => vertical_rays(b, piece.color, p) + horizontal_rays(
                b,
                piece.color,
                p,
            ),
            PieceKind::Pawn => pawn_moves(b, p, piece),
        },
    }
}

/// Whether every square of rank `i` with its file strictly between `lo`
/// and `hi` is empty.
fn is_rank_clear(board: &Board, i: i8, lo: i8, hi: i8) -> (clear: bool)
    requires
        board.wf(),
        0 <= i <= 7,
        -1 <= lo <= 7,
        0 <= hi <= 8,
    ensures
        clear == rank_clear(board@, i as int, lo as int, hi as int),
{
    let mut f: i8 = lo + 1;
    while f < hi
        invariant
            board.wf(),
            0 <= i <= 7,
            -1 <= lo <= 7,
            0 <= hi <= 8,
            lo < f,
            f <= hi || hi <= lo,
            rank_clear(board@, i as int, lo as int, f as int),
        decreases hi - f,
    {
        let q = Position::new(i, f);
        if board.piece_on(q).is_some() {
            return false;
        }
        f += 1;
    }
    true
}

/// Whether the king on `p` may castle with the corner on file `corner`.
fn can_castle(board: &Board, p: Position, king: &Piece, corner: i8) -> (ok: bool)
    requires
        board.wf(),
        p.on_board(),
        corner == 0 || corner == 7,
    ensures
        ok == may_castle(board@, p, *king, corner as int),
{
    if king.moved {
        return false;
    }
    match board.piece_on(Position::new(p.i(), corner)) {
        None => false,
        Some(rook) => {
            if rook.kind != PieceKind::Rook || rook.color != king.color || rook.moved {
                false
            } else if p.j() < corner {
                is_rank_clear(board, p.i(), p.j(), corner)
            } else {
                is_rank_clear(board, p.i(), corner, p.j())
            }
        },
    }
}

/// Returns the pseudo-legal moves of the piece on `piece_pos`: its moves
/// without considering the king's safety.
pub fn get_legal_moves_unchecked(piece_pos: Position, board: &Board) -> (moves: Vec<Position>)
    requires
        board.wf(),
    ensures
        moves@ == pseudo_moves(board@, piece_pos),
{
    let piece = match board.piece_on(piece_pos) {
        None => {
            return Vec::new();
        },
        Some(piece) => piece,
    };
    let color = piece.color;
    let mut selector = BoardPositionSelector::new(board, piece_pos, piece.color);
    let i = piece_pos.i();
    let j = piece_pos.j();
    match piece.kind {
        PieceKind::King => {
            let steps = vec![
                Position::new(i, j + 1),
                Position::new(i, j - 1),
                Position::new(i + 1, j),
                Position::new(i - 1, j),
                Position::new(i + 1, j + 1),
                Position::new(i + 1, j - 1),
                Position::new(i - 1, j + 1),
                Position::new(i - 1, j - 1),
            ];
            selector.custom(steps);
            if can_castle(board, piece_pos, &piece, 7) {
                let target = vec![Position::new(i, j + 2)];
                proof {
                    assert(target@ =~= seq![piece_pos.shift(0, 2)]);
                }
                selector.custom(target);
            }
            if can_castle(board, piece_pos, &piece, 0) {
                let target = vec![Position::new(i, j - 2)];
                proof {
                    assert(target@ =~= seq![piece_pos.shift(0, -2)]);
                }
                selector.custom(target);
            }
            selector.build_positions()
        },
        PieceKind::Queen => {
            selector.vertical().horizontal().diagonal();
            selector.build_positions()
        },
        PieceKind::Knight => {
            let jumps = vec![
                Position::new(i + 2, j + 1),
                Position::new(i + 2, j - 1),
                Position::new(i - 2, j + 1),
                Position::new(i - 2, j - 1),
                Position::new(i + 1, j + 2),
                Position::new(i + 1, j - 2),
                Position::new(i - 1, j + 2),
                Position::new(i - 1, j - 2),
            ];
            selector.custom(jumps);
            selector.build_positions()
        },
        PieceKind::Bishop => {
            selector.diagonal();
            selector.build_positions()
        },
        PieceKind::Rook => {
            selector.vertical().horizontal();
            selector.build_positions()
        },
        PieceKind::Pawn => pawn_destinations(board, piece_pos, &piece),
    }
}

/// Appends `more` to `v`.
fn push_all(v: &mut Vec<Position>, more: &Vec<Position>)
    ensures
        final(v)@ == old(v)@ + more@,
{
    let mut k: usize = 0;
    while k < more.len()
        invariant
            k <= more.len(),
            v@ == old(v)@ + more@.take(k as int),
        decreases more.len() - k,
    {
        v.push(more[k]);
        k += 1;
    }
}

/// The advances of the pawn `pawn` on `piece_pos`.
fn pawn_advance_squares(board: &Board, piece_pos: Position, pawn: &Piece) -> (moves: Vec<Position>)
    requires
        board.wf(),
        piece_pos.on_board(),
    ensures
        moves@ == pawn_advances(board@, piece_pos, *pawn),
{
    let color = pawn.color;
    let mut vec: Vec<Position> = Vec::new();
    // The colour-adaptive transform lets the rest be written for one colour.
    let piece_pos_adaptive = piece_pos.adaptive(color);
    let i = piece_pos_adaptive.i();
    let j = piece_pos_adaptive.j();
    let upper = Position::new(i + 1, j).adaptive(color);
    if Board::is_valid_position(upper) && board.piece_on(upper).is_none() {
        vec.push(upper);
        // In adaptive coordinates the pawns of either colour start on rank 1.
        let initial_row: i8 = 1;
        let pos = Position::new(i + 2, j).adaptive(color);
        if !pawn.moved && i == initial_row && board.piece_on(pos).is_none() {
            vec.push(pos);
        }
    }
    vec
}

/// The capture of a pawn of `color` on `target`.
fn pawn_capture_square(board: &Board, color: PieceColor, target: Position) -> (moves: Vec<Position>)
    requires
        board.wf(),
    ensures
        moves@ == pawn_capture(board@, color, target),
{
    let mut vec: Vec<Position> = Vec::new();
    if let Some(other) = board.piece_on(target) {
        if other.color != color {
            vec.push(target);
        }
    }
    vec
}

/// The en passant capture of the pawn `pawn` on `piece_pos`.
fn pawn_passant_square(board: &Board, piece_pos: Position, pawn: &Piece) -> (moves: Vec<Position>)
    requires
        board.wf(),
        piece_pos.on_board(),
    ensures
        moves@ == en_passant(board@, piece_pos, *pawn),
{
    let color = pawn.color;
    let mut vec: Vec<Position> = Vec::new();
    let passant_pos = match board.passant() {
        None => {
            return vec;
        },
        Some(passant_pos) => passant_pos,
    };
    let pawn_passant = match board.piece_on(passant_pos) {
        None => {
            return vec;
        },
        Some(pawn_passant) => pawn_passant,
    };
    let is_same_row = piece_pos.i() == passant_pos.i();
    if !is_same_row || pawn_passant.kind != PieceKind::Pawn || pawn_passant.color == color {
        return vec;
    }
    let right_passant = piece_pos.j() + 1 == passant_pos.j();
    let left_passant = piece_pos.j() - 1 == passant_pos.j();
    if right_passant || left_passant {
        let i = piece_pos.adaptive(color).i();
        let dest = Position::new(i + 1, passant_pos.j()).adaptive(color);
        if Board::is_valid_position(dest) && board.piece_on(dest).is_none() {
            vec.push(dest);
        }
    }
    vec
}

/// The pseudo-legal moves of the pawn `pawn` on `piece_pos`.
fn pawn_destinations(board: &Board, piece_pos: Position, pawn: &Piece) -> (moves: Vec<Position>)
    requires
        board.wf(),
        piece_pos.on_board(),
    ensures
        moves@ == pawn_moves(board@, piece_pos, *pawn),
{
    let color = pawn.color;
    let piece_pos_adaptive = piece_pos.adaptive(color);
    let i = piece_pos_adaptive.i();
    let j = piece_pos_adaptive.j();
    let upper_right = Position::new(i + 1, j + 1).adaptive(color);
    let upper_left = Position::new(i + 1, j - 1).adaptive(color);

    let mut vec = pawn_advance_squares(board, piece_pos, pawn);
    let right = pawn_capture_square(board, color, upper_right);
    push_all(&mut vec, &right);
    let left = pawn_capture_square(board, color, upper_left);
    push_all(&mut vec, &left);
    let passant = pawn_passant_square(board, piece_pos, pawn);
    push_all(&mut vec, &passant);
    vec
}

/// The four ways in which a move changes the board.
#[derive(Debug, PartialEq, Eq, Clone, Copy, Structural)]
pub enum MoveKind {
    /// A pawn reaches its last rank and becomes a queen.
    Promote,
    /// A pawn takes the pawn that has just passed it.
    EnPassant,
    /// The king goes two files towards a rook, which jumps over it.
    Castle,
    /// Any other move.
    Regular,
}

/// The rank on which a pawn of `color` is promoted: the last rank in its
/// own, colour-adaptive, view of the board.
pub open spec fn last_rank(color: PieceColor) -> int {
    match color {
        PieceColor::White => 7,
        PieceColor::Black => 0,
    }
}

/// The kind of the move of `mover` from `fr` to `to`, where `target` is
/// what stands on `to`: a king that moves two files castles; a pawn that
/// reaches its last rank is promoted; a pawn that changes file onto an
/// empty square captures en passant; every other move is regular.
pub open spec fn move_kind(mover: Piece, target: Option<Piece>, fr: Position, to: Position) -> MoveKind {
    if mover.kind == PieceKind::King && (to.j - fr.j == 2 || fr.j - to.j == 2) {
        MoveKind::Castle
    } else if mover.kind == PieceKind::Pawn && to.i == last_rank(mover.color) {
        MoveKind::Promote
    } else if mover.kind == PieceKind::Pawn && target is None && fr.j != to.j {
        MoveKind::EnPassant
    } else {
        MoveKind::Regular
    }
}

/// Classifies a move that is already known to be pseudo-legal.
pub fn get_move_kind(piece_fr: &Piece, piece_to: Option<&Piece>, fr: Position, to: Position) -> (kind:
    MoveKind)
    ensures
        kind == move_kind(
            *piece_fr,
            match piece_to {
                Some(t) => Some(*t),
                None => None,
            },
            fr,
            to,
        ),
{
    let files: i16 = (to.j() as i16) - (fr.j() as i16);
    if piece_fr.kind == PieceKind::King && (files == 2 || files == -2) {
        return MoveKind::Castle;
    }
    let last: i8 = match piece_fr.color {
        PieceColor::White => 7,
        PieceColor::Black => 0,
    };
    if piece_fr.kind == PieceKind::Pawn && to.i() == last {
        return MoveKind::Promote;
    }
    if piece_fr.kind == PieceKind::Pawn && piece_to.is_none() && fr.j() != to.j() {
        return MoveKind::EnPassant;
    }
    MoveKind::Regular
}

/// The board on which the legality of a move is judged: the mover stands
/// on `to` and no longer on `fr`; for an en passant capture the captured
/// pawn is gone too, and with it the en passant target. A castling rook
/// stays in its corner and a promoted pawn stays a pawn: with one king of
/// the mover's colour on the board neither matters to its safety.
pub open spec fn simulate(b: BoardView, fr: Position, to: Position) -> BoardView {
    match b.piece_at(fr) {
        None => b,
        Some(mover) => {
            let swapped = b.put(fr, None).put(to, Some(mover));
            if move_kind(mover, b.piece_at(to), fr, to) is EnPassant {
                swapped.put(Position::at(fr.i as int, to.j as int), None).with_passant(None)
            } else {
                swapped
            }
        },
    }
}

/// Whether the king of the piece on `fr` is not attacked once that piece
/// stands on `to`.
pub open spec fn keeps_king_safe(b: BoardView, fr: Position, to: Position) -> bool {
    b.piece_at(fr) matches Some(mover) && king_safe(simulate(b, fr, to), mover.color)
}

/// The square next to the king's on its way from `fr` to the castling square `to`.
pub open spec fn castle_step(fr: Position, to: Position) -> Position {
    Position::at(
        to.i as int,
        to.j + (if fr.j < to.j {
            -1int
        } else {
            1int
        }),
    )
}

/// Whether the pseudo-legal move from `fr` to `to` is legal: it leaves the
/// mover's king unattacked; and a castling move is held to two conditions
/// more: the king's square is not attacked now, and the single step
/// towards the rook is a pseudo-legal move that leaves the king unattacked
/// too. The square on which the king arrives is judged like that of any
/// move; no other square of the path is.
pub open spec fn passes(b: BoardView, fr: Position, to: Position) -> bool {
    &&& keeps_king_safe(b, fr, to)
    &&& move_kind(b.piece_at(fr)->0, b.piece_at(to), fr, to) is Castle ==> {
        &&& !attacked(b, fr, b.piece_at(fr)->0.color)
        &&& pseudo_moves(b, fr).contains(castle_step(fr, to))
        &&& keeps_king_safe(b, fr, castle_step(fr, to))
    }
}

/// `passes` as a predicate on destinations.
pub open spec fn legal_pred(b: BoardView, fr: Position) -> spec_fn(Position) -> bool {
    |to: Position| passes(b, fr, to)
}

/// The legal moves of the piece on `fr` when it is `turn`'s move: the
/// pseudo-legal destinations that pass the test of legality, in their
/// order. There are none where `fr` holds no piece of `turn`.
pub open spec fn legal_moves(b: BoardView, fr: Position, turn: PieceColor) -> Seq<Position> {
    if b.has_color(fr, turn) {
        pseudo_moves(b, fr).filter(legal_pred(b, fr))
    } else {
        Seq::empty()
    }
}

/// Every pseudo-legal move of a king is one of its eight steps, which
/// change the file by one at most, or a castling move along its rank by two files.
pub proof fn lemma_king_moves_shape(b: BoardView, p: Position, king: Piece)
    requires
        p.on_board(),
    ensures
        forall|k: int|
            0 <= k < king_moves(b, p, king).len() ==> {
                let to = #[trigger] king_moves(b, p, king)[k];
                if k < leap(b, king.color, king_steps(p)).len() {
                    -1 <= to.j - p.j <= 1 && -1 <= to.i - p.i <= 1
                } else {
                    to.i == p.i && (to.j == p.j + 2 || to.j == p.j - 2)
                }
            },
{
    let steps = king_steps(p);
    let near = leap(b, king.color, steps);
    let all = king_moves(b, p, king);
    assert forall|k: int| 0 <= k < all.len() implies {
        let to = #[trigger] all[k];
        if k < near.len() {
            -1 <= to.j - p.j <= 1 && -1 <= to.i - p.i <= 1
        } else {
            to.i == p.i && (to.j == p.j + 2 || to.j == p.j - 2)
        }
    } by {
        let to = all[k];
        if k < near.len() {
            assert(to == near[k]);
            assert(near.contains(to));
            steps.lemma_filter_contains_rev(landing(b, king.color), to);
            let m = choose|m: int| 0 <= m < steps.len() && steps[m] == to;
            assert(steps[m] == to);
        } else {
            let east = seq![p.shift(0, 2)];
            let west = seq![p.shift(0, -2)];
            let e = if may_castle(b, p, king, 7) {
                leap(b, king.color, east)
            } else {
                Seq::empty()
            };
            let w = if may_castle(b, p, king, 0) {
                leap(b, king.color, west)
            } else {
                Seq::empty()
            };
            assert(all == near + e + w);
            if k < near.len() + e.len() {
                assert(to == e[k - near.len()]);
                assert(e.contains(to));
                east.lemma_filter_contains_rev(landing(b, king.color), to);
                let m = choose|m: int| 0 <= m < east.len() && east[m] == to;
                assert(east[m] == to);
            } else {
                assert(to == w[k - near.len() - e.len()]);
                assert(w.contains(to));
                west.lemma_filter_contains_rev(landing(b, king.color), to);
                let m = choose|m: int| 0 <= m < west.len() && west[m] == to;
                assert(west[m] == to);
            }
        }
    }
}

/// When the filter comes to a castling move, the king's single step
/// towards the rook is among the moves found legal so far exactly if it is
/// a pseudo-legal move that leaves the king unattacked.
proof fn lemma_step_confirmed(b: BoardView, fr: Position, k: int)
    requires
        b.wf(),
        b.piece_at(fr) is Some,
        0 <= k < pseudo_moves(b, fr).len(),
        move_kind(b.piece_at(fr)->0, b.piece_at(pseudo_moves(b, fr)[k]), fr, pseudo_moves(b, fr)[k])
            is Castle,
    ensures
        pseudo_moves(b, fr).take(k).filter(legal_pred(b, fr)).contains(
            castle_step(fr, pseudo_moves(b, fr)[k]),
        ) <==> (pseudo_moves(b, fr).contains(castle_step(fr, pseudo_moves(b, fr)[k]))
            && keeps_king_safe(b, fr, castle_step(fr, pseudo_moves(b, fr)[k]))),
{
    let king = b.piece_at(fr)->0;
    let all = pseudo_moves(b, fr);
    let to = all[k];
    let step = castle_step(fr, to);
    let pred = legal_pred(b, fr);
    let head = all.take(k);
    let near = leap(b, king.color, king_steps(fr));
    lemma_king_moves_shape(b, fr, king);
    assert(all == king_moves(b, fr, king));
    assert(all[k] == to);
    assert(k >= near.len());
    assert(!(move_kind(king, b.piece_at(step), fr, step) is Castle));
    if head.filter(pred).contains(step) {
        head.lemma_filter_contains_rev(pred, step);
        let m = choose|m: int| 0 <= m < head.len() && head[m] == step;
        assert(all[m] == step);
        let n = choose|n: int| 0 <= n < head.filter(pred).len() && head.filter(pred)[n] == step;
        head.lemma_filter_pred(pred, n);
        assert(pred(step));
    }
    if all.contains(step) && keeps_king_safe(b, fr, step) {
        let m = choose|m: int| 0 <= m < all.len() && all[m] == step;
        assert(all[m] == step);
        assert(m < near.len());
        assert(head[m] == step);
        assert(pred(step));
        head.lemma_filter_contains(pred, m);
    }
}

/// A copy of the board on which the piece on `fr` has been put on `to`,
/// as the legality of that move is judged.
pub fn try_move(board: &Board, fr: Position, to: Position) -> (scratch: Board)
    requires
        board.wf(),
    ensures
        scratch@ == simulate(board@, fr, to),
        scratch.wf(),
{
    let mut scratch = board.copy();
    let mover = match board.piece_on(fr) {
        None => {
            return scratch;
        },
        Some(mover) => mover,
    };
    let target = board.piece_on(to);
    let kind = get_move_kind(&mover, target.as_ref(), fr, to);
    scratch.set_cell(fr, None);
    scratch.set_cell(to, Some(mover));
    if let MoveKind::EnPassant = kind {
        scratch.set_cell(Position::new(fr.i(), to.j()), None);
        scratch.clear_passant();
    }
    scratch
}

/// Whether a piece of `color` that has moved from `fr` to `to` stands on
/// a square that no enemy piece attacks.
pub open spec fn lands_safely(b: BoardView, fr: Position, to: Position, color: PieceColor) -> bool {
    !attacked(simulate(b, fr, to), to, color)
}

/// Whether the piece of `color` on `fr` can go to `to` without standing
/// where an enemy piece could take it.
pub fn is_safe_to_move(fr: Position, to: Position, board: &Board, color: PieceColor) -> (safe: bool)
    requires
        board.wf(),
    ensures
        safe == lands_safely(board@, fr, to, color),
{
    let scratch = try_move(board, fr, to);
    scratch.is_safe_for(to, color)
}

/// Returns the legal moves of the piece on `piece_pos` when it is `turn`'s
/// move. The board is not changed: each candidate is tried on a copy.
pub fn get_legal_moves(piece_pos: Position, board: &Board, turn: &Turn) -> (legal: Vec<Position>)
    requires
        board.wf(),
    ensures
        legal@ == legal_moves(board@, piece_pos, *turn),
{
    let mut legal_moves: Vec<Position> = Vec::new();
    let mover = match board.piece_on(piece_pos) {
        None => {
            return legal_moves;
        },
        Some(mover) => mover,
    };
    let color = mover.color;
    if *turn != color {
        return legal_moves;
    }
    let unchecked_moves = get_legal_moves_unchecked(piece_pos, board);
    let ghost pred = legal_pred(board@, piece_pos);
    let mut k: usize = 0;
    while k < unchecked_moves.len()
        invariant
            k <= unchecked_moves.len(),
            board.wf(),
            board@.piece_at(piece_pos) == Some(mover),
            color == mover.color,
            pred == legal_pred(board@, piece_pos),
            unchecked_moves@ == pseudo_moves(board@, piece_pos),
            legal_moves@ == unchecked_moves@.take(k as int).filter(pred),
        decreases unchecked_moves.len() - k,
    {
        let possible_move = unchecked_moves[k];
        let target = board.piece_on(possible_move);
        let move_kind = get_move_kind(&mover, target.as_ref(), piece_pos, possible_move);
        let mut accepted = true;
        if let MoveKind::Castle = move_kind {
            let padding: i8 = if piece_pos.j() < possible_move.j() {
                -1
            } else {
                1
            };
            proof {
                lemma_step_confirmed(board@, piece_pos, k as int);
            }
            // The king may not castle out of check, nor across a square
            // that it could not step on.
            if !board.is_safe_for(piece_pos, color) || !contains(
                &legal_moves,
                Position::new(possible_move.i(), possible_move.j() + padding),
            ) {
                accepted = false;
            }
        }
        if accepted {
            let scratch = try_move(board, piece_pos, possible_move);
            accepted = scratch.is_king_safe(color);
        }
        proof {
            let head = unchecked_moves@.take(k as int);
            assert(unchecked_moves@.take(k + 1) =~= head.push(possible_move));
            head.lemma_filter_push(possible_move, pred);
        }
        if accepted {
            legal_moves.push(possible_move);
        }
        k += 1;
    }
    proof {
        assert(unchecked_moves@.take(k as int) =~= unchecked_moves@);
    }
    legal_moves
}

/// The piece once it has moved.
pub open spec fn touched(piece: Piece) -> Piece {
    Piece { moved: true, ..piece }
}

/// The corner from which the rook comes when the king castles from `fr` to `to`.
pub open spec fn castle_corner(fr: Position, to: Position) -> Position {
    Position::at(
        fr.i as int,
        if fr.j > to.j {
            0int
        } else {
            7int
        },
    )
}

/// The square that the king crosses when it castles from `fr` to `to`,
/// on which the rook arrives.
pub open spec fn castle_crossed(fr: Position, to: Position) -> Position {
    Position::at(
        fr.i as int,
        to.j + (if fr.j > to.j {
            1int
        } else {
            -1int
        }),
    )
}

/// Whether the move is a pawn's advance by two ranks.
pub open spec fn is_double_step(b: BoardView, fr: Position, to: Position) -> bool {
    &&& b.piece_at(fr) matches Some(mover)
    &&& mover.kind == PieceKind::Pawn
    &&& move_kind(mover, b.piece_at(to), fr, to) is Regular
    &&& (to.i - fr.i == 2 || fr.i - to.i == 2)
}

/// The board once the piece on `fr` has been moved to `to`, by the kind of the move.
///
/// - Regular: the piece stands on `to`, marked as moved; a pawn that has
///   advanced two ranks becomes the en passant target.
/// - Promotion: the pawn is gone and a queen of its colour, which has not
///   moved, stands on `to`.
/// - En passant: the pawn stands on `to`, marked as moved, and the square on
///   the rank of `fr` and the file of `to` is empty.
/// - Castling: the king stands on `to`, the rook of the corner towards
///   which it went stands on the square that the king crossed, and both
///   are marked as moved.
///
/// The lifetime counter is left as it was.
pub open spec fn after_force(b: BoardView, fr: Position, to: Position) -> BoardView {
    match b.piece_at(fr) {
        None => b,
        Some(mover) => {
            let placed = b.put(fr, None).put(to, Some(touched(mover)));
            match move_kind(mover, b.piece_at(to), fr, to) {
                MoveKind::Castle => match placed.piece_at(castle_corner(fr, to)) {
                    Some(rook) => placed.put(castle_corner(fr, to), None).put(
                        castle_crossed(fr, to),
                        Some(touched(rook)),
                    ),
                    None => placed,
                },
                MoveKind::Promote => b.put(fr, None).put(
                    to,
                    Some(Piece { kind: PieceKind::Queen, color: mover.color, moved: false }),
                ),
                MoveKind::Regular => if is_double_step(b, fr, to) {
                    BoardView { passant: Some(to), ..placed }
                } else {
                    placed
                },
                MoveKind::EnPassant => placed.put(Position::at(fr.i as int, to.j as int), None),
            }
        },
    }
}

/// Moves the piece on `fr` to `to` without asking whether the move is
/// legal: the caller has found it among the legal moves of that piece.
///
/// The board is left well formed, so every function of the library takes
/// it, and the king of the side that moved is not attacked on it (after a
/// castling move, where the board holds no second king of that side). The
/// bookkeeping of the en passant target is left to `Board::move_piece`,
/// which alone completes it: here a pawn's advance by two ranks sets the
/// target, no move drops one, and the lifetime counter is not touched.
pub fn move_force(board: &mut Board, fr: Position, to: Position)
    requires
        old(board).wf(),
        old(board)@.piece_at(fr) matches Some(mover) && legal_moves(
            old(board)@,
            fr,
            mover.color,
        ).contains(to),
    ensures
        final(board)@ == after_force(old(board)@, fr, to),
        final(board).wf(),
        final(board)@.lifetime == old(board)@.lifetime,
        old(board)@.settled() ==> (final(board)@.settled() <==> (is_double_step(old(board)@, fr, to)
            ==> old(board)@.passant is Some)),
        (is_castling(old(board)@, fr, to) ==> sole_king(
            old(board)@,
            old(board)@.piece_at(fr)->0.color,
        )) ==> king_safe(final(board)@, old(board)@.piece_at(fr)->0.color),
{
    let mover = match board.piece_on(fr) {
        None => {
            return ;
        },
        Some(mover) => mover,
    };
    proof {
        lemma_after_move_wf(board@, fr, to);
        if is_castling(board@, fr, to) ==> sole_king(board@, mover.color) {
            lemma_legal_move_keeps_king_safe(board@, mover.color, fr, to);
        }
    }
    let target = board.piece_on(to);
    match get_move_kind(&mover, target.as_ref(), fr, to) {
        MoveKind::Castle => {
            let padding: i8 = if fr.j() > to.j() {
                1
            } else {
                -1
            };
            let king_new_pos = Position::new(to.i(), to.j());
            let rook_new_pos = Position::new(fr.i(), king_new_pos.j() + padding);
            let mut king = mover;
            king.moved = true;
            board.set_cell(fr, None);
            board.set_cell(king_new_pos, Some(king));

            let rook_pos = Position::new(
                fr.i(),
                if padding > 0 {
                    0
                } else {
                    7
                },
            );
            if let Some(rook) = board.piece_on(rook_pos) {
                let mut rook = rook;
                rook.moved = true;
                board.set_cell(rook_pos, None);
                board.set_cell(rook_new_pos, Some(rook));
            }
        },
        MoveKind::Promote => {
            let color = mover.color;
            board.set_cell(fr, None);
            board.set_cell(to, Some(Piece::new(PieceKind::Queen, color)));
        },
        MoveKind::Regular => {
            let mut piece = mover;
            piece.moved = true;
            board.set_cell(fr, None);
            board.set_cell(to, Some(piece));
            let ranks: i16 = (to.i() as i16) - (fr.i() as i16);
            if piece.kind == PieceKind::Pawn && (ranks == 2 || ranks == -2) {
                board.mark_passant(to);
            }
        },
        MoveKind::EnPassant => {
            let mut piece = mover;
            piece.moved = true;
            board.set_cell(fr, None);
            board.set_cell(to, Some(piece));
            board.set_cell(Position::new(fr.i(), to.j()), None);
        },
    }
}

} // verus!
