//! The board: what stands on its squares, who attacks what, where the
//! kings are, and how a move is asked for and made.

use vstd::prelude::*;
use crate::board::laws::{lemma_after_move_wf, lemma_passant_lives_one_ply};
use crate::board::pieces::moves::{
    after_force, get_legal_moves, get_legal_moves_unchecked, legal_moves, move_force, pseudo_moves,
};
use crate::board::pieces::{Piece, PieceColor, PieceKind};
use crate::board::position::Position;
use crate::Turn;

pub mod cell;
pub mod fen;
pub mod laws;
pub mod pieces;
pub mod position;

verus! {

/// Number of squares on the board.
pub const BOARD_SIZE: u8 = 64;

/// What stands on a square: a piece or nothing.
pub type Cell = Option<Piece>;

/// The mathematical content of a board: its 64 squares in rank-major order
/// and the en passant bookkeeping.
pub struct BoardView {
    pub cells: Seq<Option<Piece>>,
    /// The square of the pawn that has just advanced two squares, if any.
    pub passant: Option<Position>,
    /// 1 once the move that set the target is complete, else 0. A target
    /// with lifetime 1 that is still the same after the next move has lived
    /// its ply and is dropped.
    pub lifetime: nat,
}

impl BoardView {
    /// The board on which a game begins.
    pub open spec fn opening() -> BoardView {
        BoardView { cells: Seq::new(64, |k: int| opening_cell(k)), passant: None, lifetime: 0 }
    }

    /// The board with no piece on it.
    pub open spec fn empty() -> BoardView {
        BoardView { cells: Seq::new(64, |k: int| None::<Piece>), passant: None, lifetime: 0 }
    }

    /// 64 squares, and a lifetime counter of 0 or 1. Every function of the
    /// library that takes a board asks for this much and no more.
    pub open spec fn wf(self) -> bool {
        &&& self.cells.len() == 64
        &&& self.lifetime <= 1
    }

    /// The bookkeeping of the en passant target is complete: the lifetime
    /// counter is 1 exactly while a target is set. A board is so when it is
    /// made and after every call of `Board::move_piece`; `move_force` alone
    /// sets a target and leaves the counter.
    pub open spec fn settled(self) -> bool {
        self.lifetime == (if self.passant is Some { 1nat } else { 0nat })
    }

    /// The en passant target, when set, names a square with a pawn on it.
    pub open spec fn passant_sound(self) -> bool {
        self.passant matches Some(t) ==> (self.piece_at(t) matches Some(q) && q.kind
            == PieceKind::Pawn)
    }

    /// The piece on `p`; nothing stands outside the board.
    pub open spec fn piece_at(self, p: Position) -> Option<Piece> {
        if p.on_board() {
            self.cells[p.index()]
        } else {
            None
        }
    }

    /// The board with `c` on `p`; a square outside the board changes nothing.
    pub open spec fn put(self, p: Position, c: Option<Piece>) -> BoardView {
        if p.on_board() {
            BoardView { cells: self.cells.update(p.index(), c), ..self }
        } else {
            self
        }
    }

    /// The board with the en passant target `t`, and the lifetime that
    /// goes with it on a settled board.
    pub open spec fn with_passant(self, t: Option<Position>) -> BoardView {
        BoardView { passant: t, lifetime: if t is Some { 1nat } else { 0nat }, ..self }
    }

    /// Whether a piece of `color` stands on `p`.
    pub open spec fn has_color(self, p: Position, color: PieceColor) -> bool {
        self.piece_at(p) matches Some(q) && q.color == color
    }

    /// The board that a layout describes: the entries are placed in order on
    /// the empty board, so a later entry for a square replaces an earlier
    /// one, and entries outside the board are passed over.
    pub open spec fn of_layout(layout: Seq<(Position, Option<Piece>)>) -> BoardView
        decreases layout.len(),
    {
        if layout.len() == 0 {
            BoardView::empty()
        } else {
            BoardView::of_layout(layout.drop_last()).put(layout.last().0, layout.last().1)
        }
    }
}

/// The kind of the piece that starts a game on `file` of its side's first rank.
pub open spec fn officer(file: int) -> PieceKind {
    if file == 0 || file == 7 {
        PieceKind::Rook
    } else if file == 1 || file == 6 {
        PieceKind::Knight
    } else if file == 2 || file == 5 {
        PieceKind::Bishop
    } else if file == 3 {
        PieceKind::Queen
    } else {
        PieceKind::King
    }
}

/// What stands on the square with rank-major index `k` when a game begins:
/// White's officers on rank 0 and pawns on rank 1, Black's pawns on rank 6
/// and officers on rank 7, none of which has moved.
pub open spec fn opening_cell(k: int) -> Option<Piece> {
    let rank = k / 8;
    let file = k % 8;
    if rank == 0 {
        Some(Piece { kind: officer(file), color: PieceColor::White, moved: false })
    } else if rank == 1 {
        Some(Piece { kind: PieceKind::Pawn, color: PieceColor::White, moved: false })
    } else if rank == 6 {
        Some(Piece { kind: PieceKind::Pawn, color: PieceColor::Black, moved: false })
    } else if rank == 7 {
        Some(Piece { kind: officer(file), color: PieceColor::Black, moved: false })
    } else {
        None
    }
}

/// The square with the given rank-major index.
pub open spec fn square(k: int) -> Position {
    Position::at(k / 8, k % 8)
}

/// Whether the piece on `from` is an enemy of `defender` and has `target`
/// among its pseudo-legal destinations.
pub open spec fn attacks(b: BoardView, from: Position, target: Position, defender: PieceColor) -> bool {
    &&& from.on_board()
    &&& b.piece_at(from) matches Some(a) && a.color != defender
    &&& pseudo_moves(b, from).contains(target)
}

/// Whether some enemy of `defender` has `target` among its pseudo-legal
/// destinations. Whether that enemy's own king would be left attacked is
/// not asked: this is the unchecked relation.
pub open spec fn attacked(b: BoardView, target: Position, defender: PieceColor) -> bool {
    exists|from: Position| attacks(b, from, target, defender)
}

/// Whether `c` holds the king of `color`.
pub open spec fn is_king(c: Option<Piece>, color: PieceColor) -> bool {
    c matches Some(q) && q.kind == PieceKind::King && q.color == color
}

/// The first square at or after index `k`, in rank-major order, that holds
/// the king of `color`.
pub open spec fn king_from(b: BoardView, color: PieceColor, k: int) -> Option<Position>
    decreases 64 - k,
{
    if k < 0 || k >= 64 {
        None
    } else if is_king(b.cells[k], color) {
        Some(square(k))
    } else {
        king_from(b, color, k + 1)
    }
}

/// Where the king of `color` stands: the first such square in rank-major
/// order, which is the only one on a board with one king of each colour.
pub open spec fn king_square(b: BoardView, color: PieceColor) -> Option<Position> {
    king_from(b, color, 0)
}

/// Whether the king of `color` is not attacked. A side without a king is
/// never in check.
pub open spec fn king_safe(b: BoardView, color: PieceColor) -> bool {
    king_square(b, color) matches Some(k) ==> !attacked(b, k, color)
}

/// The board once the legal move from `fr` to `to` has been applied: the
/// pieces stand as the kind of the move has it, and the en passant target
/// is the pawn that has just advanced two ranks, if the move was that;
/// a target that has been through a ply is dropped.
pub open spec fn after_move(b: BoardView, fr: Position, to: Position) -> BoardView {
    let forced = after_force(b, fr, to);
    let stale = b.lifetime == 1 && forced.passant == b.passant;
    forced.with_passant(
        if stale {
            None
        } else {
            forced.passant
        },
    )
}

/// Why a move was not made.
#[derive(Debug, PartialEq, Eq, Clone, Copy, Structural)]
pub enum BoardMoveError {
    /// The piece on the origin square belongs to the side that is not to move.
    NotYourTurn,
    /// The origin is an empty square, or no square of the board.
    NoPieceOnCell,
    /// The destination is not among the legal moves of the piece, as when
    /// it lies outside the board.
    Illegal,
}

/// What becomes of the request to move from `fr` to `to` when it is `turn`'s move.
pub open spec fn move_verdict(b: BoardView, turn: PieceColor, fr: Position, to: Position) -> Result<
    (),
    BoardMoveError,
> {
    match b.piece_at(fr) {
        None => Err(BoardMoveError::NoPieceOnCell),
        Some(piece) => if piece.color != turn {
            Err(BoardMoveError::NotYourTurn)
        } else if legal_moves(b, fr, turn).contains(to) {
            Ok(())
        } else {
            Err(BoardMoveError::Illegal)
        },
    }
}

/// The 64 squares in rank-major order.
pub open spec fn squares() -> Seq<Position> {
    Seq::new(64, |k: int| square(k))
}

/// `has_color` as a predicate on squares.
pub open spec fn stands(b: BoardView, color: PieceColor) -> spec_fn(Position) -> bool {
    |p: Position| b.has_color(p, color)
}

/// The squares on which a piece of `color` stands, in rank-major order.
pub open spec fn pieces_of(b: BoardView, color: PieceColor) -> Seq<Position> {
    squares().filter(stands(b, color))
}

/// Whether no piece of `color` has a legal move.
pub open spec fn immobile(b: BoardView, color: PieceColor) -> bool {
    forall|p: Position|
        p.on_board() && b.has_color(p, color) ==> (#[trigger] legal_moves(b, p, color)).len() == 0
}

/// Whether `color` is checkmated: its king is attacked and none of its
/// pieces has a legal move. A side that has no legal move while its king
/// is not attacked is stalemated, not checkmated.
pub open spec fn checkmated(b: BoardView, color: PieceColor) -> bool {
    !king_safe(b, color) && immobile(b, color)
}

/// The state of a game: what stands on each of the 64 squares, and the
/// en passant bookkeeping.
#[derive(Debug, Clone, PartialEq, Eq)]
pub struct Board {
    cells: Vec<Option<Piece>>,
    passant_pos: Option<Position>,
    passant_tracker: u8,
}

impl View for Board {
    type V = BoardView;

    closed spec fn view(&self) -> BoardView {
        BoardView {
            cells: self.cells@,
            passant: self.passant_pos,
            lifetime: self.passant_tracker as nat,
        }
    }
}

impl Board {
    /// The invariant of every board that this library hands out.
    pub open spec fn wf(&self) -> bool {
        self@.wf()
    }

    fn blank() -> (b: Board)
        ensures
            b@ == BoardView::empty(),
    {
        let mut cells: Vec<Option<Piece>> = Vec::new();
        let mut k: usize = 0;
        while k < 64
            invariant
                k <= 64,
                cells@.len() == k,
                forall|m: int| 0 <= m < k ==> cells@[m] == None::<Piece>,
            decreases 64 - k,
        {
            cells.push(None);
            k += 1;
        }
        let b = Board { cells, passant_pos: None, passant_tracker: 0 };
        assert(b@.cells =~= BoardView::empty().cells);
        b
    }

    /// Builds a board from an explicit layout of squares and what stands on
    /// them. Squares that the layout does not name are empty.
    pub fn new(layout: Vec<(Position, Option<Piece>)>) -> (b: Board)
        ensures
            b.wf(),
            b@.settled(),
            b@ == BoardView::of_layout(layout@),
            b@.passant is None,
    {
        let mut b = Board::blank();
        let mut k: usize = 0;
        while k < layout.len()
            invariant
                k <= layout.len(),
                b.wf(),
                b@.settled(),
                b@.passant is None,
                b@ == BoardView::of_layout(layout@.take(k as int)),
            decreases layout.len() - k,
        {
            let entry = layout[k];
            proof {
                assert(layout@.take(k + 1).drop_last() =~= layout@.take(k as int));
            }
            b.set_cell(entry.0, entry.1);
            k += 1;
        }
        proof {
            assert(layout@.take(k as int) =~= layout@);
        }
        b
    }

    /// An independent copy of the board.
    pub fn copy(&self) -> (b: Board)
        requires
            self.wf(),
        ensures
            b@ == self@,
    {
        let mut cells: Vec<Option<Piece>> = Vec::new();
        let mut k: usize = 0;
        while k < 64
            invariant
                k <= 64,
                self.cells@.len() == 64,
                cells@.len() == k,
                forall|m: int| 0 <= m < k ==> cells@[m] == self.cells@[m],
            decreases 64 - k,
        {
            cells.push(self.cells[k]);
            k += 1;
        }
        let b = Board {
            cells,
            passant_pos: self.passant_pos,
            passant_tracker: self.passant_tracker,
        };
        assert(b@.cells =~= self@.cells);
        b
    }

    pub(crate) fn is_valid_position(pos: Position) -> (b: bool)
        ensures
            b == pos.on_board(),
    {
        0 <= pos.i() && pos.i() <= 7 && 0 <= pos.j() && pos.j() <= 7
    }

    /// Given a position, looks up the corresponding cell: `None` outside
    /// the board, else the cell, which holds a piece or nothing.
    pub fn look_up_cell(&self, pos: Position) -> (cell: Option<&Cell>)
        requires
            self.wf(),
        ensures
            cell is Some <==> pos.on_board(),
            cell matches Some(c) ==> *c == self@.piece_at(pos),
    {
        if Board::is_valid_position(pos) {
            let idx: usize = (pos.i() as usize) * 8 + (pos.j() as usize);
            Some(&self.cells[idx])
        } else {
            None
        }
    }

    /// The piece on `pos`, if `pos` is a square with a piece on it.
    pub fn piece_on(&self, pos: Position) -> (piece: Option<Piece>)
        requires
            self.wf(),
        ensures
            piece == self@.piece_at(pos),
    {
        if Board::is_valid_position(pos) {
            let idx: usize = (pos.i() as usize) * 8 + (pos.j() as usize);
            self.cells[idx]
        } else {
            None
        }
    }

    /// Puts `cell` on `pos`; outside the board nothing changes.
    pub(crate) fn set_cell(&mut self, pos: Position, cell: Cell)
        requires
            old(self)@.cells.len() == 64,
        ensures
            final(self)@ == old(self)@.put(pos, cell),
    {
        if Board::is_valid_position(pos) {
            let idx: usize = (pos.i() as usize) * 8 + (pos.j() as usize);
            self.cells.set(idx, cell);
        }
    }

    /// Makes `t` the en passant target and leaves the lifetime counter as it is.
    pub(crate) fn mark_passant(&mut self, t: Position)
        ensures
            final(self)@ == (BoardView { passant: Some(t), ..old(self)@ }),
    {
        self.passant_pos = Some(t);
    }

    /// Drops the en passant target.
    pub(crate) fn clear_passant(&mut self)
        ensures
            final(self)@ == old(self)@.with_passant(None),
    {
        self.passant_pos = None;
        self.passant_tracker = 0;
    }

    /// The en passant target.
    pub fn passant(&self) -> (t: Option<Position>)
        ensures
            t == self@.passant,
    {
        self.passant_pos
    }

    /// The square with rank-major index `k`.
    pub(crate) fn square_at(k: usize) -> (p: Position)
        requires
            k < 64,
        ensures
            p == square(k as int),
            p.on_board(),
            p.index() == k,
    {
        Position::new((k / 8) as i8, (k % 8) as i8)
    }

    /// Whether no piece of the other colour has `pos` among its
    /// pseudo-legal destinations.
    pub fn is_safe_for(&self, pos: Position, color: PieceColor) -> (safe: bool)
        requires
            self.wf(),
        ensures
            safe == !attacked(self@, pos, color),
    {
        let mut k: usize = 0;
        while k < 64
            invariant
                k <= 64,
                self.wf(),
                forall|q: Position| q.on_board() && q.index() < k ==> !attacks(self@, q, pos, color),
            decreases 64 - k,
        {
            let from = Board::square_at(k);
            if let Some(piece) = self.piece_on(from) {
                if piece.color != color {
                    let reached = get_legal_moves_unchecked(from, self);
                    if contains(&reached, pos) {
                        assert(attacks(self@, from, pos, color));
                        return false;
                    }
                }
            }
            k += 1;
        }
        true
    }

    /// Where the king of `color` stands, or `None` if the board has no such king.
    pub fn look_up_king_pos(&self, color: PieceColor) -> (king: Option<Position>)
        requires
            self.wf(),
        ensures
            king == king_square(self@, color),
    {
        let mut k: usize = 0;
        while k < 64
            invariant
                k <= 64,
                self.wf(),
                king_from(self@, color, k as int) == king_square(self@, color),
            decreases 64 - k,
        {
            let at = Board::square_at(k);
            if let Some(piece) = self.piece_on(at) {
                if piece.kind == PieceKind::King && piece.color == color {
                    return Some(at);
                }
            }
            k += 1;
        }
        None
    }

    /// Whether the king of `color` is not in check.
    pub fn is_king_safe(&self, color: PieceColor) -> (safe: bool)
        requires
            self.wf(),
        ensures
            safe == king_safe(self@, color),
    {
        match self.look_up_king_pos(color) {
            Some(king) => self.is_safe_for(king, color),
            None => true,
        }
    }

    /// Whether `pos` is not the square of the king of `color`.
    pub fn is_safe_for_king(&self, pos: Position, color: PieceColor) -> (apart: bool)
        requires
            self.wf(),
        ensures
            apart == (king_square(self@, color) != Some(pos)),
    {
        match self.look_up_king_pos(color) {
            Some(king) => king != pos,
            None => true,
        }
    }
}

impl Board {
    /// The squares on which a piece of `color` stands, in rank-major order.
    pub fn get_all_pieces_pos_by_color(&self, color: PieceColor) -> (found: Vec<Position>)
        requires
            self.wf(),
        ensures
            found@ == pieces_of(self@, color),
    {
        let mut found: Vec<Position> = Vec::new();
        let ghost pred = stands(self@, color);
        let mut k: usize = 0;
        while k < 64
            invariant
                k <= 64,
                self.wf(),
                pred == stands(self@, color),
                found@ == squares().take(k as int).filter(pred),
            decreases 64 - k,
        {
            let at = Board::square_at(k);
            proof {
                let head = squares().take(k as int);
                assert(squares().take(k + 1) =~= head.push(at));
                head.lemma_filter_push(at, pred);
            }
            if let Some(piece) = self.piece_on(at) {
                if piece.color == color {
                    found.push(at);
                }
            }
            k += 1;
        }
        proof {
            assert(squares().take(64) =~= squares());
        }
        found
    }

    /// Whether `color` is checkmated: its king is attacked and none of its
    /// pieces has a legal move.
    pub fn is_checkmated(&self, color: PieceColor) -> (mate: bool)
        requires
            self.wf(),
        ensures
            mate == checkmated(self@, color),
    {
        if self.is_king_safe(color) {
            return false;
        }
        let mut k: usize = 0;
        while k < 64
            invariant
                k <= 64,
                self.wf(),
                forall|p: Position|
                    p.on_board() && p.index() < k && self@.has_color(p, color) ==> (
                    #[trigger] legal_moves(self@, p, color)).len() == 0,
            decreases 64 - k,
        {
            let at = Board::square_at(k);
            if let Some(piece) = self.piece_on(at) {
                if piece.color == color {
                    let legal = get_legal_moves(at, self, &color);
                    if legal.len() > 0 {
                        return false;
                    }
                }
            }
            k += 1;
        }
        true
    }

    /// Whether the game is won for `color`: whether the other side is checkmated.
    pub fn is_checkmate_for(&self, color: PieceColor) -> (mate: bool)
        requires
            self.wf(),
        ensures
            mate == checkmated(self@, color.opposite()),
    {
        self.is_checkmated(color.opposite())
    }

    /// Moves the piece on `fr` to `to` if it is `turn`'s piece and the move
    /// is legal, and hands the move to the other side. A request that is
    /// turned down changes neither the board nor the turn.
    pub fn move_piece(&mut self, turn: &mut Turn, fr: Position, to: Position) -> (r: Result<
        (),
        BoardMoveError,
    >)
        requires
            old(self).wf(),
        ensures
            r == move_verdict(old(self)@, *old(turn), fr, to),
            r is Ok ==> final(self)@ == after_move(old(self)@, fr, to) && *final(turn) == old(
                turn,
            ).opposite(),
            r is Err ==> *final(self) == *old(self) && *final(turn) == *old(turn),
            final(self).wf(),
            r is Ok ==> final(self)@.settled(),
            old(self)@.settled() && old(self)@.passant_sound() ==> final(self)@.passant_sound(),
    {
        let piece = match self.piece_on(fr) {
            None => {
                return Err(BoardMoveError::NoPieceOnCell);
            },
            Some(piece) => piece,
        };
        if *turn != piece.color {
            return Err(BoardMoveError::NotYourTurn);
        }
        let legal = get_legal_moves(fr, self, turn);
        if contains(&legal, to) {
            // A target that is still the same after the move has been
            // through its ply and is dropped; a new one starts its ply.
            let before_pos = self.passant_pos;
            proof {
                lemma_after_move_wf(self@, fr, to);
                if self@.settled() && self@.passant_sound() {
                    lemma_passant_lives_one_ply(self@, *turn, fr, to);
                }
            }
            move_force(self, fr, to);
            *turn = turn.opposite();
            if self.passant_tracker == 1 && before_pos == self.passant_pos {
                self.passant_pos = None;
                self.passant_tracker = 0;
            }
            if self.passant_pos.is_some() {
                self.passant_tracker = 1;
            }
            Ok(())
        } else {
            Err(BoardMoveError::Illegal)
        }
    }
}

/// The kind of the piece that starts a game on `file` of its side's first rank.
fn officer_on(file: i8) -> (kind: PieceKind)
    ensures
        kind == officer(file as int),
{
    if file == 0 || file == 7 {
        PieceKind::Rook
    } else if file == 1 || file == 6 {
        PieceKind::Knight
    } else if file == 2 || file == 5 {
        PieceKind::Bishop
    } else if file == 3 {
        PieceKind::Queen
    } else {
        PieceKind::King
    }
}

impl Default for Board {
    /// The board on which a game begins.
    fn default() -> (b: Board)
        ensures
            b.wf(),
            b@.settled(),
            b@ == BoardView::opening(),
    {
        let mut b = Board::blank();
        let mut file: i8 = 0;
        while file < 8
            invariant
                0 <= file <= 8,
                b@.cells.len() == 64,
                b@.passant is None,
                b@.lifetime == 0,
                forall|k: int|
                    0 <= k < 64 ==> #[trigger] b@.cells[k] == (if k % 8 < file {
                        opening_cell(k)
                    } else {
                        None
                    }),
            decreases 8 - file,
        {
            let kind = officer_on(file);
            b.set_cell(Position::new(0, file), Some(Piece::new(kind, PieceColor::White)));
            b.set_cell(
                Position::new(1, file),
                Some(Piece::new(PieceKind::Pawn, PieceColor::White)),
            );
            b.set_cell(
                Position::new(6, file),
                Some(Piece::new(PieceKind::Pawn, PieceColor::Black)),
            );
            b.set_cell(Position::new(7, file), Some(Piece::new(kind, PieceColor::Black)));
            file += 1;
        }
        assert(b@.cells =~= BoardView::opening().cells);
        b
    }
}

/// Whether `v` holds `p`.
pub fn contains(v: &Vec<Position>, p: Position) -> (found: bool)
    ensures
        found == v@.contains(p),
{
    let mut k: usize = 0;
    while k < v.len()
        invariant
            k <= v.len(),
            forall|m: int| 0 <= m < k ==> v@[m] != p,
        decreases v.len() - k,
    {
        if v[k] == p {
            return true;
        }
        k += 1;
    }
    false
}

} // verus!
