//! The state of a game on screen and what a click does to it. Drawing the
//! board and running the window are left to the program around the library.

use vstd::prelude::*;
use vstd::string::*;
use crate::board::pieces::moves::{get_legal_moves, legal_moves};
use crate::board::pieces::{PieceColor, PieceKind};
use crate::board::position::Position;
use crate::computer::random_below;
use crate::board::laws::lemma_pieces_of_contains;
use crate::board::{
    after_move, attacked, checkmated, immobile, king_square, move_verdict, pieces_of, Board,
    BoardMoveError, BoardView, Cell,
};

verus! {

/// Who moves the pieces of a side.
#[derive(Debug, Clone, Copy, PartialEq, Eq, Structural)]
pub enum Player {
    Human,
    Computer,
}

/// What a game starts from: the board, the side to move, and who plays
/// White and who plays Black.
pub struct ChessSettings {
    board: Board,
    turn: PieceColor,
    players: (Player, Player),
}

impl ChessSettings {
    /// The board on which the game begins.
    pub closed spec fn board(&self) -> BoardView {
        self.board@
    }

    /// The side that moves first.
    pub closed spec fn turn(&self) -> PieceColor {
        self.turn
    }

    /// Who plays White, and who plays Black.
    pub closed spec fn players(&self) -> (Player, Player) {
        self.players
    }

    /// Settings for a game on `board` in which `turn` moves first.
    pub fn new(board: Board, turn: PieceColor, players: (Player, Player)) -> (s: Self)
        ensures
            s.board() == board@,
            s.turn() == turn,
            s.players() == players,
    {
        Self { board, turn, players }
    }
}

/// A game that has not begun.
pub struct ChessGame {
    settings: ChessSettings,
}

impl ChessGame {
    /// What the game starts from.
    pub closed spec fn settings(&self) -> ChessSettings {
        self.settings
    }

    /// A game that will start from `settings`.
    pub fn new(settings: ChessSettings) -> (g: Self)
        ensures
            g.settings() == settings,
    {
        Self { settings }
    }

    /// The state in which the game begins: nothing selected, and the king
    /// taken to be safe.
    pub fn start(self) -> (ui: ChessUI)
        ensures
            ui@ == (UiView {
                board: self.settings().board(),
                turn: self.settings().turn(),
                players: self.settings().players(),
                selected: None,
                legal: Seq::empty(),
                king: KingState::Safe,
            }),
    {
        ChessUI::new(self.settings.board, self.settings.turn, self.settings.players)
    }
}

/// How the king of the side to move stands.
#[derive(Debug, Clone, Copy, PartialEq, Eq, Structural)]
pub enum KingState {
    Safe,
    /// In check, on the square given.
    Check(Position),
    /// Checkmated, on the square given.
    Checkmate(Position),
}

/// What the screen reports.
#[derive(Debug, Clone, Copy, PartialEq, Eq, Structural)]
pub enum CellClickedEvent {
    /// A click on the square given.
    Clicked(Position),
}

/// The mathematical content of a game on screen.
pub struct UiView {
    pub board: BoardView,
    pub turn: PieceColor,
    /// Who plays White, and who plays Black.
    pub players: (Player, Player),
    /// The square that has been clicked on to move from.
    pub selected: Option<Position>,
    /// The legal moves from the selected square, to be shown.
    pub legal: Seq<Position>,
    pub king: KingState,
}

impl UiView {
    /// Who is to move.
    pub open spec fn current_player(self) -> Player {
        match self.turn {
            PieceColor::White => self.players.0,
            PieceColor::Black => self.players.1,
        }
    }

    /// The state once `pos` has been clicked on to select it: a square with
    /// a piece is selected and its legal moves are shown; on any other the
    /// selection is dropped.
    pub open spec fn select(self, pos: Position) -> UiView {
        if self.board.piece_at(pos) is Some {
            UiView { selected: Some(pos), legal: legal_moves(self.board, pos, self.turn), ..self }
        } else {
            UiView { selected: None, legal: Seq::empty(), ..self }
        }
    }

    /// The state with the king of the side to move looked at again.
    pub open spec fn refresh(self) -> UiView {
        UiView { king: king_state(self.board, self.turn), ..self }
    }

    /// The state once the move from `fr` to `to` has been made.
    pub open spec fn moved(self, fr: Position, to: Position) -> UiView {
        UiView {
            board: after_move(self.board, fr, to),
            turn: self.turn.opposite(),
            selected: None,
            legal: Seq::empty(),
            ..self
        }
    }

    /// What a click on `pos` does when a human is to move. With nothing
    /// selected the click selects. With a square selected it asks for the
    /// move from there to `pos`: a move that is made ends the selection; one
    /// that is turned down as illegal or out of turn makes the click a new
    /// selection. Then the king of the side to move is looked at again.
    pub open spec fn click(self, pos: Position) -> UiView {
        match self.selected {
            None => self.select(pos),
            Some(from) => match move_verdict(self.board, self.turn, from, pos) {
                Ok(_) => self.moved(from, pos).refresh(),
                Err(BoardMoveError::NoPieceOnCell) => self.refresh(),
                Err(_) => self.select(pos).refresh(),
            },
        }
    }

    /// What the computer's move from `fr` to `to` does: a legal move is
    /// made and the king of the side then to move is looked at; any other
    /// changes nothing.
    pub open spec fn reply(self, fr: Position, to: Position) -> UiView {
        match move_verdict(self.board, self.turn, fr, to) {
            Ok(_) => UiView {
                board: after_move(self.board, fr, to),
                turn: self.turn.opposite(),
                ..self
            }.refresh(),
            Err(_) => self,
        }
    }
}

/// How the king of `turn` stands on `b`.
pub open spec fn king_state(b: BoardView, turn: PieceColor) -> KingState {
    match king_square(b, turn) {
        None => KingState::Safe,
        Some(king) => if checkmated(b, turn) {
            KingState::Checkmate(king)
        } else if attacked(b, king, turn) {
            KingState::Check(king)
        } else {
            KingState::Safe
        },
    }
}

/// A game on screen.
pub struct ChessUI {
    board: Board,
    turn: PieceColor,
    players: (Player, Player),
    current_selected: Option<Position>,
    legal_moves: Vec<Position>,
    king_state: KingState,
}

impl View for ChessUI {
    type V = UiView;

    closed spec fn view(&self) -> UiView {
        UiView {
            board: self.board@,
            turn: self.turn,
            players: self.players,
            selected: self.current_selected,
            legal: self.legal_moves@,
            king: self.king_state,
        }
    }
}

impl ChessUI {
    /// The board of the game is well formed.
    pub open spec fn wf(&self) -> bool {
        self@.board.wf()
    }

    /// A game on `board` in which `turn` is to move, with nothing selected
    /// and the king taken to be safe.
    pub fn new(board: Board, turn: PieceColor, players: (Player, Player)) -> (ui: Self)
        ensures
            ui@ == (UiView {
                board: board@,
                turn,
                players,
                selected: None,
                legal: Seq::empty(),
                king: KingState::Safe,
            }),
    {
        Self {
            board,
            turn,
            players,
            current_selected: None,
            legal_moves: Vec::new(),
            king_state: KingState::Safe,
        }
    }

    /// Who is to move.
    pub fn current_player(&self) -> (p: &Player)
        ensures
            *p == self@.current_player(),
    {
        match self.turn {
            PieceColor::White => &self.players.0,
            PieceColor::Black => &self.players.1,
        }
    }

    /// The board as it stands.
    pub fn board(&self) -> (b: &Board)
        ensures
            b@ == self@.board,
    {
        &self.board
    }

    /// The side to move.
    pub fn turn(&self) -> (t: PieceColor)
        ensures
            t == self@.turn,
    {
        self.turn
    }

    /// The square that has been clicked on to move from.
    pub fn current_selected(&self) -> (s: Option<Position>)
        ensures
            s == self@.selected,
    {
        self.current_selected
    }

    /// The legal moves from the selected square.
    pub fn legal_moves(&self) -> (l: &Vec<Position>)
        ensures
            l@ == self@.legal,
    {
        &self.legal_moves
    }

    /// How the king of the side to move stands.
    pub fn king_state(&self) -> (k: KingState)
        ensures
            k == self@.king,
    {
        self.king_state
    }

    fn select(&mut self, pos: Position)
        requires
            old(self).wf(),
        ensures
            final(self)@ == old(self)@.select(pos),
    {
        if self.board.piece_on(pos).is_some() {
            self.current_selected = Some(pos);
            self.legal_moves = get_legal_moves(pos, &self.board, &self.turn);
        } else {
            self.legal_moves = Vec::new();
            self.current_selected = None;
        }
    }

    fn refresh(&mut self)
        requires
            old(self).wf(),
        ensures
            final(self)@ == old(self)@.refresh(),
    {
        self.king_state = match self.board.look_up_king_pos(self.turn) {
            None => KingState::Safe,
            Some(king_pos) => {
                if self.board.is_checkmated(self.turn) {
                    KingState::Checkmate(king_pos)
                } else if !self.board.is_safe_for(king_pos, self.turn) {
                    KingState::Check(king_pos)
                } else {
                    KingState::Safe
                }
            },
        };
    }

    /// Takes a click on `pos` for the human who is to move.
    pub fn click(&mut self, pos: Position)
        requires
            old(self).wf(),
        ensures
            final(self)@ == old(self)@.click(pos),
            final(self).wf(),
    {
        let from = match self.current_selected {
            None => {
                self.select(pos);
                return ;
            },
            Some(from) => from,
        };
        match self.board.move_piece(&mut self.turn, from, pos) {
            Ok(_) => {
                self.current_selected = None;
                self.legal_moves = Vec::new();
            },
            Err(err) => match err {
                BoardMoveError::NotYourTurn | BoardMoveError::Illegal => {
                    self.select(pos);
                },
                BoardMoveError::NoPieceOnCell => {},
            },
        }
        self.refresh();
    }

    /// Makes the move from `fr` to `to` that the computer has picked.
    pub fn reply(&mut self, fr: Position, to: Position)
        requires
            old(self).wf(),
        ensures
            final(self)@ == old(self)@.reply(fr, to),
            final(self).wf(),
    {
        match self.board.move_piece(&mut self.turn, fr, to) {
            Ok(_) => {
                self.refresh();
            },
            Err(_) => {},
        }
    }

    /// Takes what the screen reports. After a checkmate nothing changes any
    /// more. Where a human is to move the click is theirs. Where the
    /// computer is to move, any click makes it move: it picks one of its
    /// legal moves at random, and where it has none nothing changes.
    pub fn update(&mut self, message: CellClickedEvent)
        requires
            old(self).wf(),
        ensures
            final(self).wf(),
            old(self)@.king is Checkmate ==> final(self)@ == old(self)@,
            !(old(self)@.king is Checkmate) && old(self)@.current_player() == Player::Human
                ==> final(self)@ == old(self)@.click(message->0),
            !(old(self)@.king is Checkmate) && old(self)@.current_player() == Player::Computer ==> {
                if immobile(old(self)@.board, old(self)@.turn) {
                    final(self)@ == old(self)@
                } else {
                    exists|fr: Position, to: Position|
                        #[trigger] legal_moves(old(self)@.board, fr, old(self)@.turn).contains(to)
                            && final(self)@ == old(self)@.reply(fr, to)
                }
            },
    {
        if let KingState::Checkmate(_) = self.king_state {
            return ;
        }
        match message {
            CellClickedEvent::Clicked(pos) => match self.current_player() {
                Player::Human => {
                    self.click(pos);
                },
                Player::Computer => {
                    let all_legal_moves = movable(&self.board, self.turn);
                    proof {
                        lemma_movable_iff_not_immobile(self.board@, self.turn);
                    }
                    if all_legal_moves.len() > 0 {
                        let (to, fr) = pick_legal_move(all_legal_moves);
                        self.reply(fr, to);
                    }
                },
            },
        }
    }
}

/// Whether the piece on a square has a legal move, as a predicate on squares.
pub open spec fn can_move(b: BoardView, turn: PieceColor) -> spec_fn(Position) -> bool {
    |p: Position| legal_moves(b, p, turn).len() > 0
}

/// The squares of the pieces of `turn` that have a legal move, in
/// rank-major order.
pub open spec fn movable_pieces(b: BoardView, turn: PieceColor) -> Seq<Position> {
    pieces_of(b, turn).filter(can_move(b, turn))
}

/// A side has a piece that can move exactly if it is not immobile.
pub proof fn lemma_movable_iff_not_immobile(b: BoardView, turn: PieceColor)
    requires
        b.cells.len() == 64,
    ensures
        movable_pieces(b, turn).len() == 0 <==> immobile(b, turn),
{
    let pieces = pieces_of(b, turn);
    let pred = can_move(b, turn);
    if movable_pieces(b, turn).len() > 0 {
        let p = movable_pieces(b, turn)[0];
        pieces.lemma_filter_pred(pred, 0);
        assert(pieces.filter(pred).contains(p));
        pieces.lemma_filter_contains_rev(pred, p);
        lemma_pieces_of_contains(b, turn, p);
        assert(legal_moves(b, p, turn).len() > 0);
    }
    if !immobile(b, turn) {
        let p = choose|p: Position|
            p.on_board() && b.has_color(p, turn) && (#[trigger] legal_moves(b, p, turn)).len() != 0;
        lemma_pieces_of_contains(b, turn, p);
        let k = choose|k: int| 0 <= k < pieces.len() && pieces[k] == p;
        assert(pred(pieces[k]));
        pieces.lemma_filter_contains(pred, k);
    }
}

/// The pieces of `turn` that have a legal move, each with its legal moves,
/// in rank-major order.
pub fn movable(board: &Board, turn: PieceColor) -> (all: Vec<(Position, Vec<Position>)>)
    requires
        board.wf(),
    ensures
        all@.len() == movable_pieces(board@, turn).len(),
        forall|k: int|
            0 <= k < all@.len() ==> {
                &&& (#[trigger] all@[k]).0 == movable_pieces(board@, turn)[k]
                &&& all@[k].1@ == legal_moves(board@, all@[k].0, turn)
            },
{
    let positions = board.get_all_pieces_pos_by_color(turn);
    let mut all: Vec<(Position, Vec<Position>)> = Vec::new();
    let ghost pred = can_move(board@, turn);
    let mut k: usize = 0;
    while k < positions.len()
        invariant
            k <= positions.len(),
            board.wf(),
            pred == can_move(board@, turn),
            positions@ == pieces_of(board@, turn),
            all@.len() == positions@.take(k as int).filter(pred).len(),
            forall|m: int|
                0 <= m < all@.len() ==> {
                    &&& (#[trigger] all@[m]).0 == positions@.take(k as int).filter(pred)[m]
                    &&& all@[m].1@ == legal_moves(board@, all@[m].0, turn)
                },
        decreases positions.len() - k,
    {
        let at = positions[k];
        let legal = get_legal_moves(at, board, &turn);
        proof {
            let head = positions@.take(k as int);
            assert(positions@.take(k + 1) =~= head.push(at));
            head.lemma_filter_push(at, pred);
        }
        if legal.len() > 0 {
            all.push((at, legal));
        }
        k += 1;
    }
    proof {
        assert(positions@.take(k as int) =~= positions@);
    }
    all
}

/// The move that two numbers pick in `legal_moves`: `piece` picks a piece
/// with its moves, and `choice` one of those moves. The destination comes
/// first in what is returned.
pub fn legal_move_at(legal_moves: &Vec<(Position, Vec<Position>)>, piece: usize, choice: usize) -> (picked:
    (Position, Position))
    requires
        piece < legal_moves@.len(),
        choice < legal_moves@[piece as int].1@.len(),
    ensures
        picked == (legal_moves@[piece as int].1@[choice as int], legal_moves@[piece as int].0),
{
    let fr = &legal_moves[piece];
    let to = fr.1[choice];
    let fr = fr.0;
    (to, fr)
}

/// One of the moves in `legal_moves`, picked at random: the one that
/// `legal_move_at` gives for a number drawn below the number of pieces and
/// a number drawn below the number of moves of the piece so picked.
pub fn pick_legal_move(legal_moves: Vec<(Position, Vec<Position>)>) -> (picked: (Position, Position))
    requires
        legal_moves@.len() > 0,
        forall|k: int| 0 <= k < legal_moves@.len() ==> (#[trigger] legal_moves@[k]).1@.len() > 0,
    ensures
        exists|k: int|
            0 <= k < legal_moves@.len() && (#[trigger] legal_moves@[k]).0 == picked.1
                && legal_moves@[k].1@.contains(picked.0),
{
    let fr_rand = random_below(legal_moves.len());
    let to_rand = random_below(legal_moves[fr_rand].1.len());
    legal_move_at(&legal_moves, fr_rand, to_rand)
}

/// The name under which the picture of what stands on `cell` is kept: the
/// colour, an underscore and the kind, in lower case; empty for an empty cell.
pub open spec fn piece_name(cell: Cell) -> Seq<char> {
    match cell {
        None => Seq::empty(),
        Some(piece) => (match piece.color {
            PieceColor::White => "white_"@,
            PieceColor::Black => "black_"@,
        }) + (match piece.kind {
            PieceKind::King => "king"@,
            PieceKind::Queen => "queen"@,
            PieceKind::Knight => "knight"@,
            PieceKind::Bishop => "bishop"@,
            PieceKind::Rook => "rook"@,
            PieceKind::Pawn => "pawn"@,
        }),
    }
}

/// The name under which the picture of what stands on `cell` is kept.
pub fn get_piece_str(cell: &Cell) -> (name: String)
    ensures
        name@ == piece_name(*cell),
{
    let mut piece_str = String::new();
    if let Some(piece) = cell {
        if piece.color == PieceColor::White {
            piece_str.append("white_");
        } else {
            piece_str.append("black_");
        }
        piece_str.append(
            match piece.kind {
                PieceKind::King => "king",
                PieceKind::Queen => "queen",
                PieceKind::Knight => "knight",
                PieceKind::Bishop => "bishop",
                PieceKind::Rook => "rook",
                PieceKind::Pawn => "pawn",
            },
        );
    }
    piece_str
}

} // verus!
