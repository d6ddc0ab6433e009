use chess::board::pieces::moves::get_legal_moves;
use chess::board::pieces::{Piece, PieceColor, PieceKind};
use chess::board::position::Position;
use chess::board::Board;

const W: PieceColor = PieceColor::White;
const B: PieceColor = PieceColor::Black;

fn at(i: i8, j: i8) -> Position {
    Position::new(i, j)
}

fn moved(kind: PieceKind, color: PieceColor) -> Option<Piece> {
    Some(Piece { kind, color, moved: true })
}

fn has_no_move(board: &Board, color: PieceColor) -> bool {
    board
        .get_all_pieces_pos_by_color(color)
        .into_iter()
        .all(|p| get_legal_moves(p, board, &color).is_empty())
}

#[test]
fn checkmate_is_check_without_a_legal_move() {
    // White king h1; black queen g2, guarded by the black king on f3.
    let board = Board::new(vec![
        (at(0, 7), moved(PieceKind::King, W)),
        (at(1, 6), moved(PieceKind::Queen, B)),
        (at(2, 5), moved(PieceKind::King, B)),
    ]);
    assert!(!board.is_king_safe(W));
    assert!(has_no_move(&board, W));
    assert!(board.is_checkmated(W));
    assert!(!board.is_checkmated(B));
    // The game is won for Black, not for White.
    assert!(board.is_checkmate_for(B));
    assert!(!board.is_checkmate_for(W));
}

#[test]
fn stalemate_is_no_checkmate() {
    // White king h1, not attacked, with no square to go to.
    let board = Board::new(vec![
        (at(0, 7), moved(PieceKind::King, W)),
        (at(1, 5), moved(PieceKind::Queen, B)),
        (at(7, 0), moved(PieceKind::King, B)),
    ]);
    assert!(board.is_king_safe(W));
    assert!(has_no_move(&board, W));
    assert!(!board.is_checkmated(W));
    assert!(!board.is_checkmate_for(B));
    assert!(!board.is_checkmate_for(W));
}

#[test]
fn check_with_a_way_out_is_no_checkmate() {
    let board = Board::new(vec![
        (at(0, 7), moved(PieceKind::King, W)),
        (at(1, 6), moved(PieceKind::Queen, B)),
        (at(7, 0), moved(PieceKind::King, B)),
    ]);
    assert!(!board.is_king_safe(W));
    // The queen is not guarded: the king takes it.
    assert_eq!(get_legal_moves(at(0, 7), &board, &W), vec![at(1, 6)]);
    assert!(!board.is_checkmated(W));
}

#[test]
fn a_piece_other_than_the_king_may_save_it() {
    // Back-rank check that only the rook can answer, by interposing.
    let board = Board::from_fen("7k/8/8/8/8/8/3R1PPP/r5K1").unwrap();
    assert!(!board.is_king_safe(W));
    assert!(get_legal_moves(at(0, 6), &board, &W).is_empty());
    assert_eq!(get_legal_moves(at(1, 3), &board, &W), vec![at(0, 3)]);
    assert!(!board.is_checkmated(W));
    // Without the rook it is mate.
    let board = Board::from_fen("7k/8/8/8/8/8/5PPP/r5K1").unwrap();
    assert!(board.is_checkmated(W));
    assert!(board.is_checkmate_for(B));
}

#[test]
fn fools_mate() {
    let board = Board::from_fen("rnb1kbnr/pppp1ppp/8/4p3/6Pq/5P2/PPPPP2P/RNBQKBNR").unwrap();
    assert!(board.is_checkmated(W));
    assert!(!board.is_checkmated(B));
    assert!(!Board::default().is_checkmated(W));
    assert!(!Board::default().is_checkmated(B));
}

#[test]
fn a_side_without_a_king_is_never_in_check() {
    let board = Board::new(vec![(at(3, 3), moved(PieceKind::Rook, B))]);
    assert!(board.is_king_safe(W));
    assert!(!board.is_checkmated(W));
    assert!(!board.is_checkmated(B));
}
