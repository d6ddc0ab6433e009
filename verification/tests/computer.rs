use chess::board::pieces::moves::get_legal_moves;
use chess::board::pieces::{Piece, PieceColor, PieceKind};
use chess::board::position::Position;
use chess::board::Board;
use chess::computer::{
    extract_legal_moves, get_capturing_moves, get_safe_moves, move_at, pick_random_move,
    preferred, ComputerEngine,
};

const W: PieceColor = PieceColor::White;
const B: PieceColor = PieceColor::Black;

fn at(i: i8, j: i8) -> Position {
    Position::new(i, j)
}

fn piece(kind: PieceKind, color: PieceColor) -> Option<Piece> {
    Some(Piece::new(kind, color))
}

#[test]
fn all_legal_moves_piece_by_piece() {
    let board = Board::default();
    let all = extract_legal_moves(&board, W);
    assert_eq!(all.len(), 20);
    assert_eq!(all[0], (at(0, 1), at(2, 2)));
    assert_eq!(all[1], (at(0, 1), at(2, 0)));
    assert_eq!(all[2], (at(0, 6), at(2, 7)));
    assert_eq!(all[3], (at(0, 6), at(2, 5)));
    assert_eq!(all[4], (at(1, 0), at(2, 0)));
    assert_eq!(all[5], (at(1, 0), at(3, 0)));
    for (fr, to) in &all {
        assert!(get_legal_moves(*fr, &board, &W).contains(to));
    }
    assert_eq!(extract_legal_moves(&Board::new(vec![]), W), vec![]);
}

#[test]
fn captures_worth_making() {
    // The white rook may take a protected pawn (a bad trade), an
    // unprotected knight, and a protected queen (a good trade).
    let board = Board::new(vec![
        (at(3, 3), piece(PieceKind::Rook, W)),
        (at(3, 6), piece(PieceKind::Pawn, B)),
        (at(4, 7), piece(PieceKind::Pawn, B)),
        (at(6, 3), piece(PieceKind::Knight, B)),
        (at(3, 0), piece(PieceKind::Queen, B)),
        (at(4, 1), piece(PieceKind::Pawn, B)),
    ]);
    let legal = extract_legal_moves(&board, W);
    let capturing = get_capturing_moves(&board, W, &legal);
    assert_eq!(capturing, vec![(at(3, 3), at(6, 3)), (at(3, 3), at(3, 0))]);
    assert_eq!(preferred(&board, W), capturing);
    for _ in 0..20 {
        let m = ComputerEngine.pick_move(&board, W);
        assert!(capturing.contains(&m));
    }
}

#[test]
fn the_king_takes_whatever_it_may() {
    let board = Board::new(vec![
        (at(0, 0), piece(PieceKind::King, W)),
        (at(1, 1), piece(PieceKind::Pawn, B)),
        (at(7, 7), piece(PieceKind::King, B)),
    ]);
    let legal = extract_legal_moves(&board, W);
    assert_eq!(get_capturing_moves(&board, W, &legal), vec![(at(0, 0), at(1, 1))]);
}

#[test]
fn safe_moves_leave_the_king_out() {
    let board = Board::new(vec![
        (at(0, 0), piece(PieceKind::King, W)),
        (at(1, 7), piece(PieceKind::Knight, W)),
        (at(7, 6), piece(PieceKind::Rook, B)),
        (at(7, 0), piece(PieceKind::King, B)),
    ]);
    let legal = extract_legal_moves(&board, W);
    // The knight may go to (3,6), where the rook takes it, to (0,5) or to (2,5).
    let safe = get_safe_moves(&board, W, &legal);
    assert_eq!(safe, vec![(at(1, 7), at(2, 5)), (at(1, 7), at(0, 5))]);
    assert!(get_capturing_moves(&board, W, &legal).is_empty());
    assert_eq!(preferred(&board, W), safe);
    for _ in 0..20 {
        assert!(safe.contains(&ComputerEngine.pick_move(&board, W)));
    }
}

#[test]
fn with_nothing_to_prefer_any_legal_move_is_picked() {
    let board = Board::new(vec![
        (at(0, 0), piece(PieceKind::King, W)),
        (at(7, 7), piece(PieceKind::King, B)),
    ]);
    let legal = extract_legal_moves(&board, W);
    assert_eq!(legal, vec![(at(0, 0), at(0, 1)), (at(0, 0), at(1, 0)), (at(0, 0), at(1, 1))]);
    assert_eq!(preferred(&board, W), legal);
    let mut seen = [false; 3];
    for _ in 0..200 {
        let m = ComputerEngine.pick_move(&board, W);
        let k = legal.iter().position(|l| *l == m).unwrap();
        seen[k] = true;
    }
    // Each of the three comes up in 200 draws.
    assert_eq!(seen, [true; 3]);
}

#[test]
fn random_pick_is_one_of_the_moves() {
    let moves = vec![(at(0, 0), at(1, 1)), (at(2, 2), at(3, 3))];
    for _ in 0..50 {
        assert!(moves.contains(&pick_random_move(moves.clone())));
    }
    let one = vec![(at(4, 4), at(5, 5))];
    assert_eq!(pick_random_move(one), (at(4, 4), at(5, 5)));
}

#[test]
fn the_drawn_number_picks_the_move() {
    let moves = vec![(at(0, 0), at(1, 1)), (at(2, 2), at(3, 3)), (at(4, 4), at(5, 5))];
    assert_eq!(move_at(&moves, 0), (at(0, 0), at(1, 1)));
    assert_eq!(move_at(&moves, 1), (at(2, 2), at(3, 3)));
    assert_eq!(move_at(&moves, 2), (at(4, 4), at(5, 5)));
}
