use chess::board::pieces::moves::{
    get_legal_moves, get_legal_moves_unchecked, get_move_kind, is_safe_to_move, move_force,
    try_move, MoveKind,
};
use chess::board::pieces::{Piece, PieceColor, PieceKind};
use chess::board::position::Position;
use chess::board::{Board, BoardMoveError};

const W: PieceColor = PieceColor::White;
const B: PieceColor = PieceColor::Black;

fn at(i: i8, j: i8) -> Position {
    Position::new(i, j)
}

fn piece(kind: PieceKind, color: PieceColor) -> Option<Piece> {
    Some(Piece::new(kind, color))
}

fn moved(kind: PieceKind, color: PieceColor) -> Option<Piece> {
    Some(Piece { kind, color, moved: true })
}

fn opening() -> Board {
    Board::default()
}

#[test]
fn rook_rays_stop_at_blockers() {
    let board = Board::new(vec![
        (at(3, 3), piece(PieceKind::Rook, W)),
        (at(5, 3), piece(PieceKind::Pawn, W)),
        (at(3, 6), piece(PieceKind::Pawn, B)),
        (at(1, 3), piece(PieceKind::Knight, B)),
    ]);
    assert_eq!(
        get_legal_moves_unchecked(at(3, 3), &board),
        vec![
            // rank up: stops before the friendly pawn
            at(4, 3),
            // rank down: takes the enemy knight and stops
            at(2, 3),
            at(1, 3),
            // file up: takes the enemy pawn and stops
            at(3, 4),
            at(3, 5),
            at(3, 6),
            // file down: to the edge
            at(3, 2),
            at(3, 1),
            at(3, 0),
        ]
    );
}

#[test]
fn bishop_rays_in_the_four_diagonals() {
    let board = Board::new(vec![
        (at(2, 2), piece(PieceKind::Bishop, B)),
        (at(4, 4), piece(PieceKind::Pawn, W)),
        (at(1, 1), piece(PieceKind::Pawn, B)),
    ]);
    assert_eq!(
        get_legal_moves_unchecked(at(2, 2), &board),
        vec![at(3, 3), at(4, 4), at(3, 1), at(4, 0), at(1, 3), at(0, 4)]
    );
}

#[test]
fn queen_goes_vertical_then_horizontal_then_diagonal() {
    let board = Board::new(vec![(at(0, 0), piece(PieceKind::Queen, W))]);
    let mut expected = vec![];
    for i in 1..8 {
        expected.push(at(i, 0));
    }
    for j in 1..8 {
        expected.push(at(0, j));
    }
    for k in 1..8 {
        expected.push(at(k, k));
    }
    assert_eq!(get_legal_moves_unchecked(at(0, 0), &board), expected);
}

#[test]
fn knight_jumps_in_table_order() {
    let board = Board::new(vec![
        (at(4, 4), piece(PieceKind::Knight, W)),
        (at(6, 5), piece(PieceKind::Pawn, W)),
        (at(6, 3), piece(PieceKind::Pawn, B)),
    ]);
    assert_eq!(
        get_legal_moves_unchecked(at(4, 4), &board),
        vec![at(6, 3), at(2, 5), at(2, 3), at(5, 6), at(5, 2), at(3, 6), at(3, 2)]
    );
    let corner = Board::new(vec![(at(0, 0), piece(PieceKind::Knight, B))]);
    assert_eq!(get_legal_moves_unchecked(at(0, 0), &corner), vec![at(2, 1), at(1, 2)]);
}

#[test]
fn king_steps_in_table_order() {
    let board = Board::new(vec![
        (at(3, 3), moved(PieceKind::King, W)),
        (at(3, 4), piece(PieceKind::Pawn, W)),
        (at(4, 4), piece(PieceKind::Pawn, B)),
    ]);
    assert_eq!(
        get_legal_moves_unchecked(at(3, 3), &board),
        vec![at(3, 2), at(4, 3), at(2, 3), at(4, 4), at(4, 2), at(2, 4), at(2, 2)]
    );
}

#[test]
fn nothing_moves_from_an_empty_square_or_from_outside() {
    let board = opening();
    assert_eq!(get_legal_moves_unchecked(at(4, 4), &board), vec![]);
    assert_eq!(get_legal_moves_unchecked(at(-3, 4), &board), vec![]);
    assert_eq!(get_legal_moves_unchecked(at(8, 8), &board), vec![]);
    assert_eq!(get_legal_moves(at(4, 4), &board, &W), vec![]);
    assert_eq!(get_legal_moves(at(9, 0), &board, &B), vec![]);
}

#[test]
fn pawn_advances_and_captures() {
    let board = opening();
    assert_eq!(get_legal_moves_unchecked(at(1, 4), &board), vec![at(2, 4), at(3, 4)]);
    assert_eq!(get_legal_moves_unchecked(at(6, 4), &board), vec![at(5, 4), at(4, 4)]);

    let board = Board::new(vec![
        (at(1, 4), piece(PieceKind::Pawn, W)),
        (at(2, 5), piece(PieceKind::Knight, B)),
        (at(2, 3), piece(PieceKind::Knight, B)),
        (at(3, 4), piece(PieceKind::Knight, B)),
    ]);
    // One step only: the second square is taken; then the capture towards
    // the higher file, then the one towards the lower.
    assert_eq!(get_legal_moves_unchecked(at(1, 4), &board), vec![at(2, 4), at(2, 5), at(2, 3)]);

    let blocked = Board::new(vec![
        (at(1, 4), piece(PieceKind::Pawn, W)),
        (at(2, 4), piece(PieceKind::Knight, B)),
        (at(2, 5), piece(PieceKind::Knight, W)),
    ]);
    assert_eq!(get_legal_moves_unchecked(at(1, 4), &blocked), vec![]);
}

#[test]
fn pawn_double_step_needs_start_rank_and_unmoved() {
    let board = Board::new(vec![
        (at(2, 0), piece(PieceKind::Pawn, W)),
        (at(1, 1), moved(PieceKind::Pawn, W)),
        (at(6, 2), piece(PieceKind::Pawn, B)),
        (at(5, 3), piece(PieceKind::Pawn, B)),
    ]);
    assert_eq!(get_legal_moves_unchecked(at(2, 0), &board), vec![at(3, 0)]);
    assert_eq!(get_legal_moves_unchecked(at(1, 1), &board), vec![at(2, 1)]);
    assert_eq!(get_legal_moves_unchecked(at(6, 2), &board), vec![at(5, 2), at(4, 2)]);
    assert_eq!(get_legal_moves_unchecked(at(5, 3), &board), vec![at(4, 3)]);
}

#[test]
fn pawn_on_its_last_rank_has_no_move() {
    let board = Board::new(vec![
        (at(7, 3), piece(PieceKind::Pawn, W)),
        (at(0, 3), piece(PieceKind::Pawn, B)),
    ]);
    assert_eq!(get_legal_moves_unchecked(at(7, 3), &board), vec![]);
    assert_eq!(get_legal_moves_unchecked(at(0, 3), &board), vec![]);
}

#[test]
fn only_the_side_to_move_has_legal_moves() {
    let board = opening();
    assert_eq!(get_legal_moves(at(1, 4), &board, &B), vec![]);
    assert_eq!(get_legal_moves(at(6, 4), &board, &W), vec![]);
    assert_eq!(get_legal_moves(at(6, 4), &board, &B), vec![at(5, 4), at(4, 4)]);
}

#[test]
fn pinned_piece_may_not_leave_the_line() {
    // White king e1, white rook e2, black rook e8: the rook is pinned to the file.
    let board = Board::new(vec![
        (at(0, 4), moved(PieceKind::King, W)),
        (at(1, 4), moved(PieceKind::Rook, W)),
        (at(7, 4), piece(PieceKind::Rook, B)),
        (at(7, 0), piece(PieceKind::King, B)),
    ]);
    assert_eq!(
        get_legal_moves(at(1, 4), &board, &W),
        vec![at(2, 4), at(3, 4), at(4, 4), at(5, 4), at(6, 4), at(7, 4)]
    );
    assert_eq!(get_legal_moves_unchecked(at(1, 4), &board).len(), 13);
}

#[test]
fn king_may_not_step_into_attack() {
    let board = Board::new(vec![
        (at(0, 4), moved(PieceKind::King, W)),
        (at(7, 3), piece(PieceKind::Rook, B)),
        (at(7, 7), piece(PieceKind::King, B)),
    ]);
    assert_eq!(get_legal_moves(at(0, 4), &board, &W), vec![at(0, 5), at(1, 4), at(1, 5)]);
}

#[test]
fn a_check_must_be_answered() {
    // White king e1 in check from the rook on e8: the knight may only interpose.
    let board = Board::new(vec![
        (at(0, 4), moved(PieceKind::King, W)),
        (at(0, 2), piece(PieceKind::Knight, W)),
        (at(7, 4), piece(PieceKind::Rook, B)),
        (at(7, 7), piece(PieceKind::King, B)),
    ]);
    assert!(!board.is_king_safe(W));
    assert_eq!(get_legal_moves(at(0, 2), &board, &W), vec![at(1, 4)]);
    assert_eq!(
        get_legal_moves(at(0, 4), &board, &W),
        vec![at(0, 5), at(0, 3), at(1, 5), at(1, 3)]
    );
}

#[test]
fn move_kinds() {
    let king = Piece::new(PieceKind::King, W);
    let pawn = Piece::new(PieceKind::Pawn, W);
    let black_pawn = Piece::new(PieceKind::Pawn, B);
    let rook = Piece::new(PieceKind::Rook, B);
    assert_eq!(get_move_kind(&king, None, at(0, 4), at(0, 6)), MoveKind::Castle);
    assert_eq!(get_move_kind(&king, None, at(0, 4), at(0, 2)), MoveKind::Castle);
    assert_eq!(get_move_kind(&king, None, at(0, 4), at(0, 5)), MoveKind::Regular);
    assert_eq!(get_move_kind(&king, Some(&rook), at(0, 4), at(1, 4)), MoveKind::Regular);
    assert_eq!(get_move_kind(&pawn, None, at(6, 0), at(7, 0)), MoveKind::Promote);
    assert_eq!(get_move_kind(&pawn, Some(&rook), at(6, 0), at(7, 1)), MoveKind::Promote);
    assert_eq!(get_move_kind(&black_pawn, None, at(1, 0), at(0, 0)), MoveKind::Promote);
    assert_eq!(get_move_kind(&black_pawn, None, at(6, 0), at(7, 0)), MoveKind::Regular);
    assert_eq!(get_move_kind(&pawn, None, at(4, 3), at(5, 4)), MoveKind::EnPassant);
    assert_eq!(get_move_kind(&pawn, Some(&rook), at(4, 3), at(5, 4)), MoveKind::Regular);
    assert_eq!(get_move_kind(&pawn, None, at(1, 3), at(3, 3)), MoveKind::Regular);
    assert_eq!(get_move_kind(&rook, None, at(0, 0), at(0, 2)), MoveKind::Regular);
}

#[test]
fn trial_board_swaps_the_mover_only() {
    let board = Board::new(vec![
        (at(0, 4), piece(PieceKind::King, W)),
        (at(0, 7), piece(PieceKind::Rook, W)),
        (at(6, 0), piece(PieceKind::Pawn, W)),
    ]);
    let trial = try_move(&board, at(0, 4), at(0, 6));
    assert_eq!(trial.piece_on(at(0, 4)), None);
    assert_eq!(trial.piece_on(at(0, 6)), piece(PieceKind::King, W));
    assert_eq!(trial.piece_on(at(0, 7)), piece(PieceKind::Rook, W));
    let trial = try_move(&board, at(6, 0), at(7, 0));
    assert_eq!(trial.piece_on(at(7, 0)), piece(PieceKind::Pawn, W));
    assert_eq!(try_move(&board, at(3, 3), at(4, 4)), board);
}

#[test]
fn regular_move_marks_the_piece() {
    let mut board = opening();
    move_force(&mut board, at(0, 1), at(2, 2));
    assert_eq!(board.piece_on(at(0, 1)), None);
    assert_eq!(board.piece_on(at(2, 2)), moved(PieceKind::Knight, W));
    assert_eq!(board.passant(), None);
    move_force(&mut board, at(1, 4), at(3, 4));
    assert_eq!(board.piece_on(at(3, 4)), moved(PieceKind::Pawn, W));
    assert_eq!(board.passant(), Some(at(3, 4)));
}

#[test]
fn promotion_gives_a_queen_whatever_stood_there() {
    let layout = vec![
        (at(6, 0), moved(PieceKind::Pawn, W)),
        (at(7, 1), piece(PieceKind::Rook, B)),
        (at(1, 7), moved(PieceKind::Pawn, B)),
        (at(0, 6), piece(PieceKind::Knight, W)),
        (at(0, 0), piece(PieceKind::King, W)),
        (at(7, 7), piece(PieceKind::King, B)),
    ];
    // Straight onto an empty square.
    let mut board = Board::new(layout.clone());
    let mut turn = W;
    assert_eq!(get_legal_moves(at(6, 0), &board, &W), vec![at(7, 0), at(7, 1)]);
    board.move_piece(&mut turn, at(6, 0), at(7, 0)).unwrap();
    assert_eq!(board.piece_on(at(7, 0)), piece(PieceKind::Queen, W));
    assert_eq!(board.piece_on(at(6, 0)), None);
    // With a capture.
    let mut board = Board::new(layout.clone());
    let mut turn = W;
    board.move_piece(&mut turn, at(6, 0), at(7, 1)).unwrap();
    assert_eq!(board.piece_on(at(7, 1)), piece(PieceKind::Queen, W));
    // Black is promoted on rank 0.
    let mut board = Board::new(layout.clone());
    let mut turn = B;
    board.move_piece(&mut turn, at(1, 7), at(0, 6)).unwrap();
    assert_eq!(board.piece_on(at(0, 6)), piece(PieceKind::Queen, B));
    let mut board = Board::new(layout);
    let mut turn = B;
    board.move_piece(&mut turn, at(1, 7), at(0, 7)).unwrap();
    assert_eq!(board.piece_on(at(0, 7)), piece(PieceKind::Queen, B));
    assert_eq!(board.piece_on(at(1, 7)), None);
}

#[test]
fn castling_kingside_scenario() {
    // Only a white king on e1 and a white rook on h1.
    let mut board = Board::new(vec![
        (at(0, 4), piece(PieceKind::King, W)),
        (at(0, 7), piece(PieceKind::Rook, W)),
    ]);
    let legal = get_legal_moves(at(0, 4), &board, &W);
    assert!(legal.contains(&at(0, 6)));
    assert_eq!(legal, vec![at(0, 5), at(0, 3), at(1, 4), at(1, 5), at(1, 3), at(0, 6)]);
    let mut turn = W;
    board.move_piece(&mut turn, at(0, 4), at(0, 6)).unwrap();
    assert_eq!(board.piece_on(at(0, 6)), moved(PieceKind::King, W));
    assert_eq!(board.piece_on(at(0, 5)), moved(PieceKind::Rook, W));
    assert_eq!(board.piece_on(at(0, 4)), None);
    assert_eq!(board.piece_on(at(0, 7)), None);
    assert_eq!(turn, B);
}

#[test]
fn castling_queenside_and_both_sides_for_black() {
    let mut board = Board::from_fen("r3k2r/8/8/8/8/8/8/R3K2R").unwrap();
    assert_eq!(
        get_legal_moves(at(0, 4), &board, &W),
        vec![at(0, 5), at(0, 3), at(1, 4), at(1, 5), at(1, 3), at(0, 6), at(0, 2)]
    );
    assert_eq!(
        get_legal_moves(at(7, 4), &board, &B),
        vec![at(7, 5), at(7, 3), at(6, 4), at(6, 5), at(6, 3), at(7, 6), at(7, 2)]
    );
    let mut turn = W;
    board.move_piece(&mut turn, at(0, 4), at(0, 2)).unwrap();
    assert_eq!(board.piece_on(at(0, 2)), moved(PieceKind::King, W));
    assert_eq!(board.piece_on(at(0, 3)), moved(PieceKind::Rook, W));
    assert_eq!(board.piece_on(at(0, 0)), None);
    assert_eq!(board.piece_on(at(0, 4)), None);
    assert_eq!(board.piece_on(at(0, 7)), piece(PieceKind::Rook, W));
    board.move_piece(&mut turn, at(7, 4), at(7, 6)).unwrap();
    assert_eq!(board.piece_on(at(7, 6)), moved(PieceKind::King, B));
    assert_eq!(board.piece_on(at(7, 5)), moved(PieceKind::Rook, B));
    assert_eq!(board.piece_on(at(7, 7)), None);
}

#[test]
fn no_castling_once_king_or_rook_has_moved() {
    let board = Board::new(vec![
        (at(0, 4), moved(PieceKind::King, W)),
        (at(0, 7), piece(PieceKind::Rook, W)),
        (at(0, 0), piece(PieceKind::Rook, W)),
    ]);
    let legal = get_legal_moves(at(0, 4), &board, &W);
    assert!(!legal.contains(&at(0, 6)) && !legal.contains(&at(0, 2)));
    let board = Board::new(vec![
        (at(0, 4), piece(PieceKind::King, W)),
        (at(0, 7), moved(PieceKind::Rook, W)),
        (at(0, 0), piece(PieceKind::Rook, W)),
    ]);
    let legal = get_legal_moves(at(0, 4), &board, &W);
    assert!(!legal.contains(&at(0, 6)));
    assert!(legal.contains(&at(0, 2)));
}

#[test]
fn no_castling_with_a_piece_between_or_without_a_rook_of_ones_own() {
    let board = Board::from_fen("8/8/8/8/8/8/8/RN2K1NR").unwrap();
    assert_eq!(get_legal_moves_unchecked(at(0, 4), &board).len(), 5);
    // A knight in the corner does not castle, nor does an enemy rook.
    let board = Board::from_fen("8/8/8/8/8/8/8/r3K2N").unwrap();
    let pseudo = get_legal_moves_unchecked(at(0, 4), &board);
    assert!(!pseudo.contains(&at(0, 6)) && !pseudo.contains(&at(0, 2)));
}

#[test]
fn no_castling_out_of_check_or_across_an_attacked_square() {
    // In check from the rook on e8.
    let board = Board::from_fen("4r2k/8/8/8/8/8/8/R3K2R").unwrap();
    let legal = get_legal_moves(at(0, 4), &board, &W);
    assert!(!legal.contains(&at(0, 6)) && !legal.contains(&at(0, 2)));
    // f1 is attacked: no castling kingside; queenside is open.
    let board = Board::from_fen("5r1k/8/8/8/8/8/8/R3K2R").unwrap();
    let legal = get_legal_moves(at(0, 4), &board, &W);
    assert!(!legal.contains(&at(0, 5)) && !legal.contains(&at(0, 6)));
    assert!(legal.contains(&at(0, 2)));
    // g1 is attacked: the king would arrive in check.
    let board = Board::from_fen("6rk/8/8/8/8/8/8/R3K2R").unwrap();
    let legal = get_legal_moves(at(0, 4), &board, &W);
    assert!(legal.contains(&at(0, 5)));
    assert!(!legal.contains(&at(0, 6)));
    assert!(legal.contains(&at(0, 2)));
}

#[test]
fn castling_is_judged_on_the_kings_two_squares_only() {
    // Of the squares between king and rook only the one next to the king
    // and the one on which it arrives are asked about: b1, which the king
    // does not touch, may be attacked.
    let board = Board::from_fen("1r5k/8/8/8/8/8/8/R3K2R").unwrap();
    assert!(!board.is_safe_for(at(0, 1), W));
    let legal = get_legal_moves(at(0, 4), &board, &W);
    assert!(legal.contains(&at(0, 2)));
    // The square next to the king counts only as a move of the king: with
    // a friendly piece on it there is no castling at all.
    let board = Board::from_fen("7k/8/8/8/8/8/8/R2QK2R").unwrap();
    assert!(!get_legal_moves(at(0, 4), &board, &W).contains(&at(0, 2)));
}

#[test]
fn en_passant_scenario() {
    // White pawn (1,4) advances to (3,4); the black pawn on (3,3) may take on (2,4).
    let layout = vec![
        (at(1, 4), piece(PieceKind::Pawn, W)),
        (at(3, 3), moved(PieceKind::Pawn, B)),
        (at(6, 0), piece(PieceKind::Pawn, B)),
        (at(1, 0), piece(PieceKind::Pawn, W)),
        (at(0, 7), piece(PieceKind::King, W)),
        (at(7, 7), piece(PieceKind::King, B)),
    ];
    let mut board = Board::new(layout);
    let mut turn = W;
    board.move_piece(&mut turn, at(1, 4), at(3, 4)).unwrap();
    assert_eq!(board.passant(), Some(at(3, 4)));
    let legal = get_legal_moves(at(3, 3), &board, &B);
    assert_eq!(legal, vec![at(2, 3), at(2, 4)]);

    // Black takes: the white pawn is gone.
    let mut taken = board.clone();
    let mut taken_turn = turn;
    taken.move_piece(&mut taken_turn, at(3, 3), at(2, 4)).unwrap();
    assert_eq!(taken.piece_on(at(2, 4)), moved(PieceKind::Pawn, B));
    assert_eq!(taken.piece_on(at(3, 4)), None);
    assert_eq!(taken.piece_on(at(3, 3)), None);
    assert_eq!(taken.passant(), None);

    // Black plays something else, White too: the chance is gone.
    board.move_piece(&mut turn, at(6, 0), at(5, 0)).unwrap();
    assert_eq!(board.passant(), None);
    for p in board.get_all_pieces_pos_by_color(W) {
        if board.piece_on(p).unwrap().kind == PieceKind::Pawn {
            assert!(!get_legal_moves(p, &board, &W).contains(&at(2, 4)));
        }
    }
    board.move_piece(&mut turn, at(1, 0), at(2, 0)).unwrap();
    assert_eq!(get_legal_moves(at(3, 3), &board, &B), vec![at(2, 3)]);
}

#[test]
fn en_passant_for_white_and_a_new_target_replaces_the_old() {
    let mut board = Board::new(vec![
        (at(1, 0), piece(PieceKind::Pawn, W)),
        (at(4, 4), moved(PieceKind::Pawn, W)),
        (at(6, 5), piece(PieceKind::Pawn, B)),
        (at(6, 3), piece(PieceKind::Pawn, B)),
        (at(0, 7), piece(PieceKind::King, W)),
        (at(7, 7), piece(PieceKind::King, B)),
    ]);
    let mut turn = B;
    board.move_piece(&mut turn, at(6, 5), at(4, 5)).unwrap();
    assert_eq!(board.passant(), Some(at(4, 5)));
    assert_eq!(get_legal_moves(at(4, 4), &board, &W), vec![at(5, 4), at(5, 5)]);
    // White advances two ranks elsewhere: the target is now White's pawn.
    board.move_piece(&mut turn, at(1, 0), at(3, 0)).unwrap();
    assert_eq!(board.passant(), Some(at(3, 0)));
    board.move_piece(&mut turn, at(6, 3), at(4, 3)).unwrap();
    assert_eq!(board.passant(), Some(at(4, 3)));
    // Only the pawn that has just moved can be taken so.
    assert_eq!(get_legal_moves(at(4, 4), &board, &W), vec![at(5, 4), at(5, 3)]);
    board.move_piece(&mut turn, at(4, 4), at(5, 3)).unwrap();
    assert_eq!(board.piece_on(at(4, 3)), None);
    assert_eq!(board.piece_on(at(4, 5)), moved(PieceKind::Pawn, B));
    assert_eq!(board.piece_on(at(5, 3)), moved(PieceKind::Pawn, W));
    assert_eq!(board.passant(), None);
}

#[test]
fn en_passant_that_would_uncover_the_king_is_illegal() {
    // White king a5, white pawn e5, black pawn d7-d5, black rook h5: taking
    // en passant would clear the rank between rook and king.
    let mut board = Board::new(vec![
        (at(4, 0), moved(PieceKind::King, W)),
        (at(4, 4), moved(PieceKind::Pawn, W)),
        (at(6, 3), piece(PieceKind::Pawn, B)),
        (at(4, 7), moved(PieceKind::Rook, B)),
        (at(7, 7), moved(PieceKind::King, B)),
    ]);
    let mut turn = B;
    board.move_piece(&mut turn, at(6, 3), at(4, 3)).unwrap();
    assert_eq!(get_legal_moves_unchecked(at(4, 4), &board), vec![at(5, 4), at(5, 3)]);
    assert_eq!(get_legal_moves(at(4, 4), &board, &W), vec![at(5, 4)]);
    assert_eq!(board.move_piece(&mut turn, at(4, 4), at(5, 3)), Err(BoardMoveError::Illegal));
    // The board is as it was, target included.
    assert_eq!(board.passant(), Some(at(4, 3)));
    assert_eq!(board.piece_on(at(4, 3)), moved(PieceKind::Pawn, B));
}

#[test]
fn every_legal_move_leaves_the_movers_king_safe() {
    let positions = [
        "rnbqkbnr/pppppppp/8/8/8/8/PPPPPPPP/RNBQKBNR",
        "r3k2r/pppq1ppp/2npbn2/2b1p3/2B1P3/2NPBN2/PPPQ1PPP/R3K2R",
        "4r2k/8/8/8/8/8/4R3/R3K2R",
        "8/2p5/3p4/KP5r/1R3p1k/8/4P1P1/8",
        "rnb1kbnr/pppp1ppp/8/4p3/6Pq/5P2/PPPPP2P/RNBQKBNR",
        "r3k2r/8/8/8/8/8/8/R3K2R",
    ];
    for fen in positions {
        for color in [W, B] {
            let board = Board::from_fen(fen).unwrap();
            for fr in board.get_all_pieces_pos_by_color(color) {
                for to in get_legal_moves(fr, &board, &color) {
                    let mut after = board.clone();
                    let mut turn = color;
                    assert_eq!(after.move_piece(&mut turn, fr, to), Ok(()));
                    assert!(after.is_king_safe(color), "{fen}: {fr:?} -> {to:?}");
                    assert_eq!(turn, color.opposite());
                }
            }
        }
    }
}

#[test]
fn legal_moves_are_pseudo_legal_moves_in_their_order() {
    let board =
        Board::from_fen("r3k2r/pppq1ppp/2npbn2/2b1p3/2B1P3/2NPBN2/PPPQ1PPP/R3K2R").unwrap();
    for color in [W, B] {
        for fr in board.get_all_pieces_pos_by_color(color) {
            let pseudo = get_legal_moves_unchecked(fr, &board);
            let legal = get_legal_moves(fr, &board, &color);
            let mut rest = pseudo.iter();
            for to in &legal {
                assert!(rest.any(|p| p == to));
            }
        }
    }
}

#[test]
fn safe_to_move_means_unattacked_on_arrival() {
    let board = Board::new(vec![
        (at(0, 0), piece(PieceKind::Rook, W)),
        (at(7, 3), piece(PieceKind::Rook, B)),
        (at(3, 0), piece(PieceKind::Pawn, B)),
        (at(4, 1), piece(PieceKind::Pawn, B)),
    ]);
    assert!(!is_safe_to_move(at(0, 0), at(0, 3), &board, W));
    assert!(is_safe_to_move(at(0, 0), at(0, 2), &board, W));
    // Taking the pawn on a4 puts the rook where the pawn on b5 takes it.
    assert!(!is_safe_to_move(at(0, 0), at(3, 0), &board, W));
    assert!(is_safe_to_move(at(0, 0), at(2, 0), &board, W));
}

#[test]
fn with_two_kings_castling_may_uncover_the_first() {
    // The king that is looked up for White is the one on (1,7). The other
    // castles on rank 3, and its rook leaves the file on which it stood
    // between the black rook and the first king.
    let mut board = Board::new(vec![
        (at(1, 7), piece(PieceKind::King, W)),
        (at(3, 4), piece(PieceKind::King, W)),
        (at(3, 7), piece(PieceKind::Rook, W)),
        (at(5, 7), piece(PieceKind::Rook, B)),
    ]);
    assert_eq!(board.look_up_king_pos(W), Some(at(1, 7)));
    assert!(board.is_king_safe(W));
    assert!(get_legal_moves(at(3, 4), &board, &W).contains(&at(3, 6)));
    let mut turn = W;
    board.move_piece(&mut turn, at(3, 4), at(3, 6)).unwrap();
    assert_eq!(board.piece_on(at(3, 5)), moved(PieceKind::Rook, W));
    assert!(!board.is_king_safe(W));
}

#[test]
fn after_a_forced_move_the_board_answers_and_the_king_is_safe() {
    let positions = [
        "rnbqkbnr/pppppppp/8/8/8/8/PPPPPPPP/RNBQKBNR",
        "r3k2r/pppq1ppp/2npbn2/2b1p3/2B1P3/2NPBN2/PPPQ1PPP/R3K2R",
        "8/2p5/3p4/KP5r/1R3p1k/8/4P1P1/8",
    ];
    for fen in positions {
        for color in [W, B] {
            let board = Board::from_fen(fen).unwrap();
            for fr in board.get_all_pieces_pos_by_color(color) {
                for to in get_legal_moves(fr, &board, &color) {
                    let mut forced = board.clone();
                    move_force(&mut forced, fr, to);
                    assert!(forced.is_king_safe(color), "{fen}: {fr:?} -> {to:?}");
                    // The pieces stand as after the move that is asked for.
                    let mut asked = board.clone();
                    let mut turn = color;
                    asked.move_piece(&mut turn, fr, to).unwrap();
                    for p in 0..64 {
                        let q = at(p / 8, p % 8);
                        assert_eq!(forced.piece_on(q), asked.piece_on(q));
                    }
                    // The other side can be asked for its moves.
                    for p in forced.get_all_pieces_pos_by_color(color.opposite()) {
                        get_legal_moves(p, &forced, &color.opposite());
                    }
                }
            }
        }
    }
}

#[test]
fn a_forced_double_step_sets_the_target_and_move_piece_completes_it() {
    let mut board = opening();
    move_force(&mut board, at(1, 4), at(3, 4));
    assert_eq!(board.passant(), Some(at(3, 4)));
    // The next move that is asked for keeps the fresh target for its ply...
    let mut turn = B;
    board.move_piece(&mut turn, at(6, 0), at(5, 0)).unwrap();
    assert_eq!(board.passant(), Some(at(3, 4)));
    // ...and the one after it drops it.
    board.move_piece(&mut turn, at(1, 0), at(2, 0)).unwrap();
    assert_eq!(board.passant(), None);
}
