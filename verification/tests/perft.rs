use chess::board::pieces::moves::get_legal_moves;
use chess::board::pieces::PieceColor;
use chess::board::Board;

/// The number of ways to play `depth` plies from `board` with `turn` to move.
fn count(board: &Board, turn: PieceColor, depth: u32) -> u64 {
    if depth == 0 {
        return 1;
    }
    let mut total = 0;
    for fr in board.get_all_pieces_pos_by_color(turn) {
        let legal = get_legal_moves(fr, board, &turn);
        if depth == 1 {
            total += legal.len() as u64;
            continue;
        }
        for to in legal {
            let mut next = board.clone();
            let mut next_turn = turn;
            next.move_piece(&mut next_turn, fr, to).unwrap();
            total += count(&next, next_turn, depth - 1);
        }
    }
    total
}

#[test]
fn counts_from_the_opening_position() {
    let board = Board::default();
    assert_eq!(count(&board, PieceColor::White, 1), 20);
    assert_eq!(count(&board, PieceColor::White, 2), 400);
    assert_eq!(count(&board, PieceColor::White, 3), 8902);
    assert_eq!(count(&board, PieceColor::Black, 1), 20);
}

#[test]
fn counts_four_plies_from_the_opening_position() {
    assert_eq!(count(&Board::default(), PieceColor::White, 4), 197281);
}

#[test]
fn counts_with_castling_and_en_passant() {
    // Both sides may castle on both wings; en passant comes up at the third ply.
    let board =
        Board::from_fen("r3k2r/p1ppqpb1/bn2pnp1/3PN3/1p2P3/2N2Q1p/PPPBBPPP/R3K2R").unwrap();
    assert_eq!(count(&board, PieceColor::White, 1), 48);
    assert_eq!(count(&board, PieceColor::White, 2), 2039);
    assert_eq!(count(&board, PieceColor::White, 3), 97862);
}

#[test]
fn counts_in_an_endgame_with_pins_and_en_passant() {
    let board = Board::from_fen("8/2p5/3p4/KP5r/1R3p1k/8/4P1P1/8").unwrap();
    assert_eq!(count(&board, PieceColor::White, 1), 14);
    assert_eq!(count(&board, PieceColor::White, 2), 191);
    assert_eq!(count(&board, PieceColor::White, 3), 2812);
    assert_eq!(count(&board, PieceColor::White, 4), 43238);
}
