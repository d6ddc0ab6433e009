use chess::board::pieces::{Piece, PieceColor, PieceKind};
use chess::board::position::selector::BoardPositionSelector;
use chess::board::position::Position;
use chess::board::Board;

fn at(i: i8, j: i8) -> Position {
    Position::new(i, j)
}

fn piece(kind: PieceKind, color: PieceColor) -> Option<Piece> {
    Some(Piece::new(kind, color))
}

fn sample() -> Board {
    Board::new(vec![
        (at(3, 3), piece(PieceKind::Queen, PieceColor::White)),
        (at(6, 3), piece(PieceKind::Pawn, PieceColor::Black)),
        (at(1, 3), piece(PieceKind::Pawn, PieceColor::White)),
        (at(3, 1), piece(PieceKind::Pawn, PieceColor::Black)),
        (at(5, 5), piece(PieceKind::Pawn, PieceColor::White)),
        (at(1, 5), piece(PieceKind::Pawn, PieceColor::Black)),
    ])
}

#[test]
fn new_selector_has_selected_nothing() {
    let board = sample();
    let selector = BoardPositionSelector::new(&board, at(3, 3), PieceColor::White);
    assert_eq!(selector.build_positions(), vec![]);
}

#[test]
fn vertical_goes_up_then_down() {
    let board = sample();
    let mut selector = BoardPositionSelector::new(&board, at(3, 3), PieceColor::White);
    selector.vertical();
    assert_eq!(selector.build_positions(), vec![at(4, 3), at(5, 3), at(6, 3), at(2, 3)]);
}

#[test]
fn horizontal_goes_right_then_left() {
    let board = sample();
    let mut selector = BoardPositionSelector::new(&board, at(3, 3), PieceColor::White);
    selector.horizontal();
    assert_eq!(
        selector.build_positions(),
        vec![at(3, 4), at(3, 5), at(3, 6), at(3, 7), at(3, 2), at(3, 1)]
    );
}

#[test]
fn diagonal_goes_through_the_four_in_order() {
    let board = sample();
    let mut selector = BoardPositionSelector::new(&board, at(3, 3), PieceColor::White);
    selector.diagonal();
    assert_eq!(
        selector.build_positions(),
        vec![
            at(4, 4),
            at(2, 2),
            at(1, 1),
            at(0, 0),
            at(4, 2),
            at(5, 1),
            at(6, 0),
            at(2, 4),
            at(1, 5),
        ]
    );
}

#[test]
fn calls_chain_and_add_up() {
    let board = sample();
    let mut selector = BoardPositionSelector::new(&board, at(3, 3), PieceColor::White);
    selector.vertical().horizontal().diagonal();
    let all = selector.build_positions();
    assert_eq!(all.len(), 4 + 6 + 9);
    assert_eq!(all[0], at(4, 3));
    assert_eq!(all[4], at(3, 4));
    assert_eq!(all[10], at(4, 4));
}

#[test]
fn the_same_ray_looks_different_to_the_other_colour() {
    let board = sample();
    let mut selector = BoardPositionSelector::new(&board, at(3, 3), PieceColor::Black);
    selector.vertical();
    // Now the pawn on (6,3) is friendly and the one on (1,3) an enemy.
    assert_eq!(selector.build_positions(), vec![at(4, 3), at(5, 3), at(2, 3), at(1, 3)]);
}

#[test]
fn rays_from_a_corner() {
    let board = Board::new(vec![]);
    let mut selector = BoardPositionSelector::new(&board, at(7, 7), PieceColor::White);
    selector.vertical();
    assert_eq!(selector.build_positions().len(), 7);
    let mut selector = BoardPositionSelector::new(&board, at(7, 7), PieceColor::White);
    selector.diagonal();
    assert_eq!(
        selector.build_positions(),
        vec![at(6, 6), at(5, 5), at(4, 4), at(3, 3), at(2, 2), at(1, 1), at(0, 0)]
    );
}

#[test]
fn custom_judges_each_square_by_itself() {
    let board = sample();
    let mut selector = BoardPositionSelector::new(&board, at(3, 3), PieceColor::White);
    selector.custom(vec![
        at(1, 3),   // friendly: left out, and the walk goes on
        at(6, 3),   // enemy: taken, and the walk goes on
        at(8, 3),   // outside
        at(0, 0),   // empty
        at(-1, -1), // outside
        at(7, 7),   // empty
    ]);
    assert_eq!(selector.build_positions(), vec![at(6, 3), at(0, 0), at(7, 7)]);
}
