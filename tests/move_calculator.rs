use chessforyou::board::Board;
use chessforyou::model::{Color, Piece, Position, FIRST_COLUMN, LAST_COLUMN};
use chessforyou::move_calculator::{
    BishopMoveCalulator, KingMoveCalculator, KnightMoveCalculator, PawnMoveCalculator,
    QueenMoveCalculator, RookMoveCalculator,
};

#[test]
fn should_return_bishop_allowed_positions_when_only_moving_in_diagonal_is_allowed() {
    // set up
    let board = Board::new();
    let from = Position::new(2, 'd');
    let to = Position::new(4, 'd');
    let board = board.move_piece(from, to, false, None).unwrap();
    let from = Position::new(7, 'd');
    let to = Position::new(5, 'd');
    let board = board.move_piece(from, to, false, None).unwrap();

    let from = Position::new(1, 'c');

    // SUT
    let bishop_move_calculator = BishopMoveCalulator;
    let positions = bishop_move_calculator.calculate(&board, from);

    // asserts
    assert_eq!(5, positions.len());
    assert!(positions.contains(&Position::new(2, 'd')));
    assert!(positions.contains(&Position::new(3, 'e')));
    assert!(positions.contains(&Position::new(4, 'f')));
    assert!(positions.contains(&Position::new(5, 'g')));
    assert!(positions.contains(&Position::new(6, 'h')));
}

#[test]
fn should_return_bishop_allowed_positions_when_allowed_to_move_in_all_diagonals() {
    // set up
    let board = Board::new();
    let from = Position::new(2, 'd');
    let to = Position::new(4, 'd');
    let board = board.move_piece(from, to, false, None).unwrap();
    let from = Position::new(7, 'd');
    let to = Position::new(5, 'd');
    let board = board.move_piece(from, to, false, None).unwrap();
    let from = Position::new(1, 'c');
    let to = Position::new(4, 'f');
    let board = board.move_piece(from, to, false, None).unwrap();

    let from = Position::new(4, 'f');

    // SUT
    let bishop_move_calculator = BishopMoveCalulator;
    let positions = bishop_move_calculator.calculate(&board, from);

    // assert
    assert_eq!(9, positions.len());
    assert!(positions.contains(&Position::new(1, 'c')));
    assert!(positions.contains(&Position::new(2, 'd')));
    assert!(positions.contains(&Position::new(3, 'e')));
    assert!(positions.contains(&Position::new(5, 'g')));
    assert!(positions.contains(&Position::new(6, 'h')));
    assert!(positions.contains(&Position::new(3, 'g')));
    assert!(positions.contains(&Position::new(5, 'e')));
    assert!(positions.contains(&Position::new(6, 'd')));
    assert!(positions.contains(&Position::new(7, 'c')));
}

#[test]
fn should_return_pawn_allowed_positions_from_new_board() {
    // set up
    let board = Board::new();
    let from = Position::new(2, 'b');

    // SUT
    let pawn_move_calculator = PawnMoveCalculator {};
    let positions = pawn_move_calculator.calculate(&board, from);

    // assert
    assert_eq!(2, positions.len());
    assert!(positions.contains(&Position::new(3, 'b')));
    assert!(positions.contains(&Position::new(4, 'b')));
}

#[test]
fn should_return_pawn_allowed_positions_from_first_column_new_board() {
    // set up
    let board = Board::new();
    let from = Position::new(2, FIRST_COLUMN);

    // SUT
    let pawn_move_calculator = PawnMoveCalculator {};
    let positions = pawn_move_calculator.calculate(&board, from);

    // assert
    assert_eq!(2, positions.len());
    assert!(positions.contains(&Position::new(3, FIRST_COLUMN)));
    assert!(positions.contains(&Position::new(4, FIRST_COLUMN)));
}

#[test]
fn should_return_pawn_allowed_positions_from_last_column_new_board() {
    // set up
    let board = Board::new();
    let from = Position::new(2, LAST_COLUMN);

    // SUT
    let pawn_move_calculator = PawnMoveCalculator {};
    let positions = pawn_move_calculator.calculate(&board, from);

    // assert
    assert_eq!(2, positions.len());
    assert!(positions.contains(&Position::new(3, LAST_COLUMN)));
    assert!(positions.contains(&Position::new(4, LAST_COLUMN)));
}

#[test]
fn should_return_pawn_allowed_positions_with_en_passant() {
    // set up
    let board = Board::new();
    let from = Position::new(2, 'a');
    let to = Position::new(5, 'a');
    let board = board.move_piece(from, to, false, None).unwrap();
    let from = Position::new(7, 'b');
    let to = Position::new(5, 'b');
    let board = board.move_piece(from, to, false, None).unwrap();

    let from = Position::new(5, 'a');

    // SUT
    let pawn_move_calculator = PawnMoveCalculator {};
    let positions = pawn_move_calculator.calculate(&board, from);

    // assert
    assert_eq!(2, positions.len());
    assert!(positions.contains(&Position::new(6, 'a')));
    assert!(positions.contains(&Position::new(6, 'b')));
}

#[test]
fn pawn_off_its_home_rank_steps_only_once() {
    let board = Board::new()
        .move_piece(Position::new(2, 'e'), Position::new(3, 'e'), true, None)
        .unwrap();
    let positions = PawnMoveCalculator.calculate(&board, Position::new(3, 'e'));
    assert_eq!(vec![Position::new(4, 'e')], positions);
}

#[test]
fn black_pawn_moves_down() {
    let board = Board::new();
    let positions = PawnMoveCalculator.calculate(&board, Position::new(7, 'd'));
    assert_eq!(2, positions.len());
    assert!(positions.contains(&Position::new(6, 'd')));
    assert!(positions.contains(&Position::new(5, 'd')));
}

#[test]
fn knight_jumps_from_the_starting_square() {
    let board = Board::new();
    let positions = KnightMoveCalculator.calculate(&board, Position::new(1, 'b'));
    assert_eq!(2, positions.len());
    assert!(positions.contains(&Position::new(3, 'a')));
    assert!(positions.contains(&Position::new(3, 'c')));
}

#[test]
fn blocked_pieces_have_no_moves_at_start() {
    let board = Board::new();
    assert!(RookMoveCalculator.calculate(&board, Position::new(1, 'a')).is_empty());
    assert!(QueenMoveCalculator.calculate(&board, Position::new(1, 'd')).is_empty());
    assert!(KingMoveCalculator.calculate(&board, Position::new(1, 'e')).is_empty());
}

#[test]
fn rook_slides_until_it_captures() {
    let board = Board::new()
        .move_piece(Position::new(2, 'a'), Position::new(6, 'b'), true, None)
        .unwrap();
    let positions = RookMoveCalculator.calculate(&board, Position::new(1, 'a'));
    assert_eq!(6, positions.len());
    assert!(positions.contains(&Position::new(2, 'a')));
    assert!(positions.contains(&Position::new(6, 'a')));
    assert!(positions.contains(&Position::new(7, 'a')));
    assert!(!positions.contains(&Position::new(8, 'a')));
}

#[test]
fn king_never_steps_next_to_the_other_king() {
    let board = Board::new()
        .move_piece(Position::new(1, 'e'), Position::new(4, 'e'), true, None)
        .unwrap()
        .move_piece(Position::new(8, 'e'), Position::new(6, 'e'), true, None)
        .unwrap();
    let positions = KingMoveCalculator.calculate(&board, Position::new(4, 'e'));
    assert_eq!(5, positions.len());
    assert!(!positions.contains(&Position::new(5, 'e')));
    assert!(!positions.contains(&Position::new(5, 'd')));
    assert!(!positions.contains(&Position::new(5, 'f')));
    assert!(positions.contains(&Position::new(3, 'e')));
    assert!(positions.contains(&Position::new(4, 'd')));
}

#[test]
fn queen_combines_rook_and_bishop_moves() {
    let board = Board::new()
        .move_piece(Position::new(1, 'd'), Position::new(4, 'd'), true, None)
        .unwrap();
    let positions = QueenMoveCalculator.calculate(&board, Position::new(4, 'd'));
    assert!(positions.contains(&Position::new(4, 'a')));
    assert!(positions.contains(&Position::new(4, 'h')));
    assert!(positions.contains(&Position::new(7, 'd')));
    assert!(!positions.contains(&Position::new(8, 'd')));
    assert!(positions.contains(&Position::new(7, 'a')));
    assert!(positions.contains(&Position::new(7, 'g')));
    assert!(positions.contains(&Position::new(3, 'c')));
    assert!(!positions.contains(&Position::new(2, 'c')));
    assert_eq!(Some(&Piece::Queen(Color::White)), board.get(Position::new(4, 'd')));
}
