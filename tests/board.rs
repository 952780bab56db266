use chessforyou::board::Board;
use chessforyou::model::{Color, Piece, Position, FIRST_COLUMN, FIRST_ROW, LAST_COLUMN, LAST_ROW};

#[test]
fn should_create_board_correctly() {
    let board = Board::new();

    assert_eq!(Color::White, board.get_current());
    assert_eq!(Some(&Piece::Rook(Color::White)), board.get(Position::new(FIRST_ROW, 'a')));
    assert_eq!(Some(&Piece::Knight(Color::White)), board.get(Position::new(FIRST_ROW, 'b')));
    assert_eq!(Some(&Piece::Bishop(Color::White)), board.get(Position::new(FIRST_ROW, 'c')));
    assert_eq!(Some(&Piece::Queen(Color::White)), board.get(Position::new(FIRST_ROW, 'd')));
    assert_eq!(Some(&Piece::King(Color::White)), board.get(Position::new(FIRST_ROW, 'e')));
    assert_eq!(Some(&Piece::Bishop(Color::White)), board.get(Position::new(FIRST_ROW, 'f')));
    assert_eq!(Some(&Piece::Knight(Color::White)), board.get(Position::new(FIRST_ROW, 'g')));
    assert_eq!(Some(&Piece::Rook(Color::White)), board.get(Position::new(FIRST_ROW, 'h')));

    for column in FIRST_COLUMN..=LAST_COLUMN {
        assert_eq!(Some(&Piece::Pawn(Color::White)), board.get(Position::new(FIRST_ROW + 1, column)));
    }

    assert_eq!(Some(&Piece::Rook(Color::Black)), board.get(Position::new(LAST_ROW, 'a')));
    assert_eq!(Some(&Piece::Knight(Color::Black)), board.get(Position::new(LAST_ROW, 'b')));
    assert_eq!(Some(&Piece::Bishop(Color::Black)), board.get(Position::new(LAST_ROW, 'c')));
    assert_eq!(Some(&Piece::Queen(Color::Black)), board.get(Position::new(LAST_ROW, 'd')));
    assert_eq!(Some(&Piece::King(Color::Black)), board.get(Position::new(LAST_ROW, 'e')));
    assert_eq!(Some(&Piece::Bishop(Color::Black)), board.get(Position::new(LAST_ROW, 'f')));
    assert_eq!(Some(&Piece::Knight(Color::Black)), board.get(Position::new(LAST_ROW, 'g')));
    assert_eq!(Some(&Piece::Rook(Color::Black)), board.get(Position::new(LAST_ROW, 'h')));

    for column in FIRST_COLUMN..=LAST_COLUMN {
        assert_eq!(Some(&Piece::Pawn(Color::Black)), board.get(Position::new(LAST_ROW - 1, column)));
    }

    for row in FIRST_ROW + 2..=LAST_ROW - 2 {
        for column in FIRST_COLUMN..=LAST_COLUMN {
            assert!(board.is_empty(Position::new(row, column)));
        }
    }

    assert_eq!(None, board.get_en_passant_target());
}

#[test]
fn get_should_return_piece_from_its_position() {
    // set up
    let white_king_position = Position::new(1, 'e');

    // SUT
    let board = Board::new();

    let maybe_white_king = board.get(white_king_position);

    // assert
    assert_eq!(&Piece::King(Color::White), maybe_white_king.unwrap());
}

#[test]
fn get_should_return_none_if_position_is_empty() {
    // set up
    let empty_position = Position::new(3, 'e');

    // SUT
    let board = Board::new();

    let none = board.get(empty_position);

    // assert
    assert_eq!(None, none);
}

#[test]
fn is_empty_should_return_true_for_empty_position() {
    // set up
    let empty_position = Position::new(3, 'e');

    // SUT
    let board = Board::new();
    let is_empty = board.is_empty(empty_position);

    // assert
    assert!(is_empty);
}

#[test]
fn is_empty_should_return_false_for_nonempty_position() {
    // set up
    let empty_position = Position::new(1, 'e');

    // SUT
    let board = Board::new();
    let is_empty = board.is_empty(empty_position);

    // assert
    assert!(!is_empty);
}

#[test]
fn get_current_king_position_should_return_current_king_position() {
    // SUT
    let board = Board::new();
    let current_king_position = board.get_current_king_position();

    // assert
    assert_eq!(Position::new(1, 'e'), current_king_position);
}

#[test]
fn opponent_king_position_is_the_black_king_at_start() {
    let board = Board::new();
    assert_eq!(Position::new(8, 'e'), board.get_oppenent_king_position());
}

#[test]
fn get_pieces_lists_sixty_four_cells_rank_by_rank() {
    let board = Board::new();
    let cells = board.get_pieces();
    assert_eq!(64, cells.len());
    assert_eq!(Some(Piece::Rook(Color::White)), cells[0]);
    assert_eq!(Some(Piece::King(Color::White)), cells[4]);
    assert_eq!(None, cells[16]);
    assert_eq!(Some(Piece::Rook(Color::Black)), cells[63]);
}

#[test]
fn move_piece_relocates_and_passes_the_turn() {
    let board = Board::new();
    let board = board
        .move_piece(Position::new(2, 'e'), Position::new(4, 'e'), false, None)
        .unwrap();
    assert!(board.is_empty(Position::new(2, 'e')));
    assert_eq!(Some(&Piece::Pawn(Color::White)), board.get(Position::new(4, 'e')));
    assert_eq!(Color::Black, board.get_current());
    assert_eq!(Some(Position::new(4, 'e')), board.get_en_passant_target());
}

#[test]
fn move_piece_keeps_the_turn_when_asked() {
    let board = Board::new();
    let board = board
        .move_piece(Position::new(1, 'g'), Position::new(3, 'f'), true, None)
        .unwrap();
    assert_eq!(Color::White, board.get_current());
    assert_eq!(None, board.get_en_passant_target());
}

#[test]
fn moving_a_rook_ends_its_castling_right() {
    let board = Board::new();
    let board = board
        .move_piece(Position::new(1, 'h'), Position::new(3, 'h'), false, None)
        .unwrap();
    let rights = board.get_castling_rights();
    assert!(!rights.white_king_side);
    assert!(rights.white_queen_side);
    assert!(rights.black_king_side);
    assert!(rights.black_queen_side);
}

#[test]
fn initial_board_is_not_check() {
    let board = Board::new();
    assert!(!board.is_check());
}

#[test]
fn can_move_follows_the_side_to_move() {
    let board = Board::new();
    assert!(board.can_move(Position::new(2, 'e'), Position::new(4, 'e')));
    assert!(!board.can_move(Position::new(2, 'e'), Position::new(5, 'e')));
    assert!(!board.can_move(Position::new(7, 'e'), Position::new(5, 'e')));
    assert!(!board.can_move(Position::new(4, 'e'), Position::new(5, 'e')));
}

#[test]
fn board_is_drawn_rank_eight_first() {
    let board = Board::new();
    let empty = format!("{}\r\n", " ".repeat(24));
    let expected = format!(
        "  a  b  c  d  e  f  g  h \r\n8 RB HB BB QB KB BB HB RB\r\n7 PB PB PB PB PB PB PB PB\r\n6{}5{}4{}3{}2 PW PW PW PW PW PW PW PW\r\n1 RW HW BW QW KW BW HW RW\r\n",
        empty, empty, empty, empty
    );
    assert_eq!(expected, board.to_string());
    assert!(board.is_valid());
}

#[test]
fn move_piece_relocates_only_the_piece() {
    // a plain relocation: a king's two-file step does not bring a rook along
    let board = Board::new()
        .move_piece(Position::new(1, 'e'), Position::new(1, 'g'), false, None)
        .unwrap();
    assert_eq!(Some(&Piece::King(Color::White)), board.get(Position::new(1, 'g')));
    assert_eq!(Some(&Piece::Rook(Color::White)), board.get(Position::new(1, 'h')));
    assert_eq!(Some(&Piece::Bishop(Color::White)), board.get(Position::new(1, 'f')));
    assert!(board.is_empty(Position::new(1, 'e')));
}
