use chessforyou::allowed_movement::{legal_moves, AllPiecesAllowedMoveCalculator};
use chessforyou::board::Board;
use chessforyou::check_verifier::{create_check_verifier, CheckVerifier};
use chessforyou::model::{ChessError, Color, Piece, Position};
use chessforyou::movement::MovementExecutor;

fn sq(text: &str) -> Position {
    Position::from(text.to_string()).unwrap()
}

fn play(board: &Board, from: &str, to: &str) -> Board {
    MovementExecutor::new().execute(board, sq(from), sq(to), None).unwrap()
}

fn sorted_names(positions: &Vec<Position>) -> Vec<String> {
    let mut names: Vec<String> = positions.iter().map(|p| p.to_string()).collect();
    names.sort();
    names
}

#[test]
fn fresh_board_pawn_e2_has_e3_and_e4() {
    let board = Board::new();
    assert_eq!(vec!["e3", "e4"], sorted_names(&legal_moves(&board, sq("e2"))));
}

#[test]
fn fresh_board_knight_b1_has_a3_and_c3() {
    let board = Board::new();
    assert_eq!(vec!["a3", "c3"], sorted_names(&legal_moves(&board, sq("b1"))));
}

#[test]
fn pawn_captures_only_where_an_opponent_stands() {
    let board = play(&Board::new(), "e2", "e4");
    assert_eq!(vec!["e5"], sorted_names(&legal_moves(&board, sq("e4"))));

    let board = play(&board, "d7", "d5");
    assert_eq!(vec!["d5", "e5"], sorted_names(&legal_moves(&board, sq("e4"))));

    let board = play(&board, "e4", "d5");
    assert_eq!(Some(&Piece::Pawn(Color::White)), board.get(sq("d5")));
    assert!(board.is_empty(sq("e4")));
    assert_eq!(Color::Black, board.get_current());
}

#[test]
fn fools_mate_is_checkmate() {
    let board = Board::new();
    let board = play(&board, "f2", "f3");
    let board = play(&board, "e7", "e5");
    let board = play(&board, "g2", "g4");
    let board = play(&board, "d8", "h4");

    assert_eq!(Color::White, board.get_current());
    assert!(AllPiecesAllowedMoveCalculator::new().is_check_mate_or_stale_mate(&board));
    assert!(create_check_verifier().is_check(&board));
}

#[test]
fn shortest_stalemate_is_terminal_without_check() {
    let moves = [
        ("e2", "e3"), ("a7", "a5"),
        ("d1", "h5"), ("a8", "a6"),
        ("h5", "a5"), ("h7", "h5"),
        ("h2", "h4"), ("a6", "h6"),
        ("a5", "c7"), ("f7", "f6"),
        ("c7", "d7"), ("e8", "f7"),
        ("d7", "b7"), ("d8", "d3"),
        ("b7", "b8"), ("d3", "h7"),
        ("b8", "c8"), ("f7", "g6"),
        ("c8", "e6"),
    ];
    let mut board = Board::new();
    for (from, to) in moves.iter() {
        board = play(&board, from, to);
    }

    assert_eq!(Color::Black, board.get_current());
    assert!(legal_moves(&board, sq("g6")).is_empty());
    assert!(!CheckVerifier::new().is_check(&board));
    assert!(AllPiecesAllowedMoveCalculator::new().is_check_mate_or_stale_mate(&board));
}

fn pawn_on_seventh() -> Board {
    // a white pawn that has taken its way to g7, White to move
    Board::new().move_piece(sq("g2"), sq("g7"), true, None).unwrap()
}

#[test]
fn promotion_without_a_piece_is_refused() {
    let board = pawn_on_seventh();
    let result = MovementExecutor::new().execute(&board, sq("g7"), sq("h8"), None);
    assert_eq!(Err(ChessError::PromotionRequired), result.map(|_| ()));
}

#[test]
fn promotion_to_a_queen_lands_a_queen() {
    let board = pawn_on_seventh();
    let board = MovementExecutor::new()
        .execute(&board, sq("g7"), sq("h8"), Some(Piece::Queen(Color::White)))
        .unwrap();
    assert_eq!(Some(&Piece::Queen(Color::White)), board.get(sq("h8")));
    assert!(board.is_empty(sq("g7")));
    assert_eq!(Color::Black, board.get_current());
}

#[test]
fn promotion_to_a_king_or_a_black_piece_is_refused() {
    let board = pawn_on_seventh();
    let executor = MovementExecutor::new();
    let result = executor.execute(&board, sq("g7"), sq("h8"), Some(Piece::King(Color::White)));
    assert_eq!(Err(ChessError::InvalidPromotion(Piece::King(Color::White))), result.map(|_| ()));
    let result = executor.execute(&board, sq("g7"), sq("f8"), Some(Piece::Rook(Color::Black)));
    assert_eq!(Err(ChessError::InvalidPromotion(Piece::Rook(Color::Black))), result.map(|_| ()));
}

#[test]
fn moves_that_are_not_legal_are_refused() {
    let board = Board::new();
    let executor = MovementExecutor::new();
    let result = executor.execute(&board, sq("e2"), sq("e5"), None);
    assert_eq!(
        Err(ChessError::MoveNotAllowed { from: sq("e2"), to: sq("e5") }),
        result.map(|_| ())
    );
    // Black may not move first
    let result = executor.execute(&board, sq("e7"), sq("e5"), None);
    assert_eq!(
        Err(ChessError::MoveNotAllowed { from: sq("e7"), to: sq("e5") }),
        result.map(|_| ())
    );
    // nothing stands on e4
    let result = executor.execute(&board, sq("e4"), sq("e5"), None);
    assert_eq!(
        Err(ChessError::MoveNotAllowed { from: sq("e4"), to: sq("e5") }),
        result.map(|_| ())
    );
}

#[test]
fn pinned_piece_may_not_expose_its_king() {
    let board = Board::new();
    let board = play(&board, "e2", "e4");
    let board = play(&board, "d7", "d6");
    let board = play(&board, "d2", "d4");
    let board = play(&board, "e8", "d7");
    let board = play(&board, "f1", "b5");
    // the bishop gives check along c6, which no knight move of g8 can block
    assert!(board.is_check());
    let moves = legal_moves(&board, sq("g8"));
    assert!(moves.is_empty());
}

#[test]
fn en_passant_capture_removes_the_passed_pawn() {
    let board = Board::new();
    let board = play(&board, "e2", "e4");
    let board = play(&board, "a7", "a6");
    let board = play(&board, "e4", "e5");
    let board = play(&board, "d7", "d5");
    assert_eq!(Some(sq("d5")), board.get_en_passant_target());
    assert!(legal_moves(&board, sq("e5")).contains(&sq("d6")));

    let board = play(&board, "e5", "d6");
    assert_eq!(Some(&Piece::Pawn(Color::White)), board.get(sq("d6")));
    assert!(board.is_empty(sq("d5")));
    assert!(board.is_empty(sq("e5")));
}

#[test]
fn castling_king_side_brings_the_rook() {
    let board = Board::new();
    let board = play(&board, "e2", "e4");
    let board = play(&board, "e7", "e5");
    let board = play(&board, "g1", "f3");
    let board = play(&board, "b8", "c6");
    let board = play(&board, "f1", "c4");
    let board = play(&board, "g8", "f6");
    let moves = legal_moves(&board, sq("e1"));
    assert_eq!(vec!["e2", "f1", "g1"], sorted_names(&moves));

    let board = play(&board, "e1", "g1");
    assert_eq!(Some(&Piece::King(Color::White)), board.get(sq("g1")));
    assert_eq!(Some(&Piece::Rook(Color::White)), board.get(sq("f1")));
    assert!(board.is_empty(sq("h1")));
    assert!(board.is_empty(sq("e1")));
    assert!(!board.get_castling_rights().white_king_side);
    assert!(!board.get_castling_rights().white_queen_side);
}

#[test]
fn castling_is_refused_after_the_king_has_moved() {
    let board = Board::new();
    let board = play(&board, "e2", "e4");
    let board = play(&board, "e7", "e5");
    let board = play(&board, "g1", "f3");
    let board = play(&board, "b8", "c6");
    let board = play(&board, "f1", "c4");
    let board = play(&board, "g8", "f6");
    let board = play(&board, "e1", "e2");
    let board = play(&board, "a7", "a6");
    let board = play(&board, "e2", "e1");
    let board = play(&board, "a6", "a5");
    assert!(!legal_moves(&board, sq("e1")).contains(&sq("g1")));
}

#[test]
fn castling_through_an_attacked_square_is_refused() {
    let board = Board::new();
    let board = play(&board, "g2", "g3");
    let board = play(&board, "b7", "b6");
    let board = play(&board, "f1", "g2");
    let board = play(&board, "c8", "a6");
    let board = play(&board, "g1", "f3");
    let board = play(&board, "e7", "e6");
    let board = play(&board, "e2", "e4");
    let board = play(&board, "b8", "c6");
    // the bishop on a6 watches f1, the square the king crosses
    assert!(board.get_castling_rights().white_king_side);
    assert!(!legal_moves(&board, sq("e1")).contains(&sq("g1")));
    assert!(!legal_moves(&board, sq("e1")).contains(&sq("f1")));
}

#[test]
fn all_pieces_are_listed_with_their_moves() {
    let board = Board::new();
    let calculator = AllPiecesAllowedMoveCalculator::new();
    let entries = calculator.calculate(&board);
    assert_eq!(32, entries.len());
    let total: usize = entries.iter().map(|e| e.1.len()).sum();
    // 20 moves for each side at the start
    assert_eq!(40, total);
    let ((piece, from), moves) = &entries[1];
    assert_eq!(Piece::Knight(Color::White), *piece);
    assert_eq!(sq("b1"), *from);
    assert_eq!(2, moves.len());
}

#[test]
fn allowed_positions_are_named_by_square() {
    let board = Board::new();
    let named = AllPiecesAllowedMoveCalculator::new().get_allowed_positions(&board);
    assert_eq!(32, named.len());
    let e2 = named.iter().find(|e| e.0 == "e2").unwrap();
    assert_eq!(vec!["e3", "e4"], sorted_names(&e2.1));
    let g8 = named.iter().find(|e| e.0 == "g8").unwrap();
    assert_eq!(vec!["f6", "h6"], sorted_names(&g8.1));
}

#[test]
fn initial_position_is_not_terminal() {
    let board = Board::new();
    assert!(!AllPiecesAllowedMoveCalculator::new().is_check_mate_or_stale_mate(&board));
}

fn occupied_squares(board: &Board) -> Vec<Position> {
    let mut squares = Vec::new();
    for row in 1..=8u8 {
        for column in 'a'..='h' {
            let square = Position::new(row, column);
            if !board.is_empty(square) {
                squares.push(square);
            }
        }
    }
    squares
}

#[test]
fn legal_moves_come_from_the_raw_generator() {
    let board = Board::new();
    let board = play(&board, "e2", "e4");
    let board = play(&board, "d7", "d5");
    let board = play(&board, "f1", "b5");
    for from in occupied_squares(&board) {
        let raw = chessforyou::move_calculator::piece_moves(&board, from);
        for to in legal_moves(&board, from) {
            assert!(raw.contains(&to), "{} to {}", from.to_string(), to.to_string());
        }
    }
}

#[test]
fn no_legal_move_leaves_the_own_king_in_check() {
    let board = Board::new();
    let board = play(&board, "e2", "e4");
    let board = play(&board, "d7", "d6");
    let board = play(&board, "d2", "d4");
    let board = play(&board, "e8", "d7");
    let board = play(&board, "f1", "b5");
    assert!(board.is_check());
    let mut count = 0;
    for from in occupied_squares(&board) {
        if board.get(from).unwrap().get_color() != board.get_current() {
            continue;
        }
        for to in legal_moves(&board, from) {
            let after = board.move_piece(from, to, true, None).unwrap();
            assert!(!after.is_check(), "{} to {}", from.to_string(), to.to_string());
            count += 1;
        }
    }
    // Black can block on c6 or move its king
    assert!(count > 0);
}

#[test]
fn move_lists_hold_each_square_once() {
    let board = Board::new();
    let board = play(&board, "e2", "e4");
    let board = play(&board, "d7", "d5");
    let board = play(&board, "d1", "g4");
    let board = play(&board, "c8", "g4");
    for from in occupied_squares(&board) {
        let raw = chessforyou::move_calculator::piece_moves(&board, from);
        let mut names = sorted_names(&raw);
        names.dedup();
        assert_eq!(names.len(), raw.len());
        let legal = legal_moves(&board, from);
        let mut names = sorted_names(&legal);
        names.dedup();
        assert_eq!(names.len(), legal.len());
    }
    let named = AllPiecesAllowedMoveCalculator::new().get_allowed_positions(&board);
    let mut keys: Vec<String> = named.iter().map(|e| e.0.clone()).collect();
    keys.sort();
    keys.dedup();
    assert_eq!(keys.len(), named.len());
}

#[test]
fn castling_takes_the_first_rook_met() {
    // a second white rook on f1 and no knight on g1; the king-side right still holds
    let board = Board::new()
        .move_piece(sq("a1"), sq("f1"), true, None)
        .unwrap()
        .move_piece(sq("g1"), sq("h3"), true, None)
        .unwrap();
    assert!(board.get_castling_rights().white_king_side);
    assert!(legal_moves(&board, sq("e1")).contains(&sq("g1")));

    let board = play(&board, "e1", "g1");
    assert_eq!(Some(&Piece::King(Color::White)), board.get(sq("g1")));
    assert_eq!(Some(&Piece::Rook(Color::White)), board.get(sq("f1")));
    assert_eq!(Some(&Piece::Rook(Color::White)), board.get(sq("h1")));
    assert!(board.is_empty(sq("e1")));
}

#[test]
fn castling_stops_at_a_piece_that_is_not_a_rook() {
    // the bishop on f1 blocks; the knight left g1
    let board = Board::new().move_piece(sq("g1"), sq("h3"), true, None).unwrap();
    assert!(!legal_moves(&board, sq("e1")).contains(&sq("g1")));
}
