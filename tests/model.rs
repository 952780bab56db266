use chessforyou::model::{
    get_black_promotions, get_white_promotions, to_piece, ChessError, Color, Piece, Position,
};

#[test]
fn every_square_reads_back_from_its_notation() {
    for row in 1..=8u8 {
        for column in 'a'..='h' {
            let square = Position::new(row, column);
            let text = square.to_string();
            assert_eq!(2, text.len());
            assert_eq!(Ok(square), Position::from(text));
        }
    }
}

#[test]
fn square_notation_is_file_then_rank() {
    assert_eq!("e2", Position::new(2, 'e').to_string());
    assert_eq!("a8", Position::new(8, 'a').to_string());
    assert_eq!(Ok(Position::new(1, 'h')), Position::from("h1".to_string()));
}

#[test]
fn malformed_squares_are_refused() {
    for text in ["", "e", "e22", "i1", "e9", "e0", "2e", "E2", "é2"] {
        assert_eq!(Err(ChessError::InvalidPosition), Position::from(text.to_string()), "{}", text);
    }
}

#[test]
fn stepping_off_the_board_gives_none() {
    let a1 = Position::new(1, 'a');
    assert_eq!(None, a1.inc(-1, 0));
    assert_eq!(None, a1.inc(0, -1));
    assert_eq!(Some(Position::new(3, 'b')), a1.inc(2, 1));
    assert_eq!(None, Position::new(8, 'h').inc(1, 1));
    assert_eq!(None, a1.inc(100, 100));
}

#[test]
fn direction_of_a_move() {
    let e2 = Position::new(2, 'e');
    let e4 = Position::new(4, 'e');
    assert!(e2.move_upwards(e4));
    assert!(!e2.move_downwards(e4));
    assert!(e4.move_downwards(e2));
    assert_eq!(2, e2.row());
    assert_eq!('e', e2.column());
}

#[test]
fn opponent_swaps_colors() {
    assert_eq!(Color::Black, Color::White.opponent());
    assert_eq!(Color::White, Color::Black.opponent());
}

#[test]
fn piece_names_and_codes() {
    assert_eq!(Ok(Piece::King(Color::White)), to_piece("King".to_string(), Color::White));
    assert_eq!(Ok(Piece::Queen(Color::Black)), to_piece("Queen".to_string(), Color::Black));
    assert_eq!(Ok(Piece::Pawn(Color::White)), to_piece("Pawn".to_string(), Color::White));
    assert_eq!(Ok(Piece::Knight(Color::White)), to_piece("Knight".to_string(), Color::White));
    assert_eq!(Ok(Piece::Rook(Color::Black)), to_piece("Rook".to_string(), Color::Black));
    assert_eq!(Ok(Piece::Bishop(Color::White)), to_piece("Bishop".to_string(), Color::White));
    assert_eq!(Err(ChessError::InvalidPiece), to_piece("queen".to_string(), Color::White));
    assert_eq!(Err(ChessError::InvalidPiece), to_piece("".to_string(), Color::White));

    assert_eq!("HW", Piece::Knight(Color::White).to_string());
    assert_eq!("KB", Piece::King(Color::Black).to_string());
    assert_eq!("PW", Piece::Pawn(Color::White).to_string());
    assert!(Piece::Rook(Color::White).is_white());
    assert!(!Piece::Rook(Color::Black).is_white());
    assert_eq!(Color::Black, Piece::Bishop(Color::Black).get_color());
}

#[test]
fn promotion_choices() {
    assert_eq!(
        vec![
            Piece::Bishop(Color::White),
            Piece::Knight(Color::White),
            Piece::Queen(Color::White),
            Piece::Rook(Color::White)
        ],
        get_white_promotions()
    );
    assert_eq!(
        vec![
            Piece::Bishop(Color::Black),
            Piece::Knight(Color::Black),
            Piece::Queen(Color::Black),
            Piece::Rook(Color::Black)
        ],
        get_black_promotions()
    );
}

#[test]
fn validate_promotion_rules() {
    let pawn = Piece::Pawn(Color::Black);
    let a1 = Position::new(1, 'a');
    assert_eq!(Err(ChessError::PromotionRequired), pawn.validate_promotion(a1, None));
    assert_eq!(
        Ok(Piece::Knight(Color::Black)),
        pawn.validate_promotion(a1, Some(Piece::Knight(Color::Black)))
    );
    assert_eq!(
        Err(ChessError::InvalidPromotion(Piece::Pawn(Color::Black))),
        pawn.validate_promotion(a1, Some(Piece::Pawn(Color::Black)))
    );
    // not a promotion: the choice is ignored
    let a2 = Position::new(2, 'a');
    assert_eq!(Ok(pawn), pawn.validate_promotion(a2, Some(Piece::Queen(Color::Black))));
    assert_eq!(
        Ok(Piece::Rook(Color::White)),
        Piece::Rook(Color::White).validate_promotion(Position::new(8, 'a'), None)
    );
}

#[test]
fn double_step_leaves_an_en_passant_target() {
    let pawn = Piece::Pawn(Color::White);
    let e2 = Position::new(2, 'e');
    let e4 = Position::new(4, 'e');
    assert_eq!(Some(e4), pawn.get_en_passant(e2, e4));
    assert_eq!(None, pawn.get_en_passant(e2, Position::new(3, 'e')));
    assert_eq!(None, Piece::Rook(Color::White).get_en_passant(e2, e4));
    let black = Piece::Pawn(Color::Black);
    assert_eq!(
        Some(Position::new(5, 'd')),
        black.get_en_passant(Position::new(7, 'd'), Position::new(5, 'd'))
    );
}
