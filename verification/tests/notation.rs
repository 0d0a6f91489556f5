use rschess::{idx_to_sq, sq_to_idx, Color, Move, Piece, PieceType, SpecialMoveType};
use rschess::errors::{InvalidFenError, InvalidUciError};
use rschess::fen::Fen;
use rschess::rgb::Rgb;

#[test]
fn uci_parsing_and_rendering() {
    let m = Move::from_uci("e2e4").unwrap();
    assert_eq!(m, Move(12, 28, Some(SpecialMoveType::Unclear)));
    assert_eq!(m.to_uci(), "e2e4");
    assert_eq!(m.from_square(), ('e', '2'));
    assert_eq!(m.to_square(), ('e', '4'));
    let p = Move::from_uci("d7d8q").unwrap();
    assert_eq!(p, Move(51, 59, Some(SpecialMoveType::Promotion(PieceType::Q))));
    assert_eq!(p.to_uci(), "d7d8q");
    assert_eq!(p.special_move_type(), Some(SpecialMoveType::Promotion(PieceType::Q)));
    assert_eq!(Move::from_uci("e2"), Err(InvalidUciError::Length));
    assert_eq!(Move::from_uci("z2e4"), Err(InvalidUciError::InvalidSquareName('z', '2')));
    assert_eq!(Move::from_uci("e2e9"), Err(InvalidUciError::InvalidSquareName('e', '9')));
    assert_eq!(Move::from_uci("d7d8k"), Err(InvalidUciError::InvalidPieceType('k')));
    assert_eq!(Move::from_uci("d7d8x"), Err(InvalidUciError::InvalidPieceType('x')));
}

#[test]
fn square_name_conversions() {
    assert_eq!(sq_to_idx('a', '1').unwrap(), 0);
    assert_eq!(sq_to_idx('g', '7').unwrap(), 54);
    assert_eq!(sq_to_idx('h', '8').unwrap(), 63);
    assert_eq!(sq_to_idx('h', '1').unwrap(), 7);
    assert_eq!(sq_to_idx('a', '8').unwrap(), 56);
    assert!(sq_to_idx('i', '1').is_err());
    assert!(sq_to_idx('a', '9').is_err());
    assert_eq!(idx_to_sq(0).unwrap(), ('a', '1'));
    assert_eq!(idx_to_sq(63).unwrap(), ('h', '8'));
    assert!(idx_to_sq(64).is_err());
    for idx in 0..64usize {
        let (f, r) = idx_to_sq(idx).unwrap();
        assert_eq!(sq_to_idx(f, r).unwrap(), idx);
    }
}

#[test]
fn piece_characters() {
    assert_eq!(Piece::try_from_char('K').unwrap(), Piece(PieceType::K, Color::White));
    assert_eq!(Piece::try_from_char('q').unwrap(), Piece(PieceType::Q, Color::Black));
    assert!(Piece::try_from_char('x').is_err());
    assert_eq!(Piece(PieceType::N, Color::Black).to_char(), 'n');
    assert_eq!(Piece(PieceType::R, Color::White).to_char(), 'R');
    assert_eq!(PieceType::try_from_char('B').unwrap(), PieceType::B);
    assert_eq!(PieceType::Q.to_char(), 'Q');
    assert_eq!(PieceType::Q.to_char_lower(), 'q');
    assert_eq!(Piece(PieceType::P, Color::White).piece_type(), PieceType::P);
    assert_eq!(Piece(PieceType::P, Color::White).color(), Color::White);
}

#[test]
fn colors() {
    assert!(Color::White.is_white());
    assert!(!Color::White.is_black());
    assert!(Color::Black.is_black());
    assert_eq!(Color::White.other(), Color::Black);
    assert_eq!(Color::White.to_char(), 'w');
    assert_eq!(Color::try_from_str("w").unwrap(), Color::White);
    assert_eq!(Color::try_from_str("b").unwrap(), Color::Black);
    assert!(Color::try_from_str("x").is_err());
}

#[test]
fn shredder_style_castling_letters() {
    // Once a second rook stands on the queenside, the plain 'Q' would be
    // ambiguous, so the right's rook is named by its file letter.
    let mut board = rschess::Board::from_fen(
        Fen::parse("1k6/8/8/8/8/8/R7/R3K3 w Q - 0 1").unwrap(),
    );
    board.make_move_uci("a2b2").unwrap();
    board.make_move_uci("b8c8").unwrap();
    board.make_move_uci("b2b1").unwrap();
    assert_eq!(board.to_fen().to_fen_string(), "2k5/8/8/8/8/8/8/RR2K3 b A - 3 2");
}

#[test]
fn ep_target_round_trip() {
    let fen = Fen::parse("1k6/8/1K6/2Pp4/8/8/8/8 w - d6 0 2").unwrap();
    assert_eq!(fen.to_fen_string(), "1k6/8/1K6/2Pp4/8/8/8/8 w - d6 0 2");
    assert_eq!(
        Fen::parse("1k6/8/1K6/2Pp4/8/8/8/8 w - d9 0 2"),
        Err(InvalidFenError::EnPassantTargetSquare)
    );
}

#[test]
fn rgb_colors() {
    assert_eq!(Rgb::new(1, 2, 3).values(), (1, 2, 3));
    assert_eq!(Rgb::from_hex("#f3f3f4").unwrap(), Rgb(0xf3, 0xf3, 0xf4));
    assert_eq!(Rgb::from_hex("639a59").unwrap(), Rgb(0x63, 0x9a, 0x59));
    assert_eq!(Rgb::from_hex("#2D313D").unwrap(), Rgb(0x2d, 0x31, 0x3d));
    assert!(Rgb::from_hex("#12345").is_err());
    assert!(Rgb::from_hex("12345g").is_err());
}

#[test]
fn pawn_capture_and_en_passant_san() {
    let mut board = rschess::Board::default();
    board.make_move_san("e4").unwrap();
    board.make_move_san("d5").unwrap();
    let m = board.san_to_move("exd5").unwrap();
    assert_eq!(board.move_to_san(m).unwrap(), "exd5");
    assert_eq!(m.to_uci(), "e4d5");
    let board = rschess::Board::from_fen(Fen::parse("1k6/8/1K6/2Pp4/8/8/8/8 w - d6 0 2").unwrap());
    let ep = Move::from_uci("c5d6").unwrap();
    assert_eq!(board.move_to_san(ep).unwrap(), "cxd6");
}

#[test]
fn promotion_san_spells_the_piece() {
    let board = rschess::Board::from_fen(Fen::parse("k7/3P4/K7/8/8/8/8/8 w - - 0 1").unwrap());
    let m = Move::from_uci("d7d8n").unwrap();
    assert_eq!(board.move_to_san(m).unwrap(), "d8=N");
    let m = Move::from_uci("d7d8q").unwrap();
    assert_eq!(board.move_to_san(m).unwrap(), "d8=Q#");
}
