use rschess::{Board, Color, DrawType, GameResult, Move, Piece, PieceType, WinType};
use rschess::cache::LegalMoveCache;
use rschess::errors::InvalidFenError;
use rschess::fen::Fen;

#[test]
fn starting_position_has_twenty_moves() {
    let board = Board::default();
    assert_eq!(board.gen_legal_moves().len(), 20);
    assert_eq!(board.gen_legal_moves().len(), 20);
    assert_eq!(board.position().gen_non_illegal_moves().len(), 20);
    assert_eq!(board.gen_legal_moves().len(), 20);
}

#[test]
fn fen_round_trip_positions() {
    for fen in [
        "rnbqkbnr/pppppppp/8/8/8/8/PPPPPPPP/RNBQKBNR w KQkq - 0 1",
        "6k1/8/6K1/6P1/8/8/8/8 w - - 0 1",
        "1k6/8/1K6/2Pp4/8/8/8/8 w - d6 0 2",
        "r3k2r/8/8/8/8/8/8/R3K2R w KQkq - 7 31",
    ] {
        let parsed = Fen::parse(fen).unwrap();
        let text = parsed.to_fen_string();
        let reparsed = Fen::parse(&text).unwrap();
        assert_eq!(parsed.position(), reparsed.position());
        assert_eq!(parsed.halfmove_clock(), reparsed.halfmove_clock());
        assert_eq!(parsed.fullmove_number(), reparsed.fullmove_number());
    }
}

#[test]
fn king_and_knight_versus_king_is_insufficient() {
    let board = Board::from_fen(Fen::parse("k1N5/8/1K6/8/8/8/8/8 w - - 0 1").unwrap());
    assert!(board.is_insufficient_material());
    assert!(!board.is_sufficient_material());
    assert!(!board.is_ongoing());
    assert_eq!(board.game_result(), Some(GameResult::Draw(DrawType::InsufficientMaterial)));
}

#[test]
fn queen_sortie_gives_no_check() {
    let mut board = Board::default();
    board.make_move_san("e4").unwrap();
    board.make_move_san("e5").unwrap();
    board.make_move_san("Qh5").unwrap();
    assert_eq!(board.checked_side(), None);
    assert!(!board.is_check());
}

#[test]
fn knight_moves_disambiguate_with_file() {
    let mut board = Board::default();
    board.make_move_san("Nc3").unwrap();
    board.make_move_san("Nc6").unwrap();
    board.make_move_san("e3").unwrap();
    board.make_move_san("e6").unwrap();
    let m = board.san_to_move("Nge2").unwrap();
    let san = board.move_to_san(m).unwrap();
    assert_eq!(san, "Nge2");
    assert!(board.san_to_move("Ne2").is_err());
}

#[test]
fn halfmove_clock_resets_on_pawn_moves_and_captures() {
    let mut board =
        Board::from_fen(Fen::parse("rnbqkbnr/pppppppp/8/8/8/8/PPPPPPPP/RNBQKBNR w KQkq - 3 5").unwrap());
    assert_eq!(board.halfmove_clock(), 3);
    board.make_move_san("Nf3").unwrap();
    assert_eq!(board.halfmove_clock(), 4);
    board.make_move_san("d5").unwrap();
    assert_eq!(board.halfmove_clock(), 0);
    board.make_move_san("Ne5").unwrap();
    assert_eq!(board.halfmove_clock(), 1);
    board.make_move_san("Nd7").unwrap();
    assert_eq!(board.halfmove_clock(), 2);
    board.make_move_san("Nxd7").unwrap();
    assert_eq!(board.halfmove_clock(), 0);
}

#[test]
fn seventy_five_move_rule_ends_immediately() {
    let board = Board::from_fen(Fen::parse("6k1/8/6K1/6P1/8/8/8/8 w - - 150 80").unwrap());
    assert!(!board.is_ongoing());
    assert!(board.is_game_over());
    assert!(board.is_seventy_five_move_rule());
    assert_eq!(board.gen_legal_moves(), []);
    assert_eq!(board.game_result(), Some(GameResult::Draw(DrawType::SeventyFiveMoveRule)));
}

#[test]
fn fullmove_number_increments_after_black() {
    let mut board = Board::default();
    assert_eq!(board.fullmove_number(), 1);
    board.make_move_san("e4").unwrap();
    assert_eq!(board.fullmove_number(), 1);
    board.make_move_san("e5").unwrap();
    assert_eq!(board.fullmove_number(), 2);
}

#[test]
fn threefold_repetition_is_advisory() {
    let mut board = Board::default();
    for _ in 0..2 {
        board.make_move_san("Nf3").unwrap();
        board.make_move_san("Nf6").unwrap();
        board.make_move_san("Ng1").unwrap();
        board.make_move_san("Ng8").unwrap();
    }
    assert!(!board.is_threefold_repetition());
    board.make_move_san("Nf3").unwrap();
    board.make_move_san("Nf6").unwrap();
    board.make_move_san("Ng1").unwrap();
    board.make_move_san("Ng8").unwrap();
    assert!(board.is_threefold_repetition());
    assert!(!board.is_fivefold_repetition());
    assert!(board.is_ongoing());
}

#[test]
fn fivefold_repetition_ends_the_game() {
    let mut board = Board::default();
    for _ in 0..5 {
        board.make_move_san("Nf3").unwrap();
        board.make_move_san("Nf6").unwrap();
        board.make_move_san("Ng1").unwrap();
        board.make_move_san("Ng8").unwrap();
    }
    assert!(board.is_fivefold_repetition());
    assert!(board.is_game_over());
    assert_eq!(board.game_result(), Some(GameResult::Draw(DrawType::FivefoldRepetition)));
}

#[test]
fn resignation_and_agreement() {
    let mut board = Board::default();
    assert_eq!(board.resigned_side(), None);
    board.resign(Color::White).unwrap();
    assert_eq!(board.resigned_side(), Some(Color::White));
    assert!(board.is_game_over());
    assert_eq!(board.game_result(), Some(GameResult::Wins(Color::Black, WinType::Resignation)));
    assert!(board.resign(Color::Black).is_err());
    assert!(board.agree_draw().is_err());

    let mut board = Board::default();
    assert!(!board.draw_agreed());
    board.agree_draw().unwrap();
    assert!(board.draw_agreed());
    assert_eq!(board.game_result(), Some(GameResult::Draw(DrawType::Agreement)));
}

#[test]
fn en_passant_capture_removes_the_pawn() {
    let mut board = Board::from_fen(Fen::parse("1k6/8/1K6/2Pp4/8/8/8/8 w - d6 0 2").unwrap());
    assert!(board.position().is_capture(Move::from_uci("c5d6").unwrap()).unwrap());
    board.make_move_uci("c5d6").unwrap();
    assert_eq!(board.occupant_of_square('d', '5').unwrap(), None);
    assert_eq!(
        board.occupant_of_square('d', '6').unwrap(),
        Some(Piece(PieceType::P, Color::White))
    );
}

#[test]
fn promotion_changes_the_piece() {
    let mut board = Board::from_fen(Fen::parse("k7/3P4/K7/8/8/8/8/8 w - - 0 1").unwrap());
    board.make_move_uci("d7d8q").unwrap();
    assert_eq!(
        board.occupant_of_square('d', '8').unwrap(),
        Some(Piece(PieceType::Q, Color::White))
    );
    assert_eq!(board.to_fen().to_fen_string(), "k2Q4/8/K7/8/8/8/8/8 b - - 0 1");
}

#[test]
fn castling_moves_king_and_rook() {
    let mut board = Board::from_fen(Fen::parse("8/8/8/8/8/2b1kb2/3R4/4K2R w K - 0 1").unwrap());
    board.make_move_san("O-O").unwrap();
    assert_eq!(
        board.occupant_of_square('g', '1').unwrap(),
        Some(Piece(PieceType::K, Color::White))
    );
    assert_eq!(
        board.occupant_of_square('f', '1').unwrap(),
        Some(Piece(PieceType::R, Color::White))
    );
}

#[test]
fn movetext_of_a_short_game() {
    let mut board = Board::default();
    board.make_move_san("e4").unwrap();
    board.make_move_san("e5").unwrap();
    board.make_move_san("Nf3").unwrap();
    assert_eq!(board.gen_movetext(), "1. e4 e5 2. Nf3");
}

#[test]
fn legal_move_cache_agrees_with_generation() {
    let mut cache = LegalMoveCache::new(4);
    let board = Board::default();
    let direct = board.position().gen_non_illegal_moves();
    let cached = cache.legal_moves_cached(board.position());
    assert_eq!(direct, cached);
    let again = cache.legal_moves_cached(board.position());
    assert_eq!(direct, again);
    let other = Board::from_fen(Fen::parse("k1N5/8/1K6/8/8/8/8/8 w - - 0 1").unwrap());
    let other_moves = cache.legal_moves_cached(other.position());
    assert_eq!(other_moves, other.position().gen_non_illegal_moves());
}

#[test]
fn fen_error_variants() {
    assert_eq!(Fen::parse("what"), Err(InvalidFenError::SixFields));
    assert_eq!(
        Fen::parse("rnbqkbnr/pppppppp/8/8/8/8/PPPPPPPP w KQkq - 0 1"),
        Err(InvalidFenError::BoardData)
    );
    assert_eq!(
        Fen::parse("rnbqkbnr/pppppxpp/8/8/8/8/PPPPPPPP/RNBQKBNR w KQkq - 0 1"),
        Err(InvalidFenError::BoardData)
    );
    assert_eq!(
        Fen::parse("rnbkkbnr/pppppppp/8/8/8/8/PPPPPPPP/RNBQKBNR w KQkq - 0 1"),
        Err(InvalidFenError::BoardData)
    );
    assert_eq!(
        Fen::parse("rnbqkbnr/pppppppp/8/8/8/8/PPPPPPPP/RNBQKBNR lol KQkq - 0 1"),
        Err(InvalidFenError::ActiveColor)
    );
    assert_eq!(
        Fen::parse("rnbqkbnr/pppppppp/8/8/8/8/PPPPPPPP/RNBQKBNR b ros - 0 1"),
        Err(InvalidFenError::CastlingRights)
    );
    assert_eq!(
        Fen::parse("rnbqkbnr/pppppppp/8/8/8/8/PPPPPPPP/RNBQKBNR b KKqk - 0 1"),
        Err(InvalidFenError::CastlingRights)
    );
    assert_eq!(
        Fen::parse("rnbqkbnr/pppppppp/8/8/8/8/PPPPPPPP/RNBQKBNR b KQkq c5 0 1"),
        Err(InvalidFenError::EnPassantTargetSquare)
    );
    assert_eq!(
        Fen::parse("rnbqkbnr/pppppppp/8/8/8/8/PPPPPPPP/RNBQKBNR b KQkq - 151 1"),
        Err(InvalidFenError::HalfmoveClock)
    );
    assert_eq!(
        Fen::parse("rnbqkbnr/pppppppp/8/8/8/8/PPPPPPPP/RNBQKBNR b KQkq - 0.1 1"),
        Err(InvalidFenError::HalfmoveClock)
    );
    assert_eq!(
        Fen::parse("rnbqkbnr/pppppppp/8/8/8/8/PPPPPPPP/RNBQKBNR b KQkq - 150 0"),
        Err(InvalidFenError::FullmoveNumber)
    );
    assert_eq!(
        Fen::parse("rnbqkbnr/pppppppp/8/8/8/8/PPPPPPPP/RNBQKBNR b KQkq - 150 bro"),
        Err(InvalidFenError::FullmoveNumber)
    );
    assert_eq!(
        Fen::parse("k5rb/8/8/4P3/3p4/8/8/K5BR w KQkq - 0 1"),
        Err(InvalidFenError::CastlingRights)
    );
    assert_eq!(
        Fen::parse("6k1/8/6K1/6P1/8/8/8/6p1 w - - 0 1"),
        Err(InvalidFenError::BoardData)
    );
}

#[test]
fn default_matches_standard_starting_fen() {
    let board = Board::default();
    let parsed = Board::from_fen(
        Fen::parse("rnbqkbnr/pppppppp/8/8/8/8/PPPPPPPP/RNBQKBNR w KQkq - 0 1").unwrap(),
    );
    assert_eq!(board.position(), parsed.position());
    assert_eq!(
        board.to_fen().to_fen_string(),
        "rnbqkbnr/pppppppp/8/8/8/8/PPPPPPPP/RNBQKBNR w KQkq - 0 1"
    );
}
