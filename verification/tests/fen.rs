use chess_mg::fen::is_whitespace;
use chess_mg::{Board, ChessMgError, Color, Kind, Square};

const START: &str = "rnbqkbnr/pppppppp/8/8/8/8/PPPPPPPP/RNBQKBNR w KQkq - 0 1";

fn refused(fen: &str) {
    match Board::from_fen(fen) {
        Err(ChessMgError::InvalidFEN(_)) => {}
        other => panic!("{fen:?} gave {other:?}"),
    }
}

#[test]
fn starting_fen_gives_the_starting_position() {
    assert_eq!(Board::from_fen(START), Ok(Board::default()));
}

#[test]
fn four_fields_are_enough_and_more_are_ignored() {
    let short = Board::from_fen("rnbqkbnr/pppppppp/8/8/8/8/PPPPPPPP/RNBQKBNR w KQkq -").unwrap();
    assert_eq!(short, Board::default());
    let long = Board::from_fen("rnbqkbnr/pppppppp/8/8/8/8/PPPPPPPP/RNBQKBNR w KQkq - x y z").unwrap();
    assert_eq!(long, Board::default());
    let spaced = Board::from_fen("  rnbqkbnr/pppppppp/8/8/8/8/PPPPPPPP/RNBQKBNR \t w   KQkq\n-  ").unwrap();
    assert_eq!(spaced, Board::default());
}

#[test]
fn fewer_than_four_fields_are_refused() {
    refused("");
    refused("   ");
    refused("8/8/8/8/8/8/8/8");
    refused("8/8/8/8/8/8/8/8 w");
    refused("8/8/8/8/8/8/8/8 w -");
    assert_eq!(
        Board::from_fen("8/8/8/8/8/8/8/8 w -"),
        Err(ChessMgError::InvalidFEN("Expected at least 4 fields".to_string()))
    );
}

#[test]
fn a_wrong_number_of_ranks_is_refused() {
    refused("8/8/8/8/8/8/8 w - -");
    refused("8/8/8/8/8/8/8/8/8 w - -");
    refused("8/8/8/8/8/8/8/8/ w - -");
    refused("/8/8/8/8/8/8/8 w - -");
    assert_eq!(
        Board::from_fen("8/8/8/8/8/8/8 w - -"),
        Err(ChessMgError::InvalidFEN("Expected 8 ranks".to_string()))
    );
}

#[test]
fn a_rank_that_does_not_sum_to_eight_is_refused() {
    refused("7/8/8/8/8/8/8/8 w - -");
    refused("8/8/8/8/8/8/8/7 w - -");
    refused("8/8/8/ppp/8/8/8/8 w - -");
    refused("p8/8/8/8/8/8/8/8 w - -");
    refused("8p/8/8/8/8/8/8/8 w - -");
    refused("44p/8/8/8/8/8/8/8 w - -");
    refused("ppppppppp/8/8/8/8/8/8/8 w - -");
    assert_eq!(
        Board::from_fen("7/8/8/8/8/8/8/8 w - -"),
        Err(ChessMgError::InvalidFEN("A rank did not fill 8 files".to_string()))
    );
    assert_eq!(
        Board::from_fen("8p/8/8/8/8/8/8/8 w - -"),
        Err(ChessMgError::InvalidFEN("Too many squares in rank".to_string()))
    );
}

#[test]
fn a_character_that_is_no_piece_is_refused() {
    refused("x7/8/8/8/8/8/8/8 w - -");
    refused("8/8/8/8/8/8/8/7? w - -");
    refused("08/8/8/8/8/8/8/8 w - -");
    refused("9/8/8/8/8/8/8/8 w - -");
    assert_eq!(
        Board::from_fen("x7/8/8/8/8/8/8/8 w - -"),
        Err(ChessMgError::InvalidFEN("Invalid piece char".to_string()))
    );
}

#[test]
fn an_unknown_side_to_move_is_refused() {
    refused("8/8/8/8/8/8/8/8 x - -");
    refused("8/8/8/8/8/8/8/8 W - -");
    refused("8/8/8/8/8/8/8/8 wb - -");
    assert_eq!(
        Board::from_fen("8/8/8/8/8/8/8/8 x - -"),
        Err(ChessMgError::InvalidFEN("Active color is invalid".to_string()))
    );
}

#[test]
fn an_en_passant_field_that_names_no_square_is_refused() {
    refused("8/8/8/8/8/8/8/8 w - e9");
    refused("8/8/8/8/8/8/8/8 w - e");
    refused("8/8/8/8/8/8/8/8 w - e33");
    refused("8/8/8/8/8/8/8/8 w - --");
    assert_eq!(
        Board::from_fen("8/8/8/8/8/8/8/8 w - zz"),
        Err(ChessMgError::InvalidFEN("En passant square is invalid".to_string()))
    );
}

#[test]
fn side_castling_and_en_passant_are_read() {
    let board = Board::from_fen("k7/8/8/8/4Pp2/8/8/K7 b Qk e3 0 1").unwrap();
    assert_eq!(board.to_move, Color::Black);
    assert!(!board.casteling_rights.white_kingside);
    assert!(board.casteling_rights.white_queenside);
    assert!(board.casteling_rights.black_kingside);
    assert!(!board.casteling_rights.black_queenside);
    assert_eq!(board.en_passant, Some(Square::E3));
    assert_eq!(board.white_pawn.bitboard.0, 1 << 28);
    assert_eq!(board.black_pawn.bitboard.0, 1 << 29);
    assert_eq!(board.white_king.bitboard.0, 1);
    assert_eq!(board.black_king.bitboard.0, 1 << 56);
    let other = Board::from_fen("k7/8/8/8/8/8/8/K7 w HAha - 0 1").unwrap();
    assert_eq!(other.casteling_rights, Board::zero().casteling_rights);
    assert_eq!(other.en_passant, None);
}

#[test]
fn every_piece_letter_is_read() {
    let board = Board::from_fen("pnbrqk2/PNBRQK2/8/8/8/8/8/8 w - -").unwrap();
    let expected = [
        (Kind::Pawn, Color::Black, Square::A8),
        (Kind::Knight, Color::Black, Square::B8),
        (Kind::Bishop, Color::Black, Square::C8),
        (Kind::Rook, Color::Black, Square::D8),
        (Kind::Queen, Color::Black, Square::E8),
        (Kind::King, Color::Black, Square::F8),
        (Kind::Pawn, Color::White, Square::A7),
        (Kind::Knight, Color::White, Square::B7),
        (Kind::Bishop, Color::White, Square::C7),
        (Kind::Rook, Color::White, Square::D7),
        (Kind::Queen, Color::White, Square::E7),
        (Kind::King, Color::White, Square::F7),
    ];
    for (kind, color, square) in expected {
        let piece = board.get_piece(square).unwrap();
        assert_eq!((piece.kind, piece.color), (kind, color));
        assert_eq!(board.bitboard_of(color, kind).0, 1u64 << square.to_u8());
    }
    assert!(board.get_piece(Square::G8).is_none());
}

#[test]
fn white_space_is_what_unicode_calls_white_space() {
    for c in [' ', '\t', '\n', '\r', '\u{0b}', '\u{0c}', '\u{85}', '\u{a0}', '\u{1680}', '\u{2003}', '\u{2028}', '\u{3000}'] {
        assert!(is_whitespace(c));
    }
    for c in ['a', '-', '/', '0', '\u{200b}', '\u{feff}'] {
        assert!(!is_whitespace(c));
    }
    for n in 0..0x3100u32 {
        if let Some(c) = char::from_u32(n) {
            assert_eq!(is_whitespace(c), c.is_whitespace());
        }
    }
}
