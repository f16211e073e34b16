use chess_mg::magic::Magics;
use chess_mg::{load_magics, Bitboard, Board, Color, Kind, Move, MoveGen, Piece, Square};

fn tables() -> Magics {
    load_magics().expect("a magic number for every square")
}

fn position(fen: &str) -> Board {
    Board::from_fen(fen).unwrap()
}

/// The legal move from `from` to `to` with the given promotion, played on `fen`.
fn play(fen: &str, from: Square, to: Square, promotion: Option<Kind>) -> (Move, Board) {
    let magics = tables();
    let board = position(fen);
    let mut generator = MoveGen::new(&board, &magics);
    generator.gen_legal_moves();
    let found: Vec<Move> = generator
        .get_legal_moves()
        .iter()
        .filter(|m| m.from == from && m.to == to && m.promoting_piece == promotion)
        .copied()
        .collect();
    assert_eq!(found.len(), 1);
    let mut after = board;
    after.do_move(&found[0]);
    (found[0], after)
}

#[test]
fn initial_pieces_stand_on_their_squares() {
    assert_eq!(Piece::create_initial(Kind::Pawn, Color::White).bitboard.0, 0xff00);
    assert_eq!(Piece::create_initial(Kind::Knight, Color::White).bitboard.0, 0x42);
    assert_eq!(Piece::create_initial(Kind::Bishop, Color::White).bitboard.0, 0x24);
    assert_eq!(Piece::create_initial(Kind::Rook, Color::White).bitboard.0, 0x81);
    assert_eq!(Piece::create_initial(Kind::Queen, Color::White).bitboard.0, 0x8);
    assert_eq!(Piece::create_initial(Kind::King, Color::White).bitboard.0, 0x10);
    assert_eq!(Piece::create_initial(Kind::Pawn, Color::Black).bitboard.0, 0x00ff_0000_0000_0000);
    assert_eq!(Piece::create_initial(Kind::Knight, Color::Black).bitboard.0, 0x4200_0000_0000_0000);
    assert_eq!(Piece::create_initial(Kind::Bishop, Color::Black).bitboard.0, 0x2400_0000_0000_0000);
    assert_eq!(Piece::create_initial(Kind::Rook, Color::Black).bitboard.0, 0x8100_0000_0000_0000);
    assert_eq!(Piece::create_initial(Kind::Queen, Color::Black).bitboard.0, 0x0800_0000_0000_0000);
    assert_eq!(Piece::create_initial(Kind::King, Color::Black).bitboard.0, 0x1000_0000_0000_0000);
    let piece = Piece::create_initial(Kind::Queen, Color::Black);
    assert_eq!((piece.kind, piece.color), (Kind::Queen, Color::Black));
    assert_eq!(Piece::empty(Kind::Rook, Color::White).bitboard.0, 0);
}

#[test]
fn figurines() {
    assert_eq!(Piece::create_initial(Kind::King, Color::White).get_char(), '♔');
    assert_eq!(Piece::create_initial(Kind::Queen, Color::White).get_char(), '♕');
    assert_eq!(Piece::create_initial(Kind::Rook, Color::White).get_char(), '♖');
    assert_eq!(Piece::create_initial(Kind::Bishop, Color::White).get_char(), '♗');
    assert_eq!(Piece::create_initial(Kind::Knight, Color::White).get_char(), '♘');
    assert_eq!(Piece::create_initial(Kind::Pawn, Color::White).get_char(), '♙');
    assert_eq!(Piece::create_initial(Kind::King, Color::Black).get_char(), '♚');
    assert_eq!(Piece::create_initial(Kind::Queen, Color::Black).get_char(), '♛');
    assert_eq!(Piece::create_initial(Kind::Rook, Color::Black).get_char(), '♜');
    assert_eq!(Piece::create_initial(Kind::Bishop, Color::Black).get_char(), '♝');
    assert_eq!(Piece::create_initial(Kind::Knight, Color::Black).get_char(), '♞');
    assert_eq!(Piece::create_initial(Kind::Pawn, Color::Black).get_char(), '♟');
}

#[test]
fn the_starting_position() {
    let board = Board::default();
    assert_eq!(board.to_move, Color::White);
    assert_eq!(board.en_passant, None);
    assert_eq!(board.all_white_pieces().0, 0xffff);
    assert_eq!(board.all_black_pieces().0, 0xffff_0000_0000_0000);
    assert_eq!(board.all_pieces().0, 0xffff_0000_0000_ffff);
    assert_eq!(board.get_en_passant().0, 0);
    assert_eq!(board.get_piece_kind(Square::E1), Some(Kind::King));
    assert_eq!(board.get_piece_kind(Square::D8), Some(Kind::Queen));
    assert_eq!(board.get_piece_kind(Square::E4), None);
    let piece = board.get_piece(Square::G8).unwrap();
    assert_eq!((piece.kind, piece.color), (Kind::Knight, Color::Black));
    assert!(board.get_piece(Square::A3).is_none());
    assert_eq!(board.bitboard_of(Color::Black, Kind::Rook).0, 0x8100_0000_0000_0000);
}

#[test]
fn the_empty_position() {
    let board = Board::zero();
    assert_eq!(board.all_pieces().0, 0);
    assert_eq!(board.to_move, Color::White);
    assert!(!board.casteling_rights.white_kingside && !board.casteling_rights.black_queenside);
    assert_eq!(board, position("8/8/8/8/8/8/8/8 w - -"));
}

#[test]
fn set_bitboard_replaces_one_kind() {
    let mut board = Board::zero();
    board.set_bitboard(Color::Black, Kind::Bishop, Bitboard(0x44));
    assert_eq!(board.black_bishop.bitboard.0, 0x44);
    assert_eq!(board.all_pieces().0, 0x44);
    assert_eq!(board.all_white_pieces().0, 0);
}

#[test]
fn en_passant_mask_holds_the_square() {
    let board = position("k7/8/8/4Pp2/8/8/8/K7 w - f6 0 1");
    assert_eq!(board.get_en_passant().0, 1 << 45);
}

#[test]
fn a_double_push_leaves_the_square_passed() {
    let (m, after) = play(
        "rnbqkbnr/pppppppp/8/8/8/8/PPPPPPPP/RNBQKBNR w KQkq - 0 1",
        Square::E2,
        Square::E4,
        None,
    );
    assert!(m.double_push && !m.en_passant && !m.casteling);
    assert_eq!(after, position("rnbqkbnr/pppppppp/8/8/4P3/8/PPPP1PPP/RNBQKBNR b KQkq e3 0 1"));
    let (_, black) = play(
        "rnbqkbnr/pppppppp/8/8/4P3/8/PPPP1PPP/RNBQKBNR b KQkq e3 0 1",
        Square::C7,
        Square::C5,
        None,
    );
    assert_eq!(black, position("rnbqkbnr/pp1ppppp/8/2p5/4P3/8/PPPP1PPP/RNBQKBNR w KQkq c6 0 2"));
}

#[test]
fn a_single_push_clears_the_en_passant_square() {
    let (_, after) = play(
        "rnbqkbnr/pppppppp/8/8/4P3/8/PPPP1PPP/RNBQKBNR b KQkq e3 0 1",
        Square::E7,
        Square::E6,
        None,
    );
    assert_eq!(after, position("rnbqkbnr/pppp1ppp/4p3/8/4P3/8/PPPP1PPP/RNBQKBNR w KQkq - 0 2"));
}

#[test]
fn a_capture_in_passing_removes_the_pawn_behind() {
    let (m, after) = play("k7/8/8/4Pp2/8/8/8/K7 w - f6 0 1", Square::E5, Square::F6, None);
    assert!(m.en_passant);
    assert_eq!(m.captured_piece, Some(Kind::Pawn));
    assert_eq!(after, position("k7/8/5P2/8/8/8/8/K7 b - - 0 1"));
    let (_, black) = play("k7/8/8/8/3Pp3/8/8/K7 b - d3 0 1", Square::E4, Square::D3, None);
    assert_eq!(black, position("k7/8/8/8/8/3p4/8/K7 w - - 0 2"));
}

#[test]
fn a_promotion_replaces_the_pawn() {
    let (m, after) = play("k7/4P3/8/8/8/8/8/K7 w - - 0 1", Square::E7, Square::E8, Some(Kind::Queen));
    assert_eq!(m.piece_kind, Kind::Pawn);
    assert_eq!(after, position("k3Q3/8/8/8/8/8/8/K7 b - - 0 1"));
    let (_, knight) = play("k7/4P3/8/8/8/8/8/K7 w - - 0 1", Square::E7, Square::E8, Some(Kind::Knight));
    assert_eq!(knight, position("k3N3/8/8/8/8/8/8/K7 b - - 0 1"));
    let (capture, taken) = play("k4r2/4P3/8/8/8/8/8/K7 w - - 0 1", Square::E7, Square::F8, Some(Kind::Rook));
    assert_eq!(capture.captured_piece, Some(Kind::Rook));
    assert_eq!(taken, position("k4R2/8/8/8/8/8/8/K7 b - - 0 1"));
}

#[test]
fn castling_moves_the_rook_and_gives_up_the_rights() {
    let (m, after) = play("k7/8/8/8/8/8/8/4K2R w K - 0 1", Square::E1, Square::G1, None);
    assert!(m.casteling);
    assert_eq!(after, position("k7/8/8/8/8/8/8/5RK1 b - - 0 1"));
    let (_, queenside) = play("k7/8/8/8/8/8/8/R3K2R w KQ - 0 1", Square::E1, Square::C1, None);
    assert_eq!(queenside, position("k7/8/8/8/8/8/8/2KR3R b - - 0 1"));
    let (_, black) = play("r3k2r/8/8/8/8/8/8/4K3 b kq - 0 1", Square::E8, Square::G8, None);
    assert_eq!(black, position("r4rk1/8/8/8/8/8/8/4K3 w - - 0 2"));
    let (_, long) = play("r3k2r/8/8/8/8/8/8/4K3 b kq - 0 1", Square::E8, Square::C8, None);
    assert_eq!(long, position("2kr3r/8/8/8/8/8/8/4K3 w - - 0 2"));
}

#[test]
fn king_and_rook_moves_give_up_rights() {
    let (_, king) = play("r3k2r/8/8/8/8/8/8/R3K2R w KQkq - 0 1", Square::E1, Square::E2, None);
    assert_eq!(king, position("r3k2r/8/8/8/8/8/4K3/R6R b kq - 0 1"));
    let (_, h_rook) = play("r3k2r/8/8/8/8/8/8/R3K2R w KQkq - 0 1", Square::H1, Square::H2, None);
    assert_eq!(h_rook, position("r3k2r/8/8/8/8/8/7R/R3K3 b Qkq - 0 1"));
    let (_, a_rook) = play("r3k2r/8/8/8/8/8/8/R3K2R b KQkq - 0 1", Square::A8, Square::A7, None);
    assert_eq!(a_rook, position("4k2r/r7/8/8/8/8/8/R3K2R w KQk - 0 2"));
}

#[test]
fn a_rook_taken_on_its_corner_loses_the_right_of_that_side() {
    let (m, a_file) = play("r3k2r/8/8/8/8/8/8/R3K2R w KQkq - 0 1", Square::A1, Square::A8, None);
    assert_eq!(m.captured_piece, Some(Kind::Rook));
    assert_eq!(a_file, position("R3k2r/8/8/8/8/8/8/4K2R b Kk - 0 1"));
    let (_, h_file) = play("r3k2r/8/8/8/8/8/8/R3K2R w KQkq - 0 1", Square::H1, Square::H8, None);
    assert_eq!(h_file, position("r3k2R/8/8/8/8/8/8/R3K3 b Qq - 0 1"));
    let (_, black) = play("r3k2r/8/8/8/8/8/8/R3K2R b KQkq - 0 1", Square::H8, Square::H1, None);
    assert_eq!(black, position("r3k3/8/8/8/8/8/8/R3K2r w Qq - 0 2"));
}

#[test]
fn a_capture_removes_the_piece_taken() {
    let (m, after) = play("k7/8/8/8/2b1r3/3K4/8/8 w - - 0 1", Square::D3, Square::E4, None);
    assert_eq!(m.captured_piece, Some(Kind::Rook));
    assert_eq!(after, position("k7/8/8/8/2b1K3/8/8/8 b - - 0 1"));
}

#[test]
fn do_move_applies_any_move_as_told() {
    let mut board = position("k7/8/8/8/8/8/8/K7 w - - 0 1");
    let m = Move {
        piece_kind: Kind::King,
        piece_color: Color::White,
        from: Square::A1,
        to: Square::H8,
        casteling: false,
        promoting_piece: None,
        double_push: false,
        en_passant: false,
        captured_piece: None,
    };
    board.do_move(&m);
    assert_eq!(board, position("k6K/8/8/8/8/8/8/8 b - - 0 1"));
}

#[test]
fn check_is_seen() {
    let magics = tables();
    let board = position("k7/8/8/8/8/8/8/R3K3 b - - 0 1");
    assert!(board.is_in_check(Color::Black, &magics));
    assert!(!board.is_in_check(Color::White, &magics));
    let blocked = position("k7/p7/8/8/8/8/8/R3K3 b - - 0 1");
    assert!(!blocked.is_in_check(Color::Black, &magics));
    let knight = position("k7/2N5/8/8/8/8/8/4K3 b - - 0 1");
    assert!(knight.is_in_check(Color::Black, &magics));
    let pawn = position("8/8/8/3k4/4P3/8/8/4K3 b - - 0 1");
    assert!(pawn.is_in_check(Color::Black, &magics));
    let own_pawn = position("8/8/8/3k4/4p3/8/8/4K3 b - - 0 1");
    assert!(!own_pawn.is_in_check(Color::Black, &magics));
    assert!(!Board::default().is_in_check(Color::White, &magics));
}

#[test]
fn sound_positions_are_told_from_unsound_ones() {
    assert!(Board::default().is_valid());
    assert!(position("k7/8/8/4Pp2/8/8/8/K7 w - f6 0 1").is_valid());
    assert!(position("r3k2r/8/8/8/8/8/8/R3K2R w KQkq - 0 1").is_valid());
    assert!(!Board::zero().is_valid());
    assert!(Board::zero().is_disjoint());
    assert!(!position("k7/8/8/8/8/8/8/8 w - - 0 1").is_valid());
    assert!(!position("kk6/8/8/8/8/8/8/K7 w - - 0 1").is_valid());
    assert!(!position("k7/8/8/8/8/8/8/KK6 w - - 0 1").is_valid());
    assert!(!position("k7/8/8/8/4Pp2/8/8/K7 w - f5 0 1").is_valid());
    assert!(!position("k7/8/5n2/4Pp2/8/8/8/K7 w - f6 0 1").is_valid());
    assert!(!position("k7/8/8/8/8/8/8/K6R w K - 0 1").is_valid());
    assert!(!position("k7/8/8/8/8/8/8/4K3 b q - 0 1").is_valid());
    assert!(position("4k3/8/8/8/8/8/8/4K3 b q - 0 1").is_valid());
    let mut twice = Board::default();
    twice.set_bitboard(Color::Black, Kind::Queen, Bitboard(0x0800_0000_0000_0100));
    assert!(!twice.is_disjoint());
    assert!(!twice.is_valid());
    let mut tag = Board::default();
    tag.white_rook.kind = Kind::Queen;
    assert!(tag.is_disjoint());
    assert!(!tag.is_valid());
    assert_eq!(Board::default().words()[5], 0x10);
    assert_eq!(Board::default().words()[6], 0x00ff_0000_0000_0000);
}
