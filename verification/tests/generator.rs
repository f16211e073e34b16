use chess_mg::magic::Magics;
use chess_mg::move_gen::{emit, Capture, Origin, Template};
use chess_mg::{load_magics, Bitboard, Board, Color, Kind, Move, MoveGen, Square};

fn tables() -> Magics {
    load_magics().expect("a magic number for every square")
}

fn quiet(kind: Kind, color: Color, from: Square, to: Square) -> Move {
    Move {
        piece_kind: kind,
        piece_color: color,
        from,
        to,
        casteling: false,
        promoting_piece: None,
        double_push: false,
        en_passant: false,
        captured_piece: None,
    }
}

#[test]
fn a_new_generator_is_empty() {
    let magics = tables();
    let board = Board::default();
    let generator = MoveGen::new(&board, &magics);
    assert!(generator.get_pseudo_moves().is_empty());
    assert!(generator.get_legal_moves().is_empty());
    assert_eq!(*generator.board, board);
}

#[test]
fn white_pawn_pushes_in_order() {
    let magics = tables();
    let board = Board::from_fen("k7/2P5/8/8/8/5p2/P4P2/K7 w - - 0 1").unwrap();
    let mut generator = MoveGen::new(&board, &magics);
    generator.gen_white_pawn_single_move();
    let promotion = |kind| Move { promoting_piece: Some(kind), ..quiet(Kind::Pawn, Color::White, Square::C7, Square::C8) };
    assert_eq!(
        *generator.get_pseudo_moves(),
        vec![
            quiet(Kind::Pawn, Color::White, Square::A2, Square::A3),
            promotion(Kind::Queen),
            promotion(Kind::Rook),
            promotion(Kind::Bishop),
            promotion(Kind::Knight),
        ]
    );
    generator.gen_white_pawn_double_move();
    assert_eq!(generator.get_pseudo_moves().len(), 6);
    assert_eq!(
        generator.get_pseudo_moves()[5],
        Move { double_push: true, ..quiet(Kind::Pawn, Color::White, Square::A2, Square::A4) }
    );
}

#[test]
fn black_pawn_pushes_in_order() {
    let magics = tables();
    let board = Board::from_fen("k7/p4p2/5P2/8/8/8/2p5/K7 b - - 0 1").unwrap();
    let mut generator = MoveGen::new(&board, &magics);
    generator.gen_black_pawn_single_move();
    generator.gen_black_pawn_double_move();
    let promotion = |kind| Move { promoting_piece: Some(kind), ..quiet(Kind::Pawn, Color::Black, Square::C2, Square::C1) };
    assert_eq!(
        *generator.get_pseudo_moves(),
        vec![
            quiet(Kind::Pawn, Color::Black, Square::A7, Square::A6),
            promotion(Kind::Queen),
            promotion(Kind::Rook),
            promotion(Kind::Bishop),
            promotion(Kind::Knight),
            Move { double_push: true, ..quiet(Kind::Pawn, Color::Black, Square::A7, Square::A5) },
        ]
    );
}

#[test]
fn pawn_captures_do_not_wrap_round_the_board() {
    let magics = tables();
    let board = Board::from_fen("k7/8/8/8/8/p6p/P6P/K7 w - - 0 1").unwrap();
    let mut generator = MoveGen::new(&board, &magics);
    generator.gen_white_pawn_left_attack();
    generator.gen_white_pawn_right_attack();
    assert!(generator.get_pseudo_moves().is_empty());
    let black = Board::from_fen("k7/p6p/P6P/8/8/8/8/K7 b - - 0 1").unwrap();
    let mut other = MoveGen::new(&black, &magics);
    other.gen_black_pawn_left_attack();
    other.gen_black_pawn_right_attack();
    assert!(other.get_pseudo_moves().is_empty());
}

#[test]
fn pawn_captures_name_what_they_take() {
    let magics = tables();
    let board = Board::from_fen("k1n1r3/3P4/8/4Pp2/8/1q1b4/2P5/K7 w - f6 0 1").unwrap();
    let mut generator = MoveGen::new(&board, &magics);
    generator.gen_white_pawn_left_attack();
    let left = generator.get_pseudo_moves().clone();
    let take = |from, to, kind| Move { captured_piece: Some(kind), ..quiet(Kind::Pawn, Color::White, from, to) };
    assert_eq!(
        left,
        vec![
            take(Square::C2, Square::B3, Kind::Queen),
            Move { promoting_piece: Some(Kind::Queen), ..take(Square::D7, Square::C8, Kind::Knight) },
            Move { promoting_piece: Some(Kind::Rook), ..take(Square::D7, Square::C8, Kind::Knight) },
            Move { promoting_piece: Some(Kind::Bishop), ..take(Square::D7, Square::C8, Kind::Knight) },
            Move { promoting_piece: Some(Kind::Knight), ..take(Square::D7, Square::C8, Kind::Knight) },
        ]
    );
    let mut right = MoveGen::new(&board, &magics);
    right.gen_white_pawn_right_attack();
    assert_eq!(
        *right.get_pseudo_moves(),
        vec![
            take(Square::C2, Square::D3, Kind::Bishop),
            Move { promoting_piece: Some(Kind::Queen), ..take(Square::D7, Square::E8, Kind::Rook) },
            Move { promoting_piece: Some(Kind::Rook), ..take(Square::D7, Square::E8, Kind::Rook) },
            Move { promoting_piece: Some(Kind::Bishop), ..take(Square::D7, Square::E8, Kind::Rook) },
            Move { promoting_piece: Some(Kind::Knight), ..take(Square::D7, Square::E8, Kind::Rook) },
            Move { en_passant: true, ..take(Square::E5, Square::F6, Kind::Pawn) },
        ]
    );
}

#[test]
fn knights_move_to_empty_squares_first() {
    let magics = tables();
    let board = Board::from_fen("k7/8/8/8/8/1p6/8/N6K w - - 0 1").unwrap();
    let mut generator = MoveGen::new(&board, &magics);
    generator.gen_white_knight_moves();
    assert_eq!(
        *generator.get_pseudo_moves(),
        vec![
            quiet(Kind::Knight, Color::White, Square::A1, Square::C2),
            Move { captured_piece: Some(Kind::Pawn), ..quiet(Kind::Knight, Color::White, Square::A1, Square::B3) },
        ]
    );
    let mut black = MoveGen::new(&board, &magics);
    black.gen_black_knight_moves();
    assert!(black.get_pseudo_moves().is_empty());
}

#[test]
fn sliders_stop_at_pieces() {
    let magics = tables();
    let board = Board::from_fen("k7/8/8/8/8/P6p/8/R1n4K w - - 0 1").unwrap();
    let mut generator = MoveGen::new(&board, &magics);
    generator.gen_white_rook_moves();
    assert_eq!(
        *generator.get_pseudo_moves(),
        vec![
            quiet(Kind::Rook, Color::White, Square::A1, Square::B1),
            Move { captured_piece: Some(Kind::Knight), ..quiet(Kind::Rook, Color::White, Square::A1, Square::C1) },
            quiet(Kind::Rook, Color::White, Square::A1, Square::A2),
        ]
    );
    let bishop = Board::from_fen("k7/8/8/8/8/2p5/8/B6K w - - 0 1").unwrap();
    let mut other = MoveGen::new(&bishop, &magics);
    other.gen_white_bishop_moves();
    other.gen_black_bishop_moves();
    other.gen_black_rook_moves();
    assert_eq!(
        *other.get_pseudo_moves(),
        vec![
            quiet(Kind::Bishop, Color::White, Square::A1, Square::B2),
            Move { captured_piece: Some(Kind::Pawn), ..quiet(Kind::Bishop, Color::White, Square::A1, Square::C3) },
        ]
    );
}

#[test]
fn queens_move_along_ranks_and_files_first() {
    let magics = tables();
    let board = Board::from_fen("k7/8/8/8/8/8/PP6/QP5K w - - 0 1").unwrap();
    let mut generator = MoveGen::new(&board, &magics);
    generator.gen_white_queen_moves();
    assert!(generator.get_pseudo_moves().is_empty());
    let open = Board::from_fen("7k/8/8/8/8/2p5/P6n/qP5K b - - 0 1").unwrap();
    let mut black = MoveGen::new(&open, &magics);
    black.gen_black_queen_moves();
    assert_eq!(
        *black.get_pseudo_moves(),
        vec![
            Move { captured_piece: Some(Kind::Pawn), ..quiet(Kind::Queen, Color::Black, Square::A1, Square::B1) },
            Move { captured_piece: Some(Kind::Pawn), ..quiet(Kind::Queen, Color::Black, Square::A1, Square::A2) },
            quiet(Kind::Queen, Color::Black, Square::A1, Square::B2),
        ]
    );
}

#[test]
fn the_king_steps_then_castles() {
    let magics = tables();
    let board = Board::from_fen("4k3/8/8/8/8/8/3PPp2/R3K2R w KQ - 0 1").unwrap();
    let mut generator = MoveGen::new(&board, &magics);
    generator.gen_white_king_moves();
    let castle = |to| Move { casteling: true, ..quiet(Kind::King, Color::White, Square::E1, to) };
    assert_eq!(
        *generator.get_pseudo_moves(),
        vec![
            quiet(Kind::King, Color::White, Square::E1, Square::D1),
            quiet(Kind::King, Color::White, Square::E1, Square::F1),
            Move { captured_piece: Some(Kind::Pawn), ..quiet(Kind::King, Color::White, Square::E1, Square::F2) },
            castle(Square::G1),
            castle(Square::C1),
        ]
    );
    let black = Board::from_fen("r3k2r/3ppp2/8/8/8/8/8/4K3 b kq - 0 1").unwrap();
    let mut other = MoveGen::new(&black, &magics);
    other.gen_black_king_moves();
    let castle = |to| Move { casteling: true, ..quiet(Kind::King, Color::Black, Square::E8, to) };
    assert_eq!(
        *other.get_pseudo_moves(),
        vec![
            quiet(Kind::King, Color::Black, Square::E8, Square::D8),
            quiet(Kind::King, Color::Black, Square::E8, Square::F8),
            castle(Square::G8),
            castle(Square::C8),
        ]
    );
}

#[test]
fn all_moves_of_a_side_come_pawns_first_and_king_last() {
    let magics = tables();
    let board = Board::default();
    let mut white = MoveGen::new(&board, &magics);
    white.gen_white_moves();
    let mut side = MoveGen::new(&board, &magics);
    side.gen_pseudo_moves();
    assert_eq!(white.get_pseudo_moves(), side.get_pseudo_moves());
    let kinds: Vec<Kind> = white.get_pseudo_moves().iter().map(|m| m.piece_kind).collect();
    assert_eq!(kinds.len(), 20);
    assert!(kinds[..16].iter().all(|kind| *kind == Kind::Pawn));
    assert!(kinds[16..].iter().all(|kind| *kind == Kind::Knight));
    let mut pawns = MoveGen::new(&board, &magics);
    pawns.gen_white_pawns_moves();
    assert_eq!(pawns.get_pseudo_moves()[..], white.get_pseudo_moves()[..16]);
    let mut black = MoveGen::new(&board, &magics);
    black.gen_black_moves();
    assert_eq!(black.get_pseudo_moves().len(), 20);
    assert!(black.get_pseudo_moves().iter().all(|m| m.piece_color == Color::Black));
    let mut black_pawns = MoveGen::new(&board, &magics);
    black_pawns.gen_black_pawns_moves();
    assert_eq!(black_pawns.get_pseudo_moves()[..], black.get_pseudo_moves()[..16]);
}

#[test]
fn legal_moves_join_what_was_listed_before() {
    let magics = tables();
    let board = Board::from_fen("k7/8/8/8/8/8/8/K7 w - - 0 1").unwrap();
    let mut generator = MoveGen::new(&board, &magics);
    generator.gen_legal_moves();
    assert_eq!(generator.get_legal_moves().len(), 3);
    generator.gen_legal_moves();
    assert_eq!(generator.get_legal_moves().len(), 6);
    assert!(generator.get_pseudo_moves().is_empty());
    let mut listed = MoveGen::new(&board, &magics);
    listed.gen_pseudo_moves();
    listed.gen_legal_moves();
    assert_eq!(listed.get_legal_moves().len(), 6);
}

#[test]
fn emit_makes_one_move_for_each_target() {
    let board = Board::from_fen("k7/8/8/8/8/2p5/8/K7 w - - 0 1").unwrap();
    let mut list = Vec::new();
    let template = Template {
        kind: Kind::Queen,
        color: Color::White,
        origin: Origin::Fixed(Square::D4),
        promotes: false,
        double_push: false,
        captures: Capture::Target,
    };
    emit(&mut list, &board, template, Bitboard(1 << 18 | 1 << 36 | 1 << 56));
    assert_eq!(
        list,
        vec![
            Move { captured_piece: Some(Kind::Pawn), ..quiet(Kind::Queen, Color::White, Square::D4, Square::C3) },
            quiet(Kind::Queen, Color::White, Square::D4, Square::E5),
            Move { captured_piece: Some(Kind::King), ..quiet(Kind::Queen, Color::White, Square::D4, Square::A8) },
        ]
    );
    let pawn = Template {
        kind: Kind::Pawn,
        color: Color::Black,
        origin: Origin::Offset(8),
        promotes: true,
        double_push: false,
        captures: Capture::Nothing,
    };
    emit(&mut list, &board, pawn, Bitboard(1 << 3));
    assert_eq!(list.len(), 7);
    assert_eq!(list[3].from, Square::D2);
    assert_eq!(list[6].promoting_piece, Some(Kind::Knight));
}
