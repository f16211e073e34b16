use chess_mg::magic::Magics;
use chess_mg::{load_magics, Board, Color, Kind, Move, MoveGen, Square};

fn tables() -> Magics {
    load_magics().expect("a magic number for every square")
}

fn twelve(board: &Board) -> [u64; 12] {
    [
        board.white_pawn.bitboard.0,
        board.white_knight.bitboard.0,
        board.white_bishop.bitboard.0,
        board.white_rook.bitboard.0,
        board.white_queen.bitboard.0,
        board.white_king.bitboard.0,
        board.black_pawn.bitboard.0,
        board.black_knight.bitboard.0,
        board.black_bishop.bitboard.0,
        board.black_rook.bitboard.0,
        board.black_queen.bitboard.0,
        board.black_king.bitboard.0,
    ]
}

fn assert_sound(board: &Board) {
    let words = twelve(board);
    for i in 0..12 {
        for j in i + 1..12 {
            assert_eq!(words[i] & words[j], 0);
        }
    }
    assert_eq!(board.white_king.bitboard.count_ones(), 1);
    assert_eq!(board.black_king.bitboard.count_ones(), 1);
    if let Some(square) = board.en_passant {
        assert!(square.rank() == 2 || square.rank() == 5);
        assert_eq!(board.all_pieces().0 & (1u64 << square.to_u8()), 0);
    }
    assert_eq!(board.white_pawn.kind, Kind::Pawn);
    assert_eq!(board.black_queen.color, Color::Black);
    assert!(board.is_disjoint());
    assert!(board.is_valid());
}

fn legal(board: &Board, magics: &Magics) -> Vec<Move> {
    let mut generator = MoveGen::new(board, magics);
    generator.gen_legal_moves();
    assert!(generator.get_pseudo_moves().is_empty());
    generator.get_legal_moves().clone()
}

/// Plays every line of `depth` legal moves from `board` and checks each position reached.
fn walk(board: &Board, magics: &Magics, depth: u32) {
    assert_sound(board);
    if depth == 0 {
        return;
    }
    for m in legal(board, magics) {
        assert_eq!(m.piece_color, board.to_move);
        assert!(m.captured_piece != Some(Kind::King));
        let mut after = *board;
        after.do_move(&m);
        assert_eq!(after.to_move, board.to_move.opponent());
        assert!(!after.is_in_check(board.to_move, magics));
        walk(&after, magics, depth - 1);
    }
}

#[test]
fn positions_reached_from_the_start_stay_sound() {
    walk(&Board::default(), &tables(), 3);
}

#[test]
fn positions_reached_with_castling_and_promotion_stay_sound() {
    let magics = tables();
    for fen in [
        "r3k2r/p1ppqpb1/bn2pnp1/3PN3/1p2P3/2N2Q1p/PPPBBPPP/R3K2R w KQkq - ",
        "r3k2r/Pppp1ppp/1b3nbN/nP6/BBP1P3/q4N2/Pp1P2PP/R2Q1RK1 w kq - 0 1",
        "8/2p5/3p4/KP5r/1R3p1k/8/4P1P1/8 w - - 0 1",
        "rnbq1k1r/pp1Pbppp/2p5/8/2B5/8/PPP1NnPP/RNBQK2R w KQ - 1 8",
    ] {
        walk(&Board::from_fen(fen).unwrap(), &magics, 2);
    }
}

#[test]
fn the_legal_moves_are_the_pseudo_legal_moves_that_leave_no_check() {
    let magics = tables();
    for fen in [
        "rnbqkbnr/pppppppp/8/8/8/8/PPPPPPPP/RNBQKBNR w KQkq - 0 1",
        "r3k2r/p1ppqpb1/bn2pnp1/3PN3/1p2P3/2N2Q1p/PPPBBPPP/R3K2R w KQkq - ",
        "k7/8/8/8/8/8/4p3/4K3 w - - 0 1",
        "k6b/Q7/8/8/8/8/8/R3K3 b Q - 0 1",
        "4k3/8/8/8/8/8/4r3/R3K2R w KQ - 0 1",
        "4k3/8/8/8/4r3/8/4B3/4K3 w - - 0 1",
        "8/8/8/KPp4r/8/8/8/7k w - c6 0 1",
    ] {
        let board = Board::from_fen(fen).unwrap();
        let mut generator = MoveGen::new(&board, &magics);
        generator.gen_pseudo_moves();
        let pseudo = generator.get_pseudo_moves().clone();
        let slow: Vec<Move> = pseudo.iter().filter(|m| generator.is_legal_move(m)).copied().collect();
        let stance = generator.stance();
        let quick: Vec<Move> =
            pseudo.iter().filter(|m| generator.is_legal_given(m, &stance)).copied().collect();
        assert_eq!(legal(&board, &magics), slow);
        assert_eq!(quick, slow);
        for m in &pseudo {
            let mut after = board;
            after.do_move(m);
            let safe = m.captured_piece != Some(Kind::King)
                && !after.is_in_check(board.to_move, &magics);
            if !m.casteling {
                assert_eq!(slow.contains(m), safe);
            } else if slow.contains(m) {
                assert!(safe);
            }
        }
    }
}

#[test]
fn a_pinned_piece_moves_only_along_the_pin() {
    let magics = tables();
    let board = Board::from_fen("4k3/8/8/8/4r3/8/4R3/4K3 w - - 0 1").unwrap();
    let moves = legal(&board, &magics);
    let rook: Vec<Square> = moves.iter().filter(|m| m.piece_kind == Kind::Rook).map(|m| m.to).collect();
    assert_eq!(rook, vec![Square::E3, Square::E4]);
    let bishop = Board::from_fen("4k3/8/8/8/4r3/8/4B3/4K3 w - - 0 1").unwrap();
    assert!(legal(&bishop, &magics).iter().all(|m| m.piece_kind == Kind::King));
}

#[test]
fn a_capture_in_passing_that_bares_the_king_is_illegal() {
    let magics = tables();
    let board = Board::from_fen("8/8/8/KPp4r/8/8/8/7k w - c6 0 1").unwrap();
    let mut generator = MoveGen::new(&board, &magics);
    generator.gen_pseudo_moves();
    assert!(generator.get_pseudo_moves().iter().any(|m| m.en_passant));
    assert!(legal(&board, &magics).iter().all(|m| !m.en_passant));
}

#[test]
fn castling_out_of_through_or_into_check_is_illegal() {
    let magics = tables();
    let castles = |fen: &str| -> Vec<Square> {
        legal(&Board::from_fen(fen).unwrap(), &magics)
            .iter()
            .filter(|m| m.casteling)
            .map(|m| m.to)
            .collect()
    };
    assert_eq!(castles("4k3/8/8/8/8/8/8/R3K2R w KQ - 0 1"), vec![Square::G1, Square::C1]);
    assert_eq!(castles("4k3/8/8/8/8/8/4r3/R3K2R w KQ - 0 1"), vec![]);
    assert_eq!(castles("4k3/8/8/8/8/8/5r2/R3K2R w KQ - 0 1"), vec![Square::C1]);
    assert_eq!(castles("4k3/8/8/8/8/8/6r1/R3K2R w KQ - 0 1"), vec![Square::C1]);
    assert_eq!(castles("4k3/8/8/8/8/8/3r4/R3K2R w KQ - 0 1"), vec![Square::G1]);
    assert_eq!(castles("4k3/8/8/8/8/8/1r6/R3K2R w KQ - 0 1"), vec![Square::G1, Square::C1]);
    assert_eq!(castles("4k3/8/8/8/8/8/8/R3K2R w - - 0 1"), vec![]);
    assert_eq!(castles("4k3/8/8/8/8/8/8/RN2K1NR w KQ - 0 1"), vec![]);
    assert_eq!(castles("r3k2r/8/8/8/8/8/8/4K3 b kq - 0 1"), vec![Square::G8, Square::C8]);
    assert_eq!(castles("r3k2r/8/8/8/8/8/8/4K3 b k - 0 1"), vec![Square::G8]);
    assert_eq!(castles("r3k2r/8/8/8/8/8/8/3RK3 b kq - 0 1"), vec![Square::G8]);
    assert_eq!(castles("4k2r/8/8/8/8/8/8/R3K3 w Q - 0 1"), vec![Square::C1]);
    assert_eq!(castles("4k3/8/8/8/8/8/8/r3K3 w Q - 0 1"), vec![]);
}
