use chess_mg::magic::Magics;
use chess_mg::{load_magics, Board, MoveGen};
use rustc_hash::FxHashMap;

fn magics() -> Magics {
    load_magics().expect("a magic number for every square")
}

fn wrapper(fen: &str, n_move: usize) {
    let magics = magics();
    let board = Board::from_fen(fen).unwrap();
    let mut mg = MoveGen::new(&board, &magics);
    mg.gen_legal_moves();
    let v = mg.get_legal_moves();
    assert_eq!(v.len(), n_move);
}

/// Counts the leaves of the move tree of `board` at `depth`. The last ply is counted
/// without being played, and a position met again with two plies or more to go is looked up.
fn count(board: &Board, depth: u32, magics: &Magics, seen: &mut FxHashMap<(Board, u32), u64>) -> u64 {
    if depth == 0 {
        return 1;
    }
    if depth > 1 {
        if let Some(nodes) = seen.get(&(*board, depth)) {
            return *nodes;
        }
    }
    let mut movegen = MoveGen::new(board, magics);
    movegen.gen_legal_moves();
    if depth == 1 {
        return movegen.get_legal_moves().len() as u64;
    }
    let mut nodes = 0;
    for mv in movegen.get_legal_moves() {
        let mut new_board = board.clone();
        new_board.do_move(mv);
        nodes += count(&new_board, depth - 1, magics, seen);
    }
    seen.insert((*board, depth), nodes);
    nodes
}

fn perft(board: &Board, depth: u32) -> u64 {
    let magics = magics();
    let mut seen = FxHashMap::default();
    count(board, depth, &magics, &mut seen)
}

#[test]
fn test_king_center() {
    wrapper("k7/8/8/8/3K4/8/8/8 w - - 0 1", 8);
}

#[test]
fn test_king_a1() {
    wrapper("k7/8/8/8/8/8/8/K7 w - - 0 1", 3);
}
#[test]
fn test_king_h1() {
    wrapper("k7/8/8/8/8/8/8/7K w - - 0 1", 3);
}
#[test]
fn test_king_a8() {
    wrapper("K7/8/8/3k4/8/8/8/8 w - - 0 1", 3);
}
#[test]
fn test_king_h8() {
    wrapper("7K/8/8/3k4/8/8/8/8 w - - 0 1", 3);
}

#[test]
fn test_king_face_to_face() {
    wrapper("8/8/8/3k4/8/3K4/8/8 w - - 0 1", 5);
}

#[test]
fn test_king_capture() {
    wrapper("k7/8/8/8/2b1r3/3K4/8/8 w - - 0 1", 4);
}

#[test]
fn test_white_pawn_double_push() {
    wrapper("k7/8/8/8/8/8/4P3/K7 w - - 0 1", 5);
}

#[test]
fn test_white_pawn_single_push() {
    wrapper("k7/8/8/8/4P3/8/8/K7 w - - 0 1", 4);
}

#[test]
fn test_white_pawn_double_push_opposition() {
    wrapper("k7/8/8/8/4p3/8/4P3/K7 w - - 0 1", 4);
    wrapper("k7/8/8/4p3/8/8/4P3/K7 w - - 0 1", 5);
}

#[test]
fn test_white_pawn_single_push_opposition() {
    wrapper("k7/8/8/4p3/4P3/8/8/K7 w - - 0 1", 3);
}

#[test]
fn test_white_pawn_left_attack() {
    wrapper("k7/8/8/8/3p4/4P3/8/K7 w - - 0 1", 5);
}

#[test]
fn test_white_pawn_right_attack() {
    wrapper("k7/8/8/8/5p2/4P3/8/K7 w - - 0 1", 5);
}

#[test]
fn test_white_pawn_enpassant_1() {
    wrapper("k7/8/8/4Pp2/8/8/8/K7 w - f6 0 1", 5);
}

#[test]
fn test_white_pawn_enpassant_2() {
    wrapper("k7/8/8/3pP3/8/8/8/K7 w - d6 0 1", 5);
}

#[test]
fn test_white_pawn_promotion() {
    wrapper("k7/4P3/8/8/8/8/8/K7 w - - 0 1", 7);
}

#[test]
fn test_white_pawn_promotion_blocked() {
    wrapper("k3p3/4P3/8/8/8/8/8/K7 w HAha - 0 1", 3);
}

#[test]
fn test_white_pawn_promotion_attack() {
    wrapper("k4p2/4P3/8/8/8/8/8/K7 w HAha - 0 1", 11);
}

#[test]
fn test_black_pawn_single_push() {
    wrapper("k7/8/4p3/8/8/8/8/K7 b - - 0 1", 4);
}

#[test]
fn test_black_pawn_double_push() {
    wrapper("k7/4p3/8/8/8/8/8/K7 b - - 0 1", 5);
}

#[test]
fn test_black_pawn_double_push_opposition() {
    wrapper("k7/4p3/8/4P3/8/8/8/K7 b HAha - 0 1", 4);
}

#[test]
fn test_black_pawn_single_push_opposition() {
    wrapper("k7/8/4p3/4P3/8/8/8/K7 b - - 0 1", 3);
}

#[test]
fn test_black_pawn_left_attack() {
    wrapper("k7/4p3/5P2/8/8/8/8/K7 b - - 0 1", 6);
}

#[test]
fn test_black_pawn_right_attack() {
    wrapper("k7/8/4p3/3P4/8/8/8/K7 b HAha - 0 1", 5);
}

#[test]
fn test_black_pawn_enpassant_1() {
    wrapper("k7/8/8/8/3Pp3/8/8/K7 b - d3 0 1", 5);
}

#[test]
fn test_black_pawn_enpassant_2() {
    wrapper("k7/8/8/8/4pP2/8/8/K7 b - f3 0 1", 5);
}

#[test]
fn test_black_pawn_promotion() {
    wrapper("k7/8/8/8/8/8/5p2/K7 b - - 0 1", 7);
}

#[test]
fn test_black_pawn_promotion_blocked() {
    wrapper("k7/8/8/8/8/8/5p2/K4R2 b - - 0 1", 3);
}

#[test]
fn test_black_pawn_promotion_attack() {
    wrapper("k7/8/8/8/8/8/5p2/K5R1 b HAha - 0 1", 11);
}

#[test]
fn test_knight() {
    wrapper("k7/8/8/4N3/8/8/8/K7 w HAha - 0 1", 11);
}

#[test]
fn test_knight_corner() {
    wrapper("k6N/8/8/8/8/8/8/K7 w HAha - 0 1", 5);
}

#[test]
fn test_knight_friendly_piece() {
    wrapper("k7/8/8/8/8/8/2N5/K7 w HAha - 0 1", 8);
}

#[test]
fn test_knight_captures() {
    wrapper("k7/8/3p4/8/4N3/8/8/K7 w HAha - 0 1", 11);
}

#[test]
fn test_knight_captures2() {
    wrapper("k7/3r4/1N6/8/8/8/8/K7 w HAha - 0 1", 8);
}

#[test]
fn test_rook() {
    wrapper("k7/8/8/4r3/8/8/8/K7 b - - 0 1", 17);
}

#[test]
fn test_rook_friendly_piece() {
    wrapper("kr6/8/8/8/8/8/8/K7 b - - 0 1", 15);
}

#[test]
fn test_rook_capture() {
    wrapper("k7/4r3/8/8/4P3/8/8/K7 b - - 0 1", 14);
}

#[test]
fn test_bishop() {
    wrapper("k7/8/3b4/8/8/8/8/K7 b - - 0 1", 14);
}

#[test]
fn test_bishop_friendly_piece() {
    wrapper("k7/8/8/8/4b3/8/8/K7 b - - 0 1", 15);
}

#[test]
fn test_bishop_capture() {
    wrapper("k7/8/8/8/4b3/8/2R5/K7 b - - 0 1", 14);
}

#[test]
fn test_queen() {
    wrapper("k7/8/8/8/8/3Q4/8/K7 w - - 0 1", 28);
}

#[test]
fn test_queen_friendly_piece() {
    wrapper("k7/8/8/8/8/2Q5/8/K7 w - - 0 1", 27);
}

#[test]
fn test_queen_captures() {
    wrapper("k7/8/2p5/8/8/2Q5/8/K7 w - - 0 1", 25);
}

#[test]
fn test_castle_kingside() {
    wrapper("k7/8/8/8/8/8/8/4K2R w K - 0 1", 15);
}

#[test]
fn test_castle_queenside() {
    wrapper("k7/8/8/8/8/8/8/R3K3 w HQ - 0 1", 15);
}

#[test]
fn test_cant_castle_queenside() {
    wrapper("krr5/8/8/8/8/8/8/R3K3 w HQ - 0 1", 14);
}

#[test]
fn test_king_not_into_check() {
    wrapper("k7/8/8/8/8/8/4p3/4K3 w - - 0 1", 3);
}

#[test]
fn test_check_mate() {
    wrapper("k6b/Q7/8/8/8/8/8/R3K3 b Q - 0 1", 0);
}

#[test]
fn test_perft1() {
    let b = Board::default();
    let p = perft(&b, 6);
    assert_eq!(p, 119_060_324);
}
#[test]
fn test_perft2() {
    let b =
        Board::from_fen("r3k2r/p1ppqpb1/bn2pnp1/3PN3/1p2P3/2N2Q1p/PPPBBPPP/R3K2R w KQkq - ")
            .unwrap();
    let p = perft(&b, 5);
    assert_eq!(p, 193_690_690);
}
#[test]
fn test_perft3() {
    let b = Board::from_fen("8/2p5/3p4/KP5r/1R3p1k/8/4P1P1/8 w - - 0 1").unwrap();
    let p = perft(&b, 6);
    assert_eq!(p, 11_030_083);
}
#[test]
fn test_perft4() {
    let b = Board::from_fen("r3k2r/Pppp1ppp/1b3nbN/nP6/BBP1P3/q4N2/Pp1P2PP/R2Q1RK1 w kq - 0 1")
        .unwrap();
    let p = perft(&b, 6);
    assert_eq!(p, 706_045_033);
}
#[test]
fn test_perft5() {
    let b =
        Board::from_fen("rnbq1k1r/pp1Pbppp/2p5/8/2B5/8/PPP1NnPP/RNBQK2R w KQ - 1 8").unwrap();
    let p = perft(&b, 5);
    assert_eq!(p, 89_941_194);
}
#[test]
fn test_perft6() {
    let b = Board::from_fen(
        "r4rk1/1pp1qppp/p1np1n2/2b1p1B1/2B1P1b1/P1NP1N2/1PP1QPPP/R4RK1 w - - 0 10",
    )
    .unwrap();
    let p = perft(&b, 5);
    assert_eq!(p, 164_075_551);
}
