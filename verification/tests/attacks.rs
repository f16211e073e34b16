use chess_mg::magic::{compute_attack, Magics};
use chess_mg::{load_magics, Bitboard, Board, Color, Kind, MoveGen, Square};

fn tables() -> Magics {
    load_magics().expect("a magic number for every square")
}

/// The squares that `by` attacks on `board`, found square by square.
fn attacked(board: &Board, magics: &Magics, by: Color) -> u64 {
    let generator = MoveGen::new(board, magics);
    let mut word = 0;
    for index in 0..64 {
        if generator.is_square_under_attack(Square::from_usize(index), by) {
            word |= 1u64 << index;
        }
    }
    word
}

#[test]
fn a_lone_slider_attacks_what_the_ray_walk_reaches() {
    let magics = tables();
    for color in [Color::White, Color::Black] {
        for index in 0..64 {
            let square = Square::from_usize(index);
            let nothing = Bitboard(0);
            let rook = compute_attack(square, nothing, Kind::Rook).0;
            let bishop = compute_attack(square, nothing, Kind::Bishop).0;
            for (kind, expected) in [(Kind::Rook, rook), (Kind::Bishop, bishop), (Kind::Queen, rook | bishop)] {
                let mut board = Board::zero();
                board.set_bitboard(color, kind, Bitboard(1 << index));
                assert_eq!(attacked(&board, &magics, color), expected);
                assert_eq!(attacked(&board, &magics, color.opponent()), 0);
            }
        }
    }
}

#[test]
fn a_slider_attacks_up_to_the_first_piece_of_either_side() {
    let magics = tables();
    let board = Board::from_fen("k7/8/4p3/8/1P2R3/8/8/K7 w - - 0 1").unwrap();
    let generator = MoveGen::new(&board, &magics);
    for (square, expected) in [
        (Square::E5, true),
        (Square::E6, true),
        (Square::E7, false),
        (Square::C4, true),
        (Square::B4, true),
        (Square::A4, false),
        (Square::H4, true),
        (Square::E1, true),
        (Square::E4, false),
        (Square::D5, false),
    ] {
        assert_eq!(generator.is_square_under_attack(square, Color::White), expected);
    }
}

#[test]
fn pawns_attack_ahead_and_aside() {
    let magics = tables();
    let white = Board::from_fen("8/8/8/8/8/8/P3P2P/8 w - - 0 1").unwrap();
    assert_eq!(attacked(&white, &magics, Color::White), 0b0110_1010 << 16);
    assert_eq!(attacked(&white, &magics, Color::Black), 0);
    let black = Board::from_fen("8/p3p2p/8/8/8/8/8/8 b - - 0 1").unwrap();
    assert_eq!(attacked(&black, &magics, Color::Black), 0b0110_1010 << 40);
}

#[test]
fn kings_and_knights_attack_by_their_patterns() {
    let magics = tables();
    let board = Board::from_fen("7k/8/8/8/4N3/8/8/K7 w - - 0 1").unwrap();
    let knight: u64 = (1 << 45) | (1 << 43) | (1 << 38) | (1 << 34) | (1 << 22) | (1 << 18) | (1 << 13) | (1 << 11);
    let king: u64 = (1 << 1) | (1 << 8) | (1 << 9);
    assert_eq!(attacked(&board, &magics, Color::White), knight | king);
    assert_eq!(attacked(&board, &magics, Color::Black), (1 << 62) | (1 << 54) | (1 << 55));
    let generator = MoveGen::new(&board, &magics);
    assert_eq!(generator.gen_knight_moves(Bitboard(1 << 28)).0, knight);
    assert!(!generator.is_square_under_attack(Square::E4, Color::White));
}

#[test]
fn attacks_reach_friendly_squares_too() {
    let magics = tables();
    let board = Board::default();
    let generator = MoveGen::new(&board, &magics);
    assert!(generator.is_square_under_attack(Square::D2, Color::White));
    assert!(generator.is_square_under_attack(Square::B1, Color::White));
    assert!(generator.is_square_under_attack(Square::E3, Color::White));
    assert!(!generator.is_square_under_attack(Square::E4, Color::White));
    assert!(!generator.is_square_under_attack(Square::E3, Color::Black));
    assert!(generator.is_square_under_attack(Square::F6, Color::Black));
}
