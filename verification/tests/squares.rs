use chess_mg::utils::{square_mask, Casteling, CLEAR_FILE, CLEAR_RANK, MASK_FILE, MASK_RANK};
use chess_mg::{ChessMgError, Color, Kind, Square};
use std::str::FromStr;

#[test]
fn square_indices_run_from_a1_to_h8() {
    assert_eq!(Square::A1.to_u8(), 0);
    assert_eq!(Square::H1.to_u8(), 7);
    assert_eq!(Square::A2.to_usize(), 8);
    assert_eq!(Square::E4.to_u8(), 28);
    assert_eq!(Square::H8.to_usize(), 63);
    for n in 0..64u8 {
        assert_eq!(Square::from_u8(n).to_u8(), n);
        assert_eq!(Square::from_usize(n as usize).to_usize(), n as usize);
        assert_eq!(Square::from_u8(n).rank(), n >> 3);
        assert_eq!(Square::from_u8(n).file(), n & 7);
    }
}

#[test]
fn square_names_round_trip() {
    let files = ["a", "b", "c", "d", "e", "f", "g", "h"];
    let ranks = ["1", "2", "3", "4", "5", "6", "7", "8"];
    for n in 0..64usize {
        let square = Square::from_usize(n);
        let name = format!("{}{}", files[n % 8], ranks[n / 8]);
        assert_eq!(square.to_string(), name);
        assert_eq!(Square::parse(&name), Ok(square));
        assert_eq!(Square::from_str(&square.to_string()), Ok(square));
        assert_eq!(Square::parse(&name).unwrap().to_string(), name);
    }
}

#[test]
fn square_names_examples() {
    assert_eq!(Square::parse("a1"), Ok(Square::A1));
    assert_eq!(Square::parse("e3"), Ok(Square::E3));
    assert_eq!(Square::parse("h8"), Ok(Square::H8));
    assert_eq!(Square::F6.to_string(), "f6");
}

#[test]
fn text_that_names_no_square_is_refused() {
    for text in ["", "a", "a9", "a0", "i1", "A1", "e33", " e3", "1e", "-", "é3"] {
        assert_eq!(Square::parse(text), Err(ChessMgError::InvalidSquare(text.to_string())));
    }
    assert_eq!(ChessMgError::InvalidSquare("z9".to_string()).message(), "z9");
}

#[test]
fn the_other_side() {
    assert_eq!(Color::White.opponent(), Color::Black);
    assert_eq!(Color::Black.opponent(), Color::White);
}

#[test]
fn square_masks_hold_one_square() {
    assert_eq!(square_mask(Square::A1).0, 1);
    assert_eq!(square_mask(Square::E4).0, 1 << 28);
    assert_eq!(square_mask(Square::H8).0, 1 << 63);
}

#[test]
fn rank_and_file_masks() {
    for i in 0..8 {
        assert_eq!(MASK_RANK[i], 0xffu64 << (8 * i));
        assert_eq!(MASK_FILE[i], 0x0101_0101_0101_0101u64 << i);
        assert_eq!(CLEAR_RANK[i], !MASK_RANK[i]);
        assert_eq!(CLEAR_FILE[i], !MASK_FILE[i]);
    }
}

#[test]
fn castling_rights_start_complete() {
    let rights = Casteling::default();
    assert!(rights.white_kingside && rights.white_queenside);
    assert!(rights.black_kingside && rights.black_queenside);
    assert_ne!(Kind::Rook, Kind::Queen);
}
