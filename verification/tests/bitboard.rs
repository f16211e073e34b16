use chess_mg::Bitboard;

#[test]
fn bitboard_set_operations() {
    let a = Bitboard(0b1100);
    let b = Bitboard(0b1010);
    assert_eq!((a & b).0, 0b1000);
    assert_eq!((a | b).0, 0b1110);
    assert_eq!((a ^ b).0, 0b0110);
    assert_eq!((!a).0, !0b1100u64);
    assert_eq!((a & 0b0100u8).0, 0b0100);
}

#[test]
fn bitboard_shifts_drop_what_leaves_the_board() {
    assert_eq!((Bitboard(1) << 63).0, 0x8000_0000_0000_0000);
    assert_eq!((Bitboard(0x8000_0000_0000_0000) << 1).0, 0);
    assert_eq!((Bitboard(0xff00) << 8).0, 0x00ff_0000);
    assert_eq!((Bitboard(0xff00) >> 8).0, 0xff);
    assert_eq!((Bitboard(1) >> 1).0, 0);
}

#[test]
fn bitboard_equality_with_bitboards_and_words() {
    assert!(Bitboard(5) == Bitboard(5));
    assert!(Bitboard(5) != Bitboard(4));
    assert!(Bitboard(5) == 5u64);
    assert!(Bitboard(5) != 0u64);
    assert!(5u64 == Bitboard(5));
    assert!(4u64 != Bitboard(5));
}

#[test]
fn bitboard_product_without_overflow() {
    assert_eq!(Bitboard(6) * 7, 42);
}

#[test]
fn count_ones_counts_the_squares() {
    assert_eq!(Bitboard(0).count_ones(), 0);
    assert_eq!(Bitboard(0xff00).count_ones(), 8);
    assert_eq!(Bitboard(0x8000_0000_0000_0001).count_ones(), 2);
    assert_eq!(Bitboard(u64::MAX).count_ones(), 64);
}

#[test]
fn wrapping_mul_reduces_modulo_two_to_the_64() {
    assert_eq!(Bitboard(3).wrapping_mul(5), 15);
    assert_eq!(Bitboard(u64::MAX).wrapping_mul(2), u64::MAX - 1);
    assert_eq!(Bitboard(1 << 63).wrapping_mul(2), 0);
}

#[test]
fn pop_lsb_takes_the_lowest_square() {
    let mut b = Bitboard(0b1011_0000);
    assert_eq!(b.pop_lsb(), Some(4));
    assert_eq!(b.0, 0b1010_0000);
    assert_eq!(b.pop_lsb(), Some(5));
    assert_eq!(b.pop_lsb(), Some(7));
    assert_eq!(b.0, 0);
    let mut top = Bitboard(1 << 63);
    assert_eq!(top.pop_lsb(), Some(63));
    assert_eq!(top.0, 0);
}

#[test]
fn pop_lsb_on_the_empty_set_gives_none() {
    let mut b = Bitboard(0);
    assert_eq!(b.pop_lsb(), None);
    assert_eq!(b.0, 0);
}

#[test]
fn bitboard_diagram_shows_the_eighth_rank_first() {
    let text = Bitboard(0x8000_0000_0000_0001).to_string();
    let expected = "\n. . . . . . . 1 \n. . . . . . . . \n. . . . . . . . \n. . . . . . . . \n. . . . . . . . \n. . . . . . . . \n. . . . . . . . \n1 . . . . . . . \n";
    assert_eq!(text, expected);
}
