use chess_mg::geometry::{inner_ray, ray, walk_ray, Direction};
use chess_mg::magic::{
    build_table, compute_attack, enumerate_blockers, generate_bishop_attack_mask,
    generate_rook_attack_mask, generate_table, hashes_cleanly, index_of, scramble, xorshift,
    MagicEntry, Magics, Reference, Scratch,
};
use chess_mg::patterns::{king_moves, knight_moves, pawn_attacks_of};
use chess_mg::{load_magics, Bitboard, Color, Kind, Square};

fn squares(list: &[Square]) -> u64 {
    list.iter().fold(0, |word, square| word | 1u64 << square.to_u8())
}

#[test]
fn rays_run_to_the_edge() {
    assert_eq!(ray(Square::A1, Direction::North).0, 0x0101_0101_0101_0100);
    assert_eq!(ray(Square::A1, Direction::East).0, 0xfe);
    assert_eq!(ray(Square::A1, Direction::NorthEast).0, 0x8040_2010_0804_0200);
    assert_eq!(ray(Square::A1, Direction::South).0, 0);
    assert_eq!(ray(Square::A1, Direction::West).0, 0);
    assert_eq!(ray(Square::H8, Direction::SouthWest).0, 0x0040_2010_0804_0201);
    assert_eq!(ray(Square::E4, Direction::South).0, squares(&[Square::E3, Square::E2, Square::E1]));
    assert_eq!(ray(Square::E4, Direction::West).0, squares(&[Square::D4, Square::C4, Square::B4, Square::A4]));
    assert_eq!(ray(Square::E4, Direction::NorthWest).0, squares(&[Square::D5, Square::C6, Square::B7, Square::A8]));
    assert_eq!(ray(Square::E4, Direction::SouthEast).0, squares(&[Square::F3, Square::G2, Square::H1]));
    assert_eq!(inner_ray(Square::E4, Direction::SouthEast).0, squares(&[Square::F3, Square::G2]));
    assert_eq!(inner_ray(Square::A1, Direction::North).0, 0x0001_0101_0101_0100);
}

#[test]
fn a_ray_stops_on_the_first_blocker() {
    let blockers = Bitboard(squares(&[Square::E6, Square::E7]));
    assert_eq!(walk_ray(Square::E4, blockers, 1, 0).0, squares(&[Square::E5, Square::E6]));
    assert_eq!(walk_ray(Square::E4, blockers, -1, 0).0, squares(&[Square::E3, Square::E2, Square::E1]));
}

#[test]
fn masks_leave_out_the_last_square_of_each_ray() {
    assert_eq!(generate_rook_attack_mask(Square::A1).0, 0x0001_0101_0101_017e);
    assert_eq!(generate_rook_attack_mask(Square::E4).0, 0x0010_1010_6e10_1000);
    assert_eq!(generate_bishop_attack_mask(Square::A1).0, 0x0040_2010_0804_0200);
    assert_eq!(generate_bishop_attack_mask(Square::E4).0, 0x0002_4428_0028_4400);
    assert_eq!(generate_rook_attack_mask(Square::A1).count_ones(), 12);
    assert_eq!(generate_rook_attack_mask(Square::B1).count_ones(), 11);
    assert_eq!(generate_rook_attack_mask(Square::D4).count_ones(), 10);
    assert_eq!(generate_bishop_attack_mask(Square::H1).count_ones(), 6);
    assert_eq!(generate_bishop_attack_mask(Square::D4).count_ones(), 9);
    assert_eq!(generate_bishop_attack_mask(Square::B1).count_ones(), 5);
}

#[test]
fn blocker_sets_are_all_the_subsets() {
    assert_eq!(enumerate_blockers(Bitboard(0)), vec![Bitboard(0)]);
    let three = enumerate_blockers(Bitboard(0b1010_0100));
    let mut words: Vec<u64> = three.iter().map(|b| b.0).collect();
    assert_eq!(words[0], 0);
    words.sort();
    assert_eq!(words, vec![0, 0b100, 0b10_0000, 0b10_0100, 0b1000_0000, 0b1000_0100, 0b1010_0000, 0b1010_0100]);
    let mask = generate_rook_attack_mask(Square::A1);
    let all = enumerate_blockers(mask);
    assert_eq!(all.len(), 4096);
    let mut seen: Vec<u64> = all.iter().map(|b| b.0).collect();
    seen.sort();
    seen.dedup();
    assert_eq!(seen.len(), 4096);
    assert!(seen.iter().all(|b| b & !mask.0 == 0));
}

#[test]
fn the_ray_walk_includes_the_blocker_and_nothing_behind() {
    let blockers = Bitboard(squares(&[Square::E6, Square::C4, Square::E7, Square::G4]));
    let rook = compute_attack(Square::E4, blockers, Kind::Rook).0;
    assert_eq!(
        rook,
        squares(&[
            Square::E5, Square::E6, Square::E3, Square::E2, Square::E1, Square::D4, Square::C4,
            Square::F4, Square::G4,
        ])
    );
    let bishop = compute_attack(Square::C1, Bitboard(squares(&[Square::E3, Square::A3])), Kind::Bishop).0;
    assert_eq!(bishop, squares(&[Square::B2, Square::A3, Square::D2, Square::E3]));
    assert_eq!(compute_attack(Square::A1, Bitboard(0), Kind::Rook).0, 0x0101_0101_0101_01fe);
    assert_eq!(compute_attack(Square::H8, Bitboard(0), Kind::Bishop).0, 0x0040_2010_0804_0201);
}

#[test]
fn the_index_is_the_product_shifted() {
    assert_eq!(index_of(Bitboard(1), 1 << 63, 63), 1);
    assert_eq!(index_of(Bitboard(3), 1 << 62, 60), 12);
    assert_eq!(index_of(Bitboard(0x0001_0101_0101_017e), 0, 52), 0);
    assert_eq!(index_of(Bitboard(2), 0x8000_0000_0000_0001, 1), 1);
}

#[test]
fn lookup_agrees_with_the_ray_walk_on_every_blocker_set() {
    let magics = load_magics().unwrap();
    assert!(magics.is_valid());
    for index in 0..64 {
        let square = Square::from_usize(index);
        for (kind, entry) in [(Kind::Rook, &magics.rook[index]), (Kind::Bishop, &magics.bishop[index])] {
            assert!(entry.is_valid_for(square, kind));
            assert_eq!(entry.shift as u32, 64 - entry.mask.count_ones());
            for blockers in enumerate_blockers(entry.mask) {
                assert_eq!(entry.find_attack(blockers), compute_attack(square, blockers, kind));
            }
            assert_eq!(entry.default_attack, compute_attack(square, Bitboard(0), kind));
        }
    }
}

#[test]
fn lookup_ignores_what_is_off_the_mask() {
    let magics = load_magics().unwrap();
    let occupancy = Bitboard(0xffff_0000_0000_ffff);
    for index in 0..64 {
        let square = Square::from_usize(index);
        assert_eq!(magics.rook_attack(index, occupancy), compute_attack(square, occupancy, Kind::Rook));
        assert_eq!(magics.bishop_attack(index, occupancy), compute_attack(square, occupancy, Kind::Bishop));
        assert_eq!(magics.rook[index].find_attack(occupancy), compute_attack(square, occupancy, Kind::Rook));
    }
    let rook_a1 = magics.rook_attack(0, Bitboard(squares(&[Square::A4, Square::C1, Square::H8])));
    assert_eq!(rook_a1.0, squares(&[Square::A2, Square::A3, Square::A4, Square::B1, Square::C1]));
}

#[test]
fn a_multiplier_that_collides_is_refused() {
    assert!(MagicEntry::with_magic(Square::A1, Kind::Rook, 0).is_none());
    assert!(MagicEntry::with_magic(Square::A1, Kind::Rook, 1).is_none());
    assert!(MagicEntry::with_magic(Square::D4, Kind::Bishop, 0).is_none());
}

#[test]
fn a_multiplier_that_was_found_is_accepted_again() {
    let found = MagicEntry::generate(Square::E4, Kind::Bishop, u64::MAX).unwrap();
    let again = MagicEntry::with_magic(Square::E4, Kind::Bishop, found.magic).unwrap();
    assert_eq!(again.magic, found.magic);
    assert_eq!(again.mask, found.mask);
    assert_eq!(again.shift, found.shift);
    assert_eq!(again.attack_set, found.attack_set);
    assert!(again.is_valid_for(Square::E4, Kind::Bishop));
    assert!(!again.is_valid_for(Square::E5, Kind::Bishop));
    assert!(!again.is_valid_for(Square::E4, Kind::Rook));
    assert!(!again.is_valid_for(Square::E4, Kind::Queen));
}

#[test]
fn the_search_depends_on_the_seed_alone() {
    let a = MagicEntry::search(Square::C3, Kind::Rook, 12345, u64::MAX).unwrap();
    let b = MagicEntry::search(Square::C3, Kind::Rook, 12345, u64::MAX).unwrap();
    assert_eq!(a.magic, b.magic);
    assert_eq!(a.attack_set, b.attack_set);
    assert!(a.is_valid_for(Square::C3, Kind::Rook));
    assert!(MagicEntry::search(Square::C3, Kind::Rook, 12345, 0).is_none());
    let zero = MagicEntry::search(Square::C3, Kind::Bishop, 0, u64::MAX).unwrap();
    let golden = MagicEntry::search(Square::C3, Kind::Bishop, 0x9e37_79b9_7f4a_7c15, u64::MAX).unwrap();
    assert_eq!(zero.magic, golden.magic);
}

#[test]
fn the_generator_steps_as_xorshift_does() {
    assert_eq!(xorshift(1), 0x0000_0000_0200_0001);
    assert_eq!(xorshift(1 << 40), (1 << 40) ^ (1 << 28) ^ (1 << 53) ^ (1 << 26) ^ (1 << 13) ^ (1 << 1));
    assert_eq!(xorshift(0), 0);
    assert_eq!(scramble(1), 0x2545_f491_4f6c_dd1d);
    assert_eq!(scramble(2), 0x4a8b_e922_9ed9_ba3a);
}

#[test]
fn a_corrupted_entry_is_found_out() {
    let mut entry = MagicEntry::generate(Square::A1, Kind::Rook, u64::MAX).unwrap();
    assert!(entry.is_valid_for(Square::A1, Kind::Rook));
    let key = *entry.attack_set.keys().next().unwrap();
    entry.attack_set.insert(key, Bitboard(0));
    assert!(!entry.is_valid_for(Square::A1, Kind::Rook));
    let mut shifted = MagicEntry::generate(Square::A1, Kind::Rook, u64::MAX).unwrap();
    shifted.shift = 51;
    assert!(!shifted.is_valid_for(Square::A1, Kind::Rook));
    let mut tables = load_magics().unwrap();
    tables.bishop.pop();
    assert!(!tables.is_valid());
    let swapped = load_magics().unwrap();
    let crossed = Magics { rook: swapped.bishop, bishop: swapped.rook };
    assert!(!crossed.is_valid());
}

#[test]
fn a_table_holds_an_entry_for_every_square() {
    let table = generate_table(Kind::Bishop, u64::MAX).unwrap();
    assert_eq!(table.len(), 64);
    for (index, entry) in table.iter().enumerate() {
        assert_eq!(entry.mask, generate_bishop_attack_mask(Square::from_usize(index)));
    }
    assert!(generate_table(Kind::Rook, 0).is_none());
    assert!(MagicEntry::generate(Square::A1, Kind::Rook, 0).is_none());
    let drawn = MagicEntry::generate(Square::A1, Kind::Rook, u64::MAX).unwrap();
    assert_eq!(MagicEntry::with_magic(Square::A1, Kind::Rook, drawn.magic).unwrap().attack_set, drawn.attack_set);
}

#[test]
fn trying_a_multiplier_fills_or_fails() {
    let reference = Reference::new(Square::B2, Kind::Bishop);
    assert_eq!(reference.blockers.len(), 1 << reference.mask.count_ones());
    assert_eq!(reference.attacks.len(), reference.blockers.len());
    assert_eq!(reference.shift as u32, 64 - reference.mask.count_ones());
    let mut scratch = Scratch::new();
    assert!(!hashes_cleanly(&reference.blockers, &reference.attacks, 0, reference.shift, &mut scratch));
    assert!(build_table(&reference.blockers, &reference.attacks, 0, reference.shift).is_none());
    let entry = MagicEntry::generate(Square::B2, Kind::Bishop, u64::MAX).unwrap();
    assert!(hashes_cleanly(&reference.blockers, &reference.attacks, entry.magic, reference.shift, &mut scratch));
    let table = build_table(&reference.blockers, &reference.attacks, entry.magic, reference.shift).unwrap();
    assert_eq!(table, entry.attack_set);
    for (blockers, attack) in reference.blockers.iter().zip(reference.attacks.iter()) {
        assert_eq!(table[&index_of(*blockers, entry.magic, reference.shift)], *attack);
    }
    assert!(reference.entry(Square::B2, Kind::Bishop, entry.magic).is_some());
    assert!(reference.entry(Square::B2, Kind::Bishop, 0).is_none());
}

#[test]
fn king_knight_and_pawn_patterns() {
    assert_eq!(king_moves(Bitboard(1 << 27)).0, squares(&[
        Square::C3, Square::D3, Square::E3, Square::C4, Square::E4, Square::C5, Square::D5, Square::E5,
    ]));
    assert_eq!(king_moves(Bitboard(1)).0, squares(&[Square::A2, Square::B1, Square::B2]));
    assert_eq!(king_moves(Bitboard(1 << 63)).0, squares(&[Square::G8, Square::G7, Square::H7]));
    assert_eq!(knight_moves(Bitboard(1 << 36)).0, squares(&[
        Square::D7, Square::F7, Square::C6, Square::G6, Square::C4, Square::G4, Square::D3, Square::F3,
    ]));
    assert_eq!(knight_moves(Bitboard(1 << 63)).0, squares(&[Square::F7, Square::G6]));
    assert_eq!(knight_moves(Bitboard(1)).0, squares(&[Square::B3, Square::C2]));
    assert_eq!(pawn_attacks_of(Color::White, Bitboard(1 << 12)).0, squares(&[Square::D3, Square::F3]));
    assert_eq!(pawn_attacks_of(Color::White, Bitboard(1 << 8)).0, squares(&[Square::B3]));
    assert_eq!(pawn_attacks_of(Color::White, Bitboard(1 << 15)).0, squares(&[Square::G3]));
    assert_eq!(pawn_attacks_of(Color::Black, Bitboard(1 << 52)).0, squares(&[Square::D6, Square::F6]));
    assert_eq!(pawn_attacks_of(Color::Black, Bitboard(1 << 48)).0, squares(&[Square::B6]));
    assert_eq!(pawn_attacks_of(Color::Black, Bitboard(1 << 55)).0, squares(&[Square::G6]));
}
