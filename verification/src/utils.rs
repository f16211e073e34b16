//! Colours, piece kinds, squares, castling rights and the fixed masks of the board.
use crate::bitboard::{bit, Bitboard};
use vstd::prelude::*;

verus! {

/// One of the two sides.
#[derive(Clone, Copy, PartialEq, Eq, Structural, Debug, Hash)]
pub enum Color {
    White,
    Black,
}

impl Color {
    /// The other side.
    pub open spec fn spec_opponent(self) -> Color {
        match self {
            Color::White => Color::Black,
            Color::Black => Color::White,
        }
    }

    /// The other side.
    #[verifier::when_used_as_spec(spec_opponent)]
    pub fn opponent(self) -> (r: Color)
        ensures
            r == self.spec_opponent(),
    {
        match self {
            Color::White => Color::Black,
            Color::Black => Color::White,
        }
    }
}

/// What a piece is, whatever its colour.
#[derive(Clone, Copy, PartialEq, Eq, Structural, Debug, Hash)]
pub enum Kind {
    Pawn,
    Knight,
    Bishop,
    Rook,
    Queen,
    King,
}

/// A square of the board. The squares are listed rank by rank from a1 to h8, so that the
/// position of a square in this list is `8 * rank + file`, its bit in a bitboard.
#[derive(Clone, Copy, PartialEq, Eq, Structural, Debug, Hash)]
pub enum Square {
    A1, B1, C1, D1, E1, F1, G1, H1,
    A2, B2, C2, D2, E2, F2, G2, H2,
    A3, B3, C3, D3, E3, F3, G3, H3,
    A4, B4, C4, D4, E4, F4, G4, H4,
    A5, B5, C5, D5, E5, F5, G5, H5,
    A6, B6, C6, D6, E6, F6, G6, H6,
    A7, B7, C7, D7, E7, F7, G7, H7,
    A8, B8, C8, D8, E8, F8, G8, H8,
}

/// Rank (0 for the first rank) of the square with index `i`.
pub open spec fn rank_of(i: int) -> int {
    i / 8
}

/// File (0 for the a-file) of the square with index `i`.
pub open spec fn file_of(i: int) -> int {
    i % 8
}

/// Whether `(rank, file)` names a square of the board.
pub open spec fn on_board(rank: int, file: int) -> bool {
    0 <= rank < 8 && 0 <= file < 8
}

impl Square {
    /// The bit index of the square, `8 * rank + file`.
    pub open spec fn index(self) -> int {
        match self {
            Square::A1 => 0,
            Square::B1 => 1,
            Square::C1 => 2,
            Square::D1 => 3,
            Square::E1 => 4,
            Square::F1 => 5,
            Square::G1 => 6,
            Square::H1 => 7,
            Square::A2 => 8,
            Square::B2 => 9,
            Square::C2 => 10,
            Square::D2 => 11,
            Square::E2 => 12,
            Square::F2 => 13,
            Square::G2 => 14,
            Square::H2 => 15,
            Square::A3 => 16,
            Square::B3 => 17,
            Square::C3 => 18,
            Square::D3 => 19,
            Square::E3 => 20,
            Square::F3 => 21,
            Square::G3 => 22,
            Square::H3 => 23,
            Square::A4 => 24,
            Square::B4 => 25,
            Square::C4 => 26,
            Square::D4 => 27,
            Square::E4 => 28,
            Square::F4 => 29,
            Square::G4 => 30,
            Square::H4 => 31,
            Square::A5 => 32,
            Square::B5 => 33,
            Square::C5 => 34,
            Square::D5 => 35,
            Square::E5 => 36,
            Square::F5 => 37,
            Square::G5 => 38,
            Square::H5 => 39,
            Square::A6 => 40,
            Square::B6 => 41,
            Square::C6 => 42,
            Square::D6 => 43,
            Square::E6 => 44,
            Square::F6 => 45,
            Square::G6 => 46,
            Square::H6 => 47,
            Square::A7 => 48,
            Square::B7 => 49,
            Square::C7 => 50,
            Square::D7 => 51,
            Square::E7 => 52,
            Square::F7 => 53,
            Square::G7 => 54,
            Square::H7 => 55,
            Square::A8 => 56,
            Square::B8 => 57,
            Square::C8 => 58,
            Square::D8 => 59,
            Square::E8 => 60,
            Square::F8 => 61,
            Square::G8 => 62,
            Square::H8 => 63,
        }
    }

    /// The square with bit index `i`; meaningful for `0 <= i < 64`.
    pub open spec fn at(i: int) -> Square {
        if i == 0 {
            Square::A1
        } else if i == 1 {
            Square::B1
        } else if i == 2 {
            Square::C1
        } else if i == 3 {
            Square::D1
        } else if i == 4 {
            Square::E1
        } else if i == 5 {
            Square::F1
        } else if i == 6 {
            Square::G1
        } else if i == 7 {
            Square::H1
        } else if i == 8 {
            Square::A2
        } else if i == 9 {
            Square::B2
        } else if i == 10 {
            Square::C2
        } else if i == 11 {
            Square::D2
        } else if i == 12 {
            Square::E2
        } else if i == 13 {
            Square::F2
        } else if i == 14 {
            Square::G2
        } else if i == 15 {
            Square::H2
        } else if i == 16 {
            Square::A3
        } else if i == 17 {
            Square::B3
        } else if i == 18 {
            Square::C3
        } else if i == 19 {
            Square::D3
        } else if i == 20 {
            Square::E3
        } else if i == 21 {
            Square::F3
        } else if i == 22 {
            Square::G3
        } else if i == 23 {
            Square::H3
        } else if i == 24 {
            Square::A4
        } else if i == 25 {
            Square::B4
        } else if i == 26 {
            Square::C4
        } else if i == 27 {
            Square::D4
        } else if i == 28 {
            Square::E4
        } else if i == 29 {
            Square::F4
        } else if i == 30 {
            Square::G4
        } else if i == 31 {
            Square::H4
        } else if i == 32 {
            Square::A5
        } else if i == 33 {
            Square::B5
        } else if i == 34 {
            Square::C5
        } else if i == 35 {
            Square::D5
        } else if i == 36 {
            Square::E5
        } else if i == 37 {
            Square::F5
        } else if i == 38 {
            Square::G5
        } else if i == 39 {
            Square::H5
        } else if i == 40 {
            Square::A6
        } else if i == 41 {
            Square::B6
        } else if i == 42 {
            Square::C6
        } else if i == 43 {
            Square::D6
        } else if i == 44 {
            Square::E6
        } else if i == 45 {
            Square::F6
        } else if i == 46 {
            Square::G6
        } else if i == 47 {
            Square::H6
        } else if i == 48 {
            Square::A7
        } else if i == 49 {
            Square::B7
        } else if i == 50 {
            Square::C7
        } else if i == 51 {
            Square::D7
        } else if i == 52 {
            Square::E7
        } else if i == 53 {
            Square::F7
        } else if i == 54 {
            Square::G7
        } else if i == 55 {
            Square::H7
        } else if i == 56 {
            Square::A8
        } else if i == 57 {
            Square::B8
        } else if i == 58 {
            Square::C8
        } else if i == 59 {
            Square::D8
        } else if i == 60 {
            Square::E8
        } else if i == 61 {
            Square::F8
        } else if i == 62 {
            Square::G8
        } else {
            Square::H8
        }
    }

    /// The bit index as a `u8`.
    pub fn to_u8(self) -> (r: u8)
        ensures
            r == self.index(),
            r < 64,
    {
        match self {
            Square::A1 => 0,
            Square::B1 => 1,
            Square::C1 => 2,
            Square::D1 => 3,
            Square::E1 => 4,
            Square::F1 => 5,
            Square::G1 => 6,
            Square::H1 => 7,
            Square::A2 => 8,
            Square::B2 => 9,
            Square::C2 => 10,
            Square::D2 => 11,
            Square::E2 => 12,
            Square::F2 => 13,
            Square::G2 => 14,
            Square::H2 => 15,
            Square::A3 => 16,
            Square::B3 => 17,
            Square::C3 => 18,
            Square::D3 => 19,
            Square::E3 => 20,
            Square::F3 => 21,
            Square::G3 => 22,
            Square::H3 => 23,
            Square::A4 => 24,
            Square::B4 => 25,
            Square::C4 => 26,
            Square::D4 => 27,
            Square::E4 => 28,
            Square::F4 => 29,
            Square::G4 => 30,
            Square::H4 => 31,
            Square::A5 => 32,
            Square::B5 => 33,
            Square::C5 => 34,
            Square::D5 => 35,
            Square::E5 => 36,
            Square::F5 => 37,
            Square::G5 => 38,
            Square::H5 => 39,
            Square::A6 => 40,
            Square::B6 => 41,
            Square::C6 => 42,
            Square::D6 => 43,
            Square::E6 => 44,
            Square::F6 => 45,
            Square::G6 => 46,
            Square::H6 => 47,
            Square::A7 => 48,
            Square::B7 => 49,
            Square::C7 => 50,
            Square::D7 => 51,
            Square::E7 => 52,
            Square::F7 => 53,
            Square::G7 => 54,
            Square::H7 => 55,
            Square::A8 => 56,
            Square::B8 => 57,
            Square::C8 => 58,
            Square::D8 => 59,
            Square::E8 => 60,
            Square::F8 => 61,
            Square::G8 => 62,
            Square::H8 => 63,
        }
    }

    /// The bit index as a `usize`.
    pub fn to_usize(self) -> (r: usize)
        ensures
            r == self.index(),
            r < 64,
    {
        let r: u8 = self.to_u8();
        r as usize
    }

    /// The square with bit index `n`.
    pub fn from_u8(n: u8) -> (r: Square)
        requires
            n < 64,
        ensures
            r.index() == n,
            r == Square::at(n as int),
    {
        match n {
            0 => Square::A1,
            1 => Square::B1,
            2 => Square::C1,
            3 => Square::D1,
            4 => Square::E1,
            5 => Square::F1,
            6 => Square::G1,
            7 => Square::H1,
            8 => Square::A2,
            9 => Square::B2,
            10 => Square::C2,
            11 => Square::D2,
            12 => Square::E2,
            13 => Square::F2,
            14 => Square::G2,
            15 => Square::H2,
            16 => Square::A3,
            17 => Square::B3,
            18 => Square::C3,
            19 => Square::D3,
            20 => Square::E3,
            21 => Square::F3,
            22 => Square::G3,
            23 => Square::H3,
            24 => Square::A4,
            25 => Square::B4,
            26 => Square::C4,
            27 => Square::D4,
            28 => Square::E4,
            29 => Square::F4,
            30 => Square::G4,
            31 => Square::H4,
            32 => Square::A5,
            33 => Square::B5,
            34 => Square::C5,
            35 => Square::D5,
            36 => Square::E5,
            37 => Square::F5,
            38 => Square::G5,
            39 => Square::H5,
            40 => Square::A6,
            41 => Square::B6,
            42 => Square::C6,
            43 => Square::D6,
            44 => Square::E6,
            45 => Square::F6,
            46 => Square::G6,
            47 => Square::H6,
            48 => Square::A7,
            49 => Square::B7,
            50 => Square::C7,
            51 => Square::D7,
            52 => Square::E7,
            53 => Square::F7,
            54 => Square::G7,
            55 => Square::H7,
            56 => Square::A8,
            57 => Square::B8,
            58 => Square::C8,
            59 => Square::D8,
            60 => Square::E8,
            61 => Square::F8,
            62 => Square::G8,
            _ => Square::H8,
        }
    }

    /// The square with bit index `n`.
    pub fn from_usize(n: usize) -> (r: Square)
        requires
            n < 64,
        ensures
            r.index() == n,
            r == Square::at(n as int),
    {
        Square::from_u8(n as u8)
    }

    /// Rank of the square, 0 for the first rank.
    pub fn rank(self) -> (r: u8)
        ensures
            r == rank_of(self.index()),
            r < 8,
    {
        let i: u8 = self.to_u8();
        i / 8
    }

    /// File of the square, 0 for the a-file.
    pub fn file(self) -> (r: u8)
        ensures
            r == file_of(self.index()),
            r < 8,
    {
        let i: u8 = self.to_u8();
        i % 8
    }

    /// Every square has an index below 64, and `at` undoes `index`.
    pub proof fn lemma_index(self)
        ensures
            0 <= self.index() < 64,
            Square::at(self.index()) == self,
    {
    }

    /// `index` undoes `at` on the 64 indices.
    pub proof fn lemma_at(i: int)
        requires
            0 <= i < 64,
        ensures
            Square::at(i).index() == i,
    {
    }
}

/// Which castling moves each side may still make.
#[derive(Clone, Copy, PartialEq, Eq, Structural, Debug, Hash)]
pub struct Casteling {
    pub white_kingside: bool,
    pub white_queenside: bool,
    pub black_kingside: bool,
    pub black_queenside: bool,
}

impl Default for Casteling {
    /// All four rights, as at the start of a game.
    fn default() -> (r: Casteling)
        ensures
            r == (Casteling {
                white_kingside: true,
                white_queenside: true,
                black_kingside: true,
                black_queenside: true,
            }),
    {
        Casteling {
            white_kingside: true,
            white_queenside: true,
            black_kingside: true,
            black_queenside: true,
        }
    }
}

/// The squares of each rank, first rank first.
pub const MASK_RANK: [u64; 8] = [
    0x0000_0000_0000_00ff,
    0x0000_0000_0000_ff00,
    0x0000_0000_00ff_0000,
    0x0000_0000_ff00_0000,
    0x0000_00ff_0000_0000,
    0x0000_ff00_0000_0000,
    0x00ff_0000_0000_0000,
    0xff00_0000_0000_0000,
];

/// The squares off each rank.
pub const CLEAR_RANK: [u64; 8] = [
    0xffff_ffff_ffff_ff00,
    0xffff_ffff_ffff_00ff,
    0xffff_ffff_ff00_ffff,
    0xffff_ffff_00ff_ffff,
    0xffff_ff00_ffff_ffff,
    0xffff_00ff_ffff_ffff,
    0xff00_ffff_ffff_ffff,
    0x00ff_ffff_ffff_ffff,
];

/// The squares of each file, a-file first.
pub const MASK_FILE: [u64; 8] = [
    0x0101_0101_0101_0101,
    0x0202_0202_0202_0202,
    0x0404_0404_0404_0404,
    0x0808_0808_0808_0808,
    0x1010_1010_1010_1010,
    0x2020_2020_2020_2020,
    0x4040_4040_4040_4040,
    0x8080_8080_8080_8080,
];

/// The squares off each file.
pub const CLEAR_FILE: [u64; 8] = [
    0xfefe_fefe_fefe_fefe,
    0xfdfd_fdfd_fdfd_fdfd,
    0xfbfb_fbfb_fbfb_fbfb,
    0xf7f7_f7f7_f7f7_f7f7,
    0xefef_efef_efef_efef,
    0xdfdf_dfdf_dfdf_dfdf,
    0xbfbf_bfbf_bfbf_bfbf,
    0x7f7f_7f7f_7f7f_7f7f,
];

/// Bit `t` of each rank and file mask and of its complement.
proof fn lemma_edge_masks_word(t: u64)
    by (bit_vector)
    requires
        t < 64,
    ensures
        ((0x0000_0000_0000_00ffu64 >> t) & 1 == 1) == (t / 8 == 0),
        ((0xffff_ffff_ffff_ff00u64 >> t) & 1 == 1) == (t / 8 != 0),
        ((0x0000_0000_0000_ff00u64 >> t) & 1 == 1) == (t / 8 == 1),
        ((0xffff_ffff_ffff_00ffu64 >> t) & 1 == 1) == (t / 8 != 1),
        ((0x0000_0000_00ff_0000u64 >> t) & 1 == 1) == (t / 8 == 2),
        ((0xffff_ffff_ff00_ffffu64 >> t) & 1 == 1) == (t / 8 != 2),
        ((0x0000_0000_ff00_0000u64 >> t) & 1 == 1) == (t / 8 == 3),
        ((0xffff_ffff_00ff_ffffu64 >> t) & 1 == 1) == (t / 8 != 3),
        ((0x0000_00ff_0000_0000u64 >> t) & 1 == 1) == (t / 8 == 4),
        ((0xffff_ff00_ffff_ffffu64 >> t) & 1 == 1) == (t / 8 != 4),
        ((0x0000_ff00_0000_0000u64 >> t) & 1 == 1) == (t / 8 == 5),
        ((0xffff_00ff_ffff_ffffu64 >> t) & 1 == 1) == (t / 8 != 5),
        ((0x00ff_0000_0000_0000u64 >> t) & 1 == 1) == (t / 8 == 6),
        ((0xff00_ffff_ffff_ffffu64 >> t) & 1 == 1) == (t / 8 != 6),
        ((0xff00_0000_0000_0000u64 >> t) & 1 == 1) == (t / 8 == 7),
        ((0x00ff_ffff_ffff_ffffu64 >> t) & 1 == 1) == (t / 8 != 7),
        ((0x0101_0101_0101_0101u64 >> t) & 1 == 1) == (t % 8 == 0),
        ((0xfefe_fefe_fefe_fefeu64 >> t) & 1 == 1) == (t % 8 != 0),
        ((0x0202_0202_0202_0202u64 >> t) & 1 == 1) == (t % 8 == 1),
        ((0xfdfd_fdfd_fdfd_fdfdu64 >> t) & 1 == 1) == (t % 8 != 1),
        ((0x0404_0404_0404_0404u64 >> t) & 1 == 1) == (t % 8 == 2),
        ((0xfbfb_fbfb_fbfb_fbfbu64 >> t) & 1 == 1) == (t % 8 != 2),
        ((0x0808_0808_0808_0808u64 >> t) & 1 == 1) == (t % 8 == 3),
        ((0xf7f7_f7f7_f7f7_f7f7u64 >> t) & 1 == 1) == (t % 8 != 3),
        ((0x1010_1010_1010_1010u64 >> t) & 1 == 1) == (t % 8 == 4),
        ((0xefef_efef_efef_efefu64 >> t) & 1 == 1) == (t % 8 != 4),
        ((0x2020_2020_2020_2020u64 >> t) & 1 == 1) == (t % 8 == 5),
        ((0xdfdf_dfdf_dfdf_dfdfu64 >> t) & 1 == 1) == (t % 8 != 5),
        ((0x4040_4040_4040_4040u64 >> t) & 1 == 1) == (t % 8 == 6),
        ((0xbfbf_bfbf_bfbf_bfbfu64 >> t) & 1 == 1) == (t % 8 != 6),
        ((0x8080_8080_8080_8080u64 >> t) & 1 == 1) == (t % 8 == 7),
        ((0x7f7f_7f7f_7f7f_7f7fu64 >> t) & 1 == 1) == (t % 8 != 7),
{
}

/// `MASK_RANK[r]` holds the squares of rank `r`, `CLEAR_RANK[r]` all the others.
pub proof fn lemma_rank_masks(r: int, t: int)
    requires
        0 <= r < 8,
        0 <= t < 64,
    ensures
        bit(MASK_RANK[r], t) == (rank_of(t) == r),
        bit(CLEAR_RANK[r], t) == (rank_of(t) != r),
{
    lemma_edge_masks_word(t as u64);
}

/// `MASK_FILE[f]` holds the squares of file `f`, `CLEAR_FILE[f]` all the others.
pub proof fn lemma_file_masks(f: int, t: int)
    requires
        0 <= f < 8,
        0 <= t < 64,
    ensures
        bit(MASK_FILE[f], t) == (file_of(t) == f),
        bit(CLEAR_FILE[f], t) == (file_of(t) != f),
{
    lemma_edge_masks_word(t as u64);
}

/// The bitboard that holds `square` alone.
pub fn square_mask(square: Square) -> (r: Bitboard)
    ensures
        r.0 == 1u64 << (square.index() as u64),
{
    let i: u8 = square.to_u8();
    Bitboard(1u64 << i)
}

} // verus!
