//! One kind of piece of one colour, with the squares it stands on.
use crate::bitboard::Bitboard;
use crate::utils::{Color, Kind};
use vstd::prelude::*;

verus! {

/// The pieces of one kind and colour: the tag and the set of their squares.
#[derive(Clone, Copy, PartialEq, Eq, Debug, Hash)]
pub struct Piece {
    pub kind: Kind,
    pub color: Color,
    pub bitboard: Bitboard,
}

/// The squares that the pieces of `kind` and `color` stand on when a game starts.
pub open spec fn initial_squares(kind: Kind, color: Color) -> u64 {
    match (kind, color) {
        (Kind::Pawn, Color::White) => 0xFF00,
        (Kind::Knight, Color::White) => 0x42,
        (Kind::Bishop, Color::White) => 0x24,
        (Kind::Rook, Color::White) => 0x81,
        (Kind::Queen, Color::White) => 0x8,
        (Kind::King, Color::White) => 0x10,
        (Kind::Pawn, Color::Black) => 0x00FF_0000_0000_0000,
        (Kind::Knight, Color::Black) => 0x4200_0000_0000_0000,
        (Kind::Bishop, Color::Black) => 0x2400_0000_0000_0000,
        (Kind::Rook, Color::Black) => 0x8100_0000_0000_0000,
        (Kind::Queen, Color::Black) => 0x0800_0000_0000_0000,
        (Kind::King, Color::Black) => 0x1000_0000_0000_0000,
    }
}

/// The figurine of a piece of `kind` and `color`.
pub open spec fn figurine(kind: Kind, color: Color) -> char {
    match (kind, color) {
        (Kind::King, Color::White) => '\u{2654}',
        (Kind::Queen, Color::White) => '\u{2655}',
        (Kind::Rook, Color::White) => '\u{2656}',
        (Kind::Bishop, Color::White) => '\u{2657}',
        (Kind::Knight, Color::White) => '\u{2658}',
        (Kind::Pawn, Color::White) => '\u{2659}',
        (Kind::King, Color::Black) => '\u{265A}',
        (Kind::Queen, Color::Black) => '\u{265B}',
        (Kind::Rook, Color::Black) => '\u{265C}',
        (Kind::Bishop, Color::Black) => '\u{265D}',
        (Kind::Knight, Color::Black) => '\u{265E}',
        (Kind::Pawn, Color::Black) => '\u{265F}',
    }
}

impl Piece {
    /// The pieces of `kind` and `color` on their squares at the start of a game.
    pub fn create_initial(kind: Kind, color: Color) -> (r: Piece)
        ensures
            r.kind == kind,
            r.color == color,
            r.bitboard.0 == initial_squares(kind, color),
    {
        let bitboard = match (kind, color) {
            (Kind::Pawn, Color::White) => Bitboard(0xFF00),
            (Kind::Knight, Color::White) => Bitboard(0x42),
            (Kind::Bishop, Color::White) => Bitboard(0x24),
            (Kind::Rook, Color::White) => Bitboard(0x81),
            (Kind::Queen, Color::White) => Bitboard(0x8),
            (Kind::King, Color::White) => Bitboard(0x10),
            (Kind::Pawn, Color::Black) => Bitboard(0x00FF_0000_0000_0000),
            (Kind::Knight, Color::Black) => Bitboard(0x4200_0000_0000_0000),
            (Kind::Bishop, Color::Black) => Bitboard(0x2400_0000_0000_0000),
            (Kind::Rook, Color::Black) => Bitboard(0x8100_0000_0000_0000),
            (Kind::Queen, Color::Black) => Bitboard(0x0800_0000_0000_0000),
            (Kind::King, Color::Black) => Bitboard(0x1000_0000_0000_0000),
        };
        Piece { kind, color, bitboard }
    }

    /// The pieces of `kind` and `color` with no square.
    pub fn empty(kind: Kind, color: Color) -> (r: Piece)
        ensures
            r == (Piece { kind, color, bitboard: Bitboard(0) }),
    {
        Piece { kind, color, bitboard: Bitboard(0) }
    }

    /// The figurine that stands for the piece in a diagram.
    pub fn get_char(&self) -> (r: char)
        ensures
            r == figurine(self.kind, self.color),
    {
        match (self.kind, self.color) {
            (Kind::King, Color::White) => '\u{2654}',
            (Kind::Queen, Color::White) => '\u{2655}',
            (Kind::Rook, Color::White) => '\u{2656}',
            (Kind::Bishop, Color::White) => '\u{2657}',
            (Kind::Knight, Color::White) => '\u{2658}',
            (Kind::Pawn, Color::White) => '\u{2659}',
            (Kind::King, Color::Black) => '\u{265A}',
            (Kind::Queen, Color::Black) => '\u{265B}',
            (Kind::Rook, Color::Black) => '\u{265C}',
            (Kind::Bishop, Color::Black) => '\u{265D}',
            (Kind::Knight, Color::Black) => '\u{265E}',
            (Kind::Pawn, Color::Black) => '\u{265F}',
        }
    }
}

} // verus!
