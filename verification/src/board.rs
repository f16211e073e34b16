//! The position: twelve bitboards, the side to move, the castling rights and the en-passant
//! square; its queries and the application of a move.
use crate::bitboard::{
    bit, lemma_bit_nonzero, lemma_bit_one, lemma_bit_ops, lemma_bit_test, lemma_lowest,
    lemma_single, lowest, one, without_lowest, Bitboard,
};
use crate::geometry::{bishop_sees, king_step, knight_jump, pawn_attacks, rook_sees};
use crate::magic::Magics;
use crate::move_gen::{Move, MoveGen};
use crate::piece::{initial_squares, Piece};
use crate::utils::{rank_of, square_mask, Casteling, Color, Kind, Square};
use vstd::prelude::*;

verus! {

/// A position.
#[derive(Clone, Copy, PartialEq, Eq, Debug, Hash)]
pub struct Board {
    /// The side to move.
    pub to_move: Color,
    pub white_pawn: Piece,
    pub white_knight: Piece,
    pub white_bishop: Piece,
    pub white_rook: Piece,
    pub white_queen: Piece,
    pub white_king: Piece,
    pub black_pawn: Piece,
    pub black_knight: Piece,
    pub black_bishop: Piece,
    pub black_rook: Piece,
    pub black_queen: Piece,
    pub black_king: Piece,
    /// Which castling moves are still allowed.
    pub casteling_rights: Casteling,
    /// The square a pawn has just passed over with a double push, if any.
    pub en_passant: Option<Square>,
}

impl Board {
    /// The squares of the pieces of `color` and `kind`, as a word.
    pub open spec fn bb(self, color: Color, kind: Kind) -> u64 {
        match (color, kind) {
            (Color::White, Kind::Pawn) => self.white_pawn.bitboard.0,
            (Color::White, Kind::Knight) => self.white_knight.bitboard.0,
            (Color::White, Kind::Bishop) => self.white_bishop.bitboard.0,
            (Color::White, Kind::Rook) => self.white_rook.bitboard.0,
            (Color::White, Kind::Queen) => self.white_queen.bitboard.0,
            (Color::White, Kind::King) => self.white_king.bitboard.0,
            (Color::Black, Kind::Pawn) => self.black_pawn.bitboard.0,
            (Color::Black, Kind::Knight) => self.black_knight.bitboard.0,
            (Color::Black, Kind::Bishop) => self.black_bishop.bitboard.0,
            (Color::Black, Kind::Rook) => self.black_rook.bitboard.0,
            (Color::Black, Kind::Queen) => self.black_queen.bitboard.0,
            (Color::Black, Kind::King) => self.black_king.bitboard.0,
        }
    }

    /// The position with the squares of the pieces of `color` and `kind` replaced.
    pub open spec fn with_bb(self, color: Color, kind: Kind, value: u64) -> Board {
        match (color, kind) {
            (Color::White, Kind::Pawn) => Board {
                white_pawn: Piece { bitboard: Bitboard(value), ..self.white_pawn },
                ..self
            },
            (Color::White, Kind::Knight) => Board {
                white_knight: Piece { bitboard: Bitboard(value), ..self.white_knight },
                ..self
            },
            (Color::White, Kind::Bishop) => Board {
                white_bishop: Piece { bitboard: Bitboard(value), ..self.white_bishop },
                ..self
            },
            (Color::White, Kind::Rook) => Board {
                white_rook: Piece { bitboard: Bitboard(value), ..self.white_rook },
                ..self
            },
            (Color::White, Kind::Queen) => Board {
                white_queen: Piece { bitboard: Bitboard(value), ..self.white_queen },
                ..self
            },
            (Color::White, Kind::King) => Board {
                white_king: Piece { bitboard: Bitboard(value), ..self.white_king },
                ..self
            },
            (Color::Black, Kind::Pawn) => Board {
                black_pawn: Piece { bitboard: Bitboard(value), ..self.black_pawn },
                ..self
            },
            (Color::Black, Kind::Knight) => Board {
                black_knight: Piece { bitboard: Bitboard(value), ..self.black_knight },
                ..self
            },
            (Color::Black, Kind::Bishop) => Board {
                black_bishop: Piece { bitboard: Bitboard(value), ..self.black_bishop },
                ..self
            },
            (Color::Black, Kind::Rook) => Board {
                black_rook: Piece { bitboard: Bitboard(value), ..self.black_rook },
                ..self
            },
            (Color::Black, Kind::Queen) => Board {
                black_queen: Piece { bitboard: Bitboard(value), ..self.black_queen },
                ..self
            },
            (Color::Black, Kind::King) => Board {
                black_king: Piece { bitboard: Bitboard(value), ..self.black_king },
                ..self
            },
        }
    }

    /// Whether each of the twelve pieces carries the kind and colour of its place.
    pub open spec fn tagged(self) -> bool {
        &&& self.white_pawn.kind == Kind::Pawn
        &&& self.white_pawn.color == Color::White
        &&& self.white_knight.kind == Kind::Knight
        &&& self.white_knight.color == Color::White
        &&& self.white_bishop.kind == Kind::Bishop
        &&& self.white_bishop.color == Color::White
        &&& self.white_rook.kind == Kind::Rook
        &&& self.white_rook.color == Color::White
        &&& self.white_queen.kind == Kind::Queen
        &&& self.white_queen.color == Color::White
        &&& self.white_king.kind == Kind::King
        &&& self.white_king.color == Color::White
        &&& self.black_pawn.kind == Kind::Pawn
        &&& self.black_pawn.color == Color::Black
        &&& self.black_knight.kind == Kind::Knight
        &&& self.black_knight.color == Color::Black
        &&& self.black_bishop.kind == Kind::Bishop
        &&& self.black_bishop.color == Color::Black
        &&& self.black_rook.kind == Kind::Rook
        &&& self.black_rook.color == Color::Black
        &&& self.black_queen.kind == Kind::Queen
        &&& self.black_queen.color == Color::Black
        &&& self.black_king.kind == Kind::King
        &&& self.black_king.color == Color::Black
    }

    /// The squares that `color` occupies.
    pub open spec fn occupied_by(self, color: Color) -> u64 {
        match color {
            Color::White => self.white_pawn.bitboard.0
            | self.white_knight.bitboard.0
            | self.white_bishop.bitboard.0
            | self.white_rook.bitboard.0
            | self.white_queen.bitboard.0
            | self.white_king.bitboard.0,
            Color::Black => self.black_pawn.bitboard.0
            | self.black_knight.bitboard.0
            | self.black_bishop.bitboard.0
            | self.black_rook.bitboard.0
            | self.black_queen.bitboard.0
            | self.black_king.bitboard.0,
        }
    }

    /// The occupied squares.
    pub open spec fn occupied(self) -> u64 {
        self.occupied_by(Color::White) | self.occupied_by(Color::Black)
    }

    /// The pieces on square `i`: the first of the twelve, white before black and pawn to
    /// king, that holds the square.
    pub open spec fn piece_on(self, i: int) -> Option<Piece> {
        if bit(self.white_pawn.bitboard.0, i) {
            Some(self.white_pawn)
        } else if bit(self.white_knight.bitboard.0, i) {
            Some(self.white_knight)
        } else if bit(self.white_bishop.bitboard.0, i) {
            Some(self.white_bishop)
        } else if bit(self.white_rook.bitboard.0, i) {
            Some(self.white_rook)
        } else if bit(self.white_queen.bitboard.0, i) {
            Some(self.white_queen)
        } else if bit(self.white_king.bitboard.0, i) {
            Some(self.white_king)
        } else if bit(self.black_pawn.bitboard.0, i) {
            Some(self.black_pawn)
        } else if bit(self.black_knight.bitboard.0, i) {
            Some(self.black_knight)
        } else if bit(self.black_bishop.bitboard.0, i) {
            Some(self.black_bishop)
        } else if bit(self.black_rook.bitboard.0, i) {
            Some(self.black_rook)
        } else if bit(self.black_queen.bitboard.0, i) {
            Some(self.black_queen)
        } else if bit(self.black_king.bitboard.0, i) {
            Some(self.black_king)
        } else {
            None
        }
    }

    /// The kind of the piece on square `i`, found as by `piece_on`.
    pub open spec fn kind_on(self, i: int) -> Option<Kind> {
        if bit(self.white_pawn.bitboard.0, i) {
            Some(Kind::Pawn)
        } else if bit(self.white_knight.bitboard.0, i) {
            Some(Kind::Knight)
        } else if bit(self.white_bishop.bitboard.0, i) {
            Some(Kind::Bishop)
        } else if bit(self.white_rook.bitboard.0, i) {
            Some(Kind::Rook)
        } else if bit(self.white_queen.bitboard.0, i) {
            Some(Kind::Queen)
        } else if bit(self.white_king.bitboard.0, i) {
            Some(Kind::King)
        } else if bit(self.black_pawn.bitboard.0, i) {
            Some(Kind::Pawn)
        } else if bit(self.black_knight.bitboard.0, i) {
            Some(Kind::Knight)
        } else if bit(self.black_bishop.bitboard.0, i) {
            Some(Kind::Bishop)
        } else if bit(self.black_rook.bitboard.0, i) {
            Some(Kind::Rook)
        } else if bit(self.black_queen.bitboard.0, i) {
            Some(Kind::Queen)
        } else if bit(self.black_king.bitboard.0, i) {
            Some(Kind::King)
        } else {
            None
        }
    }

    /// The en-passant square as a word: that square alone, or nothing.
    pub open spec fn ep_mask(self) -> u64 {
        match self.en_passant {
            None => 0,
            Some(square) => one(square.index()),
        }
    }

    /// The position with no piece, White to move, no castling right and no en-passant square.
    pub open spec fn spec_zero() -> Board {
        Board {
            to_move: Color::White,
            white_pawn: Piece { kind: Kind::Pawn, color: Color::White, bitboard: Bitboard(0) },
            white_knight: Piece { kind: Kind::Knight, color: Color::White, bitboard: Bitboard(0) },
            white_bishop: Piece { kind: Kind::Bishop, color: Color::White, bitboard: Bitboard(0) },
            white_rook: Piece { kind: Kind::Rook, color: Color::White, bitboard: Bitboard(0) },
            white_queen: Piece { kind: Kind::Queen, color: Color::White, bitboard: Bitboard(0) },
            white_king: Piece { kind: Kind::King, color: Color::White, bitboard: Bitboard(0) },
            black_pawn: Piece { kind: Kind::Pawn, color: Color::Black, bitboard: Bitboard(0) },
            black_knight: Piece { kind: Kind::Knight, color: Color::Black, bitboard: Bitboard(0) },
            black_bishop: Piece { kind: Kind::Bishop, color: Color::Black, bitboard: Bitboard(0) },
            black_rook: Piece { kind: Kind::Rook, color: Color::Black, bitboard: Bitboard(0) },
            black_queen: Piece { kind: Kind::Queen, color: Color::Black, bitboard: Bitboard(0) },
            black_king: Piece { kind: Kind::King, color: Color::Black, bitboard: Bitboard(0) },
            casteling_rights: Casteling {
                white_kingside: false,
                white_queenside: false,
                black_kingside: false,
                black_queenside: false,
            },
            en_passant: None,
        }
    }

    /// The position at the start of a game.
    pub open spec fn spec_default() -> Board {
        Board {
            to_move: Color::White,
            white_pawn: Piece {
                kind: Kind::Pawn,
                color: Color::White,
                bitboard: Bitboard(initial_squares(Kind::Pawn, Color::White)),
            },
            white_knight: Piece {
                kind: Kind::Knight,
                color: Color::White,
                bitboard: Bitboard(initial_squares(Kind::Knight, Color::White)),
            },
            white_bishop: Piece {
                kind: Kind::Bishop,
                color: Color::White,
                bitboard: Bitboard(initial_squares(Kind::Bishop, Color::White)),
            },
            white_rook: Piece {
                kind: Kind::Rook,
                color: Color::White,
                bitboard: Bitboard(initial_squares(Kind::Rook, Color::White)),
            },
            white_queen: Piece {
                kind: Kind::Queen,
                color: Color::White,
                bitboard: Bitboard(initial_squares(Kind::Queen, Color::White)),
            },
            white_king: Piece {
                kind: Kind::King,
                color: Color::White,
                bitboard: Bitboard(initial_squares(Kind::King, Color::White)),
            },
            black_pawn: Piece {
                kind: Kind::Pawn,
                color: Color::Black,
                bitboard: Bitboard(initial_squares(Kind::Pawn, Color::Black)),
            },
            black_knight: Piece {
                kind: Kind::Knight,
                color: Color::Black,
                bitboard: Bitboard(initial_squares(Kind::Knight, Color::Black)),
            },
            black_bishop: Piece {
                kind: Kind::Bishop,
                color: Color::Black,
                bitboard: Bitboard(initial_squares(Kind::Bishop, Color::Black)),
            },
            black_rook: Piece {
                kind: Kind::Rook,
                color: Color::Black,
                bitboard: Bitboard(initial_squares(Kind::Rook, Color::Black)),
            },
            black_queen: Piece {
                kind: Kind::Queen,
                color: Color::Black,
                bitboard: Bitboard(initial_squares(Kind::Queen, Color::Black)),
            },
            black_king: Piece {
                kind: Kind::King,
                color: Color::Black,
                bitboard: Bitboard(initial_squares(Kind::King, Color::Black)),
            },
            casteling_rights: Casteling {
                white_kingside: true,
                white_queenside: true,
                black_kingside: true,
                black_queenside: true,
            },
            en_passant: None,
        }
    }

    /// The squares of the pieces of `color` and `kind`.
    pub fn bitboard_of(&self, color: Color, kind: Kind) -> (r: Bitboard)
        ensures
            r.0 == self.bb(color, kind),
    {
        match (color, kind) {
            (Color::White, Kind::Pawn) => self.white_pawn.bitboard,
            (Color::White, Kind::Knight) => self.white_knight.bitboard,
            (Color::White, Kind::Bishop) => self.white_bishop.bitboard,
            (Color::White, Kind::Rook) => self.white_rook.bitboard,
            (Color::White, Kind::Queen) => self.white_queen.bitboard,
            (Color::White, Kind::King) => self.white_king.bitboard,
            (Color::Black, Kind::Pawn) => self.black_pawn.bitboard,
            (Color::Black, Kind::Knight) => self.black_knight.bitboard,
            (Color::Black, Kind::Bishop) => self.black_bishop.bitboard,
            (Color::Black, Kind::Rook) => self.black_rook.bitboard,
            (Color::Black, Kind::Queen) => self.black_queen.bitboard,
            (Color::Black, Kind::King) => self.black_king.bitboard,
        }
    }

    /// Replaces the squares of the pieces of `color` and `kind`.
    pub fn set_bitboard(&mut self, color: Color, kind: Kind, value: Bitboard)
        ensures
            *final(self) == old(self).with_bb(color, kind, value.0),
    {
        match (color, kind) {
            (Color::White, Kind::Pawn) => {
                self.white_pawn.bitboard = value;
            },
            (Color::White, Kind::Knight) => {
                self.white_knight.bitboard = value;
            },
            (Color::White, Kind::Bishop) => {
                self.white_bishop.bitboard = value;
            },
            (Color::White, Kind::Rook) => {
                self.white_rook.bitboard = value;
            },
            (Color::White, Kind::Queen) => {
                self.white_queen.bitboard = value;
            },
            (Color::White, Kind::King) => {
                self.white_king.bitboard = value;
            },
            (Color::Black, Kind::Pawn) => {
                self.black_pawn.bitboard = value;
            },
            (Color::Black, Kind::Knight) => {
                self.black_knight.bitboard = value;
            },
            (Color::Black, Kind::Bishop) => {
                self.black_bishop.bitboard = value;
            },
            (Color::Black, Kind::Rook) => {
                self.black_rook.bitboard = value;
            },
            (Color::Black, Kind::Queen) => {
                self.black_queen.bitboard = value;
            },
            (Color::Black, Kind::King) => {
                self.black_king.bitboard = value;
            },
        }
    }

    /// The piece on `square`, if any.
    pub fn get_piece(&self, square: Square) -> (r: Option<&Piece>)
        ensures
            match r {
                Some(piece) => self.piece_on(square.index()) == Some(*piece),
                None => self.piece_on(square.index()).is_none(),
            },
    {
        let mask: u64 = square_mask(square).0;
        let ghost i = square.index();
        proof {
            lemma_bit_test(self.white_pawn.bitboard.0, i);
            lemma_bit_test(self.white_knight.bitboard.0, i);
            lemma_bit_test(self.white_bishop.bitboard.0, i);
            lemma_bit_test(self.white_rook.bitboard.0, i);
            lemma_bit_test(self.white_queen.bitboard.0, i);
            lemma_bit_test(self.white_king.bitboard.0, i);
            lemma_bit_test(self.black_pawn.bitboard.0, i);
            lemma_bit_test(self.black_knight.bitboard.0, i);
            lemma_bit_test(self.black_bishop.bitboard.0, i);
            lemma_bit_test(self.black_rook.bitboard.0, i);
            lemma_bit_test(self.black_queen.bitboard.0, i);
            lemma_bit_test(self.black_king.bitboard.0, i);
        }
        if self.white_pawn.bitboard.0 & mask != 0 {
            Some(&self.white_pawn)
        } else if self.white_knight.bitboard.0 & mask != 0 {
            Some(&self.white_knight)
        } else if self.white_bishop.bitboard.0 & mask != 0 {
            Some(&self.white_bishop)
        } else if self.white_rook.bitboard.0 & mask != 0 {
            Some(&self.white_rook)
        } else if self.white_queen.bitboard.0 & mask != 0 {
            Some(&self.white_queen)
        } else if self.white_king.bitboard.0 & mask != 0 {
            Some(&self.white_king)
        } else if self.black_pawn.bitboard.0 & mask != 0 {
            Some(&self.black_pawn)
        } else if self.black_knight.bitboard.0 & mask != 0 {
            Some(&self.black_knight)
        } else if self.black_bishop.bitboard.0 & mask != 0 {
            Some(&self.black_bishop)
        } else if self.black_rook.bitboard.0 & mask != 0 {
            Some(&self.black_rook)
        } else if self.black_queen.bitboard.0 & mask != 0 {
            Some(&self.black_queen)
        } else if self.black_king.bitboard.0 & mask != 0 {
            Some(&self.black_king)
        } else {
            None
        }
    }

    /// The position with no piece, White to move, no castling right and no en-passant square.
    pub fn zero() -> (r: Board)
        ensures
            r == Board::spec_zero(),
    {
        Board {
            to_move: Color::White,
            white_pawn: Piece::empty(Kind::Pawn, Color::White),
            white_knight: Piece::empty(Kind::Knight, Color::White),
            white_bishop: Piece::empty(Kind::Bishop, Color::White),
            white_rook: Piece::empty(Kind::Rook, Color::White),
            white_queen: Piece::empty(Kind::Queen, Color::White),
            white_king: Piece::empty(Kind::King, Color::White),
            black_pawn: Piece::empty(Kind::Pawn, Color::Black),
            black_knight: Piece::empty(Kind::Knight, Color::Black),
            black_bishop: Piece::empty(Kind::Bishop, Color::Black),
            black_rook: Piece::empty(Kind::Rook, Color::Black),
            black_queen: Piece::empty(Kind::Queen, Color::Black),
            black_king: Piece::empty(Kind::King, Color::Black),
            casteling_rights: Casteling {
                white_kingside: false,
                white_queenside: false,
                black_kingside: false,
                black_queenside: false,
            },
            en_passant: None,
        }
    }

    /// The squares that White occupies.
    pub fn all_white_pieces(&self) -> (r: Bitboard)
        ensures
            r.0 == self.occupied_by(Color::White),
    {
        Bitboard(
            self.white_pawn.bitboard.0
            | self.white_knight.bitboard.0
            | self.white_bishop.bitboard.0
            | self.white_rook.bitboard.0
            | self.white_queen.bitboard.0
            | self.white_king.bitboard.0,
        )
    }

    /// The squares that Black occupies.
    pub fn all_black_pieces(&self) -> (r: Bitboard)
        ensures
            r.0 == self.occupied_by(Color::Black),
    {
        Bitboard(
            self.black_pawn.bitboard.0
            | self.black_knight.bitboard.0
            | self.black_bishop.bitboard.0
            | self.black_rook.bitboard.0
            | self.black_queen.bitboard.0
            | self.black_king.bitboard.0,
        )
    }

    /// The occupied squares.
    pub fn all_pieces(&self) -> (r: Bitboard)
        ensures
            r.0 == self.occupied(),
    {
        Bitboard(self.all_white_pieces().0 | self.all_black_pieces().0)
    }

    /// The kind of the piece on `square`, if any.
    pub fn get_piece_kind(&self, square: Square) -> (r: Option<Kind>)
        ensures
            r == self.kind_on(square.index()),
    {
        let mask: u64 = square_mask(square).0;
        let ghost i = square.index();
        proof {
            lemma_bit_test(self.white_pawn.bitboard.0, i);
            lemma_bit_test(self.white_knight.bitboard.0, i);
            lemma_bit_test(self.white_bishop.bitboard.0, i);
            lemma_bit_test(self.white_rook.bitboard.0, i);
            lemma_bit_test(self.white_queen.bitboard.0, i);
            lemma_bit_test(self.white_king.bitboard.0, i);
            lemma_bit_test(self.black_pawn.bitboard.0, i);
            lemma_bit_test(self.black_knight.bitboard.0, i);
            lemma_bit_test(self.black_bishop.bitboard.0, i);
            lemma_bit_test(self.black_rook.bitboard.0, i);
            lemma_bit_test(self.black_queen.bitboard.0, i);
            lemma_bit_test(self.black_king.bitboard.0, i);
        }
        if self.white_pawn.bitboard.0 & mask != 0 {
            Some(Kind::Pawn)
        } else if self.white_knight.bitboard.0 & mask != 0 {
            Some(Kind::Knight)
        } else if self.white_bishop.bitboard.0 & mask != 0 {
            Some(Kind::Bishop)
        } else if self.white_rook.bitboard.0 & mask != 0 {
            Some(Kind::Rook)
        } else if self.white_queen.bitboard.0 & mask != 0 {
            Some(Kind::Queen)
        } else if self.white_king.bitboard.0 & mask != 0 {
            Some(Kind::King)
        } else if self.black_pawn.bitboard.0 & mask != 0 {
            Some(Kind::Pawn)
        } else if self.black_knight.bitboard.0 & mask != 0 {
            Some(Kind::Knight)
        } else if self.black_bishop.bitboard.0 & mask != 0 {
            Some(Kind::Bishop)
        } else if self.black_rook.bitboard.0 & mask != 0 {
            Some(Kind::Rook)
        } else if self.black_queen.bitboard.0 & mask != 0 {
            Some(Kind::Queen)
        } else if self.black_king.bitboard.0 & mask != 0 {
            Some(Kind::King)
        } else {
            None
        }
    }

    /// The en-passant square as a bitboard: that square alone, or nothing.
    pub fn get_en_passant(&self) -> (r: Bitboard)
        ensures
            r.0 == self.ep_mask(),
    {
        match self.en_passant {
            None => Bitboard(0),
            Some(square) => square_mask(square),
        }
    }
}

/// The castling rights once the piece of `m` has left its square: a king gives up both
/// rights of its colour, a rook that leaves its corner the right of that side.
pub open spec fn rights_after_leaving(rights: Casteling, m: Move) -> Casteling {
    match (m.piece_kind, m.piece_color) {
        (Kind::King, Color::White) => Casteling {
            white_kingside: false,
            white_queenside: false,
            ..rights
        },
        (Kind::King, Color::Black) => Casteling {
            black_kingside: false,
            black_queenside: false,
            ..rights
        },
        (Kind::Rook, Color::White) => match m.from {
            Square::H1 => Casteling { white_kingside: false, ..rights },
            Square::A1 => Casteling { white_queenside: false, ..rights },
            _ => rights,
        },
        (Kind::Rook, Color::Black) => match m.from {
            Square::H8 => Casteling { black_kingside: false, ..rights },
            Square::A8 => Casteling { black_queenside: false, ..rights },
            _ => rights,
        },
        _ => rights,
    }
}

/// The castling rights once a piece of `kind` and `color` was taken by a move to `to`: a rook
/// taken on a corner of its own first rank loses the right of that side, the a-file corner
/// the queenside one and the h-file corner the kingside one.
pub open spec fn rights_after_capture(
    rights: Casteling,
    kind: Kind,
    color: Color,
    to: Square,
) -> Casteling {
    match (kind, color) {
        (Kind::Rook, Color::White) => match to {
            Square::H1 => Casteling { white_kingside: false, ..rights },
            Square::A1 => Casteling { white_queenside: false, ..rights },
            _ => rights,
        },
        (Kind::Rook, Color::Black) => match to {
            Square::H8 => Casteling { black_kingside: false, ..rights },
            Square::A8 => Casteling { black_queenside: false, ..rights },
            _ => rights,
        },
        _ => rights,
    }
}

/// The square that the piece taken by `m` stands on, as a word: the destination, or for a
/// capture in passing the square one rank behind it as the mover sees it.
pub open spec fn captured_square(m: Move) -> u64 {
    if m.en_passant {
        match m.piece_color {
            Color::White => one(m.to.index()) >> 8,
            Color::Black => one(m.to.index()) << 8,
        }
    } else {
        one(m.to.index())
    }
}

/// Whether `m` can be applied: a castling move goes to one of the four castling squares.
pub open spec fn appliable(m: Move) -> bool {
    m.casteling ==> (m.to == Square::G1 || m.to == Square::C1 || m.to == Square::G8 || m.to
        == Square::C8)
}

impl Board {
    /// The position once the piece of `m` has left its square.
    pub open spec fn lifted(self, m: Move) -> Board {
        let left = self.with_bb(
            m.piece_color,
            m.piece_kind,
            self.bb(m.piece_color, m.piece_kind) & !one(m.from.index()),
        );
        Board { casteling_rights: rights_after_leaving(self.casteling_rights, m), ..left }
    }

    /// The position once the piece of `m` stands on its destination, unless it is a pawn
    /// that promotes.
    pub open spec fn landed(self, m: Move) -> Board {
        if m.promoting_piece.is_none() {
            self.with_bb(
                m.piece_color,
                m.piece_kind,
                self.bb(m.piece_color, m.piece_kind) | one(m.to.index()),
            )
        } else {
            self
        }
    }

    /// The position once the piece that `m` takes is gone.
    pub open spec fn taken(self, m: Move) -> Board {
        match m.captured_piece {
            Some(kind) => {
                let enemy = m.piece_color.spec_opponent();
                let gone = self.with_bb(enemy, kind, self.bb(enemy, kind) & !captured_square(m));
                Board {
                    casteling_rights: rights_after_capture(
                        self.casteling_rights,
                        kind,
                        enemy,
                        m.to,
                    ),
                    ..gone
                }
            },
            None => self,
        }
    }

    /// The position once the piece that the pawn of `m` turns into stands on the destination.
    pub open spec fn promoted(self, m: Move) -> Board {
        match m.promoting_piece {
            Some(kind) => self.with_bb(
                m.piece_color,
                kind,
                self.bb(m.piece_color, kind) | one(m.to.index()),
            ),
            None => self,
        }
    }

    /// The position with the en-passant square that `m` leaves: the square between origin
    /// and destination after a double push, none otherwise.
    pub open spec fn passed(self, m: Move) -> Board {
        Board {
            en_passant: if m.double_push {
                Some(Square::at((m.to.index() + m.from.index()) / 2))
            } else {
                None
            },
            ..self
        }
    }

    /// The position once the rook of a castling move has jumped over the king.
    pub open spec fn castled(self, m: Move) -> Board {
        if m.casteling {
            match m.to {
                Square::G1 => self.with_bb(
                    Color::White,
                    Kind::Rook,
                    (self.bb(Color::White, Kind::Rook) & !one(Square::H1.index())) | one(
                        Square::F1.index(),
                    ),
                ),
                Square::C1 => self.with_bb(
                    Color::White,
                    Kind::Rook,
                    (self.bb(Color::White, Kind::Rook) & !one(Square::A1.index())) | one(
                        Square::D1.index(),
                    ),
                ),
                Square::G8 => self.with_bb(
                    Color::Black,
                    Kind::Rook,
                    (self.bb(Color::Black, Kind::Rook) & !one(Square::H8.index())) | one(
                        Square::F8.index(),
                    ),
                ),
                Square::C8 => self.with_bb(
                    Color::Black,
                    Kind::Rook,
                    (self.bb(Color::Black, Kind::Rook) & !one(Square::A8.index())) | one(
                        Square::D8.index(),
                    ),
                ),
                _ => self,
            }
        } else {
            self
        }
    }

    /// The position after `m`: the piece leaves its square and arrives, what it takes is
    /// removed, a promoted piece appears, the castling rook jumps, rights and en-passant
    /// square are updated and the turn passes.
    pub open spec fn spec_do_move(self, m: Move) -> Board {
        let after = self.lifted(m).landed(m).taken(m).promoted(m).passed(m).castled(m);
        Board { to_move: self.to_move.spec_opponent(), ..after }
    }

    /// Takes the piece of `m` off its square and updates the castling rights of the mover.
    fn lift(&mut self, m: &Move)
        ensures
            *final(self) == old(self).lifted(*m),
    {
        let from_bitboard = square_mask(m.from).0;
        let origin = self.bitboard_of(m.piece_color, m.piece_kind).0;
        self.set_bitboard(m.piece_color, m.piece_kind, Bitboard(origin & !from_bitboard));
        match (m.piece_kind, m.piece_color) {
            (Kind::King, Color::White) => {
                self.casteling_rights.white_kingside = false;
                self.casteling_rights.white_queenside = false;
            },
            (Kind::King, Color::Black) => {
                self.casteling_rights.black_kingside = false;
                self.casteling_rights.black_queenside = false;
            },
            (Kind::Rook, Color::White) => match m.from {
                Square::H1 => {
                    self.casteling_rights.white_kingside = false;
                },
                Square::A1 => {
                    self.casteling_rights.white_queenside = false;
                },
                _ => {},
            },
            (Kind::Rook, Color::Black) => match m.from {
                Square::H8 => {
                    self.casteling_rights.black_kingside = false;
                },
                Square::A8 => {
                    self.casteling_rights.black_queenside = false;
                },
                _ => {},
            },
            _ => {},
        }
    }

    /// Puts the piece of `m` on its destination, unless it is a pawn that promotes.
    fn land(&mut self, m: &Move)
        ensures
            *final(self) == old(self).landed(*m),
    {
        if m.promoting_piece.is_none() {
            let placed = self.bitboard_of(m.piece_color, m.piece_kind).0;
            self.set_bitboard(
                m.piece_color,
                m.piece_kind,
                Bitboard(placed | square_mask(m.to).0),
            );
        }
    }

    /// Removes the piece that `m` takes and updates the castling rights of its side.
    fn take(&mut self, m: &Move)
        ensures
            *final(self) == old(self).taken(*m),
    {
        match m.captured_piece {
            Some(kind) => {
                let enemy = m.piece_color.opponent();
                let to_bitboard = square_mask(m.to).0;
                let victim: u64 = if m.en_passant {
                    match m.piece_color {
                        Color::White => to_bitboard >> 8,
                        Color::Black => to_bitboard << 8,
                    }
                } else {
                    to_bitboard
                };
                let theirs = self.bitboard_of(enemy, kind).0;
                self.set_bitboard(enemy, kind, Bitboard(theirs & !victim));
                match (kind, enemy) {
                    (Kind::Rook, Color::White) => match m.to {
                        Square::H1 => {
                            self.casteling_rights.white_kingside = false;
                        },
                        Square::A1 => {
                            self.casteling_rights.white_queenside = false;
                        },
                        _ => {},
                    },
                    (Kind::Rook, Color::Black) => match m.to {
                        Square::H8 => {
                            self.casteling_rights.black_kingside = false;
                        },
                        Square::A8 => {
                            self.casteling_rights.black_queenside = false;
                        },
                        _ => {},
                    },
                    _ => {},
                }
            },
            None => {},
        }
    }

    /// Puts the piece that the pawn of `m` turns into on the destination.
    fn promote(&mut self, m: &Move)
        ensures
            *final(self) == old(self).promoted(*m),
    {
        match m.promoting_piece {
            Some(kind) => {
                let theirs = self.bitboard_of(m.piece_color, kind).0;
                self.set_bitboard(m.piece_color, kind, Bitboard(theirs | square_mask(m.to).0));
            },
            None => {},
        }
    }

    /// Sets the en-passant square that `m` leaves.
    fn pass(&mut self, m: &Move)
        ensures
            *final(self) == old(self).passed(*m),
    {
        if m.double_push {
            let middle = (m.to.to_usize() + m.from.to_usize()) / 2;
            self.en_passant = Some(Square::from_usize(middle));
        } else {
            self.en_passant = None;
        }
    }

    /// Moves the rook of a castling move.
    fn castle(&mut self, m: &Move)
        requires
            appliable(*m),
        ensures
            *final(self) == old(self).castled(*m),
    {
        if m.casteling {
            let (color, corner, beside) = match m.to {
                Square::G1 => (Color::White, Square::H1, Square::F1),
                Square::C1 => (Color::White, Square::A1, Square::D1),
                Square::G8 => (Color::Black, Square::H8, Square::F8),
                _ => (Color::Black, Square::A8, Square::D8),
            };
            let rooks = self.bitboard_of(color, Kind::Rook).0;
            self.set_bitboard(
                color,
                Kind::Rook,
                Bitboard((rooks & !square_mask(corner).0) | square_mask(beside).0),
            );
        }
    }

    /// Applies `m` in place.
    pub fn do_move(&mut self, m: &Move)
        requires
            appliable(*m),
        ensures
            *final(self) == old(self).spec_do_move(*m),
    {
        self.lift(m);
        self.land(m);
        self.take(m);
        self.promote(m);
        self.pass(m);
        self.castle(m);
        self.to_move = self.to_move.opponent();
    }
}

impl Board {
    /// Whether a piece of `by` stands on square `p` and attacks square `t` from there: a pawn
    /// one rank ahead and one file aside, a knight by its jump, a king by its step, a bishop,
    /// rook or queen along a line with nothing in between.
    pub open spec fn attacks_from(self, by: Color, p: int, t: int) -> bool {
        let occ = self.occupied();
        ||| bit(self.bb(by, Kind::Pawn), p) && pawn_attacks(by, p, t)
        ||| bit(self.bb(by, Kind::Knight), p) && knight_jump(p, t)
        ||| bit(self.bb(by, Kind::King), p) && king_step(p, t)
        ||| (bit(self.bb(by, Kind::Bishop), p) || bit(self.bb(by, Kind::Queen), p)) && bishop_sees(
            occ,
            p,
            t,
        )
        ||| (bit(self.bb(by, Kind::Rook), p) || bit(self.bb(by, Kind::Queen), p)) && rook_sees(
            occ,
            p,
            t,
        )
    }

    /// Whether some piece of `by` attacks square `t`.
    pub open spec fn attacked(self, t: int, by: Color) -> bool {
        exists|p: int| 0 <= p < 64 && #[trigger] self.attacks_from(by, p, t)
    }

    /// The square of the king of `color`: the lowest one, should there be several.
    pub open spec fn king_square(self, color: Color) -> int {
        lowest(self.bb(color, Kind::King))
    }

    /// Whether the king of `color` is attacked by the other side.
    pub open spec fn in_check(self, color: Color) -> bool {
        self.attacked(self.king_square(color), color.spec_opponent())
    }

    /// Whether the king of `color` is attacked by the other side.
    pub fn is_in_check(&self, color: Color, magics: &Magics) -> (r: bool)
        requires
            magics.valid(),
            self.bb(color, Kind::King) != 0,
        ensures
            r == self.in_check(color),
    {
        let mut king = self.bitboard_of(color, Kind::King);
        proof {
            lemma_lowest(king.0);
        }
        let king_square = match king.pop_lsb() {
            Some(index) => Square::from_usize(index),
            None => Square::A1,
        };
        let generator = MoveGen {
            board: self,
            magics,
            pseudo_move_list: Vec::new(),
            legal_move_list: Vec::new(),
        };
        generator.is_square_under_attack(king_square, color.opponent())
    }
}

/// Replacing the squares of one kind and colour changes nothing else.
pub proof fn lemma_with_bb(board: Board, color: Color, kind: Kind, value: u64)
    ensures
        forall|c: Color, k: Kind| #[trigger]
            board.with_bb(color, kind, value).bb(c, k) == if c == color && k == kind {
                value
            } else {
                board.bb(c, k)
            },
        board.with_bb(color, kind, value).to_move == board.to_move,
        board.with_bb(color, kind, value).casteling_rights == board.casteling_rights,
        board.with_bb(color, kind, value).en_passant == board.en_passant,
        board.with_bb(color, kind, value).tagged() == board.tagged(),
{
}

/// The side whose rook jumps when a king castles to `to`.
pub open spec fn castling_side(to: Square) -> Option<Color> {
    match to {
        Square::G1 | Square::C1 => Some(Color::White),
        Square::G8 | Square::C8 => Some(Color::Black),
        _ => None,
    }
}

/// The corner that the rook leaves when a king castles to `to`, as a word.
pub open spec fn castling_corner(to: Square) -> u64 {
    match to {
        Square::G1 => one(Square::H1.index()),
        Square::C1 => one(Square::A1.index()),
        Square::G8 => one(Square::H8.index()),
        _ => one(Square::A8.index()),
    }
}

/// The square that the rook reaches when a king castles to `to`, as a word.
pub open spec fn castling_beside(to: Square) -> u64 {
    match to {
        Square::G1 => one(Square::F1.index()),
        Square::C1 => one(Square::D1.index()),
        Square::G8 => one(Square::F8.index()),
        _ => one(Square::D8.index()),
    }
}

/// The squares of the pieces of `color` and `kind` after `m`, told for that kind alone: the
/// mover leaves its square and lands unless it promotes, the piece taken disappears, the
/// promoted piece appears, and the rook of a castling king jumps.
pub open spec fn moved_bb(board: Board, m: Move, color: Color, kind: Kind) -> u64 {
    let from = one(m.from.index());
    let to = one(m.to.index());
    let mover = color == m.piece_color && kind == m.piece_kind;
    let v0 = board.bb(color, kind);
    let v1 = if mover {
        v0 & !from
    } else {
        v0
    };
    let v2 = if mover && m.promoting_piece.is_none() {
        v1 | to
    } else {
        v1
    };
    let v3 = if m.captured_piece == Some(kind) && color == m.piece_color.spec_opponent() {
        v2 & !captured_square(m)
    } else {
        v2
    };
    let v4 = if m.promoting_piece == Some(kind) && color == m.piece_color {
        v3 | to
    } else {
        v3
    };
    if m.casteling && kind == Kind::Rook && castling_side(m.to) == Some(color) {
        (v4 & !castling_corner(m.to)) | castling_beside(m.to)
    } else {
        v4
    }
}

/// What lifting the mover does to the squares of one kind and colour.
proof fn lemma_lifted_bb(board: Board, m: Move, color: Color, kind: Kind)
    ensures
        board.lifted(m).bb(color, kind) == if color == m.piece_color && kind == m.piece_kind {
            board.bb(color, kind) & !one(m.from.index())
        } else {
            board.bb(color, kind)
        },
{
    lemma_with_bb(
        board,
        m.piece_color,
        m.piece_kind,
        board.bb(m.piece_color, m.piece_kind) & !one(m.from.index()),
    );
}

/// What landing the mover does to the squares of one kind and colour.
proof fn lemma_landed_bb(board: Board, m: Move, color: Color, kind: Kind)
    ensures
        board.landed(m).bb(color, kind) == if color == m.piece_color && kind == m.piece_kind
            && m.promoting_piece.is_none() {
            board.bb(color, kind) | one(m.to.index())
        } else {
            board.bb(color, kind)
        },
{
    lemma_with_bb(
        board,
        m.piece_color,
        m.piece_kind,
        board.bb(m.piece_color, m.piece_kind) | one(m.to.index()),
    );
}

/// What removing the piece taken does to the squares of one kind and colour.
proof fn lemma_taken_bb(board: Board, m: Move, color: Color, kind: Kind)
    ensures
        board.taken(m).bb(color, kind) == if m.captured_piece == Some(kind) && color
            == m.piece_color.spec_opponent() {
            board.bb(color, kind) & !captured_square(m)
        } else {
            board.bb(color, kind)
        },
{
    if m.captured_piece.is_some() {
        let enemy = m.piece_color.spec_opponent();
        let k = m.captured_piece.unwrap();
        lemma_with_bb(board, enemy, k, board.bb(enemy, k) & !captured_square(m));
    }
}

/// What placing the promoted piece does to the squares of one kind and colour.
proof fn lemma_promoted_bb(board: Board, m: Move, color: Color, kind: Kind)
    ensures
        board.promoted(m).bb(color, kind) == if m.promoting_piece == Some(kind) && color
            == m.piece_color {
            board.bb(color, kind) | one(m.to.index())
        } else {
            board.bb(color, kind)
        },
{
    if m.promoting_piece.is_some() {
        let k = m.promoting_piece.unwrap();
        lemma_with_bb(board, m.piece_color, k, board.bb(m.piece_color, k) | one(m.to.index()));
    }
}

/// What the jump of the castling rook does to the squares of one kind and colour.
proof fn lemma_castled_bb(board: Board, m: Move, color: Color, kind: Kind)
    ensures
        board.castled(m).bb(color, kind) == if m.casteling && kind == Kind::Rook && castling_side(
            m.to,
        ) == Some(color) {
            (board.bb(color, kind) & !castling_corner(m.to)) | castling_beside(m.to)
        } else {
            board.bb(color, kind)
        },
{
    if m.casteling && castling_side(m.to).is_some() {
        let side = castling_side(m.to).unwrap();
        lemma_with_bb(
            board,
            side,
            Kind::Rook,
            (board.bb(side, Kind::Rook) & !castling_corner(m.to)) | castling_beside(m.to),
        );
    }
}

/// What a move does to the squares of one kind and colour.
#[verifier::spinoff_prover]
#[verifier::rlimit(50)]
pub proof fn lemma_moved_bb(board: Board, m: Move, color: Color, kind: Kind)
    ensures
        board.spec_do_move(m).bb(color, kind) == moved_bb(board, m, color, kind),
{
    let b1 = board.lifted(m);
    let b2 = b1.landed(m);
    let b3 = b2.taken(m);
    let b4 = b3.promoted(m);
    let b5 = b4.passed(m);
    let b6 = b5.castled(m);
    lemma_lifted_bb(board, m, color, kind);
    lemma_landed_bb(b1, m, color, kind);
    lemma_taken_bb(b2, m, color, kind);
    lemma_promoted_bb(b3, m, color, kind);
    assert(b5.bb(color, kind) == b4.bb(color, kind));
    lemma_castled_bb(b5, m, color, kind);
    assert(board.spec_do_move(m).bb(color, kind) == b6.bb(color, kind));
}

/// A square is occupied exactly when one of the twelve bitboards holds it.
pub proof fn lemma_occupied(board: Board, u: int)
    requires
        0 <= u < 64,
    ensures
        bit(board.occupied_by(Color::White), u) == exists|kind: Kind| #[trigger]
            bit(board.bb(Color::White, kind), u),
        bit(board.occupied_by(Color::Black), u) == exists|kind: Kind| #[trigger]
            bit(board.bb(Color::Black, kind), u),
        bit(board.occupied(), u) == exists|color: Color, kind: Kind| #[trigger]
            bit(board.bb(color, kind), u),
{
    let w = board.occupied_by(Color::White);
    let b = board.occupied_by(Color::Black);
    lemma_bit_ops(w, b, u);
    lemma_side_occupied(board, Color::White, u);
    lemma_side_occupied(board, Color::Black, u);
    if bit(w, u) {
        let kind = choose|kind: Kind| #[trigger] bit(board.bb(Color::White, kind), u);
        assert(bit(board.bb(Color::White, kind), u));
    }
    if bit(b, u) {
        let kind = choose|kind: Kind| #[trigger] bit(board.bb(Color::Black, kind), u);
        assert(bit(board.bb(Color::Black, kind), u));
    }
}

/// A square is occupied by a side exactly when one of its six bitboards holds it.
proof fn lemma_side_occupied(board: Board, color: Color, u: int)
    requires
        0 <= u < 64,
    ensures
        bit(board.occupied_by(color), u) == exists|kind: Kind| #[trigger]
            bit(board.bb(color, kind), u),
{
    let p = board.bb(color, Kind::Pawn);
    let n = board.bb(color, Kind::Knight);
    let b = board.bb(color, Kind::Bishop);
    let r = board.bb(color, Kind::Rook);
    let q = board.bb(color, Kind::Queen);
    let k = board.bb(color, Kind::King);
    lemma_bit_ops(p, n, u);
    lemma_bit_ops(p | n, b, u);
    lemma_bit_ops(p | n | b, r, u);
    lemma_bit_ops(p | n | b | r, q, u);
    lemma_bit_ops(p | n | b | r | q, k, u);
    assert(board.occupied_by(color) == p | n | b | r | q | k);
    if bit(board.occupied_by(color), u) {
        let kind = if bit(p, u) {
            Kind::Pawn
        } else if bit(n, u) {
            Kind::Knight
        } else if bit(b, u) {
            Kind::Bishop
        } else if bit(r, u) {
            Kind::Rook
        } else if bit(q, u) {
            Kind::Queen
        } else {
            Kind::King
        };
        assert(bit(board.bb(color, kind), u));
    }
}

impl Board {
    /// Whether no square is held by two of the twelve bitboards.
    pub open spec fn disjoint(self) -> bool {
        forall|c1: Color, k1: Kind, c2: Color, k2: Kind, u: int|
            0 <= u < 64 && (c1 != c2 || k1 != k2) ==> !(#[trigger] bit(self.bb(c1, k1), u)
                && #[trigger] bit(self.bb(c2, k2), u))
    }

    /// Whether `color` has exactly one king.
    pub open spec fn one_king(self, color: Color) -> bool {
        exists|i: int| 0 <= i < 64 && self.bb(color, Kind::King) == #[trigger] one(i)
    }

    /// Whether the en-passant square, if there is one, is an empty square of the third or
    /// the sixth rank.
    pub open spec fn passant_sound(self) -> bool {
        match self.en_passant {
            Some(square) => (rank_of(square.index()) == 2 || rank_of(square.index()) == 5)
                && !bit(self.occupied(), square.index()),
            None => true,
        }
    }

    /// Whether a side that may still castle has its king on its first square.
    pub open spec fn rights_sound(self) -> bool {
        let rights = self.casteling_rights;
        &&& rights.white_kingside || rights.white_queenside ==> bit(
            self.bb(Color::White, Kind::King),
            Square::E1.index(),
        )
        &&& rights.black_kingside || rights.black_queenside ==> bit(
            self.bb(Color::Black, Kind::King),
            Square::E8.index(),
        )
    }

    /// Whether the position is sound: the twelve pieces carry their own kind and colour, no
    /// square is held twice, each side has exactly one king, the en-passant square is an
    /// empty square of the third or sixth rank, and whoever may castle has the king at home.
    pub open spec fn valid(self) -> bool {
        &&& self.tagged()
        &&& self.disjoint()
        &&& self.one_king(Color::White)
        &&& self.one_king(Color::Black)
        &&& self.passant_sound()
        &&& self.rights_sound()
    }
}

/// The colour and kind of the bitboard with number `j`, white before black and pawn to king.
pub open spec fn slot(j: int) -> (Color, Kind) {
    (
        if j < 6 {
            Color::White
        } else {
            Color::Black
        },
        if j % 6 == 0 {
            Kind::Pawn
        } else if j % 6 == 1 {
            Kind::Knight
        } else if j % 6 == 2 {
            Kind::Bishop
        } else if j % 6 == 3 {
            Kind::Rook
        } else if j % 6 == 4 {
            Kind::Queen
        } else {
            Kind::King
        },
    )
}

/// The number of the bitboard of `color` and `kind`.
pub open spec fn slot_of(color: Color, kind: Kind) -> int {
    (match color {
        Color::White => 0int,
        Color::Black => 6int,
    }) + (match kind {
        Kind::Pawn => 0int,
        Kind::Knight => 1int,
        Kind::Bishop => 2int,
        Kind::Rook => 3int,
        Kind::Queen => 4int,
        Kind::King => 5int,
    })
}

impl Board {
    /// The twelve bitboards in the order of their numbers.
    pub fn words(&self) -> (r: [u64; 12])
        ensures
            forall|j: int| 0 <= j < 12 ==> #[trigger] r[j] == self.bb(slot(j).0, slot(j).1),
    {
        [
            self.white_pawn.bitboard.0,
            self.white_knight.bitboard.0,
            self.white_bishop.bitboard.0,
            self.white_rook.bitboard.0,
            self.white_queen.bitboard.0,
            self.white_king.bitboard.0,
            self.black_pawn.bitboard.0,
            self.black_knight.bitboard.0,
            self.black_bishop.bitboard.0,
            self.black_rook.bitboard.0,
            self.black_queen.bitboard.0,
            self.black_king.bitboard.0,
        ]
    }

    /// Whether no square is held by two of the twelve bitboards.
    pub fn is_disjoint(&self) -> (r: bool)
        ensures
            r == self.disjoint(),
    {
        let words = self.words();
        let mut seen: u64 = 0;
        let mut j: usize = 0;
        proof {
            assert forall|u: int| 0 <= u < 64 implies !bit(seen, u) by {
                lemma_bit_ops(0, 0, u);
            }
        }
        while j < 12
            invariant
                j <= 12,
                forall|i: int| 0 <= i < 12 ==> #[trigger] words[i] == self.bb(slot(i).0, slot(i).1),
                forall|u: int|
                    0 <= u < 64 ==> (bit(seen, u) <==> exists|i: int|
                        0 <= i < j && #[trigger] bit(words[i], u)),
                forall|a: int, b: int, u: int|
                    0 <= a < b < j && 0 <= u < 64 ==> !(#[trigger] bit(words[a], u)
                        && #[trigger] bit(words[b], u)),
            decreases 12 - j,
        {
            let word = words[j];
            if seen & word != 0 {
                proof {
                    lemma_bit_nonzero(seen & word);
                    let u = choose|u: int| 0 <= u < 64 && bit(seen & word, u);
                    lemma_bit_ops(seen, word, u);
                    let i = choose|i: int| 0 <= i < j && #[trigger] bit(words[i], u);
                    assert(bit(self.bb(slot(i).0, slot(i).1), u));
                    assert(bit(self.bb(slot(j as int).0, slot(j as int).1), u));
                }
                return false;
            }
            proof {
                let joined = seen | word;
                lemma_bit_nonzero(seen & word);
                assert forall|u: int| 0 <= u < 64 implies (bit(joined, u) <==> exists|i: int|
                    0 <= i < j + 1 && #[trigger] bit(words[i], u)) by {
                    lemma_bit_ops(seen, word, u);
                    if bit(seen, u) {
                        let i = choose|i: int| 0 <= i < j && #[trigger] bit(words[i], u);
                        assert(bit(words[i], u));
                    }
                    if bit(word, u) {
                        assert(bit(words[j as int], u));
                    }
                }
                assert forall|a: int, b: int, u: int| 0 <= a < b < j + 1 && 0 <= u < 64 implies !(
                #[trigger] bit(words[a], u) && #[trigger] bit(words[b], u)) by {
                    if b == j && bit(words[a], u) && bit(words[b], u) {
                        lemma_bit_ops(seen, word, u);
                        assert(bit(seen & word, u));
                    }
                }
            }
            seen = seen | word;
            j += 1;
        }
        proof {
            assert forall|c1: Color, k1: Kind, c2: Color, k2: Kind, u: int|
                0 <= u < 64 && (c1 != c2 || k1 != k2) implies !(#[trigger] bit(self.bb(c1, k1), u)
                && #[trigger] bit(self.bb(c2, k2), u)) by {
                let a = slot_of(c1, k1);
                let b = slot_of(c2, k2);
                assert(words[a] == self.bb(c1, k1));
                assert(words[b] == self.bb(c2, k2));
                if a < b {
                    assert(!(bit(words[a], u) && bit(words[b], u)));
                } else {
                    assert(!(bit(words[b], u) && bit(words[a], u)));
                }
            }
        }
        true
    }

    /// Whether the position is sound: the twelve pieces carry their own kind and colour, no
    /// square is held twice, each side has exactly one king, the en-passant square is an
    /// empty square of the third or sixth rank, and whoever may castle has the king at home.
    pub fn is_valid(&self) -> (r: bool)
        ensures
            r == self.valid(),
    {
        let tagged = self.white_pawn.kind == Kind::Pawn && self.white_pawn.color == Color::White
            && self.white_knight.kind == Kind::Knight && self.white_knight.color == Color::White
            && self.white_bishop.kind == Kind::Bishop && self.white_bishop.color == Color::White
            && self.white_rook.kind == Kind::Rook && self.white_rook.color == Color::White
            && self.white_queen.kind == Kind::Queen && self.white_queen.color == Color::White
            && self.white_king.kind == Kind::King && self.white_king.color == Color::White
            && self.black_pawn.kind == Kind::Pawn && self.black_pawn.color == Color::Black
            && self.black_knight.kind == Kind::Knight && self.black_knight.color == Color::Black
            && self.black_bishop.kind == Kind::Bishop && self.black_bishop.color == Color::Black
            && self.black_rook.kind == Kind::Rook && self.black_rook.color == Color::Black
            && self.black_queen.kind == Kind::Queen && self.black_queen.color == Color::Black
            && self.black_king.kind == Kind::King && self.black_king.color == Color::Black;
        if !tagged || !self.is_disjoint() {
            return false;
        }
        let white = self.white_king.bitboard.0;
        let black = self.black_king.bitboard.0;
        proof {
            lemma_single(white);
            lemma_single(black);
        }
        if white == 0 || white & (white - 1) != 0 || black == 0 || black & (black - 1) != 0 {
            return false;
        }
        let passant = match self.en_passant {
            Some(square) => {
                proof {
                    lemma_bit_test(self.occupied(), square.index());
                }
                (square.rank() == 2 || square.rank() == 5) && self.all_pieces().0 & square_mask(
                    square,
                ).0 == 0
            },
            None => true,
        };
        let rights = self.casteling_rights;
        proof {
            lemma_bit_test(white, Square::E1.index());
            lemma_bit_test(black, Square::E8.index());
        }
        let white_home = white & square_mask(Square::E1).0 != 0;
        let black_home = black & square_mask(Square::E8).0 != 0;
        passant && (!(rights.white_kingside || rights.white_queenside) || white_home) && (!(
        rights.black_kingside || rights.black_queenside) || black_home)
    }
}

/// Bit `u` of each of the twelve bitboards of the starting position.
proof fn lemma_initial_bits(u: u64)
    by (bit_vector)
    requires
        u < 64,
    ensures
        ((0xff00u64 >> u) & 1 == 1) == (8 <= u < 16),
        ((0x42u64 >> u) & 1 == 1) == (u == 1 || u == 6),
        ((0x24u64 >> u) & 1 == 1) == (u == 2 || u == 5),
        ((0x81u64 >> u) & 1 == 1) == (u == 0 || u == 7),
        ((0x8u64 >> u) & 1 == 1) == (u == 3),
        ((0x10u64 >> u) & 1 == 1) == (u == 4),
        ((0x00ff_0000_0000_0000u64 >> u) & 1 == 1) == (48 <= u < 56),
        ((0x4200_0000_0000_0000u64 >> u) & 1 == 1) == (u == 57 || u == 62),
        ((0x2400_0000_0000_0000u64 >> u) & 1 == 1) == (u == 58 || u == 61),
        ((0x8100_0000_0000_0000u64 >> u) & 1 == 1) == (u == 56 || u == 63),
        ((0x0800_0000_0000_0000u64 >> u) & 1 == 1) == (u == 59),
        ((0x1000_0000_0000_0000u64 >> u) & 1 == 1) == (u == 60),
        0x10u64 == 1u64 << 4,
        0x1000_0000_0000_0000u64 == 1u64 << 60,
{
}

/// The starting position is sound.
pub proof fn lemma_default_valid()
    ensures
        Board::spec_default().valid(),
{
    let board = Board::spec_default();
    lemma_initial_bits(0);
    assert(board.bb(Color::White, Kind::King) == one(4));
    assert(board.bb(Color::Black, Kind::King) == one(60));
    assert forall|c1: Color, k1: Kind, c2: Color, k2: Kind, u: int|
        0 <= u < 64 && (c1 != c2 || k1 != k2) implies !(#[trigger] bit(board.bb(c1, k1), u)
        && #[trigger] bit(board.bb(c2, k2), u)) by {
        lemma_initial_bits(u as u64);
    }
    lemma_initial_bits(4);
    lemma_initial_bits(60);
}

/// The castling rights after a move: those left when the mover has gone, less what a
/// capture takes.
pub open spec fn moved_rights(board: Board, m: Move) -> Casteling {
    let left = rights_after_leaving(board.casteling_rights, m);
    match m.captured_piece {
        Some(kind) => rights_after_capture(left, kind, m.piece_color.spec_opponent(), m.to),
        None => left,
    }
}

/// What a move does to the castling rights.
#[verifier::spinoff_prover]
pub proof fn lemma_moved_rights(board: Board, m: Move)
    ensures
        board.spec_do_move(m).casteling_rights == moved_rights(board, m),
{
    let enemy = m.piece_color.spec_opponent();
    let from = one(m.from.index());
    let to = one(m.to.index());
    lemma_with_bb(board, m.piece_color, m.piece_kind, board.bb(m.piece_color, m.piece_kind) & !from);
    let b1 = board.lifted(m);
    assert(b1.casteling_rights == rights_after_leaving(board.casteling_rights, m));
    lemma_with_bb(b1, m.piece_color, m.piece_kind, b1.bb(m.piece_color, m.piece_kind) | to);
    let b2 = b1.landed(m);
    assert(b2.casteling_rights == b1.casteling_rights);
    if m.captured_piece.is_some() {
        let k = m.captured_piece.unwrap();
        lemma_with_bb(b2, enemy, k, b2.bb(enemy, k) & !captured_square(m));
    }
    let b3 = b2.taken(m);
    assert(b3.casteling_rights == moved_rights(board, m));
    if m.promoting_piece.is_some() {
        let k = m.promoting_piece.unwrap();
        lemma_with_bb(b3, m.piece_color, k, b3.bb(m.piece_color, k) | to);
    }
    let b4 = b3.promoted(m);
    assert(b4.casteling_rights == b3.casteling_rights);
    let b5 = b4.passed(m);
    assert(b5.casteling_rights == b3.casteling_rights);
    if m.casteling && castling_side(m.to).is_some() {
        let side = castling_side(m.to).unwrap();
        lemma_with_bb(
            b5,
            side,
            Kind::Rook,
            (b5.bb(side, Kind::Rook) & !castling_corner(m.to)) | castling_beside(m.to),
        );
    }
    let b6 = b5.castled(m);
    assert(b6.casteling_rights == b3.casteling_rights);
}

/// What a move does to the en-passant square and to the turn.
#[verifier::spinoff_prover]
pub proof fn lemma_moved_turn(board: Board, m: Move)
    ensures
        board.spec_do_move(m).en_passant == if m.double_push {
            Some(Square::at((m.to.index() + m.from.index()) / 2))
        } else {
            None
        },
        board.spec_do_move(m).to_move == board.to_move.spec_opponent(),
{
    let b4 = board.lifted(m).landed(m).taken(m).promoted(m);
    let b5 = b4.passed(m);
    if m.casteling && castling_side(m.to).is_some() {
        let side = castling_side(m.to).unwrap();
        lemma_with_bb(
            b5,
            side,
            Kind::Rook,
            (b5.bb(side, Kind::Rook) & !castling_corner(m.to)) | castling_beside(m.to),
        );
    }
    assert(b5.castled(m).en_passant == b5.en_passant);
}

/// A move of a side that has a king leaves that side with a king, unless it turns the king
/// into another piece.
pub proof fn lemma_king_survives(board: Board, m: Move)
    requires
        board.bb(m.piece_color, Kind::King) != 0,
        m.piece_kind == Kind::King ==> m.promoting_piece.is_none(),
    ensures
        board.spec_do_move(m).bb(m.piece_color, Kind::King) != 0,
{
    let color = m.piece_color;
    let to = m.to.index();
    m.to.lemma_index();
    let lifted = board.lifted(m);
    let landed = lifted.landed(m);
    let taken = landed.taken(m);
    let promoted = taken.promoted(m);
    let x = lifted.bb(color, Kind::King);
    lemma_bit_ops(x, one(to), to);
    lemma_bit_one(to, to);
    lemma_bit_nonzero(x | one(to));
    assert(landed.bb(color, Kind::King) != 0);
    assert(taken.bb(color, Kind::King) == landed.bb(color, Kind::King));
    let y = taken.bb(color, Kind::King);
    lemma_bit_ops(y, one(to), to);
    lemma_bit_nonzero(y | one(to));
    assert(promoted.bb(color, Kind::King) != 0);
    assert(promoted.passed(m).bb(color, Kind::King) == promoted.bb(color, Kind::King));
    assert(promoted.passed(m).castled(m).bb(color, Kind::King) == promoted.bb(color, Kind::King));
}

impl Default for Board {
    /// The position at the start of a game.
    fn default() -> (r: Board)
        ensures
            r == Board::spec_default(),
            r.valid(),
    {
        proof {
            lemma_default_valid();
        }
        Board {
            to_move: Color::White,
            white_pawn: Piece::create_initial(Kind::Pawn, Color::White),
            white_knight: Piece::create_initial(Kind::Knight, Color::White),
            white_bishop: Piece::create_initial(Kind::Bishop, Color::White),
            white_rook: Piece::create_initial(Kind::Rook, Color::White),
            white_queen: Piece::create_initial(Kind::Queen, Color::White),
            white_king: Piece::create_initial(Kind::King, Color::White),
            black_pawn: Piece::create_initial(Kind::Pawn, Color::Black),
            black_knight: Piece::create_initial(Kind::Knight, Color::Black),
            black_bishop: Piece::create_initial(Kind::Bishop, Color::Black),
            black_rook: Piece::create_initial(Kind::Rook, Color::Black),
            black_queen: Piece::create_initial(Kind::Queen, Color::Black),
            black_king: Piece::create_initial(Kind::King, Color::Black),
            casteling_rights: Casteling::default(),
            en_passant: None,
        }
    }
}

} // verus!
