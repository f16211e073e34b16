//! Chess move generation on bitboards, with magic-bitboard sliding attacks.
//!
//! A [`Board`] holds twelve bitboards, the side to move, the castling rights and the
//! en-passant square. A [`MoveGen`] lists the pseudo-legal and the legal moves of a board,
//! and answers whether a square is attacked; it looks sliding attacks up in the tables of
//! [`magic::Magics`], which [`load_magics`] builds.
//!
//! What the functions promise is stated over a plain model of the game: [`geometry`] says in
//! ranks and files which squares a piece attacks, [`board`] what a move does to a position,
//! [`move_gen`] which moves are generated and in what order, [`rules`] that these are the
//! moves that the rules of the game allow, [`legality`] which of them are legal, and
//! [`laws`] what follows for every position reached by legal moves.
pub mod bitboard;
pub mod board;
pub mod errors;
pub mod fen;
pub mod geometry;
pub mod laws;
pub mod legality;
pub mod magic;
pub mod move_gen;
pub mod patterns;
pub mod piece;
pub mod rules;
pub mod shapes;
pub mod text;
pub mod utils;

pub use bitboard::Bitboard;
pub use board::Board;
pub use errors::ChessMgError;
pub use magic::load_magics;
pub use move_gen::{Move, MoveGen};
pub use piece::Piece;
pub use utils::{Color, Kind, Square};
