//! The errors of the library.
use vstd::prelude::*;

verus! {

/// What can go wrong when text is turned into a position or a square.
#[derive(Clone, Debug, PartialEq, Eq)]
pub enum ChessMgError {
    /// The text is no position in Forsyth-Edwards notation; the string says why.
    InvalidFEN(String),
    /// The text names no square; the string is the text.
    InvalidSquare(String),
}

impl ChessMgError {
    /// The text carried by the error.
    pub fn message(&self) -> (r: &String)
        ensures
            match self {
                ChessMgError::InvalidFEN(text) => r == text,
                ChessMgError::InvalidSquare(text) => r == text,
            },
    {
        match self {
            ChessMgError::InvalidFEN(text) => text,
            ChessMgError::InvalidSquare(text) => text,
        }
    }
}

} // verus!
