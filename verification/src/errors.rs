//! Error types for every operation boundary of the engine.
//!
//! All failures are returned as typed values; no operation panics on bad
//! input, and no operation partially mutates state on failure.

use vstd::prelude::*;
use crate::Move;

verus! {

/// Conveys that the given FEN is invalid.
#[derive(Eq, PartialEq, Structural, Copy, Clone, Debug)]
pub enum InvalidFenError {
    /// The FEN does not consist of six space-separated fields.
    SixFields,
    /// The board-data field is malformed, a side does not have exactly one
    /// king, a pawn stands on the first or last rank, or the side not to
    /// move is giving check.
    BoardData,
    /// The active-color field is not 'w' or 'b'.
    ActiveColor,
    /// The castling-rights field is malformed or names a right without a
    /// matching, uniquely identified rook.
    CastlingRights,
    /// The en-passant field is not '-' or a square name on the 3rd or 6th rank.
    EnPassantTargetSquare,
    /// The halfmove clock is not a number in the range 0..=150.
    HalfmoveClock,
    /// The fullmove number is not a number in the range 1...
    FullmoveNumber,
}

/// Conveys that the given piece character is invalid.
#[derive(Eq, PartialEq, Structural, Copy, Clone, Debug)]
pub struct InvalidPieceCharacterError(pub char);

/// Conveys that the given UCI text is invalid.
#[derive(Eq, PartialEq, Structural, Copy, Clone, Debug)]
pub enum InvalidUciError {
    /// The UCI text is not 4 or 5 characters long.
    Length,
    /// The named square does not exist.
    InvalidSquareName(char, char),
    /// The promotion character is not a valid piece, or names a king.
    InvalidPieceType(char),
}

/// Conveys that the given color character is invalid.
#[derive(Eq, PartialEq, Clone, Debug)]
pub struct InvalidColorCharacterError(pub String);

/// Conveys that the given move is illegal.
#[derive(Eq, PartialEq, Copy, Clone, Debug)]
pub struct IllegalMoveError(pub Move);

/// Conveys that the given UCI move is either invalid or illegal.
#[derive(Eq, PartialEq, Clone, Debug)]
pub enum InvalidUciMoveError {
    /// The text is not valid UCI.
    InvalidUci(InvalidUciError),
    /// The move is illegal in this position.
    IllegalMove(IllegalMoveError),
}

/// Conveys that the given SAN move is either invalid or illegal.
#[derive(Eq, PartialEq, Clone, Debug)]
pub struct InvalidSanMoveError(pub String);

/// Conveys that the given square name is invalid.
#[derive(Eq, PartialEq, Structural, Copy, Clone, Debug)]
pub struct InvalidSquareNameError(pub char, pub char);

/// Conveys that the given square index is invalid.
#[derive(Eq, PartialEq, Structural, Copy, Clone, Debug)]
pub struct InvalidSquareIndexError(pub usize);

/// Conveys that this action cannot be taken after the game is over.
#[derive(Eq, PartialEq, Structural, Copy, Clone, Debug)]
pub enum GameOverError {
    /// A player cannot resign when the game is over.
    Resignation,
    /// Players cannot agree to a draw when the game is over.
    AgreementDraw,
}

/// Conveys that the given PGN text is invalid.
#[derive(Eq, PartialEq, Clone, Debug)]
pub enum InvalidPgnError {
    /// The elements of the text are incorrectly organized.
    OrderOfElements,
    /// Move numbers must start at 1 and successive numbers must differ by 1.
    InvalidMoveNumber,
    /// Variations and annotations are not supported.
    NoAnnotations,
    /// The tag pairs do not include the Seven Tag Roster.
    SevenTagRoster,
    /// A move of the movetext is invalid or illegal.
    InvalidMove(InvalidSanMoveError),
    /// The result token contradicts the game state, or is not a result.
    InvalidResult,
}

/// Conveys that the given RGB or hex color is invalid.
#[derive(Eq, PartialEq, Clone, Debug)]
pub struct InvalidHexError(pub String);

} // verus!
