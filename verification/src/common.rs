use vstd::prelude::*;

pub mod bits;

verus! {

/// The errors that move parsing and move application report.
#[derive(Debug, Clone, Copy, PartialEq, Eq, Structural)]
pub enum ChersError {
    MoveParseError,
    IllegalMoveError,
}

/// The side a piece belongs to.
#[derive(Debug, Clone, Copy, PartialEq, Eq, Structural)]
pub enum PieceColor {
    White,
    Black,
}

/// The kind of a chess piece.
#[derive(Debug, Clone, Copy, PartialEq, Eq, Structural)]
pub enum PieceType {
    Pawn,
    Rook,
    Knight,
    Bishop,
    Queen,
    King,
}

impl ChersError {
    /// The human-readable message of the error.
    pub fn message(&self) -> (s: &'static str)
        ensures
            s@ == match self {
                ChersError::MoveParseError => "An invalid move format was submitted."@,
                ChersError::IllegalMoveError => "An illegal move was attempted."@,
            },
    {
        match self {
            ChersError::MoveParseError => "An invalid move format was submitted.",
            ChersError::IllegalMoveError => "An illegal move was attempted.",
        }
    }
}

} // verus!
