//! What can go wrong when a position or a move is read.

use vstd::prelude::*;

verus! {

/// One of the six fields of a position in text.
#[derive(Debug, Clone, Copy, PartialEq, Eq, Structural)]
pub enum FenField {
    Placement,
    SideToMove,
    Castling,
    EnPassant,
    HalfmoveClock,
    FullmoveCounter,
}

/// A failure to read a position or to replay a move.
#[derive(Debug, Clone, Copy, PartialEq, Eq, Structural)]
pub enum EngineError {
    /// The text is not a position; the field is the first that is missing or wrong.
    ParsePosition(FenField),
    /// The text is not a move in long algebraic notation.
    ParseMove,
    /// The move with this index in the list to replay is not legal where it is to be made.
    IllegalMove(usize),
}

impl EngineError {
    /// The line of text that reports the error.
    pub open spec fn message_text(self) -> Seq<char> {
        match self {
            EngineError::ParsePosition(_) => "error: invalid fen"@,
            EngineError::ParseMove => "error: invalid move"@,
            EngineError::IllegalMove(_) => "error: invalid moves"@,
        }
    }

    /// The error as a line of text.
    pub fn message(&self) -> (r: &'static str)
        ensures
            r@ == self.message_text(),
    {
        match self {
            EngineError::ParsePosition(_) => "error: invalid fen",
            EngineError::ParseMove => "error: invalid move",
            EngineError::IllegalMove(_) => "error: invalid moves",
        }
    }
}

} // verus!
