//! Moves: an origin, a destination and what kind of move it is.

use vstd::prelude::*;
use crate::piece::Piece;
use crate::square::{square_name, Square};
use crate::text::string_of;

verus! {

/// The side of the board a king castles toward.
#[derive(Debug, Clone, Copy, PartialEq, Eq, Structural)]
pub enum CastlingMethod {
    Short,
    Long,
}

/// What a move does besides taking a piece from its origin to its destination.
#[derive(Debug, Clone, Copy, PartialEq, Eq, Structural)]
pub enum MoveFlag {
    /// A move to an empty square.
    Quiet,
    /// A capture of a piece of the given kind on the destination.
    Capture(Piece),
    /// A pawn's advance by two ranks from its starting rank.
    DoublePush,
    /// A pawn's capture of the pawn on the given square, which has just passed the destination.
    EnPassant(Square),
    /// The king's move of a castling; the rook follows.
    Castle(CastlingMethod),
    /// A pawn's advance to the last rank, where it becomes the given kind.
    Promotion(Piece),
    /// A pawn's capture (first kind) on the last rank, where it becomes the second kind.
    PromotionCapture(Piece, Piece),
}

/// A move of the piece on `starting_square` to `target_square`.
#[derive(Debug, Clone, Copy, PartialEq, Eq, Structural)]
pub struct Move {
    pub starting_square: Square,
    pub target_square: Square,
    pub flag: MoveFlag,
}

impl CastlingMethod {
    /// 0 for the short side, 1 for the long side.
    pub open spec fn idx(self) -> int {
        match self {
            CastlingMethod::Short => 0,
            CastlingMethod::Long => 1,
        }
    }

    /// 0 for the short side, 1 for the long side.
    pub fn index(self) -> (r: usize)
        ensures
            r == self.idx(),
    {
        match self {
            CastlingMethod::Short => 0,
            CastlingMethod::Long => 1,
        }
    }
}

impl MoveFlag {
    /// The kind of piece the move takes off the board, if it takes one.
    pub open spec fn captured(self) -> Option<Piece> {
        match self {
            MoveFlag::Capture(k) => Some(k),
            MoveFlag::PromotionCapture(k, _) => Some(k),
            MoveFlag::EnPassant(_) => Some(Piece::Pawn),
            _ => None,
        }
    }

    /// The kind a pawn becomes by the move, if it promotes.
    pub open spec fn promoted(self) -> Option<Piece> {
        match self {
            MoveFlag::Promotion(k) => Some(k),
            MoveFlag::PromotionCapture(_, k) => Some(k),
            _ => None,
        }
    }

    /// The kind of piece the move takes off the board, if it takes one.
    pub fn captured_piece(&self) -> (r: Option<Piece>)
        ensures
            r == self.captured(),
    {
        match self {
            MoveFlag::Capture(k) => Some(*k),
            MoveFlag::PromotionCapture(k, _) => Some(*k),
            MoveFlag::EnPassant(_) => Some(Piece::Pawn),
            _ => None,
        }
    }

    /// The kind a pawn becomes by the move, if it promotes.
    pub fn promotion(&self) -> (r: Option<Piece>)
        ensures
            r == self.promoted(),
    {
        match self {
            MoveFlag::Promotion(k) => Some(*k),
            MoveFlag::PromotionCapture(_, k) => Some(*k),
            _ => None,
        }
    }
}

/// The letter of a promotion in long algebraic notation.
pub open spec fn promotion_letter(k: Piece) -> char {
    match k {
        Piece::Queen => 'q',
        Piece::Rook => 'r',
        Piece::Bishop => 'b',
        Piece::Knight => 'n',
        Piece::King => 'k',
        Piece::Pawn => 'p',
    }
}

/// A move in long algebraic notation: origin, destination, and the letter of the
/// kind that a pawn becomes.
pub open spec fn long_notation(m: Move) -> Seq<char> {
    square_name(m.starting_square) + square_name(m.target_square) + (match m.flag.promoted() {
        Some(k) => seq![promotion_letter(k)],
        None => Seq::empty(),
    })
}

/// A move as a reader likes it: castling as `O-O` and `O-O-O`, a capture with `x`
/// between the squares, a promotion with `=` and the letter of the new kind behind
/// them, a capture en passant with the square of the pawn it takes in front.
pub open spec fn move_text(m: Move) -> Seq<char> {
    let from = square_name(m.starting_square);
    let to = square_name(m.target_square);
    match m.flag {
        MoveFlag::Castle(CastlingMethod::Long) => seq!['O', '-', 'O', '-', 'O'],
        MoveFlag::Castle(CastlingMethod::Short) => seq!['O', '-', 'O'],
        MoveFlag::EnPassant(sq) => seq!['[', 'E', 'P', ' '] + square_name(sq) + seq![']'] + from
            + to,
        MoveFlag::Capture(_) => from + seq!['x'] + to,
        MoveFlag::Promotion(p) => from + to + seq!['=', p.letter()],
        MoveFlag::PromotionCapture(_, p) => from + seq!['x'] + to + seq!['=', p.letter()],
        _ => from + to,
    }
}

impl Move {
    /// Appends the move in long algebraic notation to `out`.
    pub fn push_long_notation(&self, out: &mut Vec<char>)
        ensures
            final(out)@ == old(out)@ + long_notation(*self),
    {
        self.starting_square.push_name(out);
        self.target_square.push_name(out);
        match self.flag.promotion() {
            Some(k) => {
                let c = match k {
                    Piece::Queen => 'q',
                    Piece::Rook => 'r',
                    Piece::Bishop => 'b',
                    Piece::Knight => 'n',
                    Piece::King => 'k',
                    Piece::Pawn => 'p',
                };
                out.push(c);
            },
            None => {},
        }
        proof {
            assert(final(out)@ =~= old(out)@ + long_notation(*self));
        }
    }

    /// The move in long algebraic notation.
    pub fn notation_long(&self) -> (r: String)
        ensures
            r@ == long_notation(*self),
    {
        let mut out: Vec<char> = Vec::new();
        self.push_long_notation(&mut out);
        proof {
            assert(out@ =~= long_notation(*self));
        }
        string_of(&out)
    }

    /// The move as a reader likes it.
    pub fn to_text(&self) -> (r: String)
        ensures
            r@ == move_text(*self),
    {
        let mut out: Vec<char> = Vec::new();
        let ghost from = square_name(self.starting_square);
        let ghost to = square_name(self.target_square);
        match self.flag {
            MoveFlag::Castle(CastlingMethod::Long) => {
                out.push('O');
                out.push('-');
                out.push('O');
                out.push('-');
                out.push('O');
                assert(out@ =~= move_text(*self));
            },
            MoveFlag::Castle(CastlingMethod::Short) => {
                out.push('O');
                out.push('-');
                out.push('O');
                assert(out@ =~= move_text(*self));
            },
            MoveFlag::EnPassant(sq) => {
                out.push('[');
                out.push('E');
                out.push('P');
                out.push(' ');
                assert(out@ =~= seq!['[', 'E', 'P', ' ']);
                sq.push_name(&mut out);
                out.push(']');
                assert(out@ =~= seq!['[', 'E', 'P', ' '] + square_name(sq) + seq![']']);
                self.starting_square.push_name(&mut out);
                self.target_square.push_name(&mut out);
                assert(out@ =~= seq!['[', 'E', 'P', ' '] + square_name(sq) + seq![']'] + from + to);
            },
            MoveFlag::Capture(_) => {
                self.starting_square.push_name(&mut out);
                out.push('x');
                assert(out@ =~= from + seq!['x']);
                self.target_square.push_name(&mut out);
                assert(out@ =~= from + seq!['x'] + to);
            },
            MoveFlag::Promotion(p) => {
                self.starting_square.push_name(&mut out);
                self.target_square.push_name(&mut out);
                assert(out@ =~= from + to);
                out.push('=');
                out.push(p.notation());
                assert(out@ =~= from + to + seq!['=', p.letter()]);
            },
            MoveFlag::PromotionCapture(_, p) => {
                self.starting_square.push_name(&mut out);
                out.push('x');
                assert(out@ =~= from + seq!['x']);
                self.target_square.push_name(&mut out);
                assert(out@ =~= from + seq!['x'] + to);
                out.push('=');
                out.push(p.notation());
                assert(out@ =~= from + seq!['x'] + to + seq!['=', p.letter()]);
            },
            _ => {
                self.starting_square.push_name(&mut out);
                self.target_square.push_name(&mut out);
                assert(out@ =~= from + to);
            },
        }
        string_of(&out)
    }
}

} // verus!
