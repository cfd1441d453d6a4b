//! The mathematical model of a position, and of making and unmaking a move on it.

use vstd::prelude::*;
use crate::bitboard::BitBoard;
use crate::bits::{bb_where, bit, in_bb};
use crate::moves::{CastlingMethod, Move, MoveFlag};
use crate::piece::{Color, Piece};
use crate::square::rank_of;

verus! {

/// What a move cannot tell about the position it was made on, kept to unmake it.
#[derive(Debug, Clone, Copy, PartialEq, Eq)]
pub struct Undo {
    /// The move that was made.
    pub mv: Move,
    /// The en-passant target before the move.
    pub en_passant: BitBoard,
    /// White's castling rights before the move, short side first.
    pub white: (bool, bool),
    /// Black's castling rights before the move, short side first.
    pub black: (bool, bool),
    /// The halfmove clock before the move.
    pub halfmove: usize,
    /// The fullmove counter before the move.
    pub fullmove: usize,
    /// The kind of piece that the move took off the board.
    pub captured: Option<Piece>,
}

/// A position as the rules of chess see it.
pub struct Position {
    /// What stands on each of the 64 squares.
    pub squares: Seq<Option<(Color, Piece)>>,
    /// The side to move.
    pub turn: Color,
    /// For White, then Black: whether the short and the long castling are still allowed.
    pub castling: Seq<(bool, bool)>,
    /// The square a pawn has just skipped, as a set of at most one square.
    pub en_passant: u64,
    /// Plies since the last capture or pawn move.
    pub halfmove: int,
    /// The number of the move, counted up after each move of Black.
    pub fullmove: int,
}

/// The color of the piece on a square that holds one.
pub open spec fn color_of(cell: Option<(Color, Piece)>) -> Color {
    match cell {
        Some((c, _)) => c,
        None => Color::White,
    }
}

/// The kind of the piece on a square that holds one.
pub open spec fn kind_of(cell: Option<(Color, Piece)>) -> Piece {
    match cell {
        Some((_, k)) => k,
        None => Piece::Pawn,
    }
}

/// The square on which the king of `c` starts.
pub open spec fn king_home(c: Color) -> int {
    4 + 56 * c.idx()
}

/// The square on which the rook of `c` on the side `m` starts.
pub open spec fn rook_home(c: Color, m: CastlingMethod) -> int {
    match m {
        CastlingMethod::Short => 7 + 56 * c.idx(),
        CastlingMethod::Long => 56 * c.idx(),
    }
}

/// The square on which the king of `c` lands by castling to the side `m`.
pub open spec fn king_target(c: Color, m: CastlingMethod) -> int {
    match m {
        CastlingMethod::Short => 6 + 56 * c.idx(),
        CastlingMethod::Long => 2 + 56 * c.idx(),
    }
}

/// The square the king crosses, on which the rook lands.
pub open spec fn rook_target(c: Color, m: CastlingMethod) -> int {
    match m {
        CastlingMethod::Short => 5 + 56 * c.idx(),
        CastlingMethod::Long => 3 + 56 * c.idx(),
    }
}

/// The square of a set that holds one square: the lowest member of the set.
pub open spec fn sole_square(ep: u64) -> int {
    vstd::std_specs::bits::u64_trailing_zeros(ep) as int
}

/// A clock one tick later; it stops at the largest value it can hold.
pub open spec fn tick(n: int) -> int {
    if n < usize::MAX {
        n + 1
    } else {
        n
    }
}

impl Position {
    /// There are 64 squares and rights for two sides.
    pub open spec fn shape(self) -> bool {
        self.squares.len() == 64 && self.castling.len() == 2
    }

    /// Whether a piece of color `c` and kind `k` stands on `s`.
    pub open spec fn holds(self, s: int, c: Color, k: Piece) -> bool {
        0 <= s < 64 && self.squares[s] == Some((c, k))
    }

    /// Whether a piece of color `c` stands on `s`.
    pub open spec fn color_at(self, s: int, c: Color) -> bool {
        0 <= s < 64 && self.squares[s] is Some && color_of(self.squares[s]) == c
    }

    /// Whether a piece of kind `k` stands on `s`.
    pub open spec fn kind_at(self, s: int, k: Piece) -> bool {
        0 <= s < 64 && self.squares[s] is Some && kind_of(self.squares[s]) == k
    }

    /// Whether `s` is a square with nothing on it.
    pub open spec fn empty_at(self, s: int) -> bool {
        0 <= s < 64 && self.squares[s] is None
    }

    /// The squares of the pieces of color `c`.
    pub open spec fn color_bb(self, c: Color) -> u64 {
        bb_where(|s: int| self.color_at(s, c), 64)
    }

    /// The squares of the pieces of kind `k`, of either color.
    pub open spec fn kind_bb(self, k: Piece) -> u64 {
        bb_where(|s: int| self.kind_at(s, k), 64)
    }

    /// The squares of the pieces of color `c` and kind `k`.
    pub open spec fn piece_bb(self, c: Color, k: Piece) -> u64 {
        bb_where(|s: int| self.holds(s, c, k), 64)
    }

    /// The squares with a piece on them.
    pub open spec fn occupied(self) -> u64 {
        bb_where(|s: int| 0 <= s < 64 && self.squares[s] is Some, 64)
    }

    /// Color `c` has exactly one king.
    pub open spec fn one_king(self, c: Color) -> bool {
        exists|s: int| #[trigger]
            self.holds(s, c, Piece::King) && forall|t: int| #[trigger]
                self.holds(t, c, Piece::King) ==> t == s
    }

    /// The square of the king of `c`, where `c` has exactly one.
    pub open spec fn king_sq(self, c: Color) -> int {
        choose|s: int| #[trigger] self.holds(s, c, Piece::King)
    }

    /// No pawn stands on the first or the eighth rank.
    pub open spec fn pawns_in_bounds(self) -> bool {
        forall|s: int| #[trigger]
            self.kind_at(s, Piece::Pawn) ==> 0 < rank_of(s) < 7
    }

    /// The en-passant target is empty, or it is the empty square behind a pawn of the
    /// side that has just moved, on the rank that a double push skips.
    pub open spec fn ep_ok(self) -> bool {
        self.en_passant == 0 || {
            let e = sole_square(self.en_passant);
            &&& 0 <= e < 64
            &&& self.en_passant == bit(e)
            &&& rank_of(e) == self.turn.last_rank() - 2 * self.turn.dir()
            &&& self.empty_at(e)
            &&& self.holds(e - 8 * self.turn.dir(), self.turn.other(), Piece::Pawn)
        }
    }

    /// What holds of every position that a game can reach: one king a side, no
    /// pawn on the outer ranks, a consistent en-passant target, clocks in range.
    pub open spec fn valid(self) -> bool {
        &&& self.shape()
        &&& self.one_king(Color::White)
        &&& self.one_king(Color::Black)
        &&& self.pawns_in_bounds()
        &&& self.ep_ok()
        &&& 0 <= self.halfmove <= usize::MAX
        &&& 0 <= self.fullmove <= usize::MAX
    }

    /// Whether `mv` can be made: the side to move has a piece on its origin, and the
    /// squares involved hold what the kind of the move says.
    pub open spec fn applicable(self, mv: Move) -> bool {
        let from = mv.starting_square.idx();
        let to = mv.target_square.idx();
        let c = self.turn;
        &&& self.color_at(from, c)
        &&& from != to
        &&& {
            let k = kind_of(self.squares[from]);
            match mv.flag {
                MoveFlag::Quiet => self.empty_at(to) && (k == Piece::Pawn ==> 0 < rank_of(to) < 7),
                MoveFlag::Capture(cap) => self.holds(to, c.other(), cap) && cap != Piece::King && (k
                    == Piece::Pawn ==> 0 < rank_of(to) < 7),
                MoveFlag::DoublePush => k == Piece::Pawn && rank_of(from) == c.pawn_rank() && to
                    == from + 16 * c.dir() && self.empty_at(from + 8 * c.dir()) && self.empty_at(
                    to,
                ),
                MoveFlag::EnPassant(cap) => k == Piece::Pawn && in_bb(self.en_passant, to)
                    && self.empty_at(to) && cap.idx() == to - 8 * c.dir() && self.holds(
                    cap.idx(),
                    c.other(),
                    Piece::Pawn,
                ),
                MoveFlag::Castle(m) => k == Piece::King && from == king_home(c) && to
                    == king_target(c, m) && self.holds(rook_home(c, m), c, Piece::Rook)
                    && self.empty_at(to) && self.empty_at(rook_target(c, m)),
                MoveFlag::Promotion(p) => k == Piece::Pawn && rank_of(to) == c.last_rank()
                    && self.empty_at(to) && p.promotable(),
                MoveFlag::PromotionCapture(cap, p) => k == Piece::Pawn && rank_of(to)
                    == c.last_rank() && self.holds(to, c.other(), cap) && cap != Piece::King
                    && p.promotable(),
            }
        }
    }

    /// The rights of `side` after `mv`, made by the side to move: a king's move gives up
    /// both, a rook's move from its home that side's, the capture of a rook on its home
    /// that side's of its owner.
    pub open spec fn rights_after(self, mv: Move, side: Color) -> (bool, bool) {
        let from = mv.starting_square.idx();
        let to = mv.target_square.idx();
        let k = kind_of(self.squares[from]);
        let old = self.castling[side.idx()];
        if side == self.turn {
            if k == Piece::King {
                (false, false)
            } else if k == Piece::Rook {
                (
                    old.0 && from != rook_home(side, CastlingMethod::Short),
                    old.1 && from != rook_home(side, CastlingMethod::Long),
                )
            } else {
                old
            }
        } else if mv.flag.captured() == Some(Piece::Rook) {
            (
                old.0 && to != rook_home(side, CastlingMethod::Short),
                old.1 && to != rook_home(side, CastlingMethod::Long),
            )
        } else {
            old
        }
    }

    /// What stands where after `mv`.
    pub open spec fn squares_after(self, mv: Move) -> Seq<Option<(Color, Piece)>> {
        let from = mv.starting_square.idx();
        let to = mv.target_square.idx();
        let c = self.turn;
        let k = kind_of(self.squares[from]);
        let placed = match mv.flag.promoted() {
            Some(p) => p,
            None => k,
        };
        let lifted = self.squares.update(from, None);
        let taken = match mv.flag {
            MoveFlag::EnPassant(cap) => lifted.update(cap.idx(), None),
            _ => lifted,
        };
        let landed = taken.update(to, Some((c, placed)));
        match mv.flag {
            MoveFlag::Castle(m) => landed.update(rook_home(c, m), None).update(
                rook_target(c, m),
                Some((c, Piece::Rook)),
            ),
            _ => landed,
        }
    }

    /// The position after `mv`.
    pub open spec fn make(self, mv: Move) -> Position {
        let from = mv.starting_square.idx();
        let c = self.turn;
        let k = kind_of(self.squares[from]);
        Position {
            squares: self.squares_after(mv),
            turn: c.other(),
            castling: seq![
                self.rights_after(mv, Color::White),
                self.rights_after(mv, Color::Black),
            ],
            en_passant: if mv.flag == MoveFlag::DoublePush {
                bit(from + 8 * c.dir())
            } else {
                0
            },
            halfmove: if k == Piece::Pawn || mv.flag.captured() is Some {
                0
            } else {
                tick(self.halfmove)
            },
            fullmove: if c == Color::Black {
                tick(self.fullmove)
            } else {
                self.fullmove
            },
        }
    }

    /// What is kept of this position to unmake `mv` later.
    pub open spec fn record(self, mv: Move) -> Undo {
        Undo {
            mv,
            en_passant: BitBoard(self.en_passant),
            white: self.castling[0],
            black: self.castling[1],
            halfmove: self.halfmove as usize,
            fullmove: self.fullmove as usize,
            captured: mv.flag.captured(),
        }
    }

    /// The position before the move that `u` records, given the position after it.
    pub open spec fn unmake(self, u: Undo) -> Position {
        let mv = u.mv;
        let from = mv.starting_square.idx();
        let to = mv.target_square.idx();
        let c = self.turn.other();
        let k = if mv.flag.promoted() is Some {
            Piece::Pawn
        } else {
            kind_of(self.squares[to])
        };
        let restored: Option<(Color, Piece)> = match mv.flag {
            MoveFlag::Capture(cap) => Some((self.turn, cap)),
            MoveFlag::PromotionCapture(cap, _) => Some((self.turn, cap)),
            _ => None,
        };
        let back = self.squares.update(to, restored).update(from, Some((c, k)));
        let squares = match mv.flag {
            MoveFlag::EnPassant(cap) => back.update(cap.idx(), Some((self.turn, Piece::Pawn))),
            MoveFlag::Castle(m) => back.update(rook_target(c, m), None).update(
                rook_home(c, m),
                Some((c, Piece::Rook)),
            ),
            _ => back,
        };
        Position {
            squares,
            turn: c,
            castling: seq![u.white, u.black],
            en_passant: u.en_passant.0,
            halfmove: u.halfmove as int,
            fullmove: u.fullmove as int,
        }
    }
}

} // verus!
