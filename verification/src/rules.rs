//! Which moves are legal: the rules of movement stated over the model of a position.

use vstd::prelude::*;
use crate::attacks::{attacks_upto, blocker, knight_attacks, pawn_attacks, piece_attacks, ray};
use crate::bitboard::{members, popcount, BitBoard};
use crate::bits::{bit, in_bb};
use crate::moves::{CastlingMethod, Move, MoveFlag};
use crate::piece::{queen_sliders, Color, Piece, Slider};
use crate::position::{color_of, sole_square, king_home, king_target, kind_of, rook_home, Position};
use crate::square::{rank_of, Square};

verus! {

/// A pinned piece and the squares it may still go to: those from its king through the
/// piece that pins it.
#[derive(Debug, Clone, Copy)]
pub struct Pin {
    pub square: Square,
    pub ray: BitBoard,
}

/// The checks on a king: how many pieces give check, and the squares on which a
/// piece other than the king can answer a single check.
#[derive(Debug, Clone, Copy)]
pub struct Checks {
    pub count: u32,
    pub rays: BitBoard,
}

/// The squares between king and rook that must be empty for castling.
pub open spec fn between_mask(c: Color, m: CastlingMethod) -> u64 {
    match m {
        CastlingMethod::Short => bit(5 + 56 * c.idx()) | bit(6 + 56 * c.idx()),
        CastlingMethod::Long => bit(1 + 56 * c.idx()) | bit(2 + 56 * c.idx()) | bit(
            3 + 56 * c.idx(),
        ),
    }
}

/// The squares the king stands on, crosses and lands on in castling.
pub open spec fn king_path(c: Color, m: CastlingMethod) -> u64 {
    match m {
        CastlingMethod::Short => bit(4 + 56 * c.idx()) | bit(5 + 56 * c.idx()) | bit(
            6 + 56 * c.idx(),
        ),
        CastlingMethod::Long => bit(4 + 56 * c.idx()) | bit(3 + 56 * c.idx()) | bit(
            2 + 56 * c.idx(),
        ),
    }
}

/// Where the piece on `s` may go, going by the pins in `pins`: anywhere if it is
/// not pinned.
pub open spec fn pin_mask(pins: Seq<Pin>, s: int) -> u64
    decreases pins.len(),
{
    if pins.len() == 0 {
        u64::MAX
    } else if pins.last().square.idx() == s {
        pin_mask(pins.drop_last(), s) & pins.last().ray.0
    } else {
        pin_mask(pins.drop_last(), s)
    }
}

/// The four moves of a pawn that promotes on `to`, one for each kind it may become.
pub open spec fn promotions(from: Square, to: Square, captured: Option<Piece>) -> Seq<Move> {
    Seq::new(
        4,
        |i: int|
            {
                let kind = seq![Piece::Queen, Piece::Rook, Piece::Bishop, Piece::Knight][i];
                Move {
                    starting_square: from,
                    target_square: to,
                    flag: match captured {
                        Some(cap) => MoveFlag::PromotionCapture(cap, kind),
                        None => MoveFlag::Promotion(kind),
                    },
                }
            },
    )
}

impl Position {
    /// The occupied squares, the king of `c` taken off the board.
    pub open spec fn occupied_without_king(self, c: Color) -> u64 {
        self.occupied() & !self.piece_bb(c, Piece::King)
    }

    /// The squares that `c` attacks or defends. The rays of its sliders pass through
    /// the other side's king, so that the king cannot step back along a ray of check.
    pub open spec fn attack_map(self, c: Color) -> u64 {
        attacks_upto(self.squares, c, self.occupied_without_king(c.other()), 64)
    }

    /// Whether the king of `c` stands on a square that the other side attacks.
    pub open spec fn in_check(self, c: Color) -> bool {
        self.piece_bb(c, Piece::King) & self.attack_map(c.other()) != 0
    }

    /// The en-passant target that `c` may capture on: that of the position if `c` is
    /// to move, none if it is not.
    pub open spec fn ep_for(self, c: Color) -> u64 {
        if c == self.turn {
            self.en_passant
        } else {
            0
        }
    }

    /// The squares a pawn of `c` on `s` may advance to: one rank forward if that
    /// square is empty, and two from its starting rank if both are.
    pub open spec fn pawn_pushes(self, s: int, c: Color) -> u64 {
        let one = s + 8 * c.dir();
        let two = s + 16 * c.dir();
        if !self.empty_at(one) {
            0
        } else if rank_of(s) == c.pawn_rank() && self.empty_at(two) {
            bit(one) | bit(two)
        } else {
            bit(one)
        }
    }

    /// The squares a pawn of `c` on `s` may go to, its king left aside: its advances,
    /// and the squares it attacks that hold a piece of the other side or are the
    /// en-passant target.
    pub open spec fn pawn_targets(self, s: int, c: Color) -> u64 {
        self.pawn_pushes(s, c) | (pawn_attacks(s, c) & (self.color_bb(c.other()) | self.ep_for(c)))
    }

    /// The squares a piece of kind `k` and color `c` on `s` may go to, its king left
    /// aside: what it reaches, without the squares of its own side.
    pub open spec fn pseudo_targets(self, s: int, c: Color, k: Piece) -> u64 {
        match k {
            Piece::Pawn => self.pawn_targets(s, c),
            _ => piece_attacks(k, c, s, self.occupied()) & !self.color_bb(c),
        }
    }

    /// Whether a slider of the side against `c` that moves along `sl` stands on `q`.
    pub open spec fn enemy_slider_at(self, q: int, c: Color, sl: Slider) -> bool {
        &&& 0 <= q < 64
        &&& self.squares[q] is Some
        &&& color_of(self.squares[q]) == c.other()
        &&& kind_of(self.squares[q]).slides_along(sl)
    }

    /// Whether the first piece seen from the king of `c` along `sl` is a slider of
    /// the other side that moves along `sl`.
    pub open spec fn check_along(self, c: Color, sl: Slider) -> bool {
        let b = blocker(self.occupied(), self.king_sq(c), sl.df(), sl.dr(), 7);
        b is Some && self.enemy_slider_at(b.unwrap(), c, sl)
    }

    /// The pin along `sl`, if there is one: the first piece seen from the king of `c`
    /// is of its own side, and the next one behind it is a slider of the other side
    /// that moves along `sl`.
    pub open spec fn pin_along(self, c: Color, sl: Slider) -> Option<Pin> {
        let occ = self.occupied();
        let k = self.king_sq(c);
        let first = blocker(occ, k, sl.df(), sl.dr(), 7);
        if first is Some && self.color_at(first.unwrap(), c) {
            let second = blocker(occ, first.unwrap(), sl.df(), sl.dr(), 7);
            if second is Some && self.enemy_slider_at(second.unwrap(), c, sl) {
                Some(
                    Pin {
                        square: Square::of(first.unwrap()),
                        ray: BitBoard(
                            ray(occ, k, sl.df(), sl.dr(), 7) | ray(
                                occ,
                                first.unwrap(),
                                sl.df(),
                                sl.dr(),
                                7,
                            ),
                        ),
                    },
                )
            } else {
                None
            }
        } else {
            None
        }
    }

    /// The knights and pawns of the other side that attack the king of `c`.
    pub open spec fn contact_checkers(self, c: Color) -> u64 {
        (knight_attacks(self.king_sq(c)) & self.piece_bb(c.other(), Piece::Knight)) | (pawn_attacks(
            self.king_sq(c),
            c,
        ) & self.piece_bb(c.other(), Piece::Pawn))
    }

    /// How many of the first `n` compass slides carry a check on the king of `c`.
    pub open spec fn slider_check_count(self, c: Color, n: int) -> nat
        decreases n,
    {
        if n <= 0 {
            0
        } else if self.check_along(c, queen_sliders()[n - 1]) {
            self.slider_check_count(c, n - 1) + 1
        } else {
            self.slider_check_count(c, n - 1)
        }
    }

    /// The squares from the king of `c` to each slider that checks it along one of
    /// the first `n` compass slides, the slider's own square included.
    pub open spec fn slider_check_rays(self, c: Color, n: int) -> u64
        decreases n,
    {
        if n <= 0 {
            0
        } else if self.check_along(c, queen_sliders()[n - 1]) {
            self.slider_check_rays(c, n - 1) | ray(
                self.occupied(),
                self.king_sq(c),
                queen_sliders()[n - 1].df(),
                queen_sliders()[n - 1].dr(),
                7,
            )
        } else {
            self.slider_check_rays(c, n - 1)
        }
    }

    /// How many pieces check the king of `c`.
    pub open spec fn check_count(self, c: Color) -> nat {
        popcount(self.contact_checkers(c)) + self.slider_check_count(c, 8)
    }

    /// The squares of the knights and pawns that check the king of `c`, and the
    /// squares from the king to each slider that checks it.
    pub open spec fn check_rays(self, c: Color) -> u64 {
        self.contact_checkers(c) | self.slider_check_rays(c, 8)
    }

    /// Where a piece of `c` other than its king may land: anywhere if the king is not
    /// in check, on the squares that answer the check if one piece gives it, nowhere
    /// if two do.
    pub open spec fn check_mask(self, c: Color) -> u64 {
        if self.check_count(c) == 0 {
            u64::MAX
        } else if self.check_count(c) == 1 {
            self.check_rays(c)
        } else {
            0
        }
    }

    /// The pins along the first `n` compass slides, in the order of the slides.
    pub open spec fn pins(self, c: Color, n: int) -> Seq<Pin>
        decreases n,
    {
        if n <= 0 {
            Seq::empty()
        } else {
            match self.pin_along(c, queen_sliders()[n - 1]) {
                Some(p) => self.pins(c, n - 1).push(p),
                None => self.pins(c, n - 1),
            }
        }
    }

    /// The en-passant capture by the pawn of `c` on `s`.
    pub open spec fn ep_move(self, s: int, c: Color) -> Move {
        Move {
            starting_square: Square::of(s),
            target_square: Square::of(sole_square(self.en_passant)),
            flag: MoveFlag::EnPassant(Square::of(sole_square(self.en_passant) - 8 * c.dir())),
        }
    }

    /// Whether the king of `c` is out of check once the pawn on `s` has captured en passant.
    pub open spec fn ep_safe(self, s: int, c: Color) -> bool {
        !self.make(self.ep_move(s, c)).in_check(c)
    }

    /// The squares the piece of kind `k` and color `c` on `s` may legally go to. No
    /// piece captures a king. The king keeps off the squares that the other side
    /// attacks. Any other piece stays on its pin ray if it is pinned, and answers the
    /// check if its king is in check. A capture en passant is judged by its outcome:
    /// it is legal when it leaves the king out of check.
    pub open spec fn legal_targets(self, s: int, c: Color, k: Piece) -> u64 {
        let pseudo = self.pseudo_targets(s, c, k) & !self.kind_bb(Piece::King);
        if k == Piece::King {
            pseudo & !self.attack_map(c.other())
        } else {
            let ep = if k == Piece::Pawn {
                self.ep_for(c)
            } else {
                0
            };
            let plain = (pseudo & !ep) & self.check_mask(c) & pin_mask(self.pins(c, 8), s);
            if (pseudo & ep) != 0 && self.ep_safe(s, c) {
                plain | (pseudo & ep)
            } else {
                plain
            }
        }
    }

    /// The moves that take the piece of kind `k` and color `c` from `s` to `t`: four
    /// promotions where a pawn reaches the last rank, else one move of the kind that
    /// the squares call for.
    pub open spec fn moves_for(self, s: int, t: int, c: Color, k: Piece) -> Seq<Move> {
        let from = Square::of(s);
        let to = Square::of(t);
        let captured = match self.squares[t] {
            Some((_, cap)) => Some(cap),
            None => None,
        };
        if k == Piece::Pawn && rank_of(t) == c.last_rank() {
            promotions(from, to, captured)
        } else {
            let flag = if k == Piece::Pawn && in_bb(self.ep_for(c), t) {
                MoveFlag::EnPassant(Square::of(t - 8 * c.dir()))
            } else if k == Piece::Pawn && t == s + 16 * c.dir() {
                MoveFlag::DoublePush
            } else {
                match captured {
                    Some(cap) => MoveFlag::Capture(cap),
                    None => MoveFlag::Quiet,
                }
            };
            seq![Move { starting_square: from, target_square: to, flag }]
        }
    }

    /// The moves that take the piece from `s` to each of `ts` in turn.
    pub open spec fn moves_over(self, s: int, ts: Seq<Square>, c: Color, k: Piece) -> Seq<Move>
        decreases ts.len(),
    {
        if ts.len() == 0 {
            Seq::empty()
        } else {
            self.moves_over(s, ts.drop_last(), c, k) + self.moves_for(s, ts.last().idx(), c, k)
        }
    }

    /// The legal moves of the piece on `s`, if it is a piece of `c`, by ascending destination.
    pub open spec fn piece_moves(self, s: int, c: Color) -> Seq<Move> {
        if self.color_at(s, c) {
            let k = kind_of(self.squares[s]);
            self.moves_over(s, members(self.legal_targets(s, c, k)), c, k)
        } else {
            Seq::empty()
        }
    }

    /// The legal moves of the pieces of `c` on the squares below `n`, by ascending origin.
    pub open spec fn moves_upto(self, c: Color, n: int) -> Seq<Move>
        decreases n,
    {
        if n <= 0 {
            Seq::empty()
        } else {
            self.moves_upto(c, n - 1) + self.piece_moves(n - 1, c)
        }
    }

    /// Whether `c` may castle to the side `m`, given the squares that the other side
    /// attacks: the right is held, king and rook stand on their homes, the squares
    /// between them are empty, and no square of the king's path is attacked.
    pub open spec fn castle_ok(self, c: Color, m: CastlingMethod, attacked: u64) -> bool {
        &&& match m {
            CastlingMethod::Short => self.castling[c.idx()].0,
            CastlingMethod::Long => self.castling[c.idx()].1,
        }
        &&& self.holds(king_home(c), c, Piece::King)
        &&& self.holds(rook_home(c, m), c, Piece::Rook)
        &&& self.occupied() & between_mask(c, m) == 0
        &&& attacked & king_path(c, m) == 0
    }

    /// The castling move of `c` to the side `m`.
    pub open spec fn castle_move(c: Color, m: CastlingMethod) -> Move {
        Move {
            starting_square: Square::of(king_home(c)),
            target_square: Square::of(king_target(c, m)),
            flag: MoveFlag::Castle(m),
        }
    }

    /// The castling moves that `c` may make, the short one first.
    pub open spec fn castle_moves(self, c: Color) -> Seq<Move> {
        let attacked = self.attack_map(c.other());
        (if self.castle_ok(c, CastlingMethod::Short, attacked) {
            seq![Self::castle_move(c, CastlingMethod::Short)]
        } else {
            Seq::empty()
        }) + (if self.castle_ok(c, CastlingMethod::Long, attacked) {
            seq![Self::castle_move(c, CastlingMethod::Long)]
        } else {
            Seq::empty()
        })
    }

    /// The legal moves of `c`: its castling moves, then the moves of its pieces by
    /// ascending origin and destination.
    pub open spec fn legal_moves(self, c: Color) -> Seq<Move> {
        self.castle_moves(c) + self.moves_upto(c, 64)
    }
}

} // verus!
