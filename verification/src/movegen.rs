//! Generating the legal moves of a position.

use vstd::prelude::*;
use crate::attacks::{
    attacks_upto, king_attacks, pawn_attacks, pawn_reach, piece_attacks, ray, ray_walk, rays,
    slide_attacks,
};
use crate::bitboard::BitBoard;
use crate::bits::{bit, in_bb, lemma_in_bit, lemma_in_not, lemma_in_ops, lemma_tz_bit};
use crate::board::{BitBoards, Board};
use crate::moves::{CastlingMethod, Move, MoveFlag};
use crate::piece::{bishop_sliders, queen_sliders, Color, Piece, Slider};
use crate::position::sole_square;
use crate::rules::{between_mask, king_path, pin_mask, promotions, Checks, Pin};
use crate::square::Square;

verus! {

/// Whether a slider of kind `k` attacks along the compass slide `sl`.
pub fn slides_along(k: Piece, sl: &Slider) -> (r: bool)
    requires
        sl.is_compass(),
    ensures
        r == k.slides_along(*sl),
{
    let diagonal: bool = sl.left == 9 || sl.left == 7 || sl.right == 9 || sl.right == 7;
    match k {
        Piece::Queen => true,
        Piece::Rook => !diagonal,
        Piece::Bishop => diagonal,
        _ => false,
    }
}

/// Where the piece on `sq` may go, going by the pins in `pins`.
pub fn pin_mask_of(pins: &Vec<Pin>, sq: Square) -> (r: BitBoard)
    ensures
        r.0 == pin_mask(pins@, sq.idx()),
{
    let mut out: u64 = u64::MAX;
    let mut i: usize = 0;
    while i < pins.len()
        invariant
            i <= pins@.len(),
            out == pin_mask(pins@.take(i as int), sq.idx()),
        decreases pins@.len() - i,
    {
        proof {
            assert(pins@.take(i + 1).drop_last() =~= pins@.take(i as int));
            pins@[i as int].square.lemma_of_idx();
            sq.lemma_of_idx();
        }
        if pins[i].square == sq {
            out = out & pins[i].ray.0;
        }
        i = i + 1;
    }
    proof {
        assert(pins@.take(i as int) =~= pins@);
    }
    BitBoard(out)
}

impl Board {
    /// Whether the stored attack map of `c` is that of the position as it stands.
    pub open spec fn attacks_fresh(&self, c: Color) -> bool {
        self.bitboards.0[8 + c.idx()].0 == self@.attack_map(c)
    }

    /// The squares that a piece of kind `k` and color `c` on `sq` attacks or defends
    /// under the occupancy `occ`.
    pub fn attacks_from(&self, k: Piece, c: Color, sq: Square, occ: BitBoard) -> (r: BitBoard)
        requires
            self.tables.wf(),
        ensures
            r.0 == piece_attacks(k, c, sq.idx(), occ.0),
    {
        match k {
            Piece::King => self.tables.king[sq.to_index()],
            Piece::Knight => self.tables.knight[sq.to_index()],
            Piece::Pawn => pawn_reach(sq, c),
            Piece::Bishop => {
                let open = self.tables.bishop[sq.to_index()];
                if open.intersect(occ).is_empty() {
                    proof {
                        lemma_in_ops(open.0, occ.0);
                        crate::bits::lemma_empty(open.0 & occ.0);
                        crate::safety::lemma_slides();
                        assert forall|t: int|
                            in_bb(rays(0, sq.idx(), bishop_sliders()), t) implies !in_bb(
                            occ.0,
                            t,
                        ) by {
                            assert(!in_bb(open.0 & occ.0, t));
                        }
                        crate::walks::lemma_rays_unblocked(occ.0, sq.idx(), bishop_sliders());
                    }
                    open
                } else {
                    let sliders: [Slider; 4] = [
                        Slider::left_down(),
                        Slider::right_down(),
                        Slider::left_up(),
                        Slider::right_up(),
                    ];
                    assert(sliders@ =~= bishop_sliders());
                    slide_attacks(occ, sq, sliders.as_slice())
                }
            },
            _ => {
                let sliders = match k.sliders() {
                    Some(v) => v,
                    None => Vec::new(),
                };
                slide_attacks(occ, sq, sliders.as_slice())
            },
        }
    }

    /// The squares that `color` attacks or defends, its sliders seeing through the
    /// other side's king.
    pub fn compute_attacks(&self, color: Color) -> (r: BitBoard)
        requires
            self.wf(),
            self@.shape(),
        ensures
            r.0 == self@.attack_map(color),
    {
        let occ = self.bitboards.all_pieces(None).minus(
            self.bitboards.get_piece_set(Piece::King, Some(color.opponent())),
        );
        proof {
            self.lemma_sets();
            assert(occ.0 == self@.occupied_without_king(color.other()));
        }
        let mut out: u64 = 0;
        let mut i: usize = 0;
        while i < 64
            invariant
                i <= 64,
                self.wf(),
                self@.shape(),
                out == attacks_upto(self.squares@, color, occ.0, i as int),
            decreases 64 - i,
        {
            match self.squares[i] {
                Some((pc, k)) => {
                    if pc == color {
                        out = out | self.attacks_from(k, color, Square::index(i), occ).0;
                    }
                },
                None => {},
            }
            i = i + 1;
        }
        BitBoard(out)
    }

    /// Whether the king of `color` stands on a square of the stored attack map of the
    /// other side.
    pub fn in_check(&self, color: Color) -> (r: bool)
        ensures
            r == ((self.bitboards.0[color.idx()].0 & self.bitboards.0[2].0) & self.bitboards.0[8
                + color.other().idx()].0 != 0),
            self.wf() && self@.shape() && self.attacks_fresh(color.other()) ==> r
                == self@.in_check(color),
    {
        proof {
            if self.wf() && self@.shape() {
                self.lemma_sets();
            }
        }
        let attacked = self.bitboards.0[BitBoards::ad_bitboard(color.opponent())];
        !self.bitboards.get_piece_set(Piece::King, Some(color)).intersect(attacked).is_empty()
    }

    /// The squares next to the king of `color` that are not in the stored attack map
    /// of the other side.
    pub fn king_moves(&self, color: Color) -> (r: BitBoard)
        requires
            self.wf(),
            self@.shape(),
            self@.one_king(color),
        ensures
            r.0 == king_attacks(self@.king_sq(color)) & !self.bitboards.0[8
                + color.other().idx()].0,
    {
        let square = self.king_square(color);
        let attacked = self.bitboards.0[BitBoards::ad_bitboard(color.opponent())];
        self.tables.king[square.to_index()].minus(attacked)
    }

    /// Whether `color` may castle to the side `method`, going by the stored attack map
    /// of the other side.
    pub fn can_castle(&self, color: Color, method: CastlingMethod) -> (r: bool)
        requires
            self.wf(),
            self@.shape(),
        ensures
            r == self@.castle_ok(
                color,
                method,
                self.bitboards.0[8 + color.other().idx()].0,
            ),
    {
        self.can_castle_given(
            color,
            method,
            self.bitboards.0[BitBoards::ad_bitboard(color.opponent())],
        )
    }

    /// Whether `color` may castle to the side `method`, where the other side attacks
    /// the squares of `attacked`.
    pub fn can_castle_given(&self, color: Color, method: CastlingMethod, attacked: BitBoard) -> (r:
        bool)
        requires
            self.wf(),
            self@.shape(),
        ensures
            r == self@.castle_ok(color, method, attacked.0),
    {
        let rights = self.castling_availability[color.index()];
        let held: bool = match method {
            CastlingMethod::Short => rights.0,
            CastlingMethod::Long => rights.1,
        };
        if !held {
            return false;
        }
        let (king_from, rook_from) = Self::castling_homes(color, method);
        let king_there: bool = match self.squares[king_from.to_index()] {
            Some((pc, k)) => pc == color && k == Piece::King,
            None => false,
        };
        let rook_there: bool = match self.squares[rook_from.to_index()] {
            Some((pc, k)) => pc == color && k == Piece::Rook,
            None => false,
        };
        if !king_there || !rook_there {
            return false;
        }
        let base: u64 = match color {
            Color::White => 0,
            Color::Black => 56,
        };
        let between: u64 = match method {
            CastlingMethod::Short => (1u64 << (5 + base)) | (1u64 << (6 + base)),
            CastlingMethod::Long => (1u64 << (1 + base)) | (1u64 << (2 + base)) | (1u64 << (3
                + base)),
        };
        let path: u64 = match method {
            CastlingMethod::Short => (1u64 << (4 + base)) | (1u64 << (5 + base)) | (1u64 << (6
                + base)),
            CastlingMethod::Long => (1u64 << (4 + base)) | (1u64 << (3 + base)) | (1u64 << (2
                + base)),
        };
        proof {
            self.lemma_sets();
            assert(between == between_mask(color, method));
            assert(path == king_path(color, method));
        }
        (self.blockers().0 & between) == 0 && (attacked.0 & path) == 0
    }

    /// Whether `color` may castle short, going by the stored attack map of the other side.
    pub fn can_castle_short(&self, color: Color) -> (r: bool)
        requires
            self.wf(),
            self@.shape(),
        ensures
            r == self@.castle_ok(
                color,
                CastlingMethod::Short,
                self.bitboards.0[8 + color.other().idx()].0,
            ),
    {
        self.can_castle(color, CastlingMethod::Short)
    }

    /// Whether `color` may castle long, going by the stored attack map of the other side.
    pub fn can_castle_long(&self, color: Color) -> (r: bool)
        requires
            self.wf(),
            self@.shape(),
        ensures
            r == self@.castle_ok(
                color,
                CastlingMethod::Long,
                self.bitboards.0[8 + color.other().idx()].0,
            ),
    {
        self.can_castle(color, CastlingMethod::Long)
    }

    /// The squares that the pawn of `color` in `pawn` attacks, and the squares it may
    /// go to, its king left aside.
    pub fn pawn_moves(&self, pawn: BitBoard, color: Color) -> (r: (BitBoard, BitBoard))
        requires
            self.wf(),
            self@.shape(),
            0 <= sole_square(pawn.0) < 64,
            pawn.0 == bit(sole_square(pawn.0)),
        ensures
            ({
                let (mask, moves) = r;
                &&& mask.0 == pawn_attacks(sole_square(pawn.0), color)
                &&& moves.0 == self@.pawn_targets(sole_square(pawn.0), color)
            }),
    {
        proof {
            lemma_in_bit(sole_square(pawn.0));
            self.lemma_sets();
        }
        let square = pawn.lowest();
        let s: usize = square.to_index();
        let start_rank: usize = match color {
            Color::White => 1,
            Color::Black => 6,
        };
        let one: Option<usize> = match color {
            Color::White => if s + 8 < 64 {
                Some(s + 8)
            } else {
                None
            },
            Color::Black => if s >= 8 {
                Some((s - 8) as usize)
            } else {
                None
            },
        };
        let pushes: u64 = match one {
            Some(o) => {
                if self.squares[o].is_some() {
                    0
                } else if s / 8 == start_rank {
                    let t: usize = match color {
                        Color::White => o + 8,
                        Color::Black => (o - 8) as usize,
                    };
                    if self.squares[t].is_none() {
                        (1u64 << (o as u64)) | (1u64 << (t as u64))
                    } else {
                        1u64 << (o as u64)
                    }
                } else {
                    1u64 << (o as u64)
                }
            },
            None => 0,
        };
        let mask = pawn_reach(square, color);
        let ep: u64 = if color == self.turn {
            self.en_passant.0
        } else {
            0
        };
        let capturable: u64 = self.bitboards.all_pieces(Some(color.opponent())).0 | ep;
        (mask, BitBoard(pushes | (mask.0 & capturable)))
    }

    /// The squares that a slider on the one square of `start_position` reaches along
    /// `sliders` under the occupancy `relevant_blockers`, without the squares of the
    /// pieces of `color`.
    pub fn slider_moves(
        &self,
        sliders: &[Slider],
        color: Color,
        start_position: u64,
        relevant_blockers: BitBoard,
    ) -> (r: BitBoard)
        requires
            forall|i: int| 0 <= i < sliders@.len() ==> (#[trigger] sliders@[i]).is_compass(),
            0 <= sole_square(start_position) < 64,
            start_position == bit(sole_square(start_position)),
        ensures
            r.0 == rays(relevant_blockers.0, sole_square(start_position), sliders@)
                & !self.bitboards.0[color.idx()].0,
    {
        proof {
            lemma_in_bit(sole_square(start_position));
        }
        let from = BitBoard(start_position).lowest();
        slide_attacks(relevant_blockers, from, sliders).minus(self.pieces(color))
    }

    /// The pinned pieces of `color` with the squares each may still go to, and the
    /// checks on its king.
    pub fn pinned_pieces(&self, color: Color) -> (r: (Vec<Pin>, Checks))
        requires
            self.wf(),
            self@.shape(),
            self@.one_king(color),
        ensures
            ({
                let (pins, checks) = r;
                &&& pins@ == self@.pins(color, 8)
                &&& checks.count == self@.check_count(color)
                &&& checks.rays.0 == self@.check_rays(color)
            }),
    {
        let king = self.king_square(color);
        let occ = self.blockers();
        let enemy = color.opponent();
        let contact = self.tables.knight[king.to_index()].intersect(
            self.bitboards.get_piece_set(Piece::Knight, Some(enemy)),
        ).union(
            pawn_reach(king, color).intersect(
                self.bitboards.get_piece_set(Piece::Pawn, Some(enemy)),
            ),
        );
        proof {
            self.lemma_sets();
            assert(contact.0 == self@.contact_checkers(color));
        }
        let sliders: [Slider; 8] = [
            Slider::down(),
            Slider::up(),
            Slider::right(),
            Slider::left(),
            Slider::left_down(),
            Slider::right_down(),
            Slider::left_up(),
            Slider::right_up(),
        ];
        assert(sliders@ =~= queen_sliders());
        let mut pins: Vec<Pin> = Vec::new();
        let mut count: u32 = contact.count();
        let mut check_rays: u64 = 0;
        let mut i: usize = 0;
        while i < 8
            invariant
                i <= 8,
                self.wf(),
                self@.shape(),
                sliders@ == queen_sliders(),
                king.idx() == self@.king_sq(color),
                occ.0 == self@.occupied(),
                enemy == color.other(),
                pins@ == self@.pins(color, i as int),
                count == crate::bitboard::popcount(self@.contact_checkers(color)) + self@.slider_check_count(
                    color,
                    i as int,
                ),
                count <= 64 + i,
                check_rays == self@.slider_check_rays(color, i as int),
            decreases 8 - i,
        {
            let sl = &sliders[i];
            let (reach, first) = ray_walk(occ, king, sl);
            match first {
                Some(q) => {
                    match self.squares[q.to_index()] {
                        Some((pc, pk)) => {
                            if pc != color {
                                if slides_along(pk, sl) {
                                    count = count + 1;
                                    check_rays = check_rays | reach.0;
                                }
                            } else {
                                let (behind, second) = ray_walk(occ, q, sl);
                                match second {
                                    Some(q2) => {
                                        match self.squares[q2.to_index()] {
                                            Some((pc2, pk2)) => {
                                                if pc2 != color && slides_along(pk2, sl) {
                                                    proof {
                                                        q.lemma_of_idx();
                                                    }
                                                    pins.push(
                                                        Pin {
                                                            square: q,
                                                            ray: BitBoard(reach.0 | behind.0),
                                                        },
                                                    );
                                                }
                                            },
                                            None => {},
                                        }
                                    },
                                    None => {},
                                }
                            }
                        },
                        None => {},
                    }
                },
                None => {},
            }
            i = i + 1;
        }
        (pins, Checks { count, rays: BitBoard(contact.0 | check_rays) })
    }

    /// Whether the king of `color` is out of check once its pawn on `sq` has captured
    /// en passant. The capture is made, the attacks of the other side are computed on
    /// the outcome, and the capture is taken back.
    pub fn ep_capture_safe(&mut self, sq: Square, color: Color) -> (r: bool)
        requires
            old(self).wf(),
            old(self)@.valid(),
            color == old(self).turn,
            old(self).en_passant.0 != 0,
            old(self)@.holds(sq.idx(), color, Piece::Pawn),
        ensures
            r == old(self)@.ep_safe(sq.idx(), color),
            final(self)@ == old(self)@,
            final(self).history@ == old(self).history@,
            final(self).wf(),
    {
        let target = self.en_passant.lowest();
        let e: usize = target.to_index();
        let captured = match color {
            Color::White => Square::index((e - 8) as usize),
            Color::Black => Square::index(e + 8),
        };
        let mv = Move {
            starting_square: sq,
            target_square: target,
            flag: MoveFlag::EnPassant(captured),
        };
        proof {
            sq.lemma_of_idx();
            target.lemma_of_idx();
            captured.lemma_of_idx();
            lemma_in_bit(e as int);
            assert(mv == old(self)@.ep_move(sq.idx(), color));
            assert(old(self)@.applicable(mv));
            crate::laws::lemma_make_valid(old(self)@, mv);
            crate::laws::lemma_make_unmake(old(self)@, mv);
        }
        let made = self.do_move(mv);
        let attacked = self.compute_attacks(color.opponent());
        proof {
            self.lemma_sets();
        }
        let safe = self.bitboards.get_piece_set(Piece::King, Some(color)).intersect(
            attacked,
        ).is_empty();
        let undone = self.undo_move(mv);
        proof {
            assert(old(self).history@.push(old(self)@.record(mv)).drop_last() =~= old(
                self,
            ).history@);
        }
        safe
    }

    /// The squares the piece of kind `k` and color `color` on `sq` may legally go to.
    pub fn legal_targets_of(
        &mut self,
        sq: Square,
        color: Color,
        k: Piece,
        pins: &Vec<Pin>,
        check_mask: BitBoard,
        attacked: BitBoard,
    ) -> (r: BitBoard)
        requires
            old(self).wf(),
            old(self)@.valid(),
            old(self)@.holds(sq.idx(), color, k),
            pins@ == old(self)@.pins(color, 8),
            check_mask.0 == old(self)@.check_mask(color),
            attacked.0 == old(self)@.attack_map(color.other()),
        ensures
            r.0 == old(self)@.legal_targets(sq.idx(), color, k),
            final(self)@ == old(self)@,
            final(self).history@ == old(self).history@,
            final(self).wf(),
    {
        proof {
            self.lemma_sets();
            lemma_tz_bit(sq.idx());
            sq.lemma_of_idx();
            lemma_in_not(0);
        }
        let own = self.pieces(color);
        let kings = self.bitboards.get_piece_set(Piece::King, None);
        let reach = match k {
            Piece::Pawn => {
                let (_, moves) = self.pawn_moves(sq.bitboard(), color);
                moves
            },
            _ => self.attacks_from(k, color, sq, self.blockers()).minus(own),
        };
        let pseudo = reach.minus(kings);
        if k == Piece::King {
            return pseudo.minus(attacked);
        }
        let ep: u64 = if k == Piece::Pawn && color == self.turn {
            self.en_passant.0
        } else {
            0
        };
        let plain: u64 = ((pseudo.0 & !ep) & check_mask.0) & pin_mask_of(pins, sq).0;
        let ep_hit: u64 = pseudo.0 & ep;
        if ep_hit != 0 {
            proof {
                lemma_in_ops(pseudo.0, 0);
                crate::bits::lemma_empty(pseudo.0 & 0);
            }
            if self.ep_capture_safe(sq, color) {
                return BitBoard(plain | ep_hit);
            }
        }
        BitBoard(plain)
    }

    /// Appends to `out` the moves that take the piece of kind `k` and color `color`
    /// from `sq` to `to`.
    pub fn push_moves_for(&self, out: &mut Vec<Move>, sq: Square, to: Square, color: Color, k: Piece)
        requires
            self@.valid(),
        ensures
            final(out)@ == old(out)@ + self@.moves_for(sq.idx(), to.idx(), color, k),
    {
        let t: usize = to.to_index();
        let s: usize = sq.to_index();
        proof {
            sq.lemma_of_idx();
            to.lemma_of_idx();
            lemma_in_not(0);
        }
        let captured: Option<Piece> = match self.squares[t] {
            Some((_, cap)) => Some(cap),
            None => None,
        };
        let last_rank: usize = match color {
            Color::White => 7,
            Color::Black => 0,
        };
        if k == Piece::Pawn && t / 8 == last_rank {
            let kinds = Piece::promotions();
            let mut i: usize = 0;
            while i < 4
                invariant
                    i <= 4,
                    kinds@ == seq![Piece::Queen, Piece::Rook, Piece::Bishop, Piece::Knight],
                    out@ == old(out)@ + promotions(sq, to, captured).take(i as int),
                decreases 4 - i,
            {
                let flag = match captured {
                    Some(cap) => MoveFlag::PromotionCapture(cap, kinds[i]),
                    None => MoveFlag::Promotion(kinds[i]),
                };
                out.push(Move { starting_square: sq, target_square: to, flag });
                proof {
                    assert(promotions(sq, to, captured).take(i + 1) =~= promotions(
                        sq,
                        to,
                        captured,
                    ).take(i as int).push(promotions(sq, to, captured)[i as int]));
                    assert(out@ =~= old(out)@ + promotions(sq, to, captured).take(i + 1));
                }
                i = i + 1;
            }
            proof {
                assert(promotions(sq, to, captured).take(4) =~= promotions(sq, to, captured));
            }
            return ;
        }
        let flag = if k == Piece::Pawn && color == self.turn && self.en_passant.has_square(to) {
            proof {
                lemma_in_bit(sole_square(self.en_passant.0));
            }
            match color {
                Color::White => MoveFlag::EnPassant(Square::index((t - 8) as usize)),
                Color::Black => MoveFlag::EnPassant(Square::index(t + 8)),
            }
        } else if k == Piece::Pawn && match color {
            Color::White => t == s + 16,
            Color::Black => t + 16 == s,
        } {
            MoveFlag::DoublePush
        } else {
            match captured {
                Some(cap) => MoveFlag::Capture(cap),
                None => MoveFlag::Quiet,
            }
        };
        out.push(Move { starting_square: sq, target_square: to, flag });
        proof {
            assert(out@ =~= old(out)@ + self@.moves_for(sq.idx(), to.idx(), color, k));
        }
    }

    /// The legal moves of `color`: its castling moves, then the moves of its pieces by
    /// ascending origin and destination. The position is left as it is; the attack
    /// maps of both sides and the move filter of `color` are brought up to date.
    pub fn generate_moves(&mut self, color: Color) -> (r: Vec<Move>)
        requires
            old(self).wf(),
            old(self)@.valid(),
        ensures
            r@ == old(self)@.legal_moves(color),
            final(self)@ == old(self)@,
            final(self).history@ == old(self).history@,
            final(self).wf(),
            final(self).attacks_fresh(Color::White),
            final(self).attacks_fresh(Color::Black),
            final(self).move_filters[color.idx()].0 == old(self)@.check_mask(color),
            final(self).move_filters[color.other().idx()] == old(self).move_filters[color.other().idx()],
    {
        let other_filter = self.move_filters[color.opponent().index()];
        let (pins, checks) = self.pinned_pieces(color);
        let check_mask = if checks.count == 0 {
            BitBoard(u64::MAX)
        } else if checks.count == 1 {
            checks.rays
        } else {
            BitBoard(0)
        };
        let own_attacks = self.compute_attacks(color);
        let attacked = self.compute_attacks(color.opponent());
        let mut out: Vec<Move> = Vec::new();
        let (king_from, _) = Self::castling_homes(color, CastlingMethod::Short);
        let (short_to, _) = Self::castling_squares(color, CastlingMethod::Short);
        let (long_to, _) = Self::castling_squares(color, CastlingMethod::Long);
        if self.can_castle_given(color, CastlingMethod::Short, attacked) {
            out.push(
                Move {
                    starting_square: king_from,
                    target_square: short_to,
                    flag: MoveFlag::Castle(CastlingMethod::Short),
                },
            );
        }
        if self.can_castle_given(color, CastlingMethod::Long, attacked) {
            out.push(
                Move {
                    starting_square: king_from,
                    target_square: long_to,
                    flag: MoveFlag::Castle(CastlingMethod::Long),
                },
            );
        }
        proof {
            king_from.lemma_of_idx();
            short_to.lemma_of_idx();
            long_to.lemma_of_idx();
            assert(out@ =~= old(self)@.castle_moves(color));
            assert(out@ =~= old(self)@.castle_moves(color) + old(self)@.moves_upto(color, 0));
        }
        let mut i: usize = 0;
        while i < 64
            invariant
                i <= 64,
                self.wf(),
                self@ == old(self)@,
                self@.valid(),
                self.history@ == old(self).history@,
                pins@ == self@.pins(color, 8),
                check_mask.0 == self@.check_mask(color),
                attacked.0 == self@.attack_map(color.other()),
                out@ == self@.castle_moves(color) + self@.moves_upto(color, i as int),
            decreases 64 - i,
        {
            let ghost before = out@;
            match self.squares[i] {
                Some((pc, k)) => {
                    if pc == color {
                        let sq = Square::index(i);
                        let targets = self.legal_targets_of(
                            sq,
                            color,
                            k,
                            &pins,
                            check_mask,
                            attacked,
                        );
                        let ts = targets.active_squares();
                        let mut j: usize = 0;
                        while j < ts.len()
                            invariant
                                j <= ts@.len(),
                                self@.valid(),
                                sq.idx() == i,
                                out@ == before + self@.moves_over(
                                    i as int,
                                    ts@.take(j as int),
                                    color,
                                    k,
                                ),
                            decreases ts@.len() - j,
                        {
                            proof {
                                assert(ts@.take(j + 1).drop_last() =~= ts@.take(j as int));
                            }
                            self.push_moves_for(&mut out, sq, ts[j], color, k);
                            j = j + 1;
                        }
                        proof {
                            assert(ts@.take(j as int) =~= ts@);
                        }
                    }
                },
                None => {},
            }
            proof {
                assert(out@ =~= self@.castle_moves(color) + self@.moves_upto(color, i + 1));
            }
            i = i + 1;
        }
        self.bitboards.0[BitBoards::ad_bitboard(color)] = own_attacks;
        self.bitboards.0[BitBoards::ad_bitboard(color.opponent())] = attacked;
        match color {
            Color::White => {
                self.move_filters = [check_mask, other_filter];
            },
            Color::Black => {
                self.move_filters = [other_filter, check_mask];
            },
        }
        out
    }

    /// Brings the attack map of the side that is not to move up to date, for the
    /// side to move to go by.
    pub fn prepare(&mut self)
        requires
            old(self).wf(),
            old(self)@.valid(),
        ensures
            final(self)@ == old(self)@,
            final(self).history@ == old(self).history@,
            final(self).wf(),
            final(self).attacks_fresh(Color::White),
            final(self).attacks_fresh(Color::Black),
            final(self).move_filters[old(self).turn.other().idx()].0 == old(self)@.check_mask(
                old(self).turn.other(),
            ),
            final(self).move_filters[old(self).turn.idx()] == old(self).move_filters[old(
                self,
            ).turn.idx()],
    {
        let _ = self.generate_moves(self.turn.opponent());
    }
}

} // verus!
