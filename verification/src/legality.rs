//! Every legal move can be made: the squares it names hold what its kind says.

use vstd::prelude::*;
use crate::attacks::{can_step, nb, pawn_attacks, piece_attacks, step_to};
use crate::bitboard::{members, members_from};
use crate::bits::{
    bit, in_bb, lemma_bb_where, lemma_empty, lemma_in_bit, lemma_in_not, lemma_in_ops,
};
use crate::moves::{CastlingMethod, Move};
use crate::piece::{Color, Piece};
use crate::position::{sole_square, king_home, king_target, kind_of, rook_target, Position};
use crate::rules::{between_mask, promotions};
use crate::square::{rank_of, Square};

verus! {

/// The members of the sets of a position are the squares that its mailbox describes.
pub proof fn lemma_sets_of(p: Position)
    ensures
        forall|s: int, c: Color| #[trigger] in_bb(p.color_bb(c), s) == p.color_at(s, c),
        forall|s: int, k: Piece| #[trigger] in_bb(p.kind_bb(k), s) == p.kind_at(s, k),
        forall|s: int, c: Color, k: Piece| #[trigger] in_bb(p.piece_bb(c, k), s) == p.holds(s, c, k),
        forall|s: int| #[trigger] in_bb(p.occupied(), s) == (0 <= s < 64 && p.squares[s] is Some),
{
    assert forall|s: int, c: Color| #[trigger] in_bb(p.color_bb(c), s) == p.color_at(s, c) by {
        lemma_bb_where(|s: int| p.color_at(s, c), 64);
    }
    assert forall|s: int, k: Piece| #[trigger] in_bb(p.kind_bb(k), s) == p.kind_at(s, k) by {
        lemma_bb_where(|s: int| p.kind_at(s, k), 64);
    }
    assert forall|s: int, c: Color, k: Piece| #[trigger]
        in_bb(p.piece_bb(c, k), s) == p.holds(s, c, k) by {
        lemma_bb_where(|s: int| p.holds(s, c, k), 64);
    }
    lemma_bb_where(|s: int| 0 <= s < 64 && p.squares[s] is Some, 64);
}

/// The one member of a neighbour set is the square the step leads to.
pub proof fn lemma_nb(s: int, df: int, dr: int)
    requires
        0 <= s < 64,
        -2 <= df <= 2,
        -2 <= dr <= 2,
    ensures
        forall|t: int| #[trigger]
            in_bb(nb(s, df, dr), t) == (can_step(s, df, dr) && t == step_to(s, df, dr)),
        can_step(s, df, dr) ==> 0 <= step_to(s, df, dr) < 64 && rank_of(step_to(s, df, dr))
            == rank_of(s) + dr && step_to(s, df, dr) % 8 == s % 8 + df,
{
    lemma_in_not(0);
    if can_step(s, df, dr) {
        lemma_in_bit(step_to(s, df, dr));
    }
}

/// Each square that a list of members names is a member.
pub proof fn lemma_members_in(b: u64, k: int, i: int)
    requires
        0 <= k <= 64,
        0 <= i < members_from(b, k).len(),
    ensures
        k <= members_from(b, k)[i].idx() < 64,
        in_bb(b, members_from(b, k)[i].idx()),
    decreases 64 - k,
{
    if k < 64 {
        Square::lemma_idx_of(k);
        if in_bb(b, k) {
            if i > 0 {
                lemma_members_in(b, k + 1, i - 1);
            }
        } else {
            lemma_members_in(b, k + 1, i);
        }
    }
}

/// A move among those of a piece to several squares is among those to one of them.
pub proof fn lemma_moves_over_member(
    p: Position,
    s: int,
    ts: Seq<Square>,
    c: Color,
    k: Piece,
    m: Move,
) -> (j: int)
    requires
        p.moves_over(s, ts, c, k).contains(m),
    ensures
        0 <= j < ts.len(),
        p.moves_for(s, ts[j].idx(), c, k).contains(m),
    decreases ts.len(),
{
    let all = p.moves_over(s, ts, c, k);
    let i = choose|i: int| 0 <= i < all.len() && all[i] == m;
    let head = p.moves_over(s, ts.drop_last(), c, k);
    let tail = p.moves_for(s, ts.last().idx(), c, k);
    if i < head.len() {
        assert(head[i] == m);
        lemma_moves_over_member(p, s, ts.drop_last(), c, k, m)
    } else {
        assert(tail[i - head.len()] == m);
        ts.len() - 1
    }
}

/// A move among those of the pieces on the squares below `n` is among those of one of them.
pub proof fn lemma_moves_upto_member(p: Position, c: Color, n: int, m: Move) -> (s: int)
    requires
        p.moves_upto(c, n).contains(m),
    ensures
        0 <= s < n,
        p.piece_moves(s, c).contains(m),
    decreases n,
{
    let all = p.moves_upto(c, n);
    let i = choose|i: int| 0 <= i < all.len() && all[i] == m;
    let head = p.moves_upto(c, n - 1);
    let tail = p.piece_moves(n - 1, c);
    if i < head.len() {
        assert(head[i] == m);
        lemma_moves_upto_member(p, c, n - 1, m)
    } else {
        assert(tail[i - head.len()] == m);
        n - 1
    }
}

/// A legal destination is one of the squares the piece could go to with its king
/// left aside, and it does not hold a king.
pub proof fn lemma_legal_within_pseudo(p: Position, s: int, c: Color, k: Piece, t: int)
    requires
        in_bb(p.legal_targets(s, c, k), t),
    ensures
        in_bb(p.pseudo_targets(s, c, k), t),
        !in_bb(p.kind_bb(Piece::King), t),
{
    let raw = p.pseudo_targets(s, c, k);
    let pseudo = raw & !p.kind_bb(Piece::King);
    lemma_in_ops(raw, p.kind_bb(Piece::King));
    if k == Piece::King {
        lemma_in_ops(pseudo, p.attack_map(c.other()));
    } else {
        let ep = if k == Piece::Pawn {
            p.ep_for(c)
        } else {
            0
        };
        let plain = (pseudo & !ep) & p.check_mask(c) & crate::rules::pin_mask(p.pins(c, 8), s);
        lemma_in_ops(pseudo, ep);
        lemma_in_ops(pseudo & !ep, p.check_mask(c));
        lemma_in_ops((pseudo & !ep) & p.check_mask(c), crate::rules::pin_mask(p.pins(c, 8), s));
        lemma_in_ops(plain, pseudo & ep);
    }
}

/// A move of the side to move to a square that its piece could go to with its king
/// left aside, and that holds no king, can be made.
pub proof fn lemma_target_applicable(p: Position, s: int, t: int, k: Piece, m: Move)
    requires
        p.valid(),
        p.holds(s, p.turn, k),
        in_bb(p.pseudo_targets(s, p.turn, k), t),
        !in_bb(p.kind_bb(Piece::King), t),
        p.moves_for(s, t, p.turn, k).contains(m),
    ensures
        p.applicable(m),
{
    let c = p.turn;
    let d = c.dir();
    lemma_sets_of(p);
    lemma_in_not(0);
    Square::lemma_idx_of(s);
    Square::lemma_idx_of(t);
    let captured = match p.squares[t] {
        Some((_, cap)) => Some(cap),
        None => None,
    };
    if k == Piece::Pawn {
        let one = s + 8 * d;
        let two = s + 16 * d;
        let reach = pawn_attacks(s, c);
        let takes = p.color_bb(c.other()) | p.ep_for(c);
        lemma_nb(s, 1, d);
        lemma_nb(s, -1, d);
        lemma_in_ops(nb(s, 1, d), nb(s, -1, d));
        lemma_in_ops(p.color_bb(c.other()), p.ep_for(c));
        lemma_in_ops(reach, takes);
        lemma_in_ops(p.pawn_pushes(s, c), reach & takes);
        if 0 <= one < 64 {
            lemma_in_bit(one);
        }
        if 0 <= two < 64 {
            lemma_in_bit(two);
            lemma_in_ops(bit(one), bit(two));
        }
        if p.en_passant != 0 {
            lemma_in_bit(sole_square(p.en_passant));
        }
        assert(p.kind_at(s, Piece::Pawn));
        if rank_of(t) == c.last_rank() {
            let all = promotions(Square::of(s), Square::of(t), captured);
            let i = choose|i: int| 0 <= i < all.len() && all[i] == m;
            assert(all[i] == m);
        } else {
            if in_bb(p.ep_for(c), t) {
                Square::lemma_idx_of(t - 8 * d);
            }
            assert(p.moves_for(s, t, c, k)[0] == m);
        }
    } else {
        lemma_in_ops(piece_attacks(k, c, s, p.occupied()), p.color_bb(c));
        assert(p.moves_for(s, t, c, k)[0] == m);
    }
}

/// A castling move that the rules allow can be made.
pub proof fn lemma_castle_applicable(p: Position, m: CastlingMethod, attacked: u64)
    requires
        p.valid(),
        p.castle_ok(p.turn, m, attacked),
    ensures
        p.applicable(Position::castle_move(p.turn, m)),
{
    let c = p.turn;
    lemma_sets_of(p);
    lemma_in_not(0);
    Square::lemma_idx_of(king_home(c));
    Square::lemma_idx_of(king_target(c, m));
    let base = 56 * c.idx();
    lemma_in_bit(1 + base);
    lemma_in_bit(2 + base);
    lemma_in_bit(3 + base);
    lemma_in_bit(5 + base);
    lemma_in_bit(6 + base);
    lemma_in_ops(bit(5 + base), bit(6 + base));
    lemma_in_ops(bit(1 + base), bit(2 + base));
    lemma_in_ops(bit(1 + base) | bit(2 + base), bit(3 + base));
    lemma_in_ops(p.occupied(), between_mask(c, m));
    lemma_empty(p.occupied() & between_mask(c, m));
    assert(!in_bb(p.occupied() & between_mask(c, m), king_target(c, m)));
    assert(!in_bb(p.occupied() & between_mask(c, m), rook_target(c, m)));
}

/// Every legal move of the side to move can be made.
pub proof fn lemma_legal_applicable(p: Position, m: Move)
    requires
        p.valid(),
        p.legal_moves(p.turn).contains(m),
    ensures
        p.applicable(m),
{
    let c = p.turn;
    let all = p.legal_moves(c);
    let castles = p.castle_moves(c);
    let i = choose|i: int| 0 <= i < all.len() && all[i] == m;
    let attacked = p.attack_map(c.other());
    if i < castles.len() {
        assert(castles[i] == m);
        if p.castle_ok(c, CastlingMethod::Short, attacked) {
            lemma_castle_applicable(p, CastlingMethod::Short, attacked);
        }
        if p.castle_ok(c, CastlingMethod::Long, attacked) {
            lemma_castle_applicable(p, CastlingMethod::Long, attacked);
        }
    } else {
        assert(p.moves_upto(c, 64)[i - castles.len()] == m);
        let s = lemma_moves_upto_member(p, c, 64, m);
        let k = kind_of(p.squares[s]);
        let targets = p.legal_targets(s, c, k);
        let j = lemma_moves_over_member(p, s, members(targets), c, k, m);
        lemma_members_in(targets, 0, j);
        let t = members(targets)[j].idx();
        lemma_legal_within_pseudo(p, s, c, k, t);
        lemma_target_applicable(p, s, t, k, m);
    }
}

} // verus!
