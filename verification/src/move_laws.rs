//! What holds of the legal moves of every position.

use vstd::prelude::*;
use crate::attacks::{attacks_upto, king_attacks, piece_attacks};
use crate::bitboard::members;
use crate::bits::{in_bb, lemma_empty, lemma_in_bit, lemma_in_not, lemma_in_ops};
use crate::legality::{
    lemma_members_in, lemma_moves_over_member, lemma_moves_upto_member, lemma_nb, lemma_sets_of,
};
use crate::moves::{CastlingMethod, Move};
use crate::piece::{Color, Piece};
use crate::position::{sole_square, kind_of, Position};
use crate::rules::{king_path, pin_mask};
use crate::square::{rank_of, Square};

verus! {

/// A pawn that reaches the last rank, by an advance or by a capture, has exactly
/// four moves to that square: one for each of queen, rook, bishop and knight, in that
/// order, each a promotion, and a capture if the square holds a piece.
pub proof fn lemma_four_promotions(p: Position, s: int, t: int, c: Color)
    requires
        0 <= t < 64,
        rank_of(t) == c.last_rank(),
    ensures
        p.moves_for(s, t, c, Piece::Pawn).len() == 4,
        forall|i: int|
            0 <= i < 4 ==> {
                let m = #[trigger] p.moves_for(s, t, c, Piece::Pawn)[i];
                &&& m.starting_square == Square::of(s)
                &&& m.target_square == Square::of(t)
                &&& m.flag.promoted() == Some(
                    seq![Piece::Queen, Piece::Rook, Piece::Bishop, Piece::Knight][i],
                )
                &&& m.flag.captured() == (match p.squares[t] {
                    Some((_, cap)) => Some(cap),
                    None => None,
                })
            },
{
}

/// A pawn one rank before the last has no legal destination but on the last rank, so
/// each of its destinations has the four promotions.
pub proof fn lemma_seventh_rank_promotes(p: Position, s: int, t: int)
    requires
        p.valid(),
        p.holds(s, p.turn, Piece::Pawn),
        rank_of(s) == p.turn.last_rank() - p.turn.dir(),
        in_bb(p.legal_targets(s, p.turn, Piece::Pawn), t),
    ensures
        rank_of(t) == p.turn.last_rank(),
        p.moves_for(s, t, p.turn, Piece::Pawn).len() == 4,
{
    let c = p.turn;
    let d = c.dir();
    crate::legality::lemma_legal_within_pseudo(p, s, c, Piece::Pawn, t);
    lemma_sets_of(p);
    lemma_in_not(0);
    let one = s + 8 * d;
    let reach = crate::attacks::pawn_attacks(s, c);
    let takes = p.color_bb(c.other()) | p.ep_for(c);
    lemma_nb(s, 1, d);
    lemma_nb(s, -1, d);
    lemma_in_ops(crate::attacks::nb(s, 1, d), crate::attacks::nb(s, -1, d));
    lemma_in_ops(reach, takes);
    lemma_in_ops(p.pawn_pushes(s, c), reach & takes);
    if 0 <= one < 64 {
        lemma_in_bit(one);
    }
}

/// No legal capture en passant leaves the king of the side that makes it in check.
pub proof fn lemma_en_passant_keeps_king_safe(p: Position, m: Move)
    requires
        p.valid(),
        p.legal_moves(p.turn).contains(m),
        m.flag is EnPassant,
    ensures
        !p.make(m).in_check(p.turn),
{
    let c = p.turn;
    let all = p.legal_moves(c);
    let castles = p.castle_moves(c);
    let i = choose|i: int| 0 <= i < all.len() && all[i] == m;
    if i < castles.len() {
        assert(castles[i] == m);
    } else {
        assert(p.moves_upto(c, 64)[i - castles.len()] == m);
        let s = lemma_moves_upto_member(p, c, 64, m);
        let k = kind_of(p.squares[s]);
        let targets = p.legal_targets(s, c, k);
        let j = lemma_moves_over_member(p, s, members(targets), c, k, m);
        lemma_members_in(targets, 0, j);
        let t = members(targets)[j].idx();
        let list = p.moves_for(s, t, c, k);
        let n = choose|n: int| 0 <= n < list.len() && list[n] == m;
        assert(list[n] == m);
        assert(k == Piece::Pawn && in_bb(p.en_passant, t));
        lemma_in_not(0);
        lemma_in_bit(sole_square(p.en_passant));
        assert(t == sole_square(p.en_passant));
        assert(m == p.ep_move(s, c));
        let pseudo = p.pseudo_targets(s, c, k) & !p.kind_bb(Piece::King);
        let ep = p.en_passant;
        let plain = (pseudo & !ep) & p.check_mask(c) & pin_mask(p.pins(c, 8), s);
        lemma_in_ops(pseudo, ep);
        lemma_in_ops(pseudo & !ep, p.check_mask(c));
        lemma_in_ops((pseudo & !ep) & p.check_mask(c), pin_mask(p.pins(c, 8), s));
        lemma_in_ops(plain, pseudo & ep);
        assert(!in_bb(plain, t));
    }
}

/// What a piece attacks is part of what its side attacks.
pub proof fn lemma_attacks_include(
    squares: Seq<Option<(Color, Piece)>>,
    c: Color,
    occ: u64,
    n: int,
    s: int,
    k: Piece,
    t: int,
)
    requires
        0 <= s < n <= 64,
        squares[s] == Some((c, k)),
        in_bb(piece_attacks(k, c, s, occ), t),
    ensures
        in_bb(attacks_upto(squares, c, occ, n), t),
    decreases n,
{
    let rest = attacks_upto(squares, c, occ, n - 1);
    if s == n - 1 {
        lemma_in_ops(rest, piece_attacks(k, c, s, occ));
    } else {
        lemma_attacks_include(squares, c, occ, n - 1, s, k, t);
        match squares[n - 1] {
            Some((pc, pk)) => {
                lemma_in_ops(rest, piece_attacks(pk, c, n - 1, occ));
            },
            None => {},
        }
    }
}

/// A king never has a legal move to a square next to the other king.
pub proof fn lemma_kings_keep_apart(p: Position, c: Color, t: int)
    requires
        p.valid(),
        in_bb(king_attacks(p.king_sq(c.other())), t),
    ensures
        !in_bb(p.legal_targets(p.king_sq(c), c, Piece::King), t),
{
    crate::laws::lemma_king_sq(p, c.other());
    let other = p.king_sq(c.other());
    let occ = p.occupied_without_king(c);
    lemma_attacks_include(p.squares, c.other(), occ, 64, other, Piece::King, t);
    let pseudo = p.pseudo_targets(p.king_sq(c), c, Piece::King) & !p.kind_bb(Piece::King);
    lemma_in_ops(pseudo, p.attack_map(c.other()));
}

/// No move of a piece from square to square is a castling move.
proof fn lemma_piece_moves_not_castle(p: Position, c: Color, m: Move)
    requires
        p.moves_upto(c, 64).contains(m),
    ensures
        !(m.flag is Castle),
{
    let s = lemma_moves_upto_member(p, c, 64, m);
    let k = kind_of(p.squares[s]);
    let targets = p.legal_targets(s, c, k);
    let j = lemma_moves_over_member(p, s, members(targets), c, k, m);
    let t = members(targets)[j].idx();
    let list = p.moves_for(s, t, c, k);
    let n = choose|n: int| 0 <= n < list.len() && list[n] == m;
    assert(list[n] == m);
}

/// Castling is not legal while the other side attacks a square that the king stands
/// on, crosses or lands on, whichever of the three it is.
pub proof fn lemma_no_castling_through_attack(p: Position, c: Color, m: CastlingMethod, t: int)
    requires
        in_bb(king_path(c, m), t),
        in_bb(p.attack_map(c.other()), t),
    ensures
        !p.legal_moves(c).contains(Position::castle_move(c, m)),
{
    let mv = Position::castle_move(c, m);
    let attacked = p.attack_map(c.other());
    lemma_in_ops(attacked, king_path(c, m));
    lemma_empty(attacked & king_path(c, m));
    assert(in_bb(attacked & king_path(c, m), t));
    assert(!p.castle_ok(c, m, attacked));
    let all = p.legal_moves(c);
    if all.contains(mv) {
        let castles = p.castle_moves(c);
        let i = choose|i: int| 0 <= i < all.len() && all[i] == mv;
        if i < castles.len() {
            assert(castles[i] == mv);
        } else {
            assert(p.moves_upto(c, 64)[i - castles.len()] == mv);
            lemma_piece_moves_not_castle(p, c, mv);
        }
    }
}

} // verus!
