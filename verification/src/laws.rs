//! What holds of every board and of every move made on it.

use vstd::prelude::*;
use crate::bits::{in_bb, lemma_empty, lemma_ext, lemma_in_bit, lemma_in_ops, lemma_tz_bit};
use crate::board::{slot_has, Board};
use crate::moves::{Move, MoveFlag};
use crate::piece::{Color, Piece};
use crate::position::{color_of, sole_square, kind_of, Position};
use crate::square::rank_of;

verus! {

/// No square belongs to both the white and the black pieces.
pub proof fn lemma_colors_disjoint(b: &Board)
    requires
        b.wf(),
    ensures
        b.bitboards.0[0].0 & b.bitboards.0[1].0 == 0,
{
    let w = b.bitboards.0[0].0;
    let k = b.bitboards.0[1].0;
    lemma_in_ops(w, k);
    assert forall|s: int| 0 <= s < 64 implies !in_bb(w & k, s) by {
        assert(in_bb(w, s) == slot_has(b.squares@, 0, s));
        assert(in_bb(k, s) == slot_has(b.squares@, 1, s));
    }
    lemma_empty(w & k);
}

/// The squares of the six kinds together are the squares of the two colors together.
pub proof fn lemma_kinds_cover_colors(b: &Board)
    requires
        b.wf(),
    ensures
        b.bitboards.0[2].0 | b.bitboards.0[3].0 | b.bitboards.0[4].0 | b.bitboards.0[5].0
            | b.bitboards.0[6].0 | b.bitboards.0[7].0 == b.bitboards.0[0].0 | b.bitboards.0[1].0,
{
    let t = b.bitboards.0;
    let k23 = t[2].0 | t[3].0;
    let k24 = k23 | t[4].0;
    let k25 = k24 | t[5].0;
    let k26 = k25 | t[6].0;
    let kinds = k26 | t[7].0;
    let colors = t[0].0 | t[1].0;
    lemma_in_ops(t[2].0, t[3].0);
    lemma_in_ops(k23, t[4].0);
    lemma_in_ops(k24, t[5].0);
    lemma_in_ops(k25, t[6].0);
    lemma_in_ops(k26, t[7].0);
    lemma_in_ops(t[0].0, t[1].0);
    assert forall|s: int| 0 <= s < 64 implies in_bb(kinds, s) == in_bb(colors, s) by {
        assert(in_bb(t[0].0, s) == slot_has(b.squares@, 0, s));
        assert(in_bb(t[1].0, s) == slot_has(b.squares@, 1, s));
        assert(in_bb(t[2].0, s) == slot_has(b.squares@, 2, s));
        assert(in_bb(t[3].0, s) == slot_has(b.squares@, 3, s));
        assert(in_bb(t[4].0, s) == slot_has(b.squares@, 4, s));
        assert(in_bb(t[5].0, s) == slot_has(b.squares@, 5, s));
        assert(in_bb(t[6].0, s) == slot_has(b.squares@, 6, s));
        assert(in_bb(t[7].0, s) == slot_has(b.squares@, 7, s));
    }
    lemma_ext(kinds, colors);
}

/// On every square the mailbox and the piece sets name the same color and the same
/// kind: a piece is in the set of its color and in that of its kind and in no other,
/// and an empty square is in none.
pub proof fn lemma_mailbox_agrees(b: &Board, s: int)
    requires
        b.wf(),
        0 <= s < 64,
    ensures
        forall|c: Color| #[trigger]
            in_bb(b.bitboards.0[c.idx()].0, s) == (b@.squares[s] is Some && color_of(b@.squares[s])
                == c),
        forall|k: Piece| #[trigger]
            in_bb(b.bitboards.0[k.idx()].0, s) == (b@.squares[s] is Some && kind_of(b@.squares[s])
                == k),
{
    assert forall|c: Color| #[trigger]
        in_bb(b.bitboards.0[c.idx()].0, s) == (b@.squares[s] is Some && color_of(b@.squares[s])
            == c) by {
        assert(in_bb(b.bitboards.0[c.idx()].0, s) == slot_has(b.squares@, c.idx(), s));
    }
    assert forall|k: Piece| #[trigger]
        in_bb(b.bitboards.0[k.idx()].0, s) == (b@.squares[s] is Some && kind_of(b@.squares[s])
            == k) by {
        assert(in_bb(b.bitboards.0[k.idx()].0, s) == slot_has(b.squares@, k.idx(), s));
    }
}

/// Two boards with the same position hold the same piece sets, and once the attack
/// maps of both have been brought up to date, the same attack maps: the whole table
/// of sets is a function of the position.
pub proof fn lemma_sets_follow_position(a: &Board, b: &Board)
    requires
        a.wf(),
        b.wf(),
        a@ == b@,
        a@.shape(),
    ensures
        forall|i: int| 0 <= i < 8 ==> a.bitboards.0[i] == b.bitboards.0[i],
        a.attacks_fresh(Color::White) && a.attacks_fresh(Color::Black) && b.attacks_fresh(
            Color::White,
        ) && b.attacks_fresh(Color::Black) ==> a.bitboards.0@ =~= b.bitboards.0@,
{
    assert forall|i: int| 0 <= i < 8 implies a.bitboards.0[i] == b.bitboards.0[i] by {
        assert forall|s: int| 0 <= s < 64 implies in_bb(a.bitboards.0[i].0, s) == in_bb(
            b.bitboards.0[i].0,
            s,
        ) by {
            assert(in_bb(a.bitboards.0[i].0, s) == slot_has(a.squares@, i, s));
            assert(in_bb(b.bitboards.0[i].0, s) == slot_has(b.squares@, i, s));
        }
        lemma_ext(a.bitboards.0[i].0, b.bitboards.0[i].0);
    }
    if a.attacks_fresh(Color::White) && a.attacks_fresh(Color::Black) && b.attacks_fresh(
        Color::White,
    ) && b.attacks_fresh(Color::Black) {
        assert(a.bitboards.0[8].0 == b.bitboards.0[8].0);
        assert(a.bitboards.0[9].0 == b.bitboards.0[9].0);
        assert forall|i: int| 0 <= i < 10 implies a.bitboards.0@[i] == b.bitboards.0@[i] by {
            if i < 8 {
                assert(a.bitboards.0[i] == b.bitboards.0[i]);
            }
        }
    }
}

/// Where a side has one king, the square of its king is the square that holds it.
pub proof fn lemma_king_sq(p: Position, c: Color)
    requires
        p.one_king(c),
    ensures
        p.holds(p.king_sq(c), c, Piece::King),
        forall|t: int| #[trigger] p.holds(t, c, Piece::King) ==> t == p.king_sq(c),
{
    let s = choose|s: int| #[trigger]
        p.holds(s, c, Piece::King) && forall|t: int| #[trigger]
            p.holds(t, c, Piece::King) ==> t == s;
    assert(p.holds(s, c, Piece::King));
}

/// A move that can be made leaves each side with its one king.
proof fn lemma_make_keeps_king(p: Position, mv: Move, side: Color)
    requires
        p.valid(),
        p.applicable(mv),
    ensures
        p.make(mv).one_king(side),
{
    let q = p.make(mv);
    let from = mv.starting_square.idx();
    let to = mv.target_square.idx();
    mv.starting_square.lemma_of_idx();
    mv.target_square.lemma_of_idx();
    lemma_king_sq(p, side);
    let ks = p.king_sq(side);
    let k = kind_of(p.squares[from]);
    let s2 = if ks == from {
        to
    } else {
        ks
    };
    match mv.flag {
        MoveFlag::EnPassant(cap) => {
            cap.lemma_of_idx();
        },
        _ => {},
    }
    assert(q.holds(s2, side, Piece::King));
    assert forall|t: int| #[trigger] q.holds(t, side, Piece::King) implies t == s2 by {
        if t != to {
            assert(p.holds(t, side, Piece::King));
        } else {
            assert(p.holds(from, side, Piece::King));
        }
    }
}

/// Every position reached by a move that can be made on a valid position is valid:
/// each side keeps exactly one king, no pawn comes to stand on the first or the
/// eighth rank, and the en-passant target is the square that a double push skipped.
pub proof fn lemma_make_valid(p: Position, mv: Move)
    requires
        p.valid(),
        p.applicable(mv),
    ensures
        p.make(mv).valid(),
{
    let q = p.make(mv);
    let from = mv.starting_square.idx();
    let to = mv.target_square.idx();
    let c = p.turn;
    mv.starting_square.lemma_of_idx();
    mv.target_square.lemma_of_idx();
    lemma_make_keeps_king(p, mv, Color::White);
    lemma_make_keeps_king(p, mv, Color::Black);
    match mv.flag {
        MoveFlag::EnPassant(cap) => {
            cap.lemma_of_idx();
            let e = sole_square(p.en_passant);
            crate::bits::lemma_in_not(0);
            lemma_in_bit(e);
            assert(to == e);
        },
        _ => {},
    }
    assert forall|s: int| #[trigger] q.kind_at(s, Piece::Pawn) implies 0 < rank_of(s) < 7 by {
        if s != to {
            assert(p.kind_at(s, Piece::Pawn));
        }
    }
    if mv.flag == MoveFlag::DoublePush {
        let e = from + 8 * c.dir();
        lemma_tz_bit(e);
        assert(q.holds(e - 8 * q.turn.dir(), q.turn.other(), Piece::Pawn));
    }
}

/// After a move that can be made, a piece stands on its destination.
pub proof fn lemma_make_lands(p: Position, mv: Move)
    requires
        p.valid(),
        p.applicable(mv),
    ensures
        p.make(mv).squares[mv.target_square.idx()] is Some,
{
    mv.starting_square.lemma_of_idx();
    mv.target_square.lemma_of_idx();
}

/// Unmaking a move on the position that it led to gives back the position on which it
/// was made: squares, side to move, castling rights, en-passant target and both clocks.
pub proof fn lemma_make_unmake(p: Position, mv: Move)
    requires
        p.valid(),
        p.applicable(mv),
    ensures
        p.make(mv).unmake(p.record(mv)) == p,
{
    let q = p.make(mv);
    let r = q.unmake(p.record(mv));
    mv.starting_square.lemma_of_idx();
    mv.target_square.lemma_of_idx();
    match mv.flag {
        MoveFlag::EnPassant(cap) => {
            cap.lemma_of_idx();
        },
        _ => {},
    }
    assert(r.squares =~= p.squares);
    assert(r.castling =~= p.castling);
}

} // verus!
