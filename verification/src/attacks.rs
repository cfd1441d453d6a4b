//! Where pieces reach: neighbours, rays under occupancy, and the squares a side attacks.

use vstd::prelude::*;
use crate::bitboard::{shl_spec, shr_spec, BitBoard};
use crate::bits::{
    bit, in_bb, lemma_bit_shift, lemma_edge_files, lemma_empty, lemma_ext, lemma_in_bit,
    lemma_in_not, lemma_in_ops, lemma_tz_bit, FILE_A, FILE_H,
};
use crate::piece::{bishop_sliders, queen_sliders, rook_sliders, Color, Piece, Slider};
use crate::square::{file_of, on_board, rank_of, Square};

verus! {

/// Whether the square `df` files and `dr` ranks away from `s` is on the board.
pub open spec fn can_step(s: int, df: int, dr: int) -> bool {
    0 <= s < 64 && on_board(file_of(s) + df, rank_of(s) + dr)
}

/// The number of the square `df` files and `dr` ranks away from `s`.
pub open spec fn step_to(s: int, df: int, dr: int) -> int {
    s + 8 * dr + df
}

/// The square `df` files and `dr` ranks away from `s` as a set; empty if it is off the board.
pub open spec fn nb(s: int, df: int, dr: int) -> u64 {
    if can_step(s, df, dr) {
        bit(step_to(s, df, dr))
    } else {
        0
    }
}

/// The up to eight squares next to `s`.
pub open spec fn king_attacks(s: int) -> u64 {
    nb(s, 0, 1) | nb(s, 0, -1) | nb(s, 1, 0) | nb(s, -1, 0) | nb(s, 1, 1) | nb(s, -1, 1) | nb(
        s,
        1,
        -1,
    ) | nb(s, -1, -1)
}

/// The up to eight squares a knight's jump away from `s`.
pub open spec fn knight_attacks(s: int) -> u64 {
    nb(s, 2, 1) | nb(s, 2, -1) | nb(s, -2, 1) | nb(s, -2, -1) | nb(s, -1, 2) | nb(s, 1, 2) | nb(
        s,
        -1,
        -2,
    ) | nb(s, 1, -2)
}

/// The up to two squares that a pawn of `c` on `s` attacks.
pub open spec fn pawn_attacks(s: int, c: Color) -> u64 {
    nb(s, 1, c.dir()) | nb(s, -1, c.dir())
}

/// The squares reached from `s` by up to `n` steps of (`df`, `dr`): each step inside the
/// board is taken, and the walk ends with the first step onto a member of `occ`.
pub open spec fn ray(occ: u64, s: int, df: int, dr: int, n: nat) -> u64
    decreases n,
{
    if n == 0 || !can_step(s, df, dr) {
        0
    } else {
        let t = step_to(s, df, dr);
        if in_bb(occ, t) {
            bit(t)
        } else {
            bit(t) | ray(occ, t, df, dr, (n - 1) as nat)
        }
    }
}

/// The first member of `occ` that a walk from `s` by up to `n` steps of (`df`, `dr`) meets.
pub open spec fn blocker(occ: u64, s: int, df: int, dr: int, n: nat) -> Option<int>
    decreases n,
{
    if n == 0 || !can_step(s, df, dr) {
        None
    } else {
        let t = step_to(s, df, dr);
        if in_bb(occ, t) {
            Some(t)
        } else {
            blocker(occ, t, df, dr, (n - 1) as nat)
        }
    }
}

/// The squares reached from `s` along all of `sliders` under the occupancy `occ`.
pub open spec fn rays(occ: u64, s: int, sliders: Seq<Slider>) -> u64
    decreases sliders.len(),
{
    if sliders.len() == 0 {
        0
    } else {
        rays(occ, s, sliders.drop_last()) | ray(
            occ,
            s,
            sliders.last().df(),
            sliders.last().dr(),
            7,
        )
    }
}

/// The squares that a piece of kind `k` and color `c` on `s` attacks or defends under
/// the occupancy `occ`.
pub open spec fn piece_attacks(k: Piece, c: Color, s: int, occ: u64) -> u64 {
    match k {
        Piece::King => king_attacks(s),
        Piece::Knight => knight_attacks(s),
        Piece::Pawn => pawn_attacks(s, c),
        Piece::Bishop => rays(occ, s, bishop_sliders()),
        Piece::Rook => rays(occ, s, rook_sliders()),
        Piece::Queen => rays(occ, s, queen_sliders()),
    }
}

/// The squares that the pieces of `c` on the squares below `n` attack or defend.
pub open spec fn attacks_upto(
    squares: Seq<Option<(Color, Piece)>>,
    c: Color,
    occ: u64,
    n: int,
) -> u64
    decreases n,
{
    if n <= 0 {
        0
    } else {
        let rest = attacks_upto(squares, c, occ, n - 1);
        match squares[n - 1] {
            Some((pc, k)) => if pc == c {
                rest | piece_attacks(k, c, n - 1, occ)
            } else {
                rest
            },
            None => rest,
        }
    }
}

/// The set that holds the square `df` files and `dr` ranks away from `sq`, if there is one.
pub fn neighbor(sq: Square, df: i8, dr: i8) -> (r: BitBoard)
    requires
        -2 <= df <= 2,
        -2 <= dr <= 2,
    ensures
        r.0 == nb(sq.idx(), df as int, dr as int),
{
    let i: usize = sq.to_index();
    let f: i8 = (i % 8) as i8 + df;
    let k: i8 = (i / 8) as i8 + dr;
    if 0 <= f && f < 8 && 0 <= k && k < 8 {
        BitBoard(1u64 << ((k * 8 + f) as u64))
    } else {
        BitBoard(0)
    }
}

/// The squares next to `sq`.
pub fn king_reach(sq: Square) -> (r: BitBoard)
    ensures
        r.0 == king_attacks(sq.idx()),
{
    BitBoard(
        neighbor(sq, 0, 1).0 | neighbor(sq, 0, -1).0 | neighbor(sq, 1, 0).0 | neighbor(
            sq,
            -1,
            0,
        ).0 | neighbor(sq, 1, 1).0 | neighbor(sq, -1, 1).0 | neighbor(sq, 1, -1).0 | neighbor(
            sq,
            -1,
            -1,
        ).0,
    )
}

/// The squares a knight's jump away from `sq`.
pub fn knight_reach(sq: Square) -> (r: BitBoard)
    ensures
        r.0 == knight_attacks(sq.idx()),
{
    BitBoard(
        neighbor(sq, 2, 1).0 | neighbor(sq, 2, -1).0 | neighbor(sq, -2, 1).0 | neighbor(
            sq,
            -2,
            -1,
        ).0 | neighbor(sq, -1, 2).0 | neighbor(sq, 1, 2).0 | neighbor(sq, -1, -2).0 | neighbor(
            sq,
            1,
            -2,
        ).0,
    )
}

/// The squares that a pawn of `color` on `sq` attacks.
pub fn pawn_reach(sq: Square, color: Color) -> (r: BitBoard)
    ensures
        r.0 == pawn_attacks(sq.idx(), color),
{
    let dr: i8 = match color {
        Color::White => 1,
        Color::Black => -1,
    };
    BitBoard(neighbor(sq, 1, dr).0 | neighbor(sq, -1, dr).0)
}

/// Sliding a single square along a compass slide moves it by the difference of the
/// two distances, or empties the set when the square would leave the word. Sliding
/// the empty set leaves it empty.
proof fn lemma_slide_bit(t: int, s: Slider)
    requires
        0 <= t < 64,
        s.is_compass(),
    ensures
        shr_spec(shl_spec(bit(t), s.left), s.right) == (if 0 <= t + s.left - s.right < 64 {
            bit(t + s.left - s.right)
        } else {
            0
        }),
        shr_spec(shl_spec(0, s.left), s.right) == 0,
{
    lemma_in_not(0);
    crate::bits::lemma_in_shift(0, s.left as int);
    lemma_empty(shl_spec(0, s.left));
    crate::bits::lemma_in_shift(0, s.right as int);
    lemma_empty(shr_spec(0, s.right));
    lemma_bit_shift(t, s.left as int);
    let a = shl_spec(bit(t), s.left);
    if t + s.left < 64 {
        lemma_bit_shift(t + s.left, s.right as int);
    }
}

/// One step of a single square along a compass slide: the set is slid, and what
/// wrapped from one edge file to the other is masked away.
pub fn step(b: BitBoard, s: &Slider) -> (r: BitBoard)
    requires
        s.is_compass(),
    ensures
        b.0 == 0 ==> r.0 == 0,
        forall|t: int| 0 <= t < 64 && b.0 == bit(t) ==> r.0 == nb(t, s.df(), s.dr()),
{
    let moved = b.slide(s);
    let r = if s.left == 1 || s.left == 9 || s.right == 7 {
        BitBoard(moved.0 & !FILE_A)
    } else if s.right == 1 || s.right == 9 || s.left == 7 {
        BitBoard(moved.0 & !FILE_H)
    } else {
        moved
    };
    proof {
        lemma_edge_files();
        lemma_in_not(0);
        lemma_in_ops(moved.0, FILE_A);
        lemma_in_ops(moved.0, FILE_H);
        if b.0 == 0 {
            lemma_slide_bit(0, *s);
            lemma_empty(r.0);
        }
        assert forall|t: int| 0 <= t < 64 && b.0 == bit(t) implies r.0 == nb(
            t,
            s.df(),
            s.dr(),
        ) by {
            lemma_slide_bit(t, *s);
            let u = t + s.left - s.right;
            if 0 <= u < 64 {
                lemma_in_bit(u);
            }
            if can_step(t, s.df(), s.dr()) {
                assert(u == step_to(t, s.df(), s.dr()));
                lemma_ext(r.0, bit(u));
            } else {
                lemma_empty(r.0);
            }
        }
    }
    r
}

/// Walks from `from` along the compass slide `s` under the occupancy `occ`: the
/// squares reached, and the occupied square that ended the walk, if one did.
pub fn ray_walk(occ: BitBoard, from: Square, s: &Slider) -> (r: (BitBoard, Option<Square>))
    requires
        s.is_compass(),
    ensures
        r.0.0 == ray(occ.0, from.idx(), s.df(), s.dr(), 7),
        r.1 is Some == blocker(occ.0, from.idx(), s.df(), s.dr(), 7) is Some,
        r.1 is Some ==> r.1.unwrap().idx() == blocker(occ.0, from.idx(), s.df(), s.dr(), 7).unwrap(),
{
    let mut pos: BitBoard = from.bitboard();
    let mut out: u64 = 0;
    let mut hit: Option<Square> = None;
    let mut i: u8 = 0;
    let mut done: bool = false;
    let ghost df = s.df();
    let ghost dr = s.dr();
    let ghost whole = ray(occ.0, from.idx(), df, dr, 7);
    let ghost first = blocker(occ.0, from.idx(), df, dr, 7);
    let ghost mut cur: int = from.idx();
    proof {
        from.lemma_of_idx();
        lemma_in_not(0);
        lemma_in_ops(0, whole);
        lemma_ext(0 | whole, whole);
    }
    while i < 7 && !done
        invariant
            s.is_compass(),
            df == s.df(),
            dr == s.dr(),
            i <= 7,
            0 <= cur < 64,
            !done ==> pos.0 == bit(cur),
            !done ==> hit is None,
            !done ==> whole == out | ray(occ.0, cur, df, dr, (7 - i) as nat),
            !done ==> first == blocker(occ.0, cur, df, dr, (7 - i) as nat),
            done ==> whole == out,
            done ==> (hit is Some) == (first is Some),
            done && hit is Some ==> hit.unwrap().idx() == first.unwrap(),
        decreases 7 - i + (if done { 0int } else { 1int }),
    {
        let ghost rest = ray(occ.0, cur, df, dr, (7 - i) as nat);
        proof {
            lemma_in_not(0);
        }
        let next = step(pos, s);
        if next.0 == 0 {
            proof {
                if can_step(cur, df, dr) {
                    lemma_in_bit(step_to(cur, df, dr));
                }
                lemma_in_ops(out, 0);
                lemma_ext(out | 0, out);
            }
            done = true;
        } else {
            let ghost t = step_to(cur, df, dr);
            let ghost tail = ray(occ.0, t, df, dr, (6 - i) as nat);
            proof {
                assert(next.0 == bit(t));
                lemma_in_bit(t);
                lemma_in_ops(occ.0, next.0);
                lemma_empty(occ.0 & next.0);
                lemma_in_ops(out, bit(t));
                lemma_in_ops(out, rest);
                lemma_in_ops(bit(t), tail);
                lemma_in_ops(out | bit(t), tail);
            }
            let old_out = out;
            out = out | next.0;
            if (occ.0 & next.0) != 0 {
                proof {
                    lemma_tz_bit(t);
                }
                hit = Some(next.lowest());
                done = true;
            } else {
                proof {
                    assert(!in_bb(occ.0, t));
                    lemma_ext(old_out | (bit(t) | tail), (old_out | bit(t)) | tail);
                    cur = t;
                }
                pos = next;
                i = i + 1;
            }
        }
    }
    proof {
        if !done {
            lemma_in_not(0);
            lemma_in_ops(out, 0);
            lemma_ext(out | 0, out);
        }
    }
    (BitBoard(out), hit)
}

/// The squares reached from `from` along all of `sliders` under the occupancy `occ`.
pub fn slide_attacks(occ: BitBoard, from: Square, sliders: &[Slider]) -> (r: BitBoard)
    requires
        forall|i: int| 0 <= i < sliders@.len() ==> (#[trigger] sliders@[i]).is_compass(),
    ensures
        r.0 == rays(occ.0, from.idx(), sliders@),
{
    let mut out: u64 = 0;
    let mut i: usize = 0;
    while i < sliders.len()
        invariant
            i <= sliders@.len(),
            forall|j: int| 0 <= j < sliders@.len() ==> (#[trigger] sliders@[j]).is_compass(),
            out == rays(occ.0, from.idx(), sliders@.take(i as int)),
        decreases sliders@.len() - i,
    {
        let (reach, _) = ray_walk(occ, from, &sliders[i]);
        proof {
            assert(sliders@.take(i + 1).drop_last() =~= sliders@.take(i as int));
        }
        out = out | reach.0;
        i = i + 1;
    }
    proof {
        assert(sliders@.take(i as int) =~= sliders@);
    }
    BitBoard(out)
}

} // verus!
