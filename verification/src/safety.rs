//! No legal move leaves the king of the side that makes it in check.

use vstd::prelude::*;
use crate::attacks::{
    attacks_upto, blocker, can_step, king_attacks, knight_attacks, nb, pawn_attacks, piece_attacks,
    ray, step_to,
};
use crate::bitboard::{count_below, members, popcount, BitBoard};
use crate::bits::{bit, in_bb, lemma_empty, lemma_in_bit, lemma_in_not, lemma_in_ops};
use crate::legality::{
    lemma_members_in, lemma_moves_over_member, lemma_moves_upto_member, lemma_nb, lemma_sets_of,
};
use crate::moves::{CastlingMethod, Move};
use crate::piece::{bishop_sliders, queen_sliders, rook_sliders, Color, Piece, Slider};
use crate::position::{color_of, king_home, king_target, kind_of, rook_home, rook_target, Position};
use crate::rules::{king_path, pin_mask, Pin};
use crate::square::{file_of, rank_of, Square};
use crate::walks::{
    avail, compass, lemma_ahead, lemma_blocker_ahead, lemma_first_of_two, lemma_on_the_way,
    lemma_ray_past, lemma_ray_reaches, lemma_ray_side, lemma_ray_to_occupied, lemma_rays_include,
    lemma_rays_member, lemma_room, lemma_walk_back, reaches,
};

verus! {

/// A square that a side attacks is attacked by one of its pieces.
pub proof fn lemma_attacker(
    squares: Seq<Option<(Color, Piece)>>,
    c: Color,
    occ: u64,
    n: int,
    t: int,
) -> (a: int)
    requires
        0 <= n <= 64,
        in_bb(attacks_upto(squares, c, occ, n), t),
    ensures
        0 <= a < n,
        squares[a] is Some,
        color_of(squares[a]) == c,
        in_bb(piece_attacks(kind_of(squares[a]), c, a, occ), t),
    decreases n,
{
    lemma_in_not(0);
    let rest = attacks_upto(squares, c, occ, n - 1);
    match squares[n - 1] {
        Some((pc, k)) => {
            if pc == c {
                lemma_in_ops(rest, piece_attacks(k, c, n - 1, occ));
                if in_bb(piece_attacks(k, c, n - 1, occ), t) {
                    n - 1
                } else {
                    lemma_attacker(squares, c, occ, n - 1, t)
                }
            } else {
                lemma_attacker(squares, c, occ, n - 1, t)
            }
        },
        None => lemma_attacker(squares, c, occ, n - 1, t),
    }
}

/// A set counts each of its members.
proof fn lemma_count_members(b: u64, n: int, x: int, y: int)
    requires
        0 <= n <= 64,
    ensures
        0 <= x < n && in_bb(b, x) ==> count_below(b, n) >= 1,
        0 <= x < n && 0 <= y < n && x != y && in_bb(b, x) && in_bb(b, y) ==> count_below(b, n)
            >= 2,
    decreases n,
{
    if n > 0 {
        lemma_count_members(b, n - 1, x, y);
        lemma_count_members(b, n - 1, y, x);
    }
}

/// A set of no member has no member; a set of one member has no second.
pub proof fn lemma_popcount(b: u64, x: int, y: int)
    ensures
        in_bb(b, x) ==> popcount(b) >= 1,
        in_bb(b, x) && in_bb(b, y) && x != y ==> popcount(b) >= 2,
{
    lemma_count_members(b, 64, x, y);
}

/// The squares next to `s` are those at most one file and one rank away, `s` left out.
pub proof fn lemma_king_attacks(s: int)
    requires
        0 <= s < 64,
    ensures
        forall|t: int| #[trigger]
            in_bb(king_attacks(s), t) == (0 <= t < 64 && t != s && -1 <= file_of(t) - file_of(s)
                <= 1 && -1 <= rank_of(t) - rank_of(s) <= 1),
{
    lemma_nb(s, 0, 1);
    lemma_nb(s, 0, -1);
    lemma_nb(s, 1, 0);
    lemma_nb(s, -1, 0);
    lemma_nb(s, 1, 1);
    lemma_nb(s, -1, 1);
    lemma_nb(s, 1, -1);
    lemma_nb(s, -1, -1);
    let a1 = nb(s, 0, 1) | nb(s, 0, -1);
    let a2 = a1 | nb(s, 1, 0);
    let a3 = a2 | nb(s, -1, 0);
    let a4 = a3 | nb(s, 1, 1);
    let a5 = a4 | nb(s, -1, 1);
    let a6 = a5 | nb(s, 1, -1);
    lemma_in_ops(nb(s, 0, 1), nb(s, 0, -1));
    lemma_in_ops(a1, nb(s, 1, 0));
    lemma_in_ops(a2, nb(s, -1, 0));
    lemma_in_ops(a3, nb(s, 1, 1));
    lemma_in_ops(a4, nb(s, -1, 1));
    lemma_in_ops(a5, nb(s, 1, -1));
    lemma_in_ops(a6, nb(s, -1, -1));
    assert forall|t: int| #[trigger]
        in_bb(king_attacks(s), t) == (0 <= t < 64 && t != s && -1 <= file_of(t) - file_of(s) <= 1
            && -1 <= rank_of(t) - rank_of(s) <= 1) by {
        if 0 <= t < 64 {
            let f = file_of(t) - file_of(s);
            let r = rank_of(t) - rank_of(s);
            assert(t == step_to(s, f, r));
        }
    }
}

/// The squares a knight's jump away from `s` are those one file and two ranks, or two
/// files and one rank, away.
pub proof fn lemma_knight_attacks(s: int)
    requires
        0 <= s < 64,
    ensures
        forall|t: int| #[trigger]
            in_bb(knight_attacks(s), t) == (0 <= t < 64 && {
                let f = file_of(t) - file_of(s);
                let r = rank_of(t) - rank_of(s);
                ((f == 1 || f == -1) && (r == 2 || r == -2)) || ((f == 2 || f == -2) && (r == 1 || r
                    == -1))
            }),
{
    lemma_nb(s, 2, 1);
    lemma_nb(s, 2, -1);
    lemma_nb(s, -2, 1);
    lemma_nb(s, -2, -1);
    lemma_nb(s, -1, 2);
    lemma_nb(s, 1, 2);
    lemma_nb(s, -1, -2);
    lemma_nb(s, 1, -2);
    let a1 = nb(s, 2, 1) | nb(s, 2, -1);
    let a2 = a1 | nb(s, -2, 1);
    let a3 = a2 | nb(s, -2, -1);
    let a4 = a3 | nb(s, -1, 2);
    let a5 = a4 | nb(s, 1, 2);
    let a6 = a5 | nb(s, -1, -2);
    lemma_in_ops(nb(s, 2, 1), nb(s, 2, -1));
    lemma_in_ops(a1, nb(s, -2, 1));
    lemma_in_ops(a2, nb(s, -2, -1));
    lemma_in_ops(a3, nb(s, -1, 2));
    lemma_in_ops(a4, nb(s, 1, 2));
    lemma_in_ops(a5, nb(s, -1, -2));
    lemma_in_ops(a6, nb(s, 1, -2));
    assert forall|t: int| #[trigger]
        in_bb(knight_attacks(s), t) == (0 <= t < 64 && {
            let f = file_of(t) - file_of(s);
            let r = rank_of(t) - rank_of(s);
            ((f == 1 || f == -1) && (r == 2 || r == -2)) || ((f == 2 || f == -2) && (r == 1 || r
                == -1))
        }) by {
        if 0 <= t < 64 {
            let f = file_of(t) - file_of(s);
            let r = rank_of(t) - rank_of(s);
            assert(t == step_to(s, f, r));
        }
    }
}

/// The squares that a pawn of `c` on `s` attacks are those one file away on the next
/// rank in the direction of `c`.
pub proof fn lemma_pawn_attacks(s: int, c: Color)
    requires
        0 <= s < 64,
    ensures
        forall|t: int| #[trigger]
            in_bb(pawn_attacks(s, c), t) == (0 <= t < 64 && rank_of(t) - rank_of(s) == c.dir() && (
            file_of(t) - file_of(s) == 1 || file_of(t) - file_of(s) == -1)),
{
    lemma_nb(s, 1, c.dir());
    lemma_nb(s, -1, c.dir());
    lemma_in_ops(nb(s, 1, c.dir()), nb(s, -1, c.dir()));
    assert forall|t: int| #[trigger]
        in_bb(pawn_attacks(s, c), t) == (0 <= t < 64 && rank_of(t) - rank_of(s) == c.dir() && (
        file_of(t) - file_of(s) == 1 || file_of(t) - file_of(s) == -1)) by {
        if 0 <= t < 64 {
            let f = file_of(t) - file_of(s);
            let r = rank_of(t) - rank_of(s);
            assert(t == step_to(s, f, r));
        }
    }
}

/// The slide against `sl`.
pub open spec fn opposite(sl: Slider) -> Slider {
    Slider { left: sl.right, right: sl.left }
}

/// The place of a compass slide among the slides of the queen.
pub open spec fn slide_index(sl: Slider) -> int {
    if sl.right == 8 {
        0
    } else if sl.left == 8 {
        1
    } else if sl.right == 1 {
        2
    } else if sl.left == 1 {
        3
    } else if sl.right == 9 {
        4
    } else if sl.right == 7 {
        5
    } else if sl.left == 9 {
        6
    } else {
        7
    }
}

/// The slides of the queen are the eight compass slides, each at its place; the
/// slides of the rook keep to files and ranks, those of the bishop to diagonals.
pub proof fn lemma_slides()
    ensures
        queen_sliders().len() == 8,
        forall|i: int| 0 <= i < 8 ==> (#[trigger] queen_sliders()[i]).is_compass(),
        forall|sl: Slider|
            sl.is_compass() ==> 0 <= #[trigger] slide_index(sl) < 8 && queen_sliders()[slide_index(
                sl,
            )] == sl,
        forall|i: int|
            0 <= i < 4 ==> (#[trigger] rook_sliders()[i]).is_compass() && !rook_sliders()[i].is_diagonal(),
        forall|i: int|
            0 <= i < 4 ==> (#[trigger] bishop_sliders()[i]).is_compass()
                && bishop_sliders()[i].is_diagonal(),
        forall|sl: Slider| #[trigger]
            sl.is_compass() ==> compass(sl.df(), sl.dr()) && opposite(sl).is_compass() && opposite(
                sl,
            ).df() == -sl.df() && opposite(sl).dr() == -sl.dr() && opposite(sl).is_diagonal()
                == sl.is_diagonal(),
{
    let q = queen_sliders();
    assert(q.len() == 8);
    assert(q[0] == Slider { left: 0, right: 8 });
    assert(q[1] == Slider { left: 8, right: 0 });
    assert(q[2] == Slider { left: 0, right: 1 });
    assert(q[3] == Slider { left: 1, right: 0 });
    assert(q[4] == Slider { left: 0, right: 9 });
    assert(q[5] == Slider { left: 0, right: 7 });
    assert(q[6] == Slider { left: 9, right: 0 });
    assert(q[7] == Slider { left: 7, right: 0 });
}

/// A slide that carries a check is counted, and where it is the only one, the
/// squares that answer the checks of the sliders are those of its ray.
pub proof fn lemma_check_counted(p: Position, c: Color, n: int, j: int)
    requires
        0 <= j < n <= 8,
        p.check_along(c, queen_sliders()[j]),
    ensures
        p.slider_check_count(c, n) >= 1,
        p.slider_check_count(c, n) == 1 ==> forall|x: int|
            in_bb(p.slider_check_rays(c, n), x) == in_bb(
                ray(
                    p.occupied(),
                    p.king_sq(c),
                    queen_sliders()[j].df(),
                    queen_sliders()[j].dr(),
                    7,
                ),
                x,
            ),
    decreases n,
{
    let sl = queen_sliders()[n - 1];
    let last = ray(p.occupied(), p.king_sq(c), sl.df(), sl.dr(), 7);
    lemma_in_ops(p.slider_check_rays(c, n - 1), last);
    if j == n - 1 {
        lemma_no_checks(p, c, n - 1);
    } else {
        lemma_check_counted(p, c, n - 1, j);
    }
}

/// Where no slide carries a check, no square answers a check of a slider.
pub proof fn lemma_no_checks(p: Position, c: Color, n: int)
    requires
        0 <= n <= 8,
    ensures
        p.slider_check_count(c, n) == 0 ==> forall|x: int| !in_bb(p.slider_check_rays(c, n), x),
    decreases n,
{
    lemma_in_not(0);
    if n > 0 {
        lemma_no_checks(p, c, n - 1);
        if p.slider_check_count(c, n) == 0 {
            assert(!p.check_along(c, queen_sliders()[n - 1]));
            assert(p.slider_check_count(c, n - 1) == 0);
            assert(p.slider_check_rays(c, n) == p.slider_check_rays(c, n - 1));
            assert forall|x: int| !in_bb(p.slider_check_rays(c, n), x) by {
                assert(!in_bb(p.slider_check_rays(c, n - 1), x));
            }
        }
    } else {
        assert(p.slider_check_rays(c, n) == 0);
    }
}

/// The pin along a slide is among the pins.
pub proof fn lemma_pin_listed(p: Position, c: Color, n: int, j: int) -> (i: int)
    requires
        0 <= j < n <= 8,
        p.pin_along(c, queen_sliders()[j]) is Some,
    ensures
        0 <= i < p.pins(c, n).len(),
        p.pins(c, n)[i] == p.pin_along(c, queen_sliders()[j]).unwrap(),
    decreases n,
{
    if j == n - 1 {
        p.pins(c, n - 1).len() as int
    } else {
        let i = lemma_pin_listed(p, c, n - 1, j);
        i
    }
}

/// A pinned piece may go only to squares of its pin ray.
pub proof fn lemma_pin_mask(pins: Seq<Pin>, i: int, x: int)
    requires
        0 <= i < pins.len(),
        in_bb(pin_mask(pins, pins[i].square.idx()), x),
    ensures
        in_bb(pins[i].ray.0, x),
    decreases pins.len(),
{
    let s = pins[i].square.idx();
    let rest = pin_mask(pins.drop_last(), s);
    if pins.last().square.idx() == s {
        lemma_in_ops(rest, pins.last().ray.0);
    }
    if i < pins.len() - 1 {
        lemma_pin_mask(pins.drop_last(), i, x);
    }
}

/// Where a king is in check, its square is attacked by a piece of the other side.
pub proof fn lemma_check_witness(q: Position, c: Color) -> (w: (int, int))
    requires
        q.shape(),
        q.in_check(c),
    ensures
        ({
            let (x, a) = w;
            &&& q.holds(x, c, Piece::King)
            &&& 0 <= a < 64
            &&& q.squares[a] is Some
            &&& color_of(q.squares[a]) == c.other()
            &&& in_bb(
                piece_attacks(kind_of(q.squares[a]), c.other(), a, q.occupied_without_king(c)),
                x,
            )
        }),
{
    let kings = q.piece_bb(c, Piece::King);
    let attacked = q.attack_map(c.other());
    crate::bits::lemma_lowest(kings & attacked);
    let x = vstd::std_specs::bits::u64_trailing_zeros(kings & attacked) as int;
    lemma_in_ops(kings, attacked);
    lemma_sets_of(q);
    let a = lemma_attacker(q.squares, c.other(), q.occupied_without_king(c), 64, x);
    (x, a)
}

/// A slider attacks along one of its slides, and the walk back from the square it
/// attacks comes to the slider.
pub proof fn lemma_slider_line(k: Piece, c: Color, a: int, occ: u64, x: int) -> (sl: Slider)
    requires
        k.sliding(),
        0 <= a < 64,
        in_bb(piece_attacks(k, c, a, occ), x),
    ensures
        sl.is_compass(),
        k.slides_along(sl),
        k.slides_along(opposite(sl)),
        in_bb(ray(occ, a, sl.df(), sl.dr(), 7), x),
        reaches(occ, x, -sl.df(), -sl.dr(), a),
        0 <= x < 64,
{
    lemma_slides();
    let list = k.sliders_spec().unwrap();
    let i = lemma_rays_member(occ, a, list, x);
    let sl = list[i];
    if k == Piece::Queen {
        if i < 4 {
            assert(sl == rook_sliders()[i]);
        } else {
            assert(sl == bishop_sliders()[i - 4]);
        }
    }
    assert(sl.is_compass());
    lemma_room(a, sl.df(), sl.dr());
    lemma_ray_reaches(occ, a, sl.df(), sl.dr(), 7, x);
    lemma_walk_back(occ, a, sl.df(), sl.dr(), x);
    sl
}

/// Where a knight or a pawn gives check, a piece other than the king can answer
/// only by taking it.
pub proof fn lemma_contact_check_mask(p: Position, c: Color, a: int, t: int)
    requires
        in_bb(p.contact_checkers(c), a),
        in_bb(p.check_mask(c), t),
    ensures
        t == a,
{
    let contact = p.contact_checkers(c);
    lemma_popcount(contact, a, t);
    lemma_popcount(contact, t, a);
    lemma_in_not(0);
    if p.check_count(c) == 1 {
        lemma_no_checks(p, c, 8);
        lemma_in_ops(contact, p.slider_check_rays(c, 8));
    }
}

/// Where a slider gives check along a slide, a piece other than the king can answer
/// only on the ray from the king along that slide.
pub proof fn lemma_slider_check_mask(p: Position, c: Color, j: int, t: int)
    requires
        0 <= j < 8,
        p.check_along(c, queen_sliders()[j]),
        in_bb(p.check_mask(c), t),
    ensures
        in_bb(
            ray(p.occupied(), p.king_sq(c), queen_sliders()[j].df(), queen_sliders()[j].dr(), 7),
            t,
        ),
{
    let contact = p.contact_checkers(c);
    lemma_check_counted(p, c, 8, j);
    lemma_popcount(contact, t, t);
    lemma_in_not(0);
    lemma_in_ops(contact, p.slider_check_rays(c, 8));
}

/// What stands where after a move that takes a piece from `s` to `t`, neither en
/// passant nor by castling: `s` is empty, a piece of the side that moved is on `t`,
/// and nothing else has changed.
pub proof fn lemma_plain_move(p: Position, m: Move)
    requires
        p.valid(),
        p.applicable(m),
        !(m.flag is EnPassant),
        !(m.flag is Castle),
    ensures
        ({
            let s = m.starting_square.idx();
            let t = m.target_square.idx();
            let q = p.make(m);
            &&& 0 <= s < 64
            &&& 0 <= t < 64
            &&& s != t
            &&& q.squares.len() == 64
            &&& q.squares[s] is None
            &&& q.squares[t] is Some
            &&& color_of(q.squares[t]) == p.turn
            &&& (kind_of(q.squares[t]) == Piece::King) == (kind_of(p.squares[s]) == Piece::King)
            &&& forall|y: int| 0 <= y < 64 && y != s && y != t ==> q.squares[y] == p.squares[y]
        }),
{
    m.starting_square.lemma_of_idx();
    m.target_square.lemma_of_idx();
}

/// The squares that count as occupied when the attacks on a king are worked out:
/// those with a piece on them, the king's own left out.
pub proof fn lemma_occupied_without_king(q: Position, c: Color)
    requires
        q.shape(),
    ensures
        forall|y: int| #[trigger]
            in_bb(q.occupied_without_king(c), y) == (0 <= y < 64 && q.squares[y] is Some && !q.holds(
                y,
                c,
                Piece::King,
            )),
        forall|y: int| #[trigger] in_bb(q.occupied(), y) == (0 <= y < 64 && q.squares[y] is Some),
{
    lemma_sets_of(q);
    lemma_in_ops(q.occupied(), q.piece_bb(c, Piece::King));
}

/// A piece that keeps to its pin ray and answers the checks cannot, by going from `s`
/// to `t`, open or leave open a line from a slider on `a` to its king.
proof fn lemma_line_stays_shut(
    p: Position,
    c: Color,
    s: int,
    t: int,
    a: int,
    occq: u64,
    sl: Slider,
)
    requires
        p.valid(),
        p.color_at(s, c),
        s != p.king_sq(c),
        0 <= t < 64,
        t != p.king_sq(c),
        t != s,
        a != t,
        a != s,
        p.enemy_slider_at(a, c, sl),
        sl.is_compass(),
        reaches(occq, p.king_sq(c), sl.df(), sl.dr(), a),
        forall|y: int| #[trigger]
            in_bb(occq, y) == (0 <= y < 64 && y != p.king_sq(c) && y != s && (y == t
                || p.squares[y] is Some)),
        in_bb(p.check_mask(c), t),
    ensures
        !in_bb(pin_mask(p.pins(c, 8), s), t),
{
    if in_bb(pin_mask(p.pins(c, 8), s), t) {
        let ks = p.king_sq(c);
        let occp = p.occupied();
        let df = sl.df();
        let dr = sl.dr();
        lemma_slides();
        lemma_sets_of(p);
        crate::laws::lemma_king_sq(p, c);
        let j = slide_index(sl);
        assert(queen_sliders()[j] == sl);
        assert forall|x: int|
            0 <= x < 64 && avail(x, df, dr) < avail(ks, df, dr) && x != s && x != a && !in_bb(
                occq,
                x,
            ) implies !in_bb(occp, x) by {
            assert(in_bb(occp, x) == (0 <= x < 64 && p.squares[x] is Some));
        }
        assert(in_bb(occp, a) == (0 <= a < 64 && p.squares[a] is Some));
        lemma_first_of_two(occq, occp, ks, df, dr, a, s);
        assert(in_bb(occq, t));
        if blocker(occp, ks, df, dr, 7) == Some(a) {
            assert(p.check_along(c, sl));
            lemma_slider_check_mask(p, c, j, t);
            lemma_on_the_way(occq, occp, ks, df, dr, a, t);
        } else {
            lemma_ahead(occp, ks, df, dr, s);
            assert forall|x: int|
                0 <= x < 64 && avail(x, df, dr) < avail(s, df, dr) && x != s && x != a && !in_bb(
                    occq,
                    x,
                ) implies !in_bb(occp, x) by {
                assert(in_bb(occp, x) == (0 <= x < 64 && p.squares[x] is Some));
            }
            lemma_first_of_two(occq, occp, s, df, dr, a, s);
            if blocker(occp, s, df, dr, 7) == Some(s) {
                lemma_blocker_ahead(occp, s, df, dr, 7);
            }
            assert(blocker(occp, s, df, dr, 7) == Some(a));
            let pin = Pin {
                square: Square::of(s),
                ray: BitBoard(ray(occp, ks, df, dr, 7) | ray(occp, s, df, dr, 7)),
            };
            assert(p.pin_along(c, sl) == Some(pin));
            let i = lemma_pin_listed(p, c, 8, j);
            Square::lemma_idx_of(s);
            lemma_pin_mask(p.pins(c, 8), i, t);
            lemma_in_ops(ray(occp, ks, df, dr, 7), ray(occp, s, df, dr, 7));
            if in_bb(ray(occp, ks, df, dr, 7), t) {
                lemma_on_the_way(occq, occp, ks, df, dr, a, t);
            } else {
                lemma_on_the_way(occq, occp, s, df, dr, a, t);
            }
        }
    }
}

/// A knight or a pawn that attacks a king stands where a knight or a pawn of the
/// king's side on the king's square would attack; two kings attack each other or not
/// at all.
pub proof fn lemma_contact_both_ways(a: int, x: int, c: Color)
    requires
        0 <= a < 64,
        0 <= x < 64,
    ensures
        in_bb(knight_attacks(a), x) == in_bb(knight_attacks(x), a),
        in_bb(king_attacks(a), x) == in_bb(king_attacks(x), a),
        in_bb(pawn_attacks(a, c.other()), x) == in_bb(pawn_attacks(x, c), a),
{
    lemma_knight_attacks(a);
    lemma_knight_attacks(x);
    lemma_king_attacks(a);
    lemma_king_attacks(x);
    lemma_pawn_attacks(a, c.other());
    lemma_pawn_attacks(x, c);
}

/// A move of a piece other than the king, not en passant, to a square that answers
/// the checks and keeps to the pin ray, leaves the king out of check.
pub proof fn lemma_piece_move_safe(p: Position, m: Move)
    requires
        p.valid(),
        !p.in_check(p.turn.other()),
        p.applicable(m),
        !(m.flag is EnPassant),
        !(m.flag is Castle),
        kind_of(p.squares[m.starting_square.idx()]) != Piece::King,
        in_bb(p.check_mask(p.turn), m.target_square.idx()),
        in_bb(pin_mask(p.pins(p.turn, 8), m.starting_square.idx()), m.target_square.idx()),
    ensures
        !p.make(m).in_check(p.turn),
{
    let c = p.turn;
    let q = p.make(m);
    let s = m.starting_square.idx();
    let t = m.target_square.idx();
    let ks = p.king_sq(c);
    if q.in_check(c) {
        crate::laws::lemma_make_valid(p, m);
        lemma_plain_move(p, m);
        crate::laws::lemma_king_sq(p, c);
        crate::laws::lemma_king_sq(q, c);
        let (x, a) = lemma_check_witness(q, c);
        assert(q.holds(ks, c, Piece::King));
        assert(x == ks);
        let ka = kind_of(q.squares[a]);
        let occq = q.occupied_without_king(c);
        lemma_occupied_without_king(q, c);
        assert(p.squares[a] == q.squares[a]);
        lemma_contact_both_ways(a, ks, c);
        lemma_sets_of(p);
        match ka {
            Piece::King => {
                let occ = p.occupied_without_king(c.other());
                crate::move_laws::lemma_attacks_include(
                    p.squares,
                    c,
                    occ,
                    64,
                    ks,
                    Piece::King,
                    a,
                );
                lemma_in_ops(p.piece_bb(c.other(), Piece::King), p.attack_map(c));
                lemma_empty(p.piece_bb(c.other(), Piece::King) & p.attack_map(c));
                assert(p.holds(a, c.other(), Piece::King));
                assert(in_bb(p.piece_bb(c.other(), Piece::King) & p.attack_map(c), a));
            },
            Piece::Knight => {
                let knights = p.piece_bb(c.other(), Piece::Knight);
                let pawns = p.piece_bb(c.other(), Piece::Pawn);
                lemma_in_ops(knight_attacks(ks), knights);
                lemma_in_ops(pawn_attacks(ks, c), pawns);
                lemma_in_ops(knight_attacks(ks) & knights, pawn_attacks(ks, c) & pawns);
                assert(p.holds(a, c.other(), Piece::Knight));
                lemma_contact_check_mask(p, c, a, t);
            },
            Piece::Pawn => {
                let knights = p.piece_bb(c.other(), Piece::Knight);
                let pawns = p.piece_bb(c.other(), Piece::Pawn);
                lemma_in_ops(knight_attacks(ks), knights);
                lemma_in_ops(pawn_attacks(ks, c), pawns);
                lemma_in_ops(knight_attacks(ks) & knights, pawn_attacks(ks, c) & pawns);
                assert(p.holds(a, c.other(), Piece::Pawn));
                lemma_contact_check_mask(p, c, a, t);
            },
            _ => {
                let sl = lemma_slider_line(ka, c.other(), a, occq, ks);
                lemma_slides();
                let back = opposite(sl);
                assert forall|y: int| #[trigger]
                    in_bb(occq, y) == (0 <= y < 64 && y != ks && y != s && (y == t
                        || p.squares[y] is Some)) by {
                    if 0 <= y < 64 && y != s && y != t {
                        assert(q.squares[y] == p.squares[y]);
                    }
                }
                lemma_line_stays_shut(p, c, s, t, a, occq, back);
            },
        }
    }
}

/// Each slide of a sliding kind is a compass slide.
pub proof fn lemma_slides_of(k: Piece, i: int)
    requires
        k.sliding(),
        0 <= i < k.sliders_spec().unwrap().len(),
    ensures
        k.sliders_spec().unwrap()[i].is_compass(),
        compass(k.sliders_spec().unwrap()[i].df(), k.sliders_spec().unwrap()[i].dr()),
{
    lemma_slides();
    let sl = k.sliders_spec().unwrap()[i];
    if k == Piece::Queen {
        if i < 4 {
            assert(sl == rook_sliders()[i]);
        } else {
            assert(sl == bishop_sliders()[i - 4]);
        }
    }
}

/// A king that moves to a square that the other side does not attack is not in
/// check there.
pub proof fn lemma_king_move_safe(p: Position, m: Move)
    requires
        p.valid(),
        p.applicable(m),
        !(m.flag is EnPassant),
        !(m.flag is Castle),
        kind_of(p.squares[m.starting_square.idx()]) == Piece::King,
        !in_bb(p.attack_map(p.turn.other()), m.target_square.idx()),
    ensures
        !p.make(m).in_check(p.turn),
{
    let c = p.turn;
    let q = p.make(m);
    let s = m.starting_square.idx();
    let t = m.target_square.idx();
    if q.in_check(c) {
        crate::laws::lemma_make_valid(p, m);
        lemma_plain_move(p, m);
        crate::laws::lemma_king_sq(p, c);
        crate::laws::lemma_king_sq(q, c);
        let (x, a) = lemma_check_witness(q, c);
        assert(q.holds(t, c, Piece::King));
        assert(x == t);
        assert(p.holds(s, c, Piece::King));
        let ka = kind_of(q.squares[a]);
        let occq = q.occupied_without_king(c);
        let occp = p.occupied_without_king(c);
        lemma_occupied_without_king(q, c);
        lemma_occupied_without_king(p, c);
        assert(p.squares[a] == q.squares[a]);
        if ka.sliding() {
            let list = ka.sliders_spec().unwrap();
            let i = lemma_rays_member(occq, a, list, t);
            lemma_slides_of(ka, i);
            assert forall|y: int| 0 <= y < 64 && y != t && in_bb(occp, y) implies in_bb(
                occq,
                y,
            ) by {
                if y != s {
                    assert(q.squares[y] == p.squares[y]);
                }
            }
            lemma_ray_to_occupied(occq, occp, a, list[i].df(), list[i].dr(), 7, t);
            lemma_rays_include(occp, a, list, i, t);
        }
        crate::move_laws::lemma_attacks_include(p.squares, c.other(), occp, 64, a, ka, t);
    }
}

/// Castling, where the rules allow it, leaves the king out of check.
pub proof fn lemma_castle_safe(p: Position, cm: CastlingMethod)
    requires
        p.valid(),
        p.castle_ok(p.turn, cm, p.attack_map(p.turn.other())),
    ensures
        !p.make(Position::castle_move(p.turn, cm)).in_check(p.turn),
{
    let c = p.turn;
    let m = Position::castle_move(c, cm);
    let q = p.make(m);
    let kh = king_home(c);
    let kt = king_target(c, cm);
    let rh = rook_home(c, cm);
    let rt = rook_target(c, cm);
    let attacked = p.attack_map(c.other());
    if q.in_check(c) {
        crate::legality::lemma_castle_applicable(p, cm, attacked);
        crate::laws::lemma_make_valid(p, m);
        Square::lemma_idx_of(kh);
        Square::lemma_idx_of(kt);
        crate::laws::lemma_king_sq(p, c);
        crate::laws::lemma_king_sq(q, c);
        let (x, a) = lemma_check_witness(q, c);
        assert(q.holds(kt, c, Piece::King));
        assert(x == kt);
        let ka = kind_of(q.squares[a]);
        let occq = q.occupied_without_king(c);
        let occp = p.occupied_without_king(c);
        lemma_occupied_without_king(q, c);
        lemma_occupied_without_king(p, c);
        assert(p.squares[a] == q.squares[a]);
        if ka.sliding() {
            let list = ka.sliders_spec().unwrap();
            let i = lemma_rays_member(occq, a, list, kt);
            lemma_slides_of(ka, i);
            let df = list[i].df();
            let dr = list[i].dr();
            assert forall|y: int| 0 <= y < 64 && y != kt && y != rh && in_bb(occp, y) implies in_bb(
                occq,
                y,
            ) by {
                if y != kh && y != rt {
                    assert(q.squares[y] == p.squares[y]);
                }
            }
            assert forall|y: int, n: nat|
                #![trigger can_step(y, df, dr), ray(occq, rh, df, dr, n)]
                0 <= y < 64 && can_step(y, df, dr) && step_to(y, df, dr) == rh implies !in_bb(
                    ray(occq, rh, df, dr, n),
                    kt,
                ) by {
                if in_bb(ray(occq, rh, df, dr, n), kt) {
                    lemma_ray_side(occq, rh, df, dr, n, kt);
                }
            }
            lemma_ray_past(occq, occp, a, df, dr, 7, kt, rh);
            lemma_rays_include(occp, a, list, i, kt);
        }
        crate::move_laws::lemma_attacks_include(p.squares, c.other(), occp, 64, a, ka, kt);
        let base = 56 * c.idx();
        lemma_in_bit(2 + base);
        lemma_in_bit(3 + base);
        lemma_in_bit(4 + base);
        lemma_in_bit(5 + base);
        lemma_in_bit(6 + base);
        lemma_in_ops(bit(4 + base), bit(5 + base));
        lemma_in_ops(bit(4 + base) | bit(5 + base), bit(6 + base));
        lemma_in_ops(bit(4 + base), bit(3 + base));
        lemma_in_ops(bit(4 + base) | bit(3 + base), bit(2 + base));
        lemma_in_ops(attacked, king_path(c, cm));
        lemma_empty(attacked & king_path(c, cm));
        assert(in_bb(attacked & king_path(c, cm), kt));
    }
}

/// No legal move leaves the king of the side that makes it in check, in a position
/// in which the side that has just moved is not in check either.
pub proof fn lemma_legal_move_safe(p: Position, m: Move)
    requires
        p.valid(),
        !p.in_check(p.turn.other()),
        p.legal_moves(p.turn).contains(m),
    ensures
        !p.make(m).in_check(p.turn),
{
    let c = p.turn;
    let all = p.legal_moves(c);
    let castles = p.castle_moves(c);
    let attacked = p.attack_map(c.other());
    let i = choose|i: int| 0 <= i < all.len() && all[i] == m;
    if i < castles.len() {
        assert(castles[i] == m);
        if p.castle_ok(c, CastlingMethod::Short, attacked) {
            lemma_castle_safe(p, CastlingMethod::Short);
        }
        if p.castle_ok(c, CastlingMethod::Long, attacked) {
            lemma_castle_safe(p, CastlingMethod::Long);
        }
    } else if m.flag is EnPassant {
        crate::move_laws::lemma_en_passant_keeps_king_safe(p, m);
    } else {
        assert(p.moves_upto(c, 64)[i - castles.len()] == m);
        crate::legality::lemma_legal_applicable(p, m);
        let s = lemma_moves_upto_member(p, c, 64, m);
        let k = kind_of(p.squares[s]);
        let targets = p.legal_targets(s, c, k);
        let j = lemma_moves_over_member(p, s, members(targets), c, k, m);
        lemma_members_in(targets, 0, j);
        let t = members(targets)[j].idx();
        let list = p.moves_for(s, t, c, k);
        let n = choose|n: int| 0 <= n < list.len() && list[n] == m;
        assert(list[n] == m);
        Square::lemma_idx_of(s);
        Square::lemma_idx_of(t);
        assert(m.starting_square.idx() == s);
        assert(m.target_square.idx() == t);
        let pseudo = p.pseudo_targets(s, c, k) & !p.kind_bb(Piece::King);
        lemma_in_not(0);
        if k == Piece::King {
            lemma_in_ops(pseudo, attacked);
            lemma_king_move_safe(p, m);
        } else {
            let ep = if k == Piece::Pawn {
                p.ep_for(c)
            } else {
                0
            };
            let plain = (pseudo & !ep) & p.check_mask(c) & pin_mask(p.pins(c, 8), s);
            lemma_in_ops(pseudo, ep);
            lemma_in_ops(pseudo & !ep, p.check_mask(c));
            lemma_in_ops((pseudo & !ep) & p.check_mask(c), pin_mask(p.pins(c, 8), s));
            lemma_in_ops(plain, pseudo & ep);
            if in_bb(ep, t) {
                lemma_in_bit(crate::position::sole_square(p.en_passant));
            }
            assert(!in_bb(ep, t));
            assert(in_bb(plain, t));
            lemma_piece_move_safe(p, m);
        }
    }
}

/// What holds of every position that a game reaches holds again after every legal
/// move: the position is valid, and the side that has just moved is not in check.
pub proof fn lemma_reachable(p: Position, m: Move)
    requires
        p.valid(),
        !p.in_check(p.turn.other()),
        p.legal_moves(p.turn).contains(m),
    ensures
        p.make(m).valid(),
        !p.make(m).in_check(p.make(m).turn.other()),
{
    crate::legality::lemma_legal_applicable(p, m);
    crate::laws::lemma_make_valid(p, m);
    lemma_legal_move_safe(p, m);
}

} // verus!
