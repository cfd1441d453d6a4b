//! A destination that the rules of movement give a piece is legal exactly when the
//! move there leaves the king out of check.

use vstd::prelude::*;
use crate::attacks::{
    blocker, king_attacks, knight_attacks, pawn_attacks, piece_attacks, ray, rays,
};
use crate::bitboard::{count_below, popcount};
use crate::bits::{in_bb, lemma_empty, lemma_in_bit, lemma_in_not, lemma_in_ops};
use crate::legality::lemma_sets_of;
use crate::move_laws::lemma_attacks_include;
use crate::moves::Move;
use crate::piece::{bishop_sliders, queen_sliders, rook_sliders, Color, Piece, Slider};
use crate::position::{color_of, kind_of, sole_square, Position};
use crate::rules::{pin_mask, Pin};
use crate::safety::{
    lemma_attacker, lemma_check_counted, lemma_contact_both_ways, lemma_king_attacks,
    lemma_king_move_safe, lemma_knight_attacks, lemma_no_checks, lemma_occupied_without_king,
    lemma_pawn_attacks, lemma_piece_move_safe, lemma_plain_move, lemma_popcount, lemma_slides,
    opposite, slide_index,
};
use crate::square::Square;
use crate::walks::{
    compass, lemma_ahead, lemma_blocker_reached, lemma_ray_ends, lemma_ray_reaches,
    lemma_ray_side, lemma_ray_to_occupied, lemma_rays_include, lemma_rays_member, lemma_room,
    lemma_walk_back, lemma_walk_stays_clear, lemma_walk_through, reaches,
};

verus! {

/// A set that counts a member has one.
proof fn lemma_member(b: u64, n: int) -> (x: int)
    requires
        0 <= n <= 64,
        count_below(b, n) >= 1,
    ensures
        0 <= x < n,
        in_bb(b, x),
    decreases n,
{
    if in_bb(b, n - 1) {
        n - 1
    } else {
        lemma_member(b, n - 1)
    }
}

/// A set that counts two members has two.
proof fn lemma_two_members(b: u64, n: int) -> (w: (int, int))
    requires
        0 <= n <= 64,
        count_below(b, n) >= 2,
    ensures
        0 <= w.0 < n,
        0 <= w.1 < n,
        w.0 != w.1,
        in_bb(b, w.0),
        in_bb(b, w.1),
    decreases n,
{
    if in_bb(b, n - 1) {
        let x = lemma_member(b, n - 1);
        (x, n - 1)
    } else {
        lemma_two_members(b, n - 1)
    }
}

/// Where slides are counted as carrying a check, one of them carries one.
proof fn lemma_checking_slide(p: Position, c: Color, n: int) -> (j: int)
    requires
        0 <= n <= 8,
        p.slider_check_count(c, n) >= 1,
    ensures
        0 <= j < n,
        p.check_along(c, queen_sliders()[j]),
    decreases n,
{
    if p.check_along(c, queen_sliders()[n - 1]) {
        n - 1
    } else {
        lemma_checking_slide(p, c, n - 1)
    }
}

/// Where two slides are counted as carrying a check, two of them carry one.
proof fn lemma_two_checking_slides(p: Position, c: Color, n: int) -> (w: (int, int))
    requires
        0 <= n <= 8,
        p.slider_check_count(c, n) >= 2,
    ensures
        0 <= w.0 < n,
        0 <= w.1 < n,
        w.0 != w.1,
        p.check_along(c, queen_sliders()[w.0]),
        p.check_along(c, queen_sliders()[w.1]),
    decreases n,
{
    if p.check_along(c, queen_sliders()[n - 1]) {
        let j = lemma_checking_slide(p, c, n - 1);
        (j, n - 1)
    } else {
        lemma_two_checking_slides(p, c, n - 1)
    }
}

/// A square that a piece may not go to for its pins lies off one of its pin rays.
proof fn lemma_pin_forbids(pins: Seq<Pin>, s: int, t: int) -> (i: int)
    requires
        0 <= t < 64,
        !in_bb(pin_mask(pins, s), t),
    ensures
        0 <= i < pins.len(),
        pins[i].square.idx() == s,
        !in_bb(pins[i].ray.0, t),
    decreases pins.len(),
{
    lemma_in_not(0);
    if pins.len() == 0 {
        0
    } else {
        let rest = pin_mask(pins.drop_last(), s);
        if pins.last().square.idx() == s {
            lemma_in_ops(rest, pins.last().ray.0);
            if !in_bb(pins.last().ray.0, t) {
                pins.len() - 1
            } else {
                lemma_pin_forbids(pins.drop_last(), s, t)
            }
        } else {
            lemma_pin_forbids(pins.drop_last(), s, t)
        }
    }
}

/// Each of the pins is the pin along one of the slides.
proof fn lemma_pin_source(p: Position, c: Color, n: int, i: int) -> (j: int)
    requires
        0 <= n <= 8,
        0 <= i < p.pins(c, n).len(),
    ensures
        0 <= j < n,
        p.pin_along(c, queen_sliders()[j]) == Some(p.pins(c, n)[i]),
    decreases n,
{
    let before = p.pins(c, n - 1);
    match p.pin_along(c, queen_sliders()[n - 1]) {
        Some(pin) => {
            if i == before.len() {
                n - 1
            } else {
                lemma_pin_source(p, c, n - 1, i)
            }
        },
        None => lemma_pin_source(p, c, n - 1, i),
    }
}

/// A slider has each compass slide that it moves along among its slides.
proof fn lemma_slide_listed(k: Piece, sl: Slider) -> (i: int)
    requires
        k.sliding(),
        sl.is_compass(),
        k.slides_along(sl),
    ensures
        0 <= i < k.sliders_spec().unwrap().len(),
        k.sliders_spec().unwrap()[i] == sl,
{
    lemma_slides();
    let j = slide_index(sl);
    assert(queen_sliders()[j] == sl);
    if k == Piece::Queen {
        j
    } else if k == Piece::Rook {
        assert(queen_sliders()[j] == rook_sliders()[j]);
        j
    } else {
        assert(queen_sliders()[j] == bishop_sliders()[j - 4]);
        j - 4
    }
}

/// No piece attacks the square it stands on.
proof fn lemma_not_self(k: Piece, c: Color, a: int, occ: u64)
    requires
        0 <= a < 64,
    ensures
        !in_bb(piece_attacks(k, c, a, occ), a),
{
    lemma_king_attacks(a);
    lemma_knight_attacks(a);
    lemma_pawn_attacks(a, c);
    if k.sliding() && in_bb(piece_attacks(k, c, a, occ), a) {
        let list = k.sliders_spec().unwrap();
        let i = lemma_rays_member(occ, a, list, a);
        crate::safety::lemma_slides_of(k, i);
        lemma_ray_side(occ, a, list[i].df(), list[i].dr(), 7, a);
    }
}

/// The rays from a square along two different compass slides share no square.
proof fn lemma_rays_apart(occ: u64, s: int, one: Slider, two: Slider, t: int)
    requires
        0 <= s < 64,
        one.is_compass(),
        two.is_compass(),
        in_bb(ray(occ, s, one.df(), one.dr(), 7), t),
        in_bb(ray(occ, s, two.df(), two.dr(), 7), t),
    ensures
        one == two,
{
    lemma_slides();
    lemma_ray_side(occ, s, one.df(), one.dr(), 7, t);
    lemma_ray_side(occ, s, two.df(), two.dr(), 7, t);
}

/// A king on a square that the other side attacks is in check.
proof fn lemma_attacked_king(q: Position, c: Color, x: int)
    requires
        q.shape(),
        q.holds(x, c, Piece::King),
        in_bb(q.attack_map(c.other()), x),
    ensures
        q.in_check(c),
{
    lemma_sets_of(q);
    lemma_in_ops(q.piece_bb(c, Piece::King), q.attack_map(c.other()));
    lemma_empty(q.piece_bb(c, Piece::King) & q.attack_map(c.other()));
    assert(in_bb(q.piece_bb(c, Piece::King) & q.attack_map(c.other()), x));
}

/// A slider attacks the square from which a clear walk along one of its slides
/// comes to it.
proof fn lemma_line_attack(q: Position, c: Color, x: int, a: int, sl: Slider)
    requires
        q.shape(),
        0 <= x < 64,
        q.enemy_slider_at(a, c, sl),
        sl.is_compass(),
        reaches(q.occupied_without_king(c), x, sl.df(), sl.dr(), a),
    ensures
        in_bb(q.attack_map(c.other()), x),
{
    let occ = q.occupied_without_king(c);
    let k = kind_of(q.squares[a]);
    lemma_slides();
    let back = opposite(sl);
    lemma_walk_back(occ, x, sl.df(), sl.dr(), a);
    lemma_room(a, back.df(), back.dr());
    lemma_ray_reaches(occ, a, back.df(), back.dr(), 7, x);
    let i = lemma_slide_listed(k, back);
    lemma_rays_include(occ, a, k.sliders_spec().unwrap(), i, x);
    lemma_attacks_include(q.squares, c.other(), occ, 64, a, k, x);
}

/// A knight or a pawn attacks the square from which a knight or a pawn of the other
/// side would attack it.
proof fn lemma_contact_attack(q: Position, c: Color, x: int, a: int)
    requires
        q.shape(),
        0 <= x < 64,
        0 <= a < 64,
        (q.holds(a, c.other(), Piece::Knight) && in_bb(knight_attacks(x), a)) || (q.holds(
            a,
            c.other(),
            Piece::Pawn,
        ) && in_bb(pawn_attacks(x, c), a)),
    ensures
        in_bb(q.attack_map(c.other()), x),
{
    let occ = q.occupied_without_king(c);
    lemma_contact_both_ways(a, x, c);
    lemma_attacks_include(q.squares, c.other(), occ, 64, a, kind_of(q.squares[a]), x);
}

/// The place of each slide of the queen is its place.
proof fn lemma_slide_places(j: int)
    requires
        0 <= j < 8,
    ensures
        slide_index(queen_sliders()[j]) == j,
{
    lemma_slides();
    let q = queen_sliders();
    assert(q[0] == Slider { left: 0, right: 8 });
    assert(q[1] == Slider { left: 8, right: 0 });
    assert(q[2] == Slider { left: 0, right: 1 });
    assert(q[3] == Slider { left: 1, right: 0 });
    assert(q[4] == Slider { left: 0, right: 9 });
    assert(q[5] == Slider { left: 0, right: 7 });
    assert(q[6] == Slider { left: 9, right: 0 });
    assert(q[7] == Slider { left: 7, right: 0 });
}

/// What holds after a move of a piece other than the king from `s` to `t`, neither
/// en passant nor by castling: the king stands where it stood, and the squares that
/// count as occupied are those that did before, without `s` and with `t`.
proof fn lemma_after_piece_move(p: Position, m: Move)
    requires
        p.valid(),
        p.applicable(m),
        !(m.flag is EnPassant),
        !(m.flag is Castle),
        kind_of(p.squares[m.starting_square.idx()]) != Piece::King,
    ensures
        ({
            let c = p.turn;
            let s = m.starting_square.idx();
            let t = m.target_square.idx();
            let q = p.make(m);
            let ks = p.king_sq(c);
            &&& q.shape()
            &&& 0 <= s < 64
            &&& 0 <= t < 64
            &&& 0 <= ks < 64
            &&& s != t
            &&& s != ks
            &&& t != ks
            &&& p.color_at(s, c)
            &&& !p.color_at(t, c)
            &&& p.holds(ks, c, Piece::King)
            &&& q.holds(ks, c, Piece::King)
            &&& forall|y: int| 0 <= y < 64 && y != s && y != t ==> q.squares[y] == p.squares[y]
            &&& forall|y: int| #[trigger]
                in_bb(q.occupied_without_king(c), y) == (0 <= y < 64 && y != ks && y != s && (y == t
                    || p.squares[y] is Some))
            &&& forall|y: int| #[trigger] in_bb(p.occupied(), y) == (0 <= y < 64 && p.squares[y] is Some)
        }),
{
    let c = p.turn;
    let q = p.make(m);
    crate::laws::lemma_make_valid(p, m);
    lemma_plain_move(p, m);
    crate::laws::lemma_king_sq(p, c);
    crate::laws::lemma_king_sq(q, c);
    lemma_occupied_without_king(q, c);
    lemma_occupied_without_king(p, c);
    let s = m.starting_square.idx();
    let t = m.target_square.idx();
    let ks = p.king_sq(c);
    assert(q.holds(ks, c, Piece::King));
    assert forall|y: int| #[trigger]
        in_bb(q.occupied_without_king(c), y) == (0 <= y < 64 && y != ks && y != s && (y == t
            || p.squares[y] is Some)) by {
        if 0 <= y < 64 && y != s && y != t {
            assert(q.squares[y] == p.squares[y]);
        }
    }
}

/// A knight or a pawn that gives check goes on giving check if it is not taken.
proof fn lemma_contact_survives(p: Position, m: Move, a: int)
    requires
        p.valid(),
        p.applicable(m),
        !(m.flag is EnPassant),
        !(m.flag is Castle),
        kind_of(p.squares[m.starting_square.idx()]) != Piece::King,
        in_bb(p.contact_checkers(p.turn), a),
        a != m.target_square.idx(),
    ensures
        p.make(m).in_check(p.turn),
{
    let c = p.turn;
    let q = p.make(m);
    let ks = p.king_sq(c);
    lemma_after_piece_move(p, m);
    lemma_sets_of(p);
    let knights = p.piece_bb(c.other(), Piece::Knight);
    let pawns = p.piece_bb(c.other(), Piece::Pawn);
    lemma_in_ops(knight_attacks(ks), knights);
    lemma_in_ops(pawn_attacks(ks, c), pawns);
    lemma_in_ops(knight_attacks(ks) & knights, pawn_attacks(ks, c) & pawns);
    assert(q.squares[a] == p.squares[a]);
    lemma_contact_attack(q, c, ks, a);
    lemma_attacked_king(q, c, ks);
}

/// A slider that gives check goes on giving check if the move does not end on the
/// ray from the king to the slider.
proof fn lemma_slider_survives(p: Position, m: Move, j: int)
    requires
        p.valid(),
        p.applicable(m),
        !(m.flag is EnPassant),
        !(m.flag is Castle),
        kind_of(p.squares[m.starting_square.idx()]) != Piece::King,
        0 <= j < 8,
        p.check_along(p.turn, queen_sliders()[j]),
        !in_bb(
            ray(
                p.occupied(),
                p.king_sq(p.turn),
                queen_sliders()[j].df(),
                queen_sliders()[j].dr(),
                7,
            ),
            m.target_square.idx(),
        ),
    ensures
        p.make(m).in_check(p.turn),
{
    let c = p.turn;
    let q = p.make(m);
    let ks = p.king_sq(c);
    let s = m.starting_square.idx();
    let t = m.target_square.idx();
    let sl = queen_sliders()[j];
    let occp = p.occupied();
    let occq = q.occupied_without_king(c);
    lemma_after_piece_move(p, m);
    lemma_slides();
    let b = blocker(occp, ks, sl.df(), sl.dr(), 7).unwrap();
    lemma_blocker_reached(occp, ks, sl.df(), sl.dr(), 7);
    lemma_room(ks, sl.df(), sl.dr());
    assert forall|y: int| in_bb(ray(occp, ks, sl.df(), sl.dr(), 7), y) && y != b implies !in_bb(
        occq,
        y,
    ) by {
        if in_bb(occp, y) {
            lemma_ray_ends(occp, ks, sl.df(), sl.dr(), 7, y);
        }
    }
    lemma_walk_stays_clear(occp, occq, ks, sl.df(), sl.dr(), b, 7);
    assert(q.squares[b] == p.squares[b]);
    lemma_line_attack(q, c, ks, b, sl);
    lemma_attacked_king(q, c, ks);
}

/// A move of a piece other than the king that does not answer the checks leaves the
/// king in check.
pub proof fn lemma_unanswered_check(p: Position, m: Move)
    requires
        p.valid(),
        p.applicable(m),
        !(m.flag is EnPassant),
        !(m.flag is Castle),
        kind_of(p.squares[m.starting_square.idx()]) != Piece::King,
        !in_bb(p.check_mask(p.turn), m.target_square.idx()),
    ensures
        p.make(m).in_check(p.turn),
{
    let c = p.turn;
    let ks = p.king_sq(c);
    let t = m.target_square.idx();
    let contact = p.contact_checkers(c);
    let occp = p.occupied();
    m.target_square.lemma_of_idx();
    lemma_in_not(0);
    lemma_slides();
    lemma_sets_of(p);
    lemma_in_ops(contact, p.slider_check_rays(c, 8));
    lemma_no_checks(p, c, 8);
    if popcount(contact) >= 1 {
        let a = lemma_member(contact, 64);
        if a != t {
            lemma_contact_survives(p, m, a);
        } else if popcount(contact) >= 2 {
            let (x, y) = lemma_two_members(contact, 64);
            if x != t {
                lemma_contact_survives(p, m, x);
            } else {
                lemma_contact_survives(p, m, y);
            }
        } else {
            let j = lemma_checking_slide(p, c, 8);
            let sl = queen_sliders()[j];
            let knights = p.piece_bb(c.other(), Piece::Knight);
            let pawns = p.piece_bb(c.other(), Piece::Pawn);
            lemma_in_ops(knight_attacks(ks), knights);
            lemma_in_ops(pawn_attacks(ks, c), pawns);
            lemma_in_ops(knight_attacks(ks) & knights, pawn_attacks(ks, c) & pawns);
            crate::laws::lemma_king_sq(p, c);
            if in_bb(ray(occp, ks, sl.df(), sl.dr(), 7), t) {
                lemma_ray_ends(occp, ks, sl.df(), sl.dr(), 7, t);
            }
            lemma_slider_survives(p, m, j);
        }
    } else if p.slider_check_count(c, 8) == 1 {
        let j = lemma_checking_slide(p, c, 8);
        lemma_check_counted(p, c, 8, j);
        lemma_slider_survives(p, m, j);
    } else {
        let (j1, j2) = lemma_two_checking_slides(p, c, 8);
        let one = queen_sliders()[j1];
        let two = queen_sliders()[j2];
        crate::laws::lemma_king_sq(p, c);
        if !in_bb(ray(occp, ks, one.df(), one.dr(), 7), t) {
            lemma_slider_survives(p, m, j1);
        } else if !in_bb(ray(occp, ks, two.df(), two.dr(), 7), t) {
            lemma_slider_survives(p, m, j2);
        } else {
            lemma_rays_apart(occp, ks, one, two, t);
            lemma_slide_places(j1);
            lemma_slide_places(j2);
        }
    }
}

/// A pinned piece that leaves its pin ray leaves its king in check.
pub proof fn lemma_pin_broken(p: Position, m: Move)
    requires
        p.valid(),
        p.applicable(m),
        !(m.flag is EnPassant),
        !(m.flag is Castle),
        kind_of(p.squares[m.starting_square.idx()]) != Piece::King,
        !in_bb(pin_mask(p.pins(p.turn, 8), m.starting_square.idx()), m.target_square.idx()),
    ensures
        p.make(m).in_check(p.turn),
{
    let c = p.turn;
    let q = p.make(m);
    let ks = p.king_sq(c);
    let s = m.starting_square.idx();
    let t = m.target_square.idx();
    let occp = p.occupied();
    let occq = q.occupied_without_king(c);
    lemma_after_piece_move(p, m);
    lemma_slides();
    let i = lemma_pin_forbids(p.pins(c, 8), s, t);
    let j = lemma_pin_source(p, c, 8, i);
    let sl = queen_sliders()[j];
    let df = sl.df();
    let dr = sl.dr();
    let first = blocker(occp, ks, df, dr, 7).unwrap();
    lemma_blocker_reached(occp, ks, df, dr, 7);
    Square::lemma_idx_of(first);
    assert(first == s);
    let a = blocker(occp, s, df, dr, 7).unwrap();
    lemma_blocker_reached(occp, s, df, dr, 7);
    lemma_in_ops(ray(occp, ks, df, dr, 7), ray(occp, s, df, dr, 7));
    lemma_room(ks, df, dr);
    lemma_room(s, df, dr);
    assert forall|y: int| in_bb(ray(occp, ks, df, dr, 7), y) && y != s implies !in_bb(occq, y) by {
        if in_bb(occp, y) {
            lemma_ray_ends(occp, ks, df, dr, 7, y);
        }
    }
    lemma_walk_stays_clear(occp, occq, ks, df, dr, s, 7);
    assert forall|y: int| in_bb(ray(occp, s, df, dr, 7), y) && y != a implies !in_bb(occq, y) by {
        if in_bb(occp, y) {
            lemma_ray_ends(occp, s, df, dr, 7, y);
        }
    }
    lemma_walk_stays_clear(occp, occq, s, df, dr, a, 7);
    lemma_walk_through(occq, ks, df, dr, s, a);
    assert(q.squares[a] == p.squares[a]);
    lemma_line_attack(q, c, ks, a, sl);
    lemma_attacked_king(q, c, ks);
}

/// A king that moves to a square that the other side attacks is in check there.
pub proof fn lemma_king_into_attack(p: Position, m: Move)
    requires
        p.valid(),
        p.applicable(m),
        !(m.flag is EnPassant),
        !(m.flag is Castle),
        kind_of(p.squares[m.starting_square.idx()]) == Piece::King,
        in_bb(p.attack_map(p.turn.other()), m.target_square.idx()),
    ensures
        p.make(m).in_check(p.turn),
{
    let c = p.turn;
    let q = p.make(m);
    let s = m.starting_square.idx();
    let t = m.target_square.idx();
    crate::laws::lemma_make_valid(p, m);
    lemma_plain_move(p, m);
    crate::laws::lemma_king_sq(p, c);
    let occp = p.occupied_without_king(c);
    let occq = q.occupied_without_king(c);
    lemma_occupied_without_king(q, c);
    lemma_occupied_without_king(p, c);
    let a = lemma_attacker(p.squares, c.other(), occp, 64, t);
    let ka = kind_of(p.squares[a]);
    lemma_not_self(ka, c.other(), a, occp);
    assert(q.squares[a] == p.squares[a]);
    assert(q.holds(t, c, Piece::King));
    if ka.sliding() {
        let list = ka.sliders_spec().unwrap();
        let i = lemma_rays_member(occp, a, list, t);
        crate::safety::lemma_slides_of(ka, i);
        assert forall|y: int| 0 <= y < 64 && y != t && in_bb(occq, y) implies in_bb(occp, y) by {
            if y != s {
                assert(q.squares[y] == p.squares[y]);
            }
        }
        lemma_ray_to_occupied(occp, occq, a, list[i].df(), list[i].dr(), 7, t);
        lemma_rays_include(occq, a, list, i, t);
    }
    lemma_attacks_include(q.squares, c.other(), occq, 64, a, ka, t);
    lemma_attacked_king(q, c, t);
}

/// Of the squares that the rules of movement give a piece of the side to move,
/// kings' squares left out, the legal ones are exactly those from which the move
/// leaves the king of that side out of check.
pub proof fn lemma_legal_iff_safe(p: Position, s: int, t: int, k: Piece, m: Move)
    requires
        p.valid(),
        !p.in_check(p.turn.other()),
        p.holds(s, p.turn, k),
        in_bb(p.pseudo_targets(s, p.turn, k), t),
        !in_bb(p.kind_bb(Piece::King), t),
        p.moves_for(s, t, p.turn, k).contains(m),
    ensures
        in_bb(p.legal_targets(s, p.turn, k), t) == !p.make(m).in_check(p.turn),
{
    let c = p.turn;
    let raw = p.pseudo_targets(s, c, k);
    let pseudo = raw & !p.kind_bb(Piece::King);
    lemma_in_ops(raw, p.kind_bb(Piece::King));
    lemma_in_not(0);
    crate::legality::lemma_target_applicable(p, s, t, k, m);
    Square::lemma_idx_of(s);
    Square::lemma_idx_of(t);
    let list = p.moves_for(s, t, c, k);
    let n = choose|n: int| 0 <= n < list.len() && list[n] == m;
    assert(list[n] == m);
    assert(m.starting_square.idx() == s);
    assert(m.target_square.idx() == t);
    if k == Piece::King {
        lemma_in_ops(pseudo, p.attack_map(c.other()));
        if in_bb(p.attack_map(c.other()), t) {
            lemma_king_into_attack(p, m);
        } else {
            lemma_king_move_safe(p, m);
        }
    } else {
        let ep = if k == Piece::Pawn {
            p.ep_for(c)
        } else {
            0
        };
        let plain = (pseudo & !ep) & p.check_mask(c) & pin_mask(p.pins(c, 8), s);
        lemma_in_ops(pseudo, ep);
        lemma_in_ops(pseudo & !ep, p.check_mask(c));
        lemma_in_ops((pseudo & !ep) & p.check_mask(c), pin_mask(p.pins(c, 8), s));
        lemma_in_ops(plain, pseudo & ep);
        if in_bb(ep, t) {
            lemma_in_bit(sole_square(p.en_passant));
            lemma_empty(pseudo & ep);
            assert(in_bb(pseudo & ep, t));
            assert(m == p.ep_move(s, c));
        } else if !in_bb(p.check_mask(c), t) {
            lemma_unanswered_check(p, m);
        } else if !in_bb(pin_mask(p.pins(c, 8), s), t) {
            lemma_pin_broken(p, m);
        } else {
            lemma_piece_move_safe(p, m);
        }
    }
}

} // verus!
