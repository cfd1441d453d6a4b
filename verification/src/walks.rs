//! Walks along a line of the board: what a ray reaches, seen from either end.

use vstd::prelude::*;
use crate::attacks::{blocker, can_step, ray, rays, step_to};
use crate::bits::{bit, in_bb, lemma_in_bit, lemma_in_not, lemma_in_ops};
use crate::piece::Slider;
use crate::square::{file_of, rank_of};

verus! {

/// Whether (`df`, `dr`) is one step along a file, a rank or a diagonal.
pub open spec fn compass(df: int, dr: int) -> bool {
    -1 <= df <= 1 && -1 <= dr <= 1 && !(df == 0 && dr == 0)
}

/// How many steps of `d` along one coordinate, now at `x`, stay on the board.
pub open spec fn room(x: int, d: int) -> int {
    if d == 1 {
        7 - x
    } else if d == -1 {
        x
    } else {
        7
    }
}

/// How many steps of (`df`, `dr`) from `s` stay on the board.
pub open spec fn avail(s: int, df: int, dr: int) -> int {
    if room(file_of(s), df) <= room(rank_of(s), dr) {
        room(file_of(s), df)
    } else {
        room(rank_of(s), dr)
    }
}

/// Whether a walk from `s` by steps of (`df`, `dr`) comes to `t` with no member of
/// `occ` on the squares before `t`.
pub open spec fn reaches(occ: u64, s: int, df: int, dr: int, t: int) -> bool
    decreases avail(s, df, dr),
{
    if !compass(df, dr) || !can_step(s, df, dr) {
        false
    } else {
        let u = step_to(s, df, dr);
        u == t || (!in_bb(occ, u) && reaches(occ, u, df, dr, t))
    }
}

/// A step on the board leads to a square of the board, one step nearer to the edge.
pub proof fn lemma_step(s: int, df: int, dr: int)
    requires
        compass(df, dr),
        can_step(s, df, dr),
    ensures
        0 <= step_to(s, df, dr) < 64,
        file_of(step_to(s, df, dr)) == file_of(s) + df,
        rank_of(step_to(s, df, dr)) == rank_of(s) + dr,
        avail(step_to(s, df, dr), df, dr) == avail(s, df, dr) - 1,
        0 <= avail(s, df, dr) - 1 < 7,
        can_step(step_to(s, df, dr), -df, -dr),
        step_to(step_to(s, df, dr), -df, -dr) == s,
{
}

/// On the board, a step can be taken exactly when there is room for one.
pub proof fn lemma_room(s: int, df: int, dr: int)
    requires
        compass(df, dr),
        0 <= s < 64,
    ensures
        can_step(s, df, dr) == (avail(s, df, dr) >= 1),
        0 <= avail(s, df, dr) <= 7,
{
}

/// With steps enough to come to the edge, a ray reaches exactly the squares that a
/// walk comes to.
pub proof fn lemma_ray_reaches(occ: u64, s: int, df: int, dr: int, n: nat, t: int)
    requires
        compass(df, dr),
        0 <= s < 64,
        n >= avail(s, df, dr),
    ensures
        in_bb(ray(occ, s, df, dr, n), t) == reaches(occ, s, df, dr, t),
    decreases n,
{
    lemma_in_not(0);
    lemma_room(s, df, dr);
    if n > 0 && can_step(s, df, dr) {
        let u = step_to(s, df, dr);
        lemma_step(s, df, dr);
        lemma_in_bit(u);
        lemma_ray_reaches(occ, u, df, dr, (n - 1) as nat, t);
        lemma_in_ops(bit(u), ray(occ, u, df, dr, (n - 1) as nat));
        if in_bb(occ, u) {
        } else {
        }
    }
}

/// A walk comes only to squares nearer to the edge than where it starts.
pub proof fn lemma_ahead(occ: u64, s: int, df: int, dr: int, t: int)
    requires
        reaches(occ, s, df, dr, t),
    ensures
        0 <= t < 64,
        0 <= s < 64,
        avail(t, df, dr) < avail(s, df, dr),
        t != s,
    decreases avail(s, df, dr),
{
    let u = step_to(s, df, dr);
    lemma_step(s, df, dr);
    if u != t {
        lemma_ahead(occ, u, df, dr, t);
    }
}

/// The first member of `occ` on a walk is nearer to the edge than where the walk starts.
pub proof fn lemma_blocker_ahead(occ: u64, s: int, df: int, dr: int, n: nat)
    requires
        compass(df, dr),
        0 <= s < 64,
        blocker(occ, s, df, dr, n) is Some,
    ensures
        avail(blocker(occ, s, df, dr, n).unwrap(), df, dr) < avail(s, df, dr),
        blocker(occ, s, df, dr, n).unwrap() != s,
        in_bb(occ, blocker(occ, s, df, dr, n).unwrap()),
    decreases n,
{
    if n > 0 && can_step(s, df, dr) {
        let u = step_to(s, df, dr);
        lemma_step(s, df, dr);
        if !in_bb(occ, u) {
            lemma_blocker_ahead(occ, u, df, dr, (n - 1) as nat);
        }
    }
}

/// A walk that comes to `u`, an empty square, comes to the square after `u` too.
proof fn lemma_walk_on(occ: u64, t: int, df: int, dr: int, u: int)
    requires
        reaches(occ, t, df, dr, u),
        !in_bb(occ, u),
        can_step(u, df, dr),
    ensures
        reaches(occ, t, df, dr, step_to(u, df, dr)),
    decreases avail(t, df, dr),
{
    let v = step_to(t, df, dr);
    lemma_step(t, df, dr);
    if v == u {
        lemma_step(u, df, dr);
        assert(reaches(occ, u, df, dr, step_to(u, df, dr)));
    } else {
        lemma_walk_on(occ, v, df, dr, u);
    }
}

/// If a walk from `s` comes to `t`, the walk back from `t` comes to `s`: the same
/// squares lie between them.
pub proof fn lemma_walk_back(occ: u64, s: int, df: int, dr: int, t: int)
    requires
        reaches(occ, s, df, dr, t),
    ensures
        reaches(occ, t, -df, -dr, s),
    decreases avail(s, df, dr),
{
    let u = step_to(s, df, dr);
    lemma_step(s, df, dr);
    if u == t {
        assert(reaches(occ, t, -df, -dr, s));
    } else {
        lemma_walk_back(occ, u, df, dr, t);
        lemma_walk_on(occ, t, -df, -dr, u);
    }
}

/// Whether a square is reached does not depend on what stands on it.
pub proof fn lemma_ray_to_occupied(occ1: u64, occ2: u64, s: int, df: int, dr: int, n: nat, t: int)
    requires
        in_bb(ray(occ1, s, df, dr, n), t),
        0 <= s < 64,
        compass(df, dr),
        forall|x: int| 0 <= x < 64 && x != t ==> (in_bb(occ2, x) ==> in_bb(occ1, x)),
    ensures
        in_bb(ray(occ2, s, df, dr, n), t),
    decreases n,
{
    lemma_in_not(0);
    if n > 0 && can_step(s, df, dr) {
        let u = step_to(s, df, dr);
        lemma_step(s, df, dr);
        lemma_in_bit(u);
        lemma_in_ops(bit(u), ray(occ1, u, df, dr, (n - 1) as nat));
        lemma_in_ops(bit(u), ray(occ2, u, df, dr, (n - 1) as nat));
        if u != t {
            lemma_ray_to_occupied(occ1, occ2, u, df, dr, (n - 1) as nat, t);
        }
    }
}

/// Whether a square is reached does not depend on a square that no walk to it
/// passes: one that cannot be stepped onto, or from which the walk does not go on
/// to the square.
pub proof fn lemma_ray_past(
    occ1: u64,
    occ2: u64,
    s: int,
    df: int,
    dr: int,
    n: nat,
    t: int,
    z: int,
)
    requires
        in_bb(ray(occ1, s, df, dr, n), t),
        0 <= s < 64,
        compass(df, dr),
        forall|x: int| 0 <= x < 64 && x != t && x != z ==> (in_bb(occ2, x) ==> in_bb(occ1, x)),
        forall|y: int, m: nat|
            #![trigger can_step(y, df, dr), ray(occ1, z, df, dr, m)]
            0 <= y < 64 && can_step(y, df, dr) && step_to(y, df, dr) == z ==> !in_bb(
                ray(occ1, z, df, dr, m),
                t,
            ),
    ensures
        in_bb(ray(occ2, s, df, dr, n), t),
    decreases n,
{
    lemma_in_not(0);
    if n > 0 && can_step(s, df, dr) {
        let u = step_to(s, df, dr);
        lemma_step(s, df, dr);
        lemma_in_bit(u);
        lemma_in_ops(bit(u), ray(occ1, u, df, dr, (n - 1) as nat));
        lemma_in_ops(bit(u), ray(occ2, u, df, dr, (n - 1) as nat));
        if u != t {
            if u == z {
                assert(!in_bb(ray(occ1, z, df, dr, (n - 1) as nat), t));
            } else {
                lemma_ray_past(occ1, occ2, u, df, dr, (n - 1) as nat, t, z);
            }
        }
    }
}

/// Every square that a ray reaches lies from its origin where the steps lead: on the
/// same file or rank if the steps keep to it, else on the side they go to.
pub proof fn lemma_ray_side(occ: u64, s: int, df: int, dr: int, n: nat, t: int)
    requires
        in_bb(ray(occ, s, df, dr, n), t),
        0 <= s < 64,
        compass(df, dr),
    ensures
        df == 0 ==> file_of(t) == file_of(s),
        df == 1 ==> file_of(t) > file_of(s),
        df == -1 ==> file_of(t) < file_of(s),
        dr == 0 ==> rank_of(t) == rank_of(s),
        dr == 1 ==> rank_of(t) > rank_of(s),
        dr == -1 ==> rank_of(t) < rank_of(s),
        df != 0 && df == dr ==> file_of(t) - file_of(s) == rank_of(t) - rank_of(s),
        df != 0 && df == -dr ==> file_of(t) - file_of(s) == rank_of(s) - rank_of(t),
        0 <= t < 64,
        t != s,
    decreases n,
{
    lemma_in_not(0);
    if n > 0 && can_step(s, df, dr) {
        let u = step_to(s, df, dr);
        lemma_step(s, df, dr);
        lemma_in_bit(u);
        lemma_in_ops(bit(u), ray(occ, u, df, dr, (n - 1) as nat));
        if u != t {
            lemma_ray_side(occ, u, df, dr, (n - 1) as nat, t);
        }
    }
}

/// A walk under `occ1` from `k` to `a`, seen under an occupancy `occ2` that holds `a`
/// and, of the squares that `occ1` leaves empty, at most `s`: the first member of
/// `occ2` on the walk is `a`, or it is `s`, and the walk goes on from `s` to `a`.
pub proof fn lemma_first_of_two(occ1: u64, occ2: u64, k: int, df: int, dr: int, a: int, s: int)
    requires
        reaches(occ1, k, df, dr, a),
        in_bb(occ2, a),
        forall|x: int|
            0 <= x < 64 && avail(x, df, dr) < avail(k, df, dr) && x != s && x != a && !in_bb(
                occ1,
                x,
            ) ==> !in_bb(occ2, x),
    ensures
        blocker(occ2, k, df, dr, 7) == Some(a) || (blocker(occ2, k, df, dr, 7) == Some(s) && in_bb(
            occ2,
            s,
        ) && s != a && reaches(occ1, s, df, dr, a) && reaches(occ2, k, df, dr, s)),
        blocker(occ2, k, df, dr, 7) == Some(a) ==> reaches(occ2, k, df, dr, a),
{
    lemma_ahead(occ1, k, df, dr, a);
    lemma_room(k, df, dr);
    lemma_first_of_two_at(occ1, occ2, k, df, dr, a, s, 7);
}

proof fn lemma_first_of_two_at(
    occ1: u64,
    occ2: u64,
    k: int,
    df: int,
    dr: int,
    a: int,
    s: int,
    n: nat,
)
    requires
        reaches(occ1, k, df, dr, a),
        in_bb(occ2, a),
        n >= avail(k, df, dr),
        forall|x: int|
            0 <= x < 64 && avail(x, df, dr) < avail(k, df, dr) && x != s && x != a && !in_bb(
                occ1,
                x,
            ) ==> !in_bb(occ2, x),
    ensures
        blocker(occ2, k, df, dr, n) == Some(a) || (blocker(occ2, k, df, dr, n) == Some(s) && in_bb(
            occ2,
            s,
        ) && s != a && reaches(occ1, s, df, dr, a) && reaches(occ2, k, df, dr, s)),
        blocker(occ2, k, df, dr, n) == Some(a) ==> reaches(occ2, k, df, dr, a),
    decreases n,
{
    let u = step_to(k, df, dr);
    lemma_step(k, df, dr);
    if u == a {
    } else if in_bb(occ2, u) {
        assert(u == s);
    } else {
        lemma_first_of_two_at(occ1, occ2, u, df, dr, a, s, (n - 1) as nat);
    }
}

/// A square that a ray under `occ2` reaches on the way of a walk under `occ1` to `a`,
/// a member of `occ2`, is `a` or is not a member of `occ1`.
pub proof fn lemma_on_the_way(occ1: u64, occ2: u64, k: int, df: int, dr: int, a: int, t: int)
    requires
        reaches(occ1, k, df, dr, a),
        in_bb(occ2, a),
        in_bb(ray(occ2, k, df, dr, 7), t),
    ensures
        t == a || !in_bb(occ1, t),
{
    lemma_on_the_way_at(occ1, occ2, k, df, dr, a, t, 7);
}

proof fn lemma_on_the_way_at(
    occ1: u64,
    occ2: u64,
    k: int,
    df: int,
    dr: int,
    a: int,
    t: int,
    n: nat,
)
    requires
        reaches(occ1, k, df, dr, a),
        in_bb(occ2, a),
        in_bb(ray(occ2, k, df, dr, n), t),
    ensures
        t == a || !in_bb(occ1, t),
    decreases n,
{
    lemma_in_not(0);
    let u = step_to(k, df, dr);
    lemma_step(k, df, dr);
    lemma_in_bit(u);
    if n > 0 {
        lemma_in_ops(bit(u), ray(occ2, u, df, dr, (n - 1) as nat));
        if u != a && u != t {
            lemma_on_the_way_at(occ1, occ2, u, df, dr, a, t, (n - 1) as nat);
        }
    }
}

/// A square reached along one of several slides is reached along one of them.
pub proof fn lemma_rays_member(occ: u64, s: int, sliders: Seq<Slider>, t: int) -> (i: int)
    requires
        in_bb(rays(occ, s, sliders), t),
    ensures
        0 <= i < sliders.len(),
        in_bb(ray(occ, s, sliders[i].df(), sliders[i].dr(), 7), t),
    decreases sliders.len(),
{
    lemma_in_not(0);
    if sliders.len() == 0 {
        0
    } else {
        let last = sliders.last();
        lemma_in_ops(rays(occ, s, sliders.drop_last()), ray(occ, s, last.df(), last.dr(), 7));
        if in_bb(ray(occ, s, last.df(), last.dr(), 7), t) {
            sliders.len() - 1
        } else {
            lemma_rays_member(occ, s, sliders.drop_last(), t)
        }
    }
}

/// What is reached along one of several slides is reached along them all together.
pub proof fn lemma_rays_include(occ: u64, s: int, sliders: Seq<Slider>, i: int, t: int)
    requires
        0 <= i < sliders.len(),
        in_bb(ray(occ, s, sliders[i].df(), sliders[i].dr(), 7), t),
    ensures
        in_bb(rays(occ, s, sliders), t),
    decreases sliders.len(),
{
    let last = sliders.last();
    lemma_in_ops(rays(occ, s, sliders.drop_last()), ray(occ, s, last.df(), last.dr(), 7));
    if i < sliders.len() - 1 {
        lemma_rays_include(occ, s, sliders.drop_last(), i, t);
    }
}

/// With no member of `occ` on it, a ray is the ray of the empty board.
pub proof fn lemma_ray_unblocked(occ: u64, s: int, df: int, dr: int, n: nat)
    requires
        0 <= s < 64,
        compass(df, dr),
        forall|t: int| in_bb(ray(0, s, df, dr, n), t) ==> !in_bb(occ, t),
    ensures
        ray(occ, s, df, dr, n) == ray(0, s, df, dr, n),
    decreases n,
{
    lemma_in_not(0);
    if n > 0 && can_step(s, df, dr) {
        let u = step_to(s, df, dr);
        lemma_step(s, df, dr);
        lemma_in_bit(u);
        let rest = ray(0, u, df, dr, (n - 1) as nat);
        lemma_in_ops(bit(u), rest);
        assert(in_bb(ray(0, s, df, dr, n), u));
        assert forall|t: int| in_bb(rest, t) implies !in_bb(occ, t) by {
            assert(in_bb(ray(0, s, df, dr, n), t));
        }
        lemma_ray_unblocked(occ, u, df, dr, (n - 1) as nat);
    }
}

/// With no member of `occ` on them, the rays along several compass slides are those
/// of the empty board.
pub proof fn lemma_rays_unblocked(occ: u64, s: int, sliders: Seq<Slider>)
    requires
        0 <= s < 64,
        forall|i: int| 0 <= i < sliders.len() ==> (#[trigger] sliders[i]).is_compass(),
        forall|t: int| in_bb(rays(0, s, sliders), t) ==> !in_bb(occ, t),
    ensures
        rays(occ, s, sliders) == rays(0, s, sliders),
    decreases sliders.len(),
{
    if sliders.len() > 0 {
        let last = sliders.last();
        let head = sliders.drop_last();
        assert(last.is_compass());
        lemma_in_ops(rays(0, s, head), ray(0, s, last.df(), last.dr(), 7));
        assert forall|t: int| in_bb(rays(0, s, head), t) implies !in_bb(occ, t) by {
            assert(in_bb(rays(0, s, sliders), t));
        }
        assert forall|t: int| in_bb(ray(0, s, last.df(), last.dr(), 7), t) implies !in_bb(
            occ,
            t,
        ) by {
            assert(in_bb(rays(0, s, sliders), t));
        }
        lemma_rays_unblocked(occ, s, head);
        lemma_ray_unblocked(occ, s, last.df(), last.dr(), 7);
    }
}

/// A member of `occ` that a ray reaches is the first member of `occ` on its way.
pub proof fn lemma_ray_ends(occ: u64, s: int, df: int, dr: int, n: nat, t: int)
    requires
        0 <= s < 64,
        compass(df, dr),
        in_bb(ray(occ, s, df, dr, n), t),
        in_bb(occ, t),
    ensures
        blocker(occ, s, df, dr, n) == Some(t),
    decreases n,
{
    lemma_in_not(0);
    if n > 0 && can_step(s, df, dr) {
        let u = step_to(s, df, dr);
        lemma_step(s, df, dr);
        lemma_in_bit(u);
        lemma_in_ops(bit(u), ray(occ, u, df, dr, (n - 1) as nat));
        if !in_bb(occ, u) {
            lemma_ray_ends(occ, u, df, dr, (n - 1) as nat, t);
        }
    }
}

/// The first member of `occ` on a walk is reached by the walk and by the ray.
pub proof fn lemma_blocker_reached(occ: u64, s: int, df: int, dr: int, n: nat)
    requires
        0 <= s < 64,
        compass(df, dr),
        blocker(occ, s, df, dr, n) is Some,
    ensures
        reaches(occ, s, df, dr, blocker(occ, s, df, dr, n).unwrap()),
        in_bb(ray(occ, s, df, dr, n), blocker(occ, s, df, dr, n).unwrap()),
        in_bb(occ, blocker(occ, s, df, dr, n).unwrap()),
        0 <= blocker(occ, s, df, dr, n).unwrap() < 64,
    decreases n,
{
    if n > 0 && can_step(s, df, dr) {
        let u = step_to(s, df, dr);
        lemma_step(s, df, dr);
        lemma_in_bit(u);
        lemma_in_ops(bit(u), ray(occ, u, df, dr, (n - 1) as nat));
        if !in_bb(occ, u) {
            lemma_blocker_reached(occ, u, df, dr, (n - 1) as nat);
        }
    }
}

/// A walk that is clear under `occ1` is clear under `occ2` if `occ2` holds none of
/// the squares that the ray under `occ1` reaches before the end of the walk.
pub proof fn lemma_walk_stays_clear(
    occ1: u64,
    occ2: u64,
    k: int,
    df: int,
    dr: int,
    a: int,
    n: nat,
)
    requires
        reaches(occ1, k, df, dr, a),
        n >= avail(k, df, dr),
        forall|y: int| in_bb(ray(occ1, k, df, dr, n), y) && y != a ==> !in_bb(occ2, y),
    ensures
        reaches(occ2, k, df, dr, a),
    decreases n,
{
    lemma_in_not(0);
    let u = step_to(k, df, dr);
    lemma_step(k, df, dr);
    lemma_room(k, df, dr);
    lemma_in_bit(u);
    if u != a {
        let rest = ray(occ1, u, df, dr, (n - 1) as nat);
        lemma_in_ops(bit(u), rest);
        assert(in_bb(ray(occ1, k, df, dr, n), u));
        assert forall|y: int| in_bb(rest, y) && y != a implies !in_bb(occ2, y) by {
            assert(in_bb(ray(occ1, k, df, dr, n), y));
        }
        lemma_walk_stays_clear(occ1, occ2, u, df, dr, a, (n - 1) as nat);
    }
}

/// A walk that comes to an empty square and goes on from there to another square
/// comes to that square.
pub proof fn lemma_walk_through(occ: u64, k: int, df: int, dr: int, s: int, a: int)
    requires
        reaches(occ, k, df, dr, s),
        !in_bb(occ, s),
        reaches(occ, s, df, dr, a),
    ensures
        reaches(occ, k, df, dr, a),
    decreases avail(k, df, dr),
{
    let u = step_to(k, df, dr);
    lemma_step(k, df, dr);
    if u != s {
        lemma_walk_through(occ, u, df, dr, s, a);
    }
}

} // verus!
