//! Squares as bit positions of a 64-bit word, and the facts about them
//! that the rest of the crate builds on.

use vstd::prelude::*;

verus! {

/// The word whose only member is square `s`.
pub open spec fn bit(s: int) -> u64 {
    1u64 << (s as u64)
}

/// Whether square `s` is a member of the set that `b` encodes.
pub open spec fn in_bb(b: u64, s: int) -> bool {
    0 <= s < 64 && b & (1u64 << (s as u64)) != 0
}

proof fn lemma_in_ops_at(a: u64, b: u64, s: int)
    requires
        0 <= s < 64,
    ensures
        in_bb(a | b, s) == (in_bb(a, s) || in_bb(b, s)),
        in_bb(a & b, s) == (in_bb(a, s) && in_bb(b, s)),
        in_bb(a ^ b, s) == (in_bb(a, s) != in_bb(b, s)),
        in_bb(a & !b, s) == (in_bb(a, s) && !in_bb(b, s)),
        in_bb(!a, s) == !in_bb(a, s),
        !in_bb(0, s),
        in_bb(u64::MAX, s),
{
    let i = s as u64;
    assert((((a | b) & (1u64 << i) != 0) == ((a & (1u64 << i) != 0) || (b & (1u64 << i) != 0)))
        && (((a & b) & (1u64 << i) != 0) == ((a & (1u64 << i) != 0) && (b & (1u64 << i) != 0)))
        && (((a ^ b) & (1u64 << i) != 0) == ((a & (1u64 << i) != 0) != (b & (1u64 << i) != 0)))
        && (((a & !b) & (1u64 << i) != 0) == ((a & (1u64 << i) != 0) && !(b & (1u64 << i) != 0)))
        && (((!a) & (1u64 << i) != 0) == !(a & (1u64 << i) != 0)) && 0u64 & (1u64 << i) == 0
        && 0xffff_ffff_ffff_ffffu64 & (1u64 << i) != 0) by (bit_vector)
        requires
            i < 64,
    ;
}

/// Membership distributes over union, intersection, difference and symmetric difference.
pub proof fn lemma_in_ops(a: u64, b: u64)
    ensures
        forall|s: int| #[trigger] in_bb(a | b, s) == (in_bb(a, s) || in_bb(b, s)),
        forall|s: int| #[trigger] in_bb(a & b, s) == (in_bb(a, s) && in_bb(b, s)),
        forall|s: int| #[trigger] in_bb(a ^ b, s) == (in_bb(a, s) != in_bb(b, s)),
        forall|s: int| #[trigger] in_bb(a & !b, s) == (in_bb(a, s) && !in_bb(b, s)),
{
    assert forall|s: int| #[trigger] in_bb(a | b, s) == (in_bb(a, s) || in_bb(b, s)) by {
        if 0 <= s < 64 {
            lemma_in_ops_at(a, b, s);
        }
    }
    assert forall|s: int| #[trigger] in_bb(a & b, s) == (in_bb(a, s) && in_bb(b, s)) by {
        if 0 <= s < 64 {
            lemma_in_ops_at(a, b, s);
        }
    }
    assert forall|s: int| #[trigger] in_bb(a ^ b, s) == (in_bb(a, s) != in_bb(b, s)) by {
        if 0 <= s < 64 {
            lemma_in_ops_at(a, b, s);
        }
    }
    assert forall|s: int| #[trigger] in_bb(a & !b, s) == (in_bb(a, s) && !in_bb(b, s)) by {
        if 0 <= s < 64 {
            lemma_in_ops_at(a, b, s);
        }
    }
}

/// Membership in a complement, in the empty word and in the full word.
pub proof fn lemma_in_not(a: u64)
    ensures
        forall|s: int| 0 <= s < 64 ==> #[trigger] in_bb(!a, s) == !in_bb(a, s),
        forall|s: int| !#[trigger] in_bb(0, s),
        forall|s: int| 0 <= s < 64 ==> #[trigger] in_bb(u64::MAX, s),
{
    assert forall|s: int| 0 <= s < 64 implies #[trigger] in_bb(!a, s) == !in_bb(a, s) by {
        lemma_in_ops_at(a, a, s);
    }
    assert forall|s: int| !#[trigger] in_bb(0, s) by {
        if 0 <= s < 64 {
            lemma_in_ops_at(a, a, s);
        }
    }
    assert forall|s: int| 0 <= s < 64 implies #[trigger] in_bb(u64::MAX, s) by {
        lemma_in_ops_at(a, a, s);
    }
}

/// A single-square word holds that square and no other, and is not empty.
pub proof fn lemma_in_bit(t: int)
    requires
        0 <= t < 64,
    ensures
        forall|s: int| #[trigger] in_bb(bit(t), s) == (s == t),
        bit(t) != 0,
{
    let j = t as u64;
    assert forall|s: int| #[trigger] in_bb(bit(t), s) == (s == t) by {
        if 0 <= s < 64 {
            let i = s as u64;
            assert((((1u64 << j) & (1u64 << i)) != 0) == (i == j)) by (bit_vector)
                requires
                    i < 64,
                    j < 64,
            ;
        }
    }
    assert(in_bb(bit(t), t));
    lemma_in_not(0);
}

proof fn lemma_in_shift_at(a: u64, k: int, s: int)
    requires
        0 <= k < 64,
        0 <= s < 64,
    ensures
        in_bb(a << (k as u64), s) == (s >= k && in_bb(a, s - k)),
        in_bb(a >> (k as u64), s) == (s + k < 64 && in_bb(a, s + k)),
{
    let n = k as u64;
    let i = s as u64;
    assert(((((a << n) & (1u64 << i)) != 0) == (i >= n && (a & (1u64 << ((i - n) as u64))) != 0))
        && ((((a >> n) & (1u64 << i)) != 0) == (i + n < 64 && (a & (1u64 << ((i + n) as u64)))
        != 0))) by (bit_vector)
        requires
            i < 64,
            n < 64,
    ;
}

/// Shifting a word moves every member by the shift distance; members that
/// would leave the word are dropped.
pub proof fn lemma_in_shift(a: u64, k: int)
    requires
        0 <= k < 64,
    ensures
        forall|s: int| #[trigger]
            in_bb(a << (k as u64), s) == (0 <= s < 64 && s >= k && in_bb(a, s - k)),
        forall|s: int| #[trigger]
            in_bb(a >> (k as u64), s) == (0 <= s < 64 && s + k < 64 && in_bb(a, s + k)),
{
    assert forall|s: int| #[trigger]
        in_bb(a << (k as u64), s) == (0 <= s < 64 && s >= k && in_bb(a, s - k)) by {
        if 0 <= s < 64 {
            lemma_in_shift_at(a, k, s);
        }
    }
    assert forall|s: int| #[trigger]
        in_bb(a >> (k as u64), s) == (0 <= s < 64 && s + k < 64 && in_bb(a, s + k)) by {
        if 0 <= s < 64 {
            lemma_in_shift_at(a, k, s);
        }
    }
}

/// A word that is not empty has a member, and its lowest member is where
/// its trailing zeros end.
pub proof fn lemma_lowest(a: u64)
    requires
        a != 0,
    ensures
        vstd::std_specs::bits::u64_trailing_zeros(a) < 64,
        in_bb(a, vstd::std_specs::bits::u64_trailing_zeros(a) as int),
        forall|s: int|
            0 <= s < vstd::std_specs::bits::u64_trailing_zeros(a) ==> !#[trigger] in_bb(a, s),
{
    vstd::std_specs::bits::axiom_u64_trailing_zeros(a);
    let t = vstd::std_specs::bits::u64_trailing_zeros(a) as u64;
    assert(a & (1u64 << t) != 0) by (bit_vector)
        requires
            t < 64,
            (a >> t) & 1u64 == 1u64,
    ;
    assert forall|s: int| 0 <= s < t implies !#[trigger] in_bb(a, s) by {
        let j = s as u64;
        assert((a >> j) & 1u64 == 0u64);
        assert(a & (1u64 << j) == 0) by (bit_vector)
            requires
                j < 64,
                (a >> j) & 1u64 == 0u64,
        ;
    }
}

/// Two words with the same members are the same word.
pub proof fn lemma_ext(a: u64, b: u64)
    requires
        forall|s: int| 0 <= s < 64 ==> in_bb(a, s) == in_bb(b, s),
    ensures
        a == b,
{
    let z = a ^ b;
    lemma_in_ops(a, b);
    if z != 0 {
        lemma_lowest(z);
        let s = vstd::std_specs::bits::u64_trailing_zeros(z) as int;
        assert(in_bb(a ^ b, s));
    }
    assert(a == b) by (bit_vector)
        requires
            a ^ b == 0,
    ;
}

/// A word is empty exactly when it has no member.
pub proof fn lemma_empty(a: u64)
    ensures
        (a == 0) == (forall|s: int| 0 <= s < 64 ==> !in_bb(a, s)),
{
    lemma_in_not(0);
    if forall|s: int| 0 <= s < 64 ==> !in_bb(a, s) {
        lemma_ext(a, 0);
    }
}

/// The word that holds exactly the squares below `n` that satisfy `p`.
pub open spec fn bb_where(p: spec_fn(int) -> bool, n: int) -> u64
    decreases n,
{
    if n <= 0 {
        0
    } else if p(n - 1) {
        bb_where(p, n - 1) | bit(n - 1)
    } else {
        bb_where(p, n - 1)
    }
}

/// The members of `bb_where(p, n)` are the squares below `n` that satisfy `p`.
pub proof fn lemma_bb_where(p: spec_fn(int) -> bool, n: int)
    requires
        0 <= n <= 64,
    ensures
        forall|s: int| #[trigger] in_bb(bb_where(p, n), s) == (0 <= s < n && p(s)),
    decreases n,
{
    if n > 0 {
        lemma_bb_where(p, n - 1);
        lemma_in_ops(bb_where(p, n - 1), bit(n - 1));
        lemma_in_bit(n - 1);
    } else {
        lemma_in_not(0);
    }
}

/// The square of a single-square word is where its trailing zeros end.
pub proof fn lemma_tz_bit(t: int)
    requires
        0 <= t < 64,
    ensures
        vstd::std_specs::bits::u64_trailing_zeros(bit(t)) == t,
{
    lemma_in_bit(t);
    lemma_lowest(bit(t));
}

/// Shifting a single-square word moves its square, or empties the word
/// when the square would leave it.
pub proof fn lemma_bit_shift(t: int, k: int)
    requires
        0 <= t < 64,
        0 <= k < 64,
    ensures
        bit(t) << (k as u64) == (if t + k < 64 {
            bit(t + k)
        } else {
            0
        }),
        bit(t) >> (k as u64) == (if t - k >= 0 {
            bit(t - k)
        } else {
            0
        }),
{
    lemma_in_shift(bit(t), k);
    lemma_in_bit(t);
    lemma_in_not(0);
    if t + k < 64 {
        lemma_in_bit(t + k);
        lemma_ext(bit(t) << (k as u64), bit(t + k));
    } else {
        lemma_ext(bit(t) << (k as u64), 0);
    }
    if t - k >= 0 {
        lemma_in_bit(t - k);
        lemma_ext(bit(t) >> (k as u64), bit(t - k));
    } else {
        lemma_ext(bit(t) >> (k as u64), 0);
    }
}

/// The word with every square of file A set.
pub const FILE_A: u64 = 0x0101_0101_0101_0101u64;

/// The word with every square of file H set.
pub const FILE_H: u64 = 0x8080_8080_8080_8080u64;

/// The word with every square of rank 1 set.
pub const RANK_1: u64 = 0x0000_0000_0000_00ffu64;

/// The members of a file are the squares whose number leaves the file's number when
/// divided by 8, those of a rank the squares whose number gives the rank's number.
pub proof fn lemma_lines(k: int)
    requires
        0 <= k < 8,
    ensures
        forall|s: int| #[trigger] in_bb(FILE_A << (k as u64), s) == (0 <= s < 64 && s % 8 == k),
        forall|s: int| #[trigger]
            in_bb(RANK_1 << ((8 * k) as u64), s) == (0 <= s < 64 && s / 8 == k),
{
    assert forall|s: int| #[trigger]
        in_bb(FILE_A << (k as u64), s) == (0 <= s < 64 && s % 8 == k) by {
        if 0 <= s < 64 {
            lemma_lines_at(k, s);
        }
    }
    assert forall|s: int| #[trigger]
        in_bb(RANK_1 << ((8 * k) as u64), s) == (0 <= s < 64 && s / 8 == k) by {
        if 0 <= s < 64 {
            lemma_lines_at(k, s);
        }
    }
}

/// The members of the two edge files.
pub proof fn lemma_edge_files()
    ensures
        forall|s: int| #[trigger] in_bb(FILE_A, s) == (0 <= s < 64 && s % 8 == 0),
        forall|s: int| #[trigger] in_bb(FILE_H, s) == (0 <= s < 64 && s % 8 == 7),
{
    assert forall|s: int| #[trigger] in_bb(FILE_A, s) == (0 <= s < 64 && s % 8 == 0) by {
        if 0 <= s < 64 {
            lemma_lines_at(0, s);
        }
    }
    assert forall|s: int| #[trigger] in_bb(FILE_H, s) == (0 <= s < 64 && s % 8 == 7) by {
        if 0 <= s < 64 {
            lemma_lines_at(0, s);
        }
    }
}

proof fn lemma_lines_at(k: int, s: int)
    requires
        0 <= k < 8,
        0 <= s < 64,
    ensures
        in_bb(FILE_A << (k as u64), s) == (s % 8 == k),
        in_bb(RANK_1 << ((8 * k) as u64), s) == (s / 8 == k),
        in_bb(FILE_A, s) == (s % 8 == 0),
        in_bb(FILE_H, s) == (s % 8 == 7),
{
    let i = k as u64;
    let t = s as u64;
    assert((((0x0101_0101_0101_0101u64 << i) & (1u64 << t) != 0) == (t % 8 == i)) && (((0xffu64 << ((
        8 * i) as u64)) & (1u64 << t) != 0) == (t / 8 == i)) && ((0x0101_0101_0101_0101u64 & (1u64
        << t) != 0) == (t % 8 == 0)) && ((0x8080_8080_8080_8080u64 & (1u64 << t) != 0) == (t % 8
        == 7))) by (bit_vector)
        requires
            i < 8,
            t < 64,
    ;
}

} // verus!
