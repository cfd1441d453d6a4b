//! Sets of squares held in one 64-bit word.

use vstd::prelude::*;
use crate::bits::{
    bit, in_bb, lemma_in_bit, lemma_in_not, lemma_in_ops, lemma_in_shift, lemma_lowest,
};
use crate::piece::{Color, Slider};
use crate::square::{rank_of, Square};

verus! {

/// A set of squares: bit `i` is set when square `i` is a member.
#[derive(Debug, Clone, Copy, Eq, PartialEq, Structural, Hash)]
pub struct BitBoard(pub u64);

/// The members of `b` from square `k` upward, in ascending order.
pub open spec fn members_from(b: u64, k: int) -> Seq<Square>
    decreases 64 - k,
{
    if k >= 64 || k < 0 {
        Seq::empty()
    } else if in_bb(b, k) {
        seq![Square::of(k)] + members_from(b, k + 1)
    } else {
        members_from(b, k + 1)
    }
}

/// The members of `b` in ascending order.
pub open spec fn members(b: u64) -> Seq<Square> {
    members_from(b, 0)
}

/// How many members `b` has below square `n`.
pub open spec fn count_below(b: u64, n: int) -> nat
    decreases n,
{
    if n <= 0 {
        0
    } else {
        count_below(b, n - 1) + (if in_bb(b, n - 1) {
            1nat
        } else {
            0nat
        })
    }
}

/// How many members `b` has.
pub open spec fn popcount(b: u64) -> nat {
    count_below(b, 64)
}

/// What a shift by `bits` yields: a shift by the whole width leaves the word as it is.
pub open spec fn shl_spec(v: u64, bits: u8) -> u64 {
    if bits < 64 {
        v << (bits as u64)
    } else {
        v
    }
}

/// What a shift by `bits` yields: a shift by the whole width leaves the word as it is.
pub open spec fn shr_spec(v: u64, bits: u8) -> u64 {
    if bits < 64 {
        v >> (bits as u64)
    } else {
        v
    }
}

/// With no member between `k` and `t`, listing from `k` is listing from `t`.
proof fn lemma_members_skip(b: u64, k: int, t: int)
    requires
        0 <= k <= t <= 64,
        forall|s: int| k <= s < t ==> !#[trigger] in_bb(b, s),
    ensures
        members_from(b, k) == members_from(b, t),
    decreases t - k,
{
    if k < t {
        lemma_members_skip(b, k + 1, t);
    }
}

impl BitBoard {
    /// The set without members.
    pub fn empty() -> (r: Self)
        ensures
            r.0 == 0,
    {
        Self(0)
    }

    /// The set of all 64 squares.
    pub fn full() -> (r: Self)
        ensures
            r.0 == u64::MAX,
    {
        Self(u64::MAX)
    }

    /// Whether the set has no member.
    pub fn is_empty(self) -> (r: bool)
        ensures
            r == (self.0 == 0),
    {
        self.0 == 0
    }

    /// The members of either set.
    pub fn union(self, rhs: Self) -> (r: Self)
        ensures
            r.0 == self.0 | rhs.0,
            forall|s: int| #[trigger] in_bb(r.0, s) == (in_bb(self.0, s) || in_bb(rhs.0, s)),
    {
        proof {
            lemma_in_ops(self.0, rhs.0);
        }
        Self(self.0 | rhs.0)
    }

    /// The members of both sets.
    pub fn intersect(self, rhs: Self) -> (r: Self)
        ensures
            r.0 == self.0 & rhs.0,
            forall|s: int| #[trigger] in_bb(r.0, s) == (in_bb(self.0, s) && in_bb(rhs.0, s)),
    {
        proof {
            lemma_in_ops(self.0, rhs.0);
        }
        Self(self.0 & rhs.0)
    }

    /// The members of this set that are not in `rhs`.
    pub fn minus(self, rhs: Self) -> (r: Self)
        ensures
            r.0 == self.0 & !rhs.0,
            forall|s: int| #[trigger] in_bb(r.0, s) == (in_bb(self.0, s) && !in_bb(rhs.0, s)),
    {
        proof {
            lemma_in_ops(self.0, rhs.0);
        }
        Self(self.0 & !rhs.0)
    }

    /// The squares that are not members.
    pub fn complement(self) -> (r: Self)
        ensures
            r.0 == !self.0,
            forall|s: int| 0 <= s < 64 ==> #[trigger] in_bb(r.0, s) == !in_bb(self.0, s),
    {
        proof {
            lemma_in_not(self.0);
        }
        Self(!self.0)
    }

    /// Whether `sq` is a member.
    pub fn has_square(self, sq: Square) -> (r: bool)
        ensures
            r == in_bb(self.0, sq.idx()),
    {
        (self.0 & (1u64 << (sq.to_index() as u64))) != 0
    }

    /// `v` shifted left by `bits`: every member moves `bits` squares up the numbering.
    pub fn lshifted(v: Self, bits: u8) -> (r: Self)
        requires
            bits < 64,
        ensures
            r.0 == v.0 << (bits as u64),
            forall|s: int| #[trigger] in_bb(r.0, s) == (0 <= s < 64 && s >= bits && in_bb(v.0, s - bits)),
    {
        proof {
            lemma_in_shift(v.0, bits as int);
        }
        Self(v.0 << (bits as u64))
    }

    /// The members on the rank with the one-based number `idx`.
    pub fn get_rank(&self, idx: u8) -> (r: Self)
        requires
            1 <= idx <= 8,
        ensures
            forall|s: int| #[trigger] in_bb(r.0, s) == (in_bb(self.0, s) && rank_of(s) == idx - 1),
    {
        let mask: u64 = crate::bits::RANK_1 << ((8 * (idx - 1)) as u64);
        proof {
            lemma_in_ops(self.0, mask);
            crate::bits::lemma_lines((idx - 1) as int);
        }
        Self(self.0 & mask)
    }

    /// Every member moved `ranks` ranks toward rank 8; those that leave the board are dropped.
    pub fn shifted_up(&self, ranks: u8) -> (r: Self)
        requires
            ranks < 8,
        ensures
            r.0 == self.0 << ((ranks * 8) as u64),
            forall|s: int| #[trigger]
                in_bb(r.0, s) == (0 <= s < 64 && s >= 8 * ranks && in_bb(self.0, s - 8 * ranks)),
    {
        proof {
            lemma_in_shift(self.0, (ranks * 8) as int);
        }
        Self(self.0 << ((ranks * 8) as u64))
    }

    /// Whether the set has exactly one member.
    pub fn is_single(&self) -> (r: bool)
        ensures
            r == (exists|s: int| 0 <= s < 64 && self.0 == bit(s)),
    {
        let x: u64 = self.0;
        if x == 0 {
            proof {
                assert forall|s: int| 0 <= s < 64 implies self.0 != bit(s) by {
                    lemma_in_bit(s);
                }
            }
            return false;
        }
        let r: bool = x & (x - 1) == 0;
        proof {
            lemma_lowest(x);
            let t = vstd::std_specs::bits::u64_trailing_zeros(x) as u64;
            if r {
                assert(x == 1u64 << t) by (bit_vector)
                    requires
                        x & ((x - 1) as u64) == 0,
                        x & (1u64 << t) != 0,
                        t < 64,
                        x != 0,
                ;
                assert(self.0 == bit(t as int));
            } else {
                assert forall|s: int| 0 <= s < 64 implies self.0 != bit(s) by {
                    let i = s as u64;
                    assert(x != 1u64 << i) by (bit_vector)
                        requires
                            x & ((x - 1) as u64) != 0,
                            x != 0,
                            i < 64,
                    ;
                }
            }
        }
        r
    }

    /// The lowest member of a set that is not empty.
    pub fn lowest(self) -> (r: Square)
        requires
            self.0 != 0,
        ensures
            in_bb(self.0, r.idx()),
            forall|s: int| 0 <= s < r.idx() ==> !#[trigger] in_bb(self.0, s),
            r.idx() == vstd::std_specs::bits::u64_trailing_zeros(self.0),
    {
        proof {
            lemma_lowest(self.0);
        }
        Square::index(self.0.trailing_zeros() as usize)
    }

    /// How many members the set has.
    pub fn count(&self) -> (r: u32)
        ensures
            r == popcount(self.0),
            r <= 64,
    {
        let mut n: u32 = 0;
        let mut i: u32 = 0;
        while i < 64
            invariant
                i <= 64,
                n <= i,
                n == count_below(self.0, i as int),
            decreases 64 - i,
        {
            if (self.0 & (1u64 << (i as u64))) != 0 {
                n = n + 1;
            }
            i = i + 1;
        }
        n
    }

    /// The members in ascending order.
    pub fn active_squares(&self) -> (r: Vec<Square>)
        ensures
            r@ == members(self.0),
    {
        let mut list: Vec<Square> = Vec::new();
        let mut rest: u64 = self.0;
        let ghost mut k: int = 0;
        while rest != 0
            invariant
                0 <= k <= 64,
                list@ + members_from(self.0, k) == members(self.0),
                forall|s: int| k <= s < 64 ==> #[trigger] in_bb(self.0, s) == in_bb(rest, s),
                forall|s: int| 0 <= s < k ==> !#[trigger] in_bb(rest, s),
            decreases 64 - k,
        {
            let sq = BitBoard(rest).lowest();
            let e: u64 = 1u64 << (sq.to_index() as u64);
            proof {
                let t = sq.idx();
                Square::lemma_of_idx(sq);
                lemma_members_skip(self.0, k, t);
                lemma_in_ops(rest, e);
                lemma_in_bit(t);
                assert(seq![Square::of(t)] + members_from(self.0, t + 1) == members_from(self.0, t));
                assert((list@ + seq![sq]) + members_from(self.0, t + 1) =~= list@ + (seq![sq]
                    + members_from(self.0, t + 1)));
                k = t + 1;
            }
            list.push(sq);
            rest = rest ^ e;
        }
        proof {
            crate::bits::lemma_empty(rest);
            lemma_members_skip(self.0, k, 64);
            assert(list@ + Seq::<Square>::empty() =~= list@);
        }
        list
    }

    /// The set shifted left by `bits`; a shift by the whole width leaves it as it is.
    pub fn shl(self, bits: u8) -> (r: Self)
        requires
            bits <= 64,
        ensures
            r.0 == shl_spec(self.0, bits),
    {
        if bits >= 64 {
            return self;
        }
        Self(self.0 << (bits as u64))
    }

    /// The set shifted right by `bits`; a shift by the whole width leaves it as it is.
    pub fn shr(self, bits: u8) -> (r: Self)
        requires
            bits <= 64,
        ensures
            r.0 == shr_spec(self.0, bits),
    {
        if bits >= 64 {
            return self;
        }
        Self(self.0 >> (bits as u64))
    }

    /// The set shifted left, then right, by the distances of `s`. A slide along a
    /// file wraps from one edge file to the other: the caller masks the result.
    pub fn slide(self, s: &Slider) -> (r: Self)
        requires
            s.wf(),
        ensures
            r.0 == shr_spec(shl_spec(self.0, s.left), s.right),
    {
        self.shl(s.left).shr(s.right)
    }

    /// Every member moved one rank in the direction in which `color` advances.
    pub fn forward(self, color: Color) -> (r: Self)
        ensures
            forall|s: int| #[trigger]
                in_bb(r.0, s) == (0 <= s < 64 && 0 <= s - 8 * color.dir() < 64 && in_bb(self.0, 
                    s - 8 * color.dir(),
                )),
    {
        proof {
            lemma_in_shift(self.0, 8);
        }
        match color {
            Color::White => self.shl(8),
            Color::Black => self.shr(8),
        }
    }

    /// Every member moved one rank against the direction in which `color` advances.
    pub fn backward(self, color: Color) -> (r: Self)
        ensures
            forall|s: int| #[trigger]
                in_bb(r.0, s) == (0 <= s < 64 && 0 <= s + 8 * color.dir() < 64 && in_bb(self.0, 
                    s + 8 * color.dir(),
                )),
    {
        proof {
            lemma_in_shift(self.0, 8);
        }
        match color {
            Color::White => self.shr(8),
            Color::Black => self.shl(8),
        }
    }
}

} // verus!
