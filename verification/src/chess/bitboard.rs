//! A set of squares, held as a 64-bit word.

use crate::arithmetic::{bit, bit_at, count_below, lemma_bit_ops, popcount};
use crate::chess::coords::Square;
use vstd::prelude::*;
use vstd::std_specs::bits::{axiom_u64_trailing_zeros, u64_trailing_zeros};

verus! {

/// A set of squares: bit `i` is set exactly when square `i` is in the set.
#[derive(Clone, Copy, Debug, PartialEq, Eq, Structural)]
pub struct Bitboard {
    pub bits: u64,
}

impl View for Bitboard {
    type V = Set<int>;

    /// The indices of the squares in the set.
    open spec fn view(&self) -> Set<int> {
        Set::new(|s: int| self.has(s))
    }
}

impl Bitboard {
    /// Whether the square with index `s` is in the set.
    #[verifier::inline]
    pub open spec fn has(self, s: int) -> bool {
        bit_at(self.bits, s)
    }

    /// Number of squares in the set.
    pub open spec fn size(self) -> nat {
        popcount(self.bits)
    }

    /// The set with the given bits.
    pub fn new(bits: u64) -> (r: Self)
        ensures
            r.bits == bits,
    {
        Self { bits }
    }

    /// The empty set.
    pub fn empty() -> (r: Self)
        ensures
            r.bits == 0,
            forall|s: int| !r.has(s),
    {
        proof {
            lemma_bit_ops();
        }
        Self { bits: 0 }
    }

    /// The set that holds one square.
    pub fn from_square(sq: Square) -> (r: Self)
        requires
            sq.on_board(),
        ensures
            r.bits == 1u64 << (sq.index as u64),
            forall|s: int| r.has(s) == (s == sq.index),
    {
        proof {
            lemma_bit_ops();
        }
        Self { bits: 1u64 << (sq.index as u64) }
    }

    /// The set as a word of 64 bits.
    pub fn bits(&self) -> (r: u64)
        ensures
            r == self.bits,
    {
        self.bits
    }

    /// Number of squares in the set.
    pub fn count(&self) -> (r: u32)
        ensures
            r == self.size(),
            r <= 64,
    {
        proof {
            crate::arithmetic::lemma_count_below_bounds(self.bits, 0, 64);
        }
        self.bits.count_ones()
    }

    /// Whether the set has no square.
    pub fn is_empty(&self) -> (r: bool)
        ensures
            r == (self.bits == 0),
            r == (forall|s: int| !self.has(s)),
    {
        proof {
            lemma_bit_ops();
            if self.bits != 0 {
                axiom_u64_trailing_zeros(self.bits);
                assert(self.has(u64_trailing_zeros(self.bits) as int));
            }
        }
        self.bits == 0
    }

    /// Whether the square is in the set.
    pub fn sq_set(&self, sq: Square) -> (r: bool)
        requires
            sq.on_board(),
        ensures
            r == self.has(sq.index as int),
    {
        (self.bits >> (sq.index as u64)) & 1 == 1
    }

    /// The squares that are in both sets.
    pub fn and(self, rhs: Bitboard) -> (r: Bitboard)
        ensures
            r.bits == self.bits & rhs.bits,
            forall|s: int| r.has(s) == (self.has(s) && rhs.has(s)),
    {
        proof {
            lemma_bit_ops();
        }
        Self { bits: self.bits & rhs.bits }
    }

    /// The squares that are in either set.
    pub fn or(self, rhs: Bitboard) -> (r: Bitboard)
        ensures
            r.bits == self.bits | rhs.bits,
            forall|s: int| r.has(s) == (self.has(s) || rhs.has(s)),
    {
        proof {
            lemma_bit_ops();
        }
        Self { bits: self.bits | rhs.bits }
    }

    /// The squares of the board that are not in the set.
    pub fn not(self) -> (r: Bitboard)
        ensures
            r.bits == !self.bits,
            forall|s: int| 0 <= s < 64 ==> r.has(s) == !self.has(s),
    {
        proof {
            lemma_bit_ops();
        }
        Self { bits: !self.bits }
    }

    /// The square of the set with the least index.
    pub fn first(&self) -> (sq: Square)
        requires
            self.bits != 0,
        ensures
            sq.on_board(),
            self.has(sq.index as int),
            forall|s: int| 0 <= s < sq.index ==> !self.has(s),
            count_below(self.bits, sq.index as nat) == 0,
    {
        proof {
            axiom_u64_trailing_zeros(self.bits);
            let t = u64_trailing_zeros(self.bits);
            assert forall|s: int| 0 <= s < t implies !self.has(s) by {
                assert((self.bits >> (s as u64)) & 1u64 == 0u64);
            }
            lemma_count_zero_below(self.bits, t as nat);
        }
        Square { index: self.bits.trailing_zeros() }
    }
}

impl Bitboard {
    /// The squares of the set, in the order of their indices.
    pub fn squares(&self) -> (r: Vec<Square>)
        ensures
            r@.len() == self.size(),
            forall|k: int|
                0 <= k < r@.len() ==> self.has((#[trigger] r@[k]).index as int) && count_below(
                    self.bits,
                    r@[k].index as nat,
                ) == k,
    {
        let mut r: Vec<Square> = Vec::new();
        let mut s: u32 = 0;
        while s < 64
            invariant
                s <= 64,
                r@.len() == count_below(self.bits, s as nat),
                forall|k: int|
                    0 <= k < r@.len() ==> self.has((#[trigger] r@[k]).index as int) && count_below(
                        self.bits,
                        r@[k].index as nat,
                    ) == k,
            decreases 64 - s,
        {
            if (self.bits >> (s as u64)) & 1 == 1 {
                r.push(Square { index: s });
            }
            s = s + 1;
        }
        r
    }
}

impl core::ops::BitAnd for Bitboard {
    type Output = Bitboard;

    fn bitand(self, rhs: Bitboard) -> (r: Bitboard) {
        self.and(rhs)
    }
}

impl vstd::std_specs::ops::BitAndSpecImpl for Bitboard {
    open spec fn obeys_bitand_spec() -> bool {
        true
    }

    open spec fn bitand_req(self, rhs: Bitboard) -> bool {
        true
    }

    open spec fn bitand_spec(self, rhs: Bitboard) -> Bitboard {
        Bitboard { bits: self.bits & rhs.bits }
    }
}

impl core::ops::BitOr for Bitboard {
    type Output = Bitboard;

    fn bitor(self, rhs: Bitboard) -> (r: Bitboard) {
        self.or(rhs)
    }
}

impl vstd::std_specs::ops::BitOrSpecImpl for Bitboard {
    open spec fn obeys_bitor_spec() -> bool {
        true
    }

    open spec fn bitor_req(self, rhs: Bitboard) -> bool {
        true
    }

    open spec fn bitor_spec(self, rhs: Bitboard) -> Bitboard {
        Bitboard { bits: self.bits | rhs.bits }
    }
}

impl core::ops::Not for Bitboard {
    type Output = Bitboard;

    fn not(self) -> (r: Bitboard) {
        Bitboard { bits: !self.bits }
    }
}

impl vstd::std_specs::ops::NotSpecImpl for Bitboard {
    open spec fn obeys_not_spec() -> bool {
        true
    }

    open spec fn not_req(self) -> bool {
        true
    }

    open spec fn not_spec(self) -> Bitboard {
        Bitboard { bits: !self.bits }
    }
}

impl core::ops::BitOrAssign for Bitboard {
    fn bitor_assign(&mut self, rhs: Bitboard)
        ensures
            final(self).bits == old(self).bits | rhs.bits,
    {
        self.bits = self.bits | rhs.bits;
    }
}

/// No set bit below `k` means that none is counted below `k`.
pub proof fn lemma_count_zero_below(v: u64, k: nat)
    requires
        k <= 64,
        forall|s: int| 0 <= s < k ==> !#[trigger] bit(v, s as u64),
    ensures
        count_below(v, k) == 0,
    decreases k,
{
    if k > 0 {
        lemma_count_zero_below(v, (k - 1) as nat);
    }
}

} // verus!
