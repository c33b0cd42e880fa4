//! Castling rights: which side may still castle to which wing.

use crate::arithmetic::{bit, lemma_bit_extensional, popcount};
use crate::chess::color::Color;
use vstd::prelude::*;

verus! {

/// The wing of a castling move.
#[derive(Clone, Copy, Debug, PartialEq, Eq, Structural)]
pub enum CastleType {
    Short,
    Long,
}

/// A set of castling rights as a mask of four bits: White's king side is 1,
/// White's queen side 2, Black's king side 4 and Black's queen side 8.
#[derive(Clone, Copy, Debug, PartialEq, Eq, Structural)]
pub struct CastlingRights(pub u8);

/// How single bits of a byte behave when it is widened, complemented or
/// combined with another byte.
pub proof fn lemma_byte_bits()
    by (bit_vector)
    ensures
        forall|a: u8, k: u64| 8 <= k < 64 ==> !#[trigger] bit(a as u64, k),
        forall|a: u8, k: u64| k < 8 ==> #[trigger] bit((!a) as u64, k) == !bit(a as u64, k),
        forall|a: u8, b: u8, k: u64| k < 8 ==> #[trigger] bit((a & b) as u64, k)
            == (bit(a as u64, k) && bit(b as u64, k)),
        forall|a: u8, b: u8, k: u64| k < 8 ==> #[trigger] bit((a | b) as u64, k)
            == (bit(a as u64, k) || bit(b as u64, k)),
        forall|k: u64| k < 8 ==> (#[trigger] bit(1u8 as u64, k) == (k == 0)),
        forall|k: u64| k < 8 ==> (#[trigger] bit(2u8 as u64, k) == (k == 1)),
        forall|k: u64| k < 8 ==> (#[trigger] bit(4u8 as u64, k) == (k == 2)),
        forall|k: u64| k < 8 ==> (#[trigger] bit(8u8 as u64, k) == (k == 3)),
        forall|k: u64| k < 8 ==> (#[trigger] bit(3u8 as u64, k) == (k < 2)),
        forall|k: u64| k < 8 ==> (#[trigger] bit(12u8 as u64, k) == (2 <= k < 4)),
        forall|k: u64| k < 8 ==> (#[trigger] bit(15u8 as u64, k) == (k < 4)),
        forall|k: u64| k < 8 ==> !(#[trigger] bit(0u8 as u64, k)),
{
}

/// Two bytes with the same bits are equal.
pub proof fn lemma_byte_extensional(a: u8, b: u8)
    requires
        forall|k: u64| k < 8 ==> #[trigger] bit(a as u64, k) == bit(b as u64, k),
    ensures
        a == b,
{
    lemma_byte_bits();
    lemma_bit_extensional(a as u64, b as u64);
}

impl CastlingRights {
    /// Whether the right with number `k` is in the set: 0 is White's king
    /// side, 1 White's queen side, 2 Black's king side, 3 Black's queen side.
    pub open spec fn has(self, k: int) -> bool {
        0 <= k < 8 && bit(self.0 as u64, k as u64)
    }

    /// Only the four rights that exist are in the set.
    pub open spec fn valid(self) -> bool {
        self.0 < 16
    }

    /// The number of the right of a side to a wing.
    pub open spec fn right_index(color: Color, castle_type: CastleType) -> int {
        match (color, castle_type) {
            (Color::White, CastleType::Short) => 0,
            (Color::White, CastleType::Long) => 1,
            (Color::Black, CastleType::Short) => 2,
            (Color::Black, CastleType::Long) => 3,
        }
    }

    /// No right at all.
    pub fn none() -> (r: Self)
        ensures
            r.0 == 0,
            forall|k: int| !r.has(k),
    {
        proof {
            lemma_byte_bits();
        }
        Self(0x0)
    }

    /// White's right to castle short.
    pub fn white_king_side() -> (r: Self)
        ensures
            r.0 == 1,
            forall|k: int| r.has(k) == (k == 0),
    {
        proof {
            lemma_byte_bits();
        }
        Self(0x1)
    }

    /// White's right to castle long.
    pub fn white_queen_side() -> (r: Self)
        ensures
            r.0 == 2,
            forall|k: int| r.has(k) == (k == 1),
    {
        proof {
            lemma_byte_bits();
        }
        Self(0x2)
    }

    /// Black's right to castle short.
    pub fn black_king_side() -> (r: Self)
        ensures
            r.0 == 4,
            forall|k: int| r.has(k) == (k == 2),
    {
        proof {
            lemma_byte_bits();
        }
        Self(0x4)
    }

    /// Black's right to castle long.
    pub fn black_queen_side() -> (r: Self)
        ensures
            r.0 == 8,
            forall|k: int| r.has(k) == (k == 3),
    {
        proof {
            lemma_byte_bits();
        }
        Self(0x8)
    }

    /// Both rights of White.
    pub fn white() -> (r: Self)
        ensures
            r.0 == 3,
            forall|k: int| r.has(k) == (0 <= k < 2),
    {
        proof {
            lemma_byte_bits();
        }
        Self(0x3)
    }

    /// Both rights of Black.
    pub fn black() -> (r: Self)
        ensures
            r.0 == 12,
            forall|k: int| r.has(k) == (2 <= k < 4),
    {
        proof {
            lemma_byte_bits();
        }
        Self(0xC)
    }

    /// All four rights.
    pub fn all() -> (r: Self)
        ensures
            r.0 == 15,
            forall|k: int| r.has(k) == (0 <= k < 4),
    {
        proof {
            lemma_byte_bits();
        }
        Self(0xF)
    }

    /// No right at all.
    pub fn empty() -> (r: Self)
        ensures
            r.0 == 0,
            forall|k: int| !r.has(k),
    {
        proof {
            lemma_byte_bits();
        }
        Self(0)
    }

    /// Whether every right of `other` is in this set.
    pub fn contains(&self, other: CastlingRights) -> (r: bool)
        ensures
            r == (forall|k: int| other.has(k) ==> self.has(k)),
    {
        proof {
            lemma_byte_bits();
            let m = self.0 & other.0;
            if forall|k: int| other.has(k) ==> self.has(k) {
                assert forall|k: u64| k < 8 implies #[trigger] bit(m as u64, k)
                    == bit(other.0 as u64, k) by {
                    assert(other.has(k as int) ==> self.has(k as int));
                }
                lemma_byte_extensional(m, other.0);
            }
            if m == other.0 {
                assert forall|k: int| other.has(k) implies self.has(k) by {
                    assert(bit(m as u64, k as u64));
                }
            }
        }
        (self.0 & other.0) == other.0
    }

    /// Number of rights in the set.
    pub fn count_ones(&self) -> (r: u32)
        ensures
            r == popcount(self.0 as u64),
    {
        (self.0 as u64).count_ones()
    }

    /// The rights that are in both sets.
    pub fn intersection(self, rhs: CastlingRights) -> (r: CastlingRights)
        ensures
            r.0 == self.0 & rhs.0,
            forall|k: int| r.has(k) == (self.has(k) && rhs.has(k)),
    {
        proof {
            lemma_byte_bits();
        }
        Self(self.0 & rhs.0)
    }

    /// Every right of the byte that is not in this set.
    pub fn complement(self) -> (r: CastlingRights)
        ensures
            r.0 == !self.0,
            forall|k: int| 0 <= k < 8 ==> r.has(k) == !self.has(k),
    {
        proof {
            lemma_byte_bits();
        }
        Self(!self.0)
    }

    /// Takes the rights of `rhs` out of this set.
    pub fn remove(&mut self, rhs: CastlingRights)
        ensures
            final(self).0 == old(self).0 & !rhs.0,
            forall|k: int| final(self).has(k) == (old(self).has(k) && !rhs.has(k)),
    {
        proof {
            lemma_byte_bits();
        }
        self.0 = self.0 & !rhs.0;
    }

    /// Puts the rights of `rhs` into this set.
    pub fn insert(&mut self, rhs: CastlingRights)
        ensures
            final(self).0 == old(self).0 | rhs.0,
            forall|k: int| final(self).has(k) == (old(self).has(k) || rhs.has(k)),
    {
        proof {
            lemma_byte_bits();
        }
        self.0 = self.0 | rhs.0;
    }
}

impl core::ops::BitAnd for CastlingRights {
    type Output = CastlingRights;

    fn bitand(self, rhs: CastlingRights) -> (r: CastlingRights) {
        self.intersection(rhs)
    }
}

impl vstd::std_specs::ops::BitAndSpecImpl for CastlingRights {
    open spec fn obeys_bitand_spec() -> bool {
        true
    }

    open spec fn bitand_req(self, rhs: CastlingRights) -> bool {
        true
    }

    open spec fn bitand_spec(self, rhs: CastlingRights) -> CastlingRights {
        CastlingRights(self.0 & rhs.0)
    }
}

impl core::ops::Not for CastlingRights {
    type Output = CastlingRights;

    fn not(self) -> (r: CastlingRights) {
        self.complement()
    }
}

impl vstd::std_specs::ops::NotSpecImpl for CastlingRights {
    open spec fn obeys_not_spec() -> bool {
        true
    }

    open spec fn not_req(self) -> bool {
        true
    }

    open spec fn not_spec(self) -> CastlingRights {
        CastlingRights(!self.0)
    }
}

impl core::ops::BitAndAssign for CastlingRights {
    fn bitand_assign(&mut self, rhs: CastlingRights)
        ensures
            final(self).0 == old(self).0 & rhs.0,
    {
        self.0 = self.0 & rhs.0;
    }
}

impl core::ops::BitOrAssign for CastlingRights {
    fn bitor_assign(&mut self, rhs: CastlingRights)
        ensures
            final(self).0 == old(self).0 | rhs.0,
    {
        self.0 = self.0 | rhs.0;
    }
}

/// The rights that belong to each side and wing.
pub struct CastlingTraits;

impl CastlingTraits {
    /// The right of `color` to castle to the wing `castle_type`.
    pub fn castling_rights(color: Color, castle_type: CastleType) -> (r: CastlingRights)
        ensures
            forall|k: int| r.has(k) == (k == CastlingRights::right_index(color, castle_type)),
            r.valid(),
    {
        match (color, castle_type) {
            (Color::White, CastleType::Short) => CastlingRights::white_king_side(),
            (Color::White, CastleType::Long) => CastlingRights::white_queen_side(),
            (Color::Black, CastleType::Short) => CastlingRights::black_king_side(),
            (Color::Black, CastleType::Long) => CastlingRights::black_queen_side(),
        }
    }
}

} // verus!
