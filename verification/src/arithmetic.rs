//! Bit-level arithmetic shared by the codecs: bit membership, population
//! counts, bit selection, field widths and the zig-zag mapping.

use vstd::prelude::*;
use vstd::std_specs::bits::{axiom_u64_trailing_zeros, u64_trailing_zeros};

verus! {

/// Whether bit `i` of `v` is set.
pub open spec fn bit(v: u64, i: u64) -> bool {
    (v >> i) & 1u64 == 1u64
}

/// Whether bit `s` of `v` is set, for an index given as a mathematical
/// integer; no bit is set outside the word.
pub open spec fn bit_at(v: u64, s: int) -> bool {
    0 <= s < 64 && bit(v, s as u64)
}

/// Number of set bits of `v` whose index is below `k`.
pub open spec fn count_below(v: u64, k: nat) -> nat
    decreases k,
{
    if k == 0 {
        0
    } else {
        count_below(v, (k - 1) as nat) + if bit(v, (k - 1) as u64) {
            1nat
        } else {
            0nat
        }
    }
}

/// Number of set bits of `v`.
pub open spec fn popcount(v: u64) -> nat {
    count_below(v, 64)
}

/// How the bitwise operators act on single bits.
pub proof fn lemma_bit_ops()
    by (bit_vector)
    ensures
        forall|a: u64, b: u64, i: u64| i < 64 ==> #[trigger] bit(a | b, i) == (bit(a, i) || bit(b, i)),
        forall|a: u64, b: u64, i: u64| i < 64 ==> #[trigger] bit(a & b, i) == (bit(a, i) && bit(b, i)),
        forall|a: u64, b: u64, i: u64| i < 64 ==> #[trigger] bit(a ^ b, i) == (bit(a, i) != bit(b, i)),
        forall|a: u64, i: u64| i < 64 ==> #[trigger] bit(!a, i) == !bit(a, i),
        forall|i: u64| i < 64 ==> !#[trigger] bit(0u64, i),
        forall|i: u64, j: u64| i < 64 && j < 64 ==> #[trigger] bit(1u64 << j, i) == (i == j),
{
}

/// How shifts move single bits.
pub proof fn lemma_bit_shifts()
    by (bit_vector)
    ensures
        forall|a: u64, s: u64, i: u64| i < 64 && s < 64 ==> #[trigger] bit(a >> s, i) == (i
            + s < 64 && bit(a, (i + s) as u64)),
        forall|a: u64, s: u64, i: u64| i < 64 && s < 64 ==> #[trigger] bit(a << s, i) == (i >= s
            && bit(a, (i - s) as u64)),
{
}

/// Setting or toggling bit `j` changes that bit and no other.
pub proof fn lemma_bit_at_single(v: u64, j: u64)
    requires
        j < 64,
    ensures
        forall|s: int| #[trigger] bit_at(v | (1u64 << j), s) == (bit_at(v, s) || s == j),
        forall|s: int| #[trigger] bit_at(v ^ (1u64 << j), s) == (bit_at(v, s) != (s == j)),
        forall|s: int| #[trigger] bit_at(1u64 << j, s) == (s == j),
{
    lemma_bit_ops();
}

/// Two words with the same bits are equal.
pub proof fn lemma_bit_extensional(a: u64, b: u64)
    requires
        forall|i: u64| i < 64 ==> bit(a, i) == bit(b, i),
    ensures
        a == b,
{
    lemma_bit_ops();
    let x = a ^ b;
    if x != 0 {
        axiom_u64_trailing_zeros(x);
        let t = u64_trailing_zeros(x) as u64;
        assert(bit(x, t));
        assert(bit(a, t) != bit(b, t));
    }
    assert(a ^ b == 0 ==> a == b) by (bit_vector);
}

/// `count_below` never exceeds the bound and grows with it.
pub proof fn lemma_count_below_bounds(v: u64, j: nat, k: nat)
    requires
        j <= k,
    ensures
        count_below(v, j) <= count_below(v, k),
        count_below(v, k) <= k,
        count_below(v, k) - count_below(v, j) <= k - j,
    decreases k,
{
    if k > j {
        lemma_count_below_bounds(v, j, (k - 1) as nat);
    } else if k > 0 {
        lemma_count_below_bounds(v, (j - 1) as nat, (k - 1) as nat);
    }
}

/// The population count of a word, as `u64::count_ones` of the standard
/// library computes it: the number of ones in the binary representation.
pub assume_specification[ u64::count_ones ](v: u64) -> (r: u32)
    ensures
        r == popcount(v),
;

/// The bits of the masks that cut out the low half, quarter and eighth of a
/// word.
proof fn lemma_half_masks()
    by (bit_vector)
    ensures
        forall|i: u64| i < 64 ==> #[trigger] bit(0xFFFF_FFFFu64, i) == (i < 32),
        forall|i: u64| i < 64 ==> #[trigger] bit(0xFFFFu64, i) == (i < 16),
        forall|i: u64| i < 64 ==> #[trigger] bit(0xFFu64, i) == (i < 8),
{
}

/// A word that holds the bits of `v` from bit `s` on has as many set bits
/// below `k` as `v` has from `s` up to `s + k`.
proof fn lemma_count_shifted(v: u64, w: u64, s: nat, k: nat)
    requires
        s + k <= 64,
        forall|i: int| 0 <= i < 64 ==> #[trigger] bit_at(w, i) == bit_at(v, i + s),
    ensures
        count_below(w, k) == count_below(v, s + k) - count_below(v, s),
    decreases k,
{
    if k > 0 {
        lemma_count_shifted(v, w, s, (k - 1) as nat);
        assert(bit_at(w, k - 1) == bit_at(v, k - 1 + s));
    }
}

/// A word that is the low `h` bits of `v` has as many set bits as `v` has
/// below `h`.
proof fn lemma_count_low(v: u64, w: u64, h: nat, k: nat)
    requires
        h <= 64,
        k <= 64,
        forall|i: int| 0 <= i < 64 ==> #[trigger] bit_at(w, i) == (bit_at(v, i) && i < h),
    ensures
        count_below(w, k) == count_below(v, if k < h { k } else { h }),
    decreases k,
{
    if k > 0 {
        lemma_count_low(v, w, h, (k - 1) as nat);
        assert(bit_at(w, k - 1) == (bit_at(v, k - 1) && k - 1 < h));
    }
}

/// Where the `count`-th set bit of `value` lies, when it lies below bit
/// `2 * half`: in the upper half if the lower half has no more than `count`
/// set bits, and then it is the bit that many places lower in the upper
/// half.
fn descend(value: u64, count: u64, half: u32) -> (r: (u64, u64, u32))
    requires
        half == 32 || half == 16 || half == 8,
        count < count_below(value, (2 * half) as nat),
    ensures
        r.2 == 0 || r.2 == half,
        forall|i: int| 0 <= i < 64 ==> #[trigger] bit_at(r.0, i) == bit_at(value, i + r.2),
        r.1 == count - count_below(value, r.2 as nat),
        r.1 < count_below(r.0, half as nat),
{
    let mask: u64 = if half == 32 {
        0xFFFF_FFFF
    } else if half == 16 {
        0xFFFF
    } else {
        0xFF
    };
    let low: u64 = value & mask;
    let p: u64 = low.count_ones() as u64;
    proof {
        lemma_half_masks();
        lemma_bit_ops();
        lemma_bit_shifts();
        assert forall|i: int| 0 <= i < 64 implies #[trigger] bit_at(low, i) == (bit_at(value, i)
            && i < half) by {
            assert(bit(mask, i as u64) == (i < half));
        }
        lemma_count_low(value, low, half as nat, 64);
    }
    if p <= count {
        let upper: u64 = value >> (half as u64);
        proof {
            assert forall|i: int| 0 <= i < 64 implies #[trigger] bit_at(upper, i)
                == bit_at(value, i + half) by {}
            lemma_count_shifted(value, upper, half as nat, half as nat);
        }
        (upper, count - p, half)
    } else {
        (value, count, 0)
    }
}

/// Index of the `n`-th set bit of `v`, counting set bits from the least
/// significant one and starting at zero.
pub fn nth_set_bit_index(v: u64, n: u64) -> (r: u32)
    requires
        n < popcount(v),
    ensures
        r < 64,
        bit(v, r as u64),
        count_below(v, r as nat) == n,
{
    let (value32, count32, shift32) = descend(v, n, 32);
    let (value16, count16, shift16) = descend(value32, count32, 16);
    let (value8, count8, shift8) = descend(value16, count16, 8);
    let shift: u32 = shift32 + shift16 + shift8;
    proof {
        assert forall|i: int| 0 <= i < 64 implies #[trigger] bit_at(value8, i) == bit_at(v, i + shift) by {
            assert(bit_at(value8, i) == bit_at(value16, i + shift8));
            if i + shift8 < 64 {
                assert(bit_at(value16, i + shift8) == bit_at(value32, i + shift8 + shift16));
                if i + shift8 + shift16 < 64 {
                    assert(bit_at(value32, i + shift8 + shift16) == bit_at(v, i + shift8
                        + shift16 + shift32));
                }
            }
        }
        lemma_count_shifted(v, value32, shift32 as nat, shift16 as nat);
        lemma_count_shifted(v, value32, shift32 as nat, (shift16 + shift8) as nat);
        lemma_count_shifted(value32, value16, shift16 as nat, shift8 as nat);
        assert(count8 == n - count_below(v, shift as nat));
    }
    let low: u64 = value8 & 0xFF;
    proof {
        lemma_half_masks();
        lemma_bit_ops();
        assert forall|i: int| 0 <= i < 64 implies #[trigger] bit_at(low, i) == (bit_at(value8, i)
            && i < 8) by {
            assert(bit(0xFFu64, i as u64) == (i < 8));
        }
        lemma_count_low(value8, low, 8, 64);
    }
    let index: u32 = nth_set_bit_index_naive(low, count8);
    proof {
        assert(bit_at(low, index as int));
        lemma_count_low(value8, low, 8, index as nat);
        lemma_count_shifted(v, value8, shift as nat, index as nat);
    }
    shift + index
}

/// Index of the `n`-th set bit of `v`, found by going through the bits one
/// by one.
pub fn nth_set_bit_index_naive(v: u64, n: u64) -> (r: u32)
    requires
        n < popcount(v),
    ensures
        r < 64,
        bit(v, r as u64),
        count_below(v, r as nat) == n,
{
    let mut i: u32 = 0;
    let mut seen: u64 = 0;
    while i < 64
        invariant
            i <= 64,
            seen == count_below(v, i as nat),
            seen <= n,
            n < popcount(v),
        decreases 64 - i,
    {
        if (v >> (i as u64)) & 1 == 1 {
            if seen == n {
                return i;
            }
            seen = seen + 1;
        }
        i = i + 1;
    }
    proof {
        assert(false);
    }
    64
}

/// The `n`-th set bit is the only index with exactly `n` set bits below it
/// that is itself set.
pub proof fn lemma_nth_set_bit_unique(v: u64, i: u64, j: u64)
    requires
        i < 64,
        j < 64,
        bit(v, i),
        bit(v, j),
        count_below(v, i as nat) == count_below(v, j as nat),
    ensures
        i == j,
{
    if i < j {
        lemma_count_below_bounds(v, (i + 1) as nat, j as nat);
    } else if j < i {
        lemma_count_below_bounds(v, (j + 1) as nat, i as nat);
    }
}

/// Least number of bits in which `n` can be written: zero for zero, else the
/// position of the highest set bit plus one.
pub open spec fn used_bits_spec(n: nat) -> nat
    decreases n,
{
    if n == 0 {
        0
    } else {
        1 + used_bits_spec(n / 2)
    }
}

/// Two to the power `k`.
pub open spec fn pow2(k: nat) -> nat
    decreases k,
{
    if k == 0 {
        1
    } else {
        2 * pow2((k - 1) as nat)
    }
}

/// `used_bits_spec(n)` is the least width whose range holds `n`.
pub proof fn lemma_used_bits_range(n: nat)
    ensures
        n < pow2(used_bits_spec(n)),
        n > 0 ==> pow2((used_bits_spec(n) - 1) as nat) <= n,
    decreases n,
{
    if n > 0 {
        lemma_used_bits_range(n / 2);
    }
}

/// A value below `2^k` needs at most `k` bits.
pub proof fn lemma_used_bits_le(n: nat, k: nat)
    requires
        n < pow2(k),
    ensures
        used_bits_spec(n) <= k,
    decreases n,
{
    if n > 0 {
        lemma_used_bits_le(n / 2, (k - 1) as nat);
    }
}

/// Number of bits needed to write `n`.
pub fn used_bits(n: u64) -> (r: usize)
    ensures
        r == used_bits_spec(n as nat),
        r <= 64,
{
    let mut rest: u64 = n;
    let mut r: usize = 0;
    proof {
        assert(pow2(64) == 0x1_0000_0000_0000_0000) by {
            reveal_with_fuel(pow2, 65);
        }
        lemma_used_bits_le(n as nat, 64);
    }
    while rest != 0
        invariant
            r + used_bits_spec(rest as nat) == used_bits_spec(n as nat),
            used_bits_spec(n as nat) <= 64,
        decreases rest,
    {
        rest = rest / 2;
        r = r + 1;
    }
    r
}

/// The zig-zag image of a signed value: `0, -1, 1, -2, 2, ...` go to
/// `0, 1, 2, 3, 4, ...`.
pub open spec fn zigzag(x: int) -> int {
    if x >= 0 {
        2 * x
    } else {
        -2 * x - 1
    }
}

/// The inverse of `zigzag`.
pub open spec fn unzigzag(r: int) -> int {
    if r % 2 == 0 {
        r / 2
    } else {
        -((r + 1) / 2)
    }
}

/// Maps a signed 16-bit value to an unsigned one, keeping small magnitudes
/// small.
pub fn signed_to_unsigned(a: i16) -> (r: u16)
    ensures
        r == zigzag(a as int),
{
    let mut r: u16 = a as u16;
    if r & 0x8000 != 0 {
        r = r ^ 0x7FFF;
    }
    let res: u16 = (r << 1) | (r >> 15);
    proof {
        let r0: u16 = a as u16;
        let r1: u16 = if r0 & 0x8000 != 0 { r0 ^ 0x7FFF } else { r0 };
        assert(r == r1);
        assert(a >= 0 ==> ((r1 << 1) | (r1 >> 15)) == 2 * a) by (bit_vector)
            requires
                r0 == a as u16,
                r1 == if r0 & 0x8000 != 0 { r0 ^ 0x7FFF } else { r0 },
        ;
        assert(a < 0 ==> ((r1 << 1) | (r1 >> 15)) == -2 * a - 1) by (bit_vector)
            requires
                r0 == a as u16,
                r1 == if r0 & 0x8000 != 0 { r0 ^ 0x7FFF } else { r0 },
        ;
    }
    res
}

/// Maps an unsigned 16-bit value back to the signed value it stands for.
pub fn unsigned_to_signed(r: u16) -> (a: i16)
    ensures
        a == unzigzag(r as int),
{
    let mut v: u16 = (r << 15) | (r >> 1);
    if v & 0x8000 != 0 {
        v = v ^ 0x7FFF;
    }
    let a: i16 = v as i16;
    proof {
        let v0: u16 = (r << 15) | (r >> 1);
        let v1: u16 = if v0 & 0x8000 != 0 { v0 ^ 0x7FFF } else { v0 };
        assert(v == v1);
        assert(r % 2 == 0 ==> (v1 as i16) == r / 2) by (bit_vector)
            requires
                v0 == (r << 15) | (r >> 1),
                v1 == if v0 & 0x8000 != 0 { v0 ^ 0x7FFF } else { v0 },
        ;
        assert(r % 2 != 0 ==> (v1 as i16) == -((r + 1) / 2)) by (bit_vector)
            requires
                v0 == (r << 15) | (r >> 1),
                v1 == if v0 & 0x8000 != 0 { v0 ^ 0x7FFF } else { v0 },
        ;
    }
    a
}

/// Zig-zag decoding undoes zig-zag encoding, zero stays zero, and a larger
/// magnitude gets a larger code.
pub proof fn lemma_zigzag_laws(x: int, y: int)
    ensures
        unzigzag(zigzag(x)) == x,
        zigzag(0) == 0,
        zigzag(x) >= 0,
        vstd::math::abs(x) < vstd::math::abs(y) ==> zigzag(x) < zigzag(y),
        -0x8000 <= x < 0x8000 ==> zigzag(x) < 0x1_0000,
{
}

} // verus!
