//! The model of a stream of bits that is packed into bytes, the first bit
//! of the stream in the most significant bit of the first byte.

use crate::arithmetic::bit;
use crate::chess::castling_rights::{lemma_byte_bits, lemma_byte_extensional};
use vstd::prelude::*;

verus! {

/// Whether bit `i` of the byte `b` is set; no bit is set outside the byte.
pub open spec fn bit8(b: u8, i: int) -> bool {
    0 <= i < 8 && bit(b as u64, i as u64)
}

/// The bit with number `p` of the stream that the bytes hold.
pub open spec fn stream_bit(bytes: Seq<u8>, p: int) -> bool {
    bit8(bytes[p / 8], 7 - p % 8)
}

/// The low `n` bits of `v` as a piece of a stream, the highest of them
/// first.
pub open spec fn value_bits(v: u8, n: int) -> Seq<bool> {
    Seq::new(n as nat, |j: int| bit8(v, n - 1 - j))
}

/// The number that the `n` bits of the stream from bit `p` on stand for,
/// the first of them being the highest.
pub open spec fn bits_value(bytes: Seq<u8>, p: int, n: int) -> int
    decreases n,
{
    if n <= 0 {
        0
    } else {
        2 * bits_value(bytes, p, n - 1) + if stream_bit(bytes, p + n - 1) {
            1int
        } else {
            0int
        }
    }
}

/// Whether the stream holds the bits `bits` from bit `p` on.
pub open spec fn holds_at(bytes: Seq<u8>, p: int, bits: Seq<bool>) -> bool {
    &&& 0 <= p
    &&& p + bits.len() <= 8 * bytes.len()
    &&& forall|j: int| 0 <= j < bits.len() ==> #[trigger] stream_bit(bytes, p + j) == bits[j]
}

/// The byte whose low `n` bits are those of `v` and whose other bits are
/// zero.
pub open spec fn low_bits(v: u8, n: int) -> u8 {
    v & (0xFFu8 >> ((8 - n) as u8))
}

/// How single bits of a byte move when the byte is shifted.
pub proof fn lemma_byte_shifts(v: u8, s: u8)
    by (bit_vector)
    requires
        s < 8,
    ensures
        forall|i: u64| i < 8 ==> #[trigger] bit((v << s) as u64, i) == (i >= s
            && bit(v as u64, (i - s) as u64)),
        forall|i: u64| i < 8 ==> #[trigger] bit((v >> s) as u64, i) == (i + s < 8
            && bit(v as u64, (i + s) as u64)),
        v == 2 * (v >> 1u8) + (if bit(v as u64, 0) { 1u8 } else { 0u8 }),
{
}

/// The bits of a byte of which only the low `n` bits are kept.
pub proof fn lemma_low_bits(v: u8, n: u8)
    by (bit_vector)
    requires
        1 <= n <= 8,
    ensures
        forall|i: u64| i < 8 ==> #[trigger] bit((v & (0xFFu8 >> ((8 - n) as u8))) as u64, i)
            == (i < n && bit(v as u64, i)),
{
}

/// A byte whose low `n` bits are the `n` bits of the stream from bit `p`
/// on, and whose other bits are zero, is the number that those bits stand
/// for.
pub proof fn lemma_value_from_bits(bytes: Seq<u8>, p: int, n: int, r: u8)
    requires
        0 <= n <= 8,
        forall|i: int| 0 <= i < n ==> #[trigger] bit8(r, i) == stream_bit(bytes, p + n - 1 - i),
        forall|i: int| n <= i < 8 ==> !#[trigger] bit8(r, i),
    ensures
        r == bits_value(bytes, p, n),
    decreases n,
{
    lemma_byte_bits();
    if n == 0 {
        assert forall|k: u64| k < 8 implies #[trigger] bit(r as u64, k) == bit(0u8 as u64, k) by {
            assert(!bit8(r, k as int));
        }
        lemma_byte_extensional(r, 0);
    } else {
        let h: u8 = r >> 1u8;
        lemma_byte_shifts(r, 1);
        assert forall|i: int| 0 <= i < n - 1 implies #[trigger] bit8(h, i) == stream_bit(bytes, p
            + (n - 1) - 1 - i) by {
            assert(bit((r >> 1u8) as u64, i as u64) == bit(r as u64, (i + 1) as u64));
            assert(bit8(r, i + 1) == stream_bit(bytes, p + n - 1 - (i + 1)));
        }
        assert forall|i: int| n - 1 <= i < 8 implies !#[trigger] bit8(h, i) by {
            assert(bit((r >> 1u8) as u64, i as u64) == (i + 1 < 8 && bit(r as u64, (i + 1) as u64)));
            if i + 1 < 8 {
                assert(!bit8(r, i + 1));
            }
        }
        lemma_value_from_bits(bytes, p, n - 1, h);
        assert(bit8(r, 0) == stream_bit(bytes, p + n - 1));
    }
}

/// Reading back what was written: where the stream holds the low `n` bits
/// of `v`, the number that these bits stand for is `v` without its other
/// bits.
pub proof fn lemma_read_back(bytes: Seq<u8>, p: int, v: u8, n: int)
    requires
        1 <= n <= 8,
        holds_at(bytes, p, value_bits(v, n)),
    ensures
        bits_value(bytes, p, n) == low_bits(v, n),
{
    let r = low_bits(v, n);
    lemma_low_bits(v, n as u8);
    assert forall|i: int| 0 <= i < n implies #[trigger] bit8(r, i) == stream_bit(bytes, p + n - 1 - i) by {
        assert(stream_bit(bytes, p + (n - 1 - i)) == value_bits(v, n)[n - 1 - i]);
        assert(bit(r as u64, i as u64) == bit(v as u64, i as u64));
    }
    assert forall|i: int| n <= i < 8 implies !#[trigger] bit8(r, i) by {
        assert(bit(r as u64, i as u64) == (i < n && bit(v as u64, i as u64)));
    }
    lemma_value_from_bits(bytes, p, n, r);
}

/// The mask of the low `b` bits of a 16-bit number, for `b` from 1 to 15.
pub open spec fn vle_mask(b: u8) -> u16 {
    0xFFFFu16 >> ((16 - b) as u8)
}

/// One block of a number in variable-length form: its low `b` bits, and
/// above them one bit that says whether more blocks follow.
pub open spec fn vle_block(v: u16, b: u8) -> u8 {
    ((v & vle_mask(b)) as u8) | (if v > vle_mask(b) {
        1u8 << b
    } else {
        0u8
    })
}

/// A number in variable-length form with blocks of `b` bits: its blocks of
/// `b + 1` bits each, the lowest `b` bits of the number first, until
/// nothing but zero is left of it.
pub open spec fn vle_bits(v: u16, b: u8) -> Seq<bool>
    decreases v,
{
    let rest = v >> b;
    if 1 <= b <= 7 && rest != 0 {
        proof {
            assert(1 <= b <= 7 && (v >> b) != 0 ==> (v >> b) < v) by (bit_vector);
        }
        value_bits(vle_block(v, b), b + 1) + vle_bits(rest, b)
    } else {
        value_bits(vle_block(v, b), b + 1)
    }
}

/// What reading a number in variable-length form from bit `p` on gives,
/// when `acc` has been put together from the blocks before and the next
/// block goes `offset` bits up: the number and the place after it; or
/// nothing, where the stream ends within a block, or where a block asks for
/// more after sixteen bits.
pub open spec fn vle_read(bytes: Seq<u8>, p: int, b: u8, acc: u16, offset: u8) -> Option<(u16, int)>
    decreases 16 - offset,
{
    if !(1 <= b <= 7) || offset >= 16 || p + b + 1 > 8 * bytes.len() {
        None
    } else {
        let block = bits_value(bytes, p, b + 1) as u16;
        let v = acc | ((block & vle_mask(b)) << offset);
        if (block >> b) == 0 {
            Some((v, p + b + 1))
        } else if offset + b >= 16 {
            None
        } else {
            vle_read(bytes, p + b + 1, b, v, (offset + b) as u8)
        }
    }
}

/// The place at which reading a number in variable-length form from bit
/// `p` on stops, whether it gives a number or not: after the last block
/// that the stream holds whole and that was asked for.
pub open spec fn vle_stop(bytes: Seq<u8>, p: int, b: u8, offset: u8) -> int
    decreases 16 - offset,
{
    if !(1 <= b <= 7) || offset >= 16 || p + b + 1 > 8 * bytes.len() {
        p
    } else if (bits_value(bytes, p, b + 1) as u16 >> b) == 0 || offset + b >= 16 {
        p + b + 1
    } else {
        vle_stop(bytes, p + b + 1, b, (offset + b) as u8)
    }
}

/// A stream that holds two pieces one after the other holds each of them.
pub proof fn lemma_holds_at_split(bytes: Seq<u8>, p: int, a: Seq<bool>, c: Seq<bool>)
    requires
        holds_at(bytes, p, a + c),
    ensures
        holds_at(bytes, p, a),
        holds_at(bytes, p + a.len(), c),
{
    assert forall|j: int| 0 <= j < a.len() implies #[trigger] stream_bit(bytes, p + j) == a[j] by {
        assert((a + c)[j] == a[j]);
    }
    assert forall|j: int| 0 <= j < c.len() implies #[trigger] stream_bit(bytes, p + a.len() + j)
        == c[j] by {
        assert((a + c)[a.len() + j] == c[j]);
        assert(stream_bit(bytes, p + (a.len() + j)) == (a + c)[a.len() + j]);
    }
}

/// What one block of the variable-length form carries, and how the blocks
/// go together again.
pub proof fn lemma_vle_step(v: u16, b: u8, acc: u16, offset: u8)
    by (bit_vector)
    requires
        1 <= b <= 7,
        offset < 16,
        (v << offset) >> offset == v,
    ensures
        (vle_block(v, b) & (0xFFu8 >> ((8 - (b + 1)) as u8))) == vle_block(v, b),
        ((vle_block(v, b) as u16) & vle_mask(b)) == (v & vle_mask(b)),
        (((vle_block(v, b) as u16) >> b) == 0) == ((v >> b) == 0),
        (v > vle_mask(b)) == ((v >> b) != 0),
        (v >> b) == 0 ==> (acc | ((v & vle_mask(b)) << offset)) == (acc | (v << offset)),
        (v >> b) != 0 ==> offset + b < 16,
        (v >> b) != 0 ==> (((v >> b) << ((offset + b) as u8)) >> ((offset + b) as u8)) == (v >> b),
        (v >> b) != 0 ==> ((acc | ((v & vle_mask(b)) << offset)) | ((v >> b) << ((offset
            + b) as u8))) == (acc
            | (v << offset)),
{
}

/// Reading back a number that was written in variable-length form gives the
/// number and the place after its last block.
pub proof fn lemma_vle_read_back(bytes: Seq<u8>, p: int, v: u16, b: u8, acc: u16, offset: u8)
    requires
        1 <= b <= 7,
        offset < 16,
        (v << offset) >> offset == v,
        holds_at(bytes, p, vle_bits(v, b)),
    ensures
        vle_read(bytes, p, b, acc, offset) == Some((acc | (v << offset), p + vle_bits(v, b).len())),
    decreases v,
{
    lemma_vle_step(v, b, acc, offset);
    let block = vle_block(v, b);
    let rest = v >> b;
    let head = value_bits(block, b + 1);
    if rest != 0 {
        assert(rest < v) by (bit_vector)
            requires
                1 <= b <= 7,
                rest == v >> b,
                rest != 0,
        ;
        lemma_holds_at_split(bytes, p, head, vle_bits(rest, b));
        lemma_read_back(bytes, p, block, b + 1);
        lemma_vle_read_back(bytes, p + b
            + 1, rest, b, acc | ((v & vle_mask(b)) << offset), (offset + b) as u8);
    } else {
        lemma_read_back(bytes, p, block, b + 1);
    }
}

} // verus!
