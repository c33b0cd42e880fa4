//! A stream of bits that grows at its end.

use crate::bitstream::{
    bit8, holds_at, lemma_byte_shifts, lemma_holds_at_split, lemma_low_bits, low_bits, stream_bit,
    value_bits, vle_bits, vle_block, vle_mask,
};
use crate::chess::castling_rights::lemma_byte_bits;
use vstd::prelude::*;

verus! {

/// A stream of bits in bytes. The first bit written is the most
/// significant bit of the first byte; `bits_left` low bits of the last byte
/// are still free, and zero.
pub struct BitWriter {
    pub movetext: Vec<u8>,
    pub bits_left: usize,
}

impl View for BitWriter {
    type V = Seq<bool>;

    /// The bits written so far.
    open spec fn view(&self) -> Seq<bool> {
        Seq::new((8 * self.movetext@.len() - self.bits_left) as nat, |p: int| stream_bit(self.movetext@, p))
    }
}

impl BitWriter {
    /// The free bits are fewer than eight, lie in a byte that exists, and
    /// are zero.
    pub open spec fn wf(&self) -> bool {
        &&& self.bits_left < 8
        &&& self.bits_left > 0 ==> self.movetext@.len() > 0
        &&& forall|i: int|
            0 <= i < self.bits_left ==> !#[trigger] bit8(self.movetext@[self.movetext@.len() - 1], i)
    }

    /// The stream without any bit.
    pub fn new() -> (r: Self)
        ensures
            r.wf(),
            r@ == Seq::<bool>::empty(),
            r.movetext@.len() == 0,
    {
        let r = Self { movetext: Vec::new(), bits_left: 0 };
        proof {
            assert(r@ =~= Seq::<bool>::empty());
        }
        r
    }

    /// Appends the low `count` bits of `bits`, the highest of them first.
    pub fn add_bits_le8(&mut self, bits: u8, count: usize)
        requires
            old(self).wf(),
            count <= 8,
        ensures
            final(self).wf(),
            final(self)@ == old(self)@ + value_bits(bits, count as int),
    {
        if count == 0 {
            proof {
                assert(self@ =~= self@ + value_bits(bits, 0));
            }
            return ;
        }
        let n: u8 = count as u8;
        let v: u8 = bits & (0xFFu8 >> (8 - n));
        let ghost before = self.movetext@;
        let ghost left = self.bits_left as int;
        let ghost old_bits = self@;
        proof {
            lemma_low_bits(bits, n);
            lemma_byte_bits();
            assert(v == low_bits(bits, count as int));
        }
        if self.bits_left == 0 {
            let s: u8 = 8 - n;
            proof {
                lemma_byte_shifts(v, s);
            }
            self.movetext.push(v << s);
            self.bits_left = 8;
        } else if count <= self.bits_left {
            let s: u8 = (self.bits_left - count) as u8;
            let last: usize = self.movetext.len() - 1;
            proof {
                lemma_byte_shifts(v, s);
            }
            let merged: u8 = self.movetext[last] | (v << s);
            self.movetext.set(last, merged);
        } else {
            let spill: u8 = (count - self.bits_left) as u8;
            let last: usize = self.movetext.len() - 1;
            proof {
                lemma_byte_shifts(v, spill);
                lemma_byte_shifts(v, (8 - spill) as u8);
            }
            let merged: u8 = self.movetext[last] | (v >> spill);
            self.movetext.set(last, merged);
            self.movetext.push(v << (8 - spill));
            self.bits_left = self.bits_left + 8;
        }
        self.bits_left = self.bits_left - count;
        proof {
            let after = self.movetext@;
            let m = before.len() as int;
            let start = 8 * m - left;
            assert forall|p: int| 0 <= p < start implies stream_bit(after, p) == stream_bit(before, p) by {
                if p / 8 == m - 1 {
                    assert(bit8(before[m - 1], 7 - p % 8) == bit8(after[m - 1], 7 - p % 8));
                }
            }
            assert forall|p: int| start <= p < start + count
                implies #[trigger] stream_bit(after, p) == bit8(
                bits,
                count - 1 - (p - start),
            ) by {
                let j = p - start;
                let i = count - 1 - j;
                assert(bit8(v, i) == bit8(bits, i));
                if left > 0 && j < left {
                    assert(p / 8 == m - 1);
                    assert(!bit8(before[m - 1], 7 - p % 8));
                } else {
                    assert(p / 8 == m);
                }
            }
            assert(self@ =~= old_bits + value_bits(bits, count as int));
            assert forall|i: int| 0 <= i < self.bits_left
                implies !#[trigger] bit8(after[after.len() - 1], i) by {
                if left > 0 && count <= left {
                    assert(!bit8(before[m - 1], i));
                }
            }
        }
    }

    /// Appends a number in variable-length form with blocks of
    /// `block_size` bits: block after block of `block_size + 1` bits, the
    /// low bits of the number first, each block with a leading bit that
    /// says whether another follows.
    pub fn add_bits_vle16(&mut self, v: u16, block_size: usize)
        requires
            old(self).wf(),
            1 <= block_size <= 7,
        ensures
            final(self).wf(),
            final(self)@ == old(self)@ + vle_bits(v, block_size as u8),
    {
        let b: u8 = block_size as u8;
        let mask: u16 = 0xFFFFu16 >> (16 - b);
        let mut rest: u16 = v;
        let mut done: bool = false;
        proof {
            assert(self@ + vle_bits(v, b) =~= old(self)@ + vle_bits(v, b));
        }
        while !done
            invariant
                self.wf(),
                1 <= b <= 7,
                b == block_size,
                mask == vle_mask(b),
                !done ==> self@ + vle_bits(rest, b) == old(self)@ + vle_bits(v, b),
                done ==> self@ == old(self)@ + vle_bits(v, b),
            decreases (if done { 0int } else { 1int }) + rest,
        {
            let more: u8 = if rest > mask {
                1u8 << b
            } else {
                0u8
            };
            let block: u8 = ((rest & mask) as u8) | more;
            let ghost before = self@;
            let ghost current = rest;
            proof {
                assert(b <= 7 && mask == 0xFFFFu16 >> ((16 - b) as u8)
                    ==> (rest & mask) < 256) by (bit_vector);
                assert(1 <= b <= 7 && (rest >> b) != 0 ==> (rest >> b) < rest) by (bit_vector);
                assert(block == vle_block(rest, b));
            }
            self.add_bits_le8(block, block_size + 1);
            rest = rest >> b;
            if rest == 0 {
                done = true;
            }
            proof {
                if done {
                    assert(self@ =~= old(self)@ + vle_bits(v, b)) by {
                        assert(vle_bits(current, b) == value_bits(block, b + 1));
                    }
                } else {
                    assert(vle_bits(current, b) == value_bits(block, b + 1) + vle_bits(rest, b));
                    assert(self@ + vle_bits(rest, b) =~= before + (value_bits(block, b + 1)
                        + vle_bits(rest, b)));
                }
            }
        }
    }
}

/// What has been written stands in the bytes: a stream that was written as
/// the bits `before`, then the bits `piece`, then the bits `after`, holds
/// `piece` from the bit with the number of the length of `before` on. The
/// bits of the last byte that are still free do not matter.
pub proof fn lemma_written_bits_held(w: BitWriter, before: Seq<bool>, piece: Seq<bool>, after: Seq<bool>)
    requires
        w.wf(),
        w@ == before + piece + after,
    ensures
        holds_at(w.movetext@, before.len() as int, piece),
{
    assert(holds_at(w.movetext@, 0, w@));
    lemma_holds_at_split(w.movetext@, 0, before + piece, after);
    lemma_holds_at_split(w.movetext@, 0, before, piece);
}

} // verus!
