//! Reading a stream of bits.

use crate::binpack_error::BinpackError;
use crate::bitstream::{
    bit8, bits_value, lemma_byte_shifts, lemma_value_from_bits, stream_bit, vle_mask, vle_read,
    vle_stop,
};
use crate::chess::castling_rights::lemma_byte_bits;
use vstd::prelude::*;

verus! {

/// A place in a stream of bits. The first bit of the stream is the most
/// significant bit of the first byte; `read_bits_left` bits of the byte at
/// `read_offset` have not been read yet.
#[derive(Debug)]
pub struct BitReader<'a> {
    pub movetext: &'a [u8],
    pub read_bits_left: usize,
    pub read_offset: usize,
}

impl<'a> BitReader<'a> {
    /// The number of bits read so far.
    pub open spec fn pos(&self) -> int {
        self.read_offset * 8 + 8 - self.read_bits_left
    }

    /// The place lies within the stream.
    pub open spec fn wf(&self) -> bool {
        self.read_bits_left <= 8 && self.pos() <= 8 * self.movetext@.len() && self.movetext@.len()
            <= usize::MAX
    }

    /// The start of the stream that `movetext` holds.
    pub fn new(movetext: &'a [u8]) -> (r: Self)
        ensures
            r.wf(),
            r.pos() == 0,
            r.movetext@ == movetext@,
    {
        let _ = movetext.len();
        Self { movetext, read_bits_left: 8, read_offset: 0 }
    }

    /// Reads the next `count` bits as a number, the first of them being the
    /// highest. Fails, without reading, where the stream has fewer bits
    /// left.
    pub fn extract_bits_le8(&mut self, count: usize) -> (r: Result<u8, BinpackError>)
        requires
            old(self).wf(),
            count <= 8,
        ensures
            final(self).wf(),
            final(self).movetext@ == old(self).movetext@,
            match r {
                Ok(v) => old(self).pos() + count <= 8 * old(self).movetext@.len() && v == bits_value(
                    old(self).movetext@,
                    old(self).pos(),
                    count as int,
                ) && final(self).pos() == old(self).pos() + count,
                Err(e) => count > 0 && old(self).pos() + count > 8 * old(self).movetext@.len() && e
                    is InvalidFormat && final(self).pos() == old(self).pos(),
            },
    {
        if count == 0 {
            return Ok(0);
        }
        if self.read_bits_left == 0 {
            self.read_offset = self.read_offset + 1;
            self.read_bits_left = 8;
        }
        if self.read_offset >= self.movetext.len() {
            return Err(BinpackError::InvalidFormat("Unexpected end of data".to_string()));
        }
        if count > self.read_bits_left && self.read_offset + 1 >= self.movetext.len() {
            return Err(BinpackError::InvalidFormat("Unexpected end of data".to_string()));
        }
        let n: u8 = count as u8;
        let left: u8 = self.read_bits_left as u8;
        let first: u8 = self.movetext[self.read_offset];
        let byte: u8 = first << (8 - left);
        let mut bits: u8 = byte >> (8 - n);
        let ghost bytes = self.movetext@;
        let ghost start = self.pos();
        let ghost offset = self.read_offset as int;
        proof {
            lemma_byte_bits();
            lemma_byte_shifts(first, (8 - left) as u8);
            lemma_byte_shifts(byte, (8 - n) as u8);
        }
        if count > self.read_bits_left {
            let spill: u8 = n - left;
            let second: u8 = self.movetext[self.read_offset + 1];
            proof {
                lemma_byte_shifts(second, (8 - spill) as u8);
            }
            bits = bits | (second >> (8 - spill));
            self.read_bits_left = self.read_bits_left + 8;
            self.read_offset = self.read_offset + 1;
        }
        self.read_bits_left = self.read_bits_left - count;
        proof {
            assert forall|i: int| 0 <= i < n implies #[trigger] bit8(bits, i)
                == stream_bit(bytes, start + n - 1 - i) by {
                let j = n - 1 - i;
                let p = start + j;
                if j < left {
                    assert(p / 8 == offset);
                    assert(7 - p % 8 == i + left - n);
                } else {
                    assert(p / 8 == offset + 1);
                    assert(7 - p % 8 == i + 8 - (n - left));
                }
            }
            assert forall|i: int| n <= i < 8 implies !#[trigger] bit8(bits, i) by {}
            lemma_value_from_bits(bytes, start, n as int, bits);
        }
        Ok(bits)
    }

    /// The number of bytes of which at least one bit has been read.
    pub fn num_read_bytes(&self) -> (r: usize)
        requires
            self.wf(),
        ensures
            r == (self.pos() + 7) / 8,
    {
        if self.read_bits_left != 8 {
            self.read_offset + 1
        } else {
            self.read_offset
        }
    }

    /// Reads a number in variable-length form with blocks of `block_size`
    /// bits. Fails where the stream ends within a block, or where a block
    /// asks for more after sixteen bits.
    pub fn extract_vle16(&mut self, block_size: usize) -> (r: Result<u16, BinpackError>)
        requires
            old(self).wf(),
            1 <= block_size <= 7,
        ensures
            final(self).wf(),
            final(self).movetext@ == old(self).movetext@,
            final(self).pos() == vle_stop(old(self).movetext@, old(self).pos(), block_size as u8, 0),
            match r {
                Ok(v) => vle_read(old(self).movetext@, old(self).pos(), block_size as u8, 0, 0) == Some(
                    (v, final(self).pos()),
                ),
                Err(e) => vle_read(old(self).movetext@, old(self).pos(), block_size as u8, 0, 0) is None
                    && e is InvalidFormat,
            },
    {
        let b: u8 = block_size as u8;
        let mask: u16 = 0xFFFFu16 >> (16 - b);
        let mut v: u16 = 0;
        let mut offset: u8 = 0;
        let ghost bytes = self.movetext@;
        let ghost goal = vle_read(bytes, self.pos(), b, 0, 0);
        let ghost stop = vle_stop(bytes, self.pos(), b, 0);
        loop
            invariant
                self.wf(),
                self.movetext@ == bytes,
                bytes == old(self).movetext@,
                goal == vle_read(bytes, old(self).pos(), b, 0, 0),
                stop == vle_stop(bytes, old(self).pos(), b, 0),
                vle_stop(bytes, self.pos(), b, offset) == stop,
                1 <= b <= 7,
                b == block_size,
                mask == vle_mask(b),
                offset < 16,
                vle_read(bytes, self.pos(), b, v, offset) == goal,
            decreases 16 - offset,
        {
            let block: u16 = match self.extract_bits_le8(block_size + 1) {
                Ok(bits) => bits as u16,
                Err(e) => {
                    return Err(e);
                },
            };
            v = v | ((block & mask) << offset);
            if (block >> b) == 0 {
                return Ok(v);
            }
            if offset + b >= 16 {
                return Err(BinpackError::InvalidFormat("Number too long".to_string()));
            }
            offset = offset + b;
        }
    }
}

} // verus!
