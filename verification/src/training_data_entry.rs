//! One record of training data, and its packed form of 32 bytes.

use crate::arithmetic::{signed_to_unsigned, unsigned_to_signed, unzigzag, zigzag};
use crate::chess::chess_move::Move;
use crate::chess::position::{Position, PositionModel};
use crate::compressed_move::{
    lemma_move_round_trip, lemma_u16_be, pack_move, packable_move, round_trip_move, unpack_move,
    CompressedMove,
};
use crate::packed_position::{
    be_u64, lemma_position_round_trip, packable_position, packs, unpack_position, PackedPosition,
};
use vstd::prelude::*;

verus! {

/// A position from a game, the move that was played in it, the score that
/// was given to it, the number of its ply in the game, and the game's
/// result (-1, 0 or 1).
#[derive(Clone, Copy, Debug)]
pub struct TrainingDataEntry {
    pub pos: Position,
    pub mv: Move,
    pub score: i16,
    pub ply: u16,
    pub result: i16,
}

/// What a record is, apart from how its position is stored.
pub struct EntryModel {
    pub pos: PositionModel,
    pub mv: Move,
    pub score: i16,
    pub ply: u16,
    pub result: i16,
}

impl View for TrainingDataEntry {
    type V = EntryModel;

    open spec fn view(&self) -> EntryModel {
        EntryModel { pos: self.pos@, mv: self.mv, score: self.score, ply: self.ply, result: self.result }
    }
}

/// A record in 32 bytes: the packed position in 24, the packed move in two,
/// and two each for the score, for the ply together with the result, and
/// for the count of plies since the last pawn move or capture. Every number
/// has its most significant byte first.
#[derive(Clone, Copy, Debug)]
pub struct PackedTrainingDataEntry {
    pub data: [u8; 32],
}

/// The number in the two bytes at `offset`, the high byte first.
pub open spec fn be_u16(d: Seq<u8>, offset: int) -> int {
    d[offset] * 0x100 + d[offset + 1]
}

/// The record that 32 bytes stand for.
pub open spec fn unpack_entry_model(d: Seq<u8>) -> EntryModel {
    let ply = be_u16(d, 28) % 0x4000;
    EntryModel {
        pos: PositionModel {
            fullm: (ply / 2 + 1) as u16,
            halfm: be_u16(d, 30) as u16,
            ..unpack_position(be_u64(d.subrange(0, 8)) as u64, d.subrange(8, 24))
        },
        mv: unpack_move(be_u16(d, 24)),
        score: unzigzag(be_u16(d, 26)) as i16,
        ply: ply as u16,
        result: unzigzag(be_u16(d, 28) / 0x4000) as i16,
    }
}

/// Whether the 32 bytes `d` are the packed form of the record `e`.
pub open spec fn entry_packs(e: EntryModel, d: Seq<u8>) -> bool {
    &&& d.len() == 32
    &&& 0 <= be_u64(d.subrange(0, 8)) <= u64::MAX
    &&& packs(e.pos, be_u64(d.subrange(0, 8)) as u64, d.subrange(8, 24))
    &&& be_u16(d, 24) == pack_move(e.mv)
    &&& be_u16(d, 26) == zigzag(e.score as int)
    &&& be_u16(d, 28) == (zigzag(e.result as int) % 4) * 0x4000 + e.ply % 0x4000
    &&& be_u16(d, 30) == e.pos.halfm
}

/// Whether unpacking gives the record back: its position can be packed and
/// counts its full moves from its ply; its move is the null move or one
/// that unpacks to itself; its ply fits in fourteen bits, and its result is
/// -1, 0 or 1.
pub open spec fn round_trip_entry(e: EntryModel) -> bool {
    &&& packable_position(e.pos)
    &&& e.mv == Move::null_spec() || round_trip_move(e.mv)
    &&& e.ply < 0x4000
    &&& e.pos.fullm == e.ply / 2 + 1
    &&& -1 <= e.result <= 1
}

/// Unpacking the packed form of a record gives the record back.
pub proof fn lemma_entry_round_trip(e: EntryModel, d: Seq<u8>)
    requires
        entry_packs(e, d),
        round_trip_entry(e),
    ensures
        unpack_entry_model(d) == e,
{
    lemma_position_round_trip(e.pos, be_u64(d.subrange(0, 8)) as u64, d.subrange(8, 24));
    if e.mv != Move::null_spec() {
        lemma_move_round_trip(e.mv);
    }
}

impl Default for PackedTrainingDataEntry {
    fn default() -> (r: Self)
        ensures
            forall|i: int| 0 <= i < 32 ==> r.data@[i] == 0,
    {
        Self { data: [0u8; 32] }
    }
}

impl PackedTrainingDataEntry {
    /// Thirty-two zero bytes.
    pub fn new() -> (r: Self)
        ensures
            forall|i: int| 0 <= i < 32 ==> r.data@[i] == 0,
    {
        Self { data: [0u8; 32] }
    }

    /// Takes the 32 bytes of `slice`.
    pub fn copy_from_slice(&mut self, slice: &[u8])
        requires
            slice@.len() == 32,
        ensures
            final(self).data@ == slice@,
    {
        let mut i: usize = 0;
        while i < 32
            invariant
                i <= 32,
                slice@.len() == 32,
                forall|j: int| 0 <= j < i ==> self.data@[j] == slice@[j],
            decreases 32 - i,
        {
            self.data[i] = slice[i];
            i = i + 1;
        }
        proof {
            assert(self.data@ =~= slice@);
        }
    }

    /// The number in the two bytes at `offset`, the high byte first.
    pub fn read_u16_be(&self, offset: usize) -> (r: u16)
        requires
            offset + 1 < 32,
        ensures
            r == be_u16(self.data@, offset as int),
    {
        proof {
            lemma_u16_be(self.data@[offset as int], self.data@[offset + 1]);
        }
        ((self.data[offset] as u16) << 8) | (self.data[offset + 1] as u16)
    }

    /// Writes a number into the two bytes at `offset`, the high byte first.
    fn write_u16_be(&mut self, offset: usize, v: u16)
        requires
            offset + 1 < 32,
        ensures
            be_u16(final(self).data@, offset as int) == v,
            forall|i: int| 0 <= i < 32 && i != offset && i != offset + 1 ==> final(self).data@[i]
                == old(self).data@[i],
    {
        self.data[offset] = (v / 0x100) as u8;
        self.data[offset + 1] = (v % 0x100) as u8;
    }

    /// The record that the bytes stand for.
    pub fn unpack_entry(&self) -> (r: TrainingDataEntry)
        ensures
            r.pos.consistent(),
            r@ == unpack_entry_model(self.data@),
    {
        let compressed_pos: PackedPosition = PackedPosition::read_from_big_endian(self.data.as_slice());
        let mut pos: Position = compressed_pos.decompress();
        let compressed_move: CompressedMove = CompressedMove::from_ordinal(self.read_u16_be(24));
        let mv: Move = compressed_move.decompress();
        let score: i16 = unsigned_to_signed(self.read_u16_be(26));
        let pr: u16 = self.read_u16_be(28);
        let ply: u16 = pr % 0x4000;
        let result: i16 = unsigned_to_signed(pr / 0x4000);
        pos.set_ply(ply);
        pos.set_rule50_counter(self.read_u16_be(30));
        TrainingDataEntry { pos, mv, score, ply, result }
    }

    /// Packs a record. Of the result only the two lowest bits of its
    /// zig-zag code find room, of the ply the fourteen lowest bits.
    pub fn pack_entry(entry: &TrainingDataEntry) -> (r: Self)
        requires
            entry.pos.consistent(),
            packable_move(entry.mv),
        ensures
            entry_packs(entry@, r.data@),
    {
        let mut packed: PackedTrainingDataEntry = PackedTrainingDataEntry::new();
        let compressed_pos: PackedPosition = PackedPosition::compress(&entry.pos);
        let mut buffer: Vec<u8> = vec![0u8; 24];
        compressed_pos.write_to_big_endian(buffer.as_mut_slice());
        let mut i: usize = 0;
        while i < 24
            invariant
                i <= 24,
                buffer@.len() == 24,
                forall|j: int| 0 <= j < i ==> packed.data@[j] == buffer@[j],
            decreases 24 - i,
        {
            packed.data[i] = buffer[i];
            i = i + 1;
        }
        let ghost head = packed.data@.subrange(0, 24);
        proof {
            assert(head =~= buffer@);
            assert(head.subrange(0, 8) =~= buffer@.subrange(0, 8));
            assert(head.subrange(8, 24) =~= buffer@.subrange(8, 24));
        }
        packed.write_u16_be(24, CompressedMove::from_move(entry.mv).packed());
        packed.write_u16_be(26, signed_to_unsigned(entry.score));
        let code: u16 = signed_to_unsigned(entry.result) % 4;
        packed.write_u16_be(28, code * 0x4000 + entry.ply % 0x4000);
        packed.write_u16_be(30, entry.pos.halfm);
        proof {
            assert(packed.data@.subrange(0, 24) =~= head);
            assert(packed.data@.subrange(0, 8) =~= head.subrange(0, 8));
            assert(packed.data@.subrange(8, 24) =~= head.subrange(8, 24));
        }
        packed
    }
}

} // verus!
