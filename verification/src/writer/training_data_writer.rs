//! Writing the records of a file one by one.

use crate::binpack_error::BinpackError;
use crate::chess::chess_move::Move;
use crate::chess::position::Position;
use crate::compressed_move::packable_move;
use crate::move_encoding::{encodable, ply_bits};
use crate::reader::training_data_reader::SUGGESTED_CHUNK_SIZE;
use crate::training_data_entry::{entry_packs, EntryModel, PackedTrainingDataEntry, TrainingDataEntry};
use crate::training_data_file::{chunk_bytes, CompressedTrainingDataFile, MAX_CHUNK_SIZE};
use crate::writer::move_score_list_writer::PackedMoveScoreList;
use vstd::prelude::*;

verus! {

/// Whether the record `next` goes on the game of the record `last`: it has
/// the same result and the ply one higher, and its position is the one
/// after the move of `last`.
pub open spec fn is_continuation_spec(last: EntryModel, next: EntryModel) -> bool {
    last.result == next.result && last.ply + 1 == next.ply && last.pos.admits(last.mv)
        && last.pos.after_move(last.mv) == next.pos
}

/// Whether the record `next` goes on the game of the record `last`.
pub fn is_continuation(last: &TrainingDataEntry, next: &TrainingDataEntry) -> (r: bool)
    requires
        last.pos.consistent(),
        next.pos.consistent(),
    ensures
        r == is_continuation_spec(last@, next@),
{
    if last.result != next.result || last.ply == u16::MAX || last.ply + 1 != next.ply {
        return false;
    }
    if !last.pos.is_applicable(last.mv) {
        return false;
    }
    let mut after: Position = last.pos;
    after.do_move(last.mv);
    after.same_as(&next.pos)
}

/// The end of a game in a chunk: the number of its plies after the first
/// record in two bytes, the high byte first, and the bytes of the plies.
pub open spec fn chain_tail(plies: PackedMoveScoreList) -> Seq<u8> {
    seq![(plies.num_plies / 0x100) as u8, (plies.num_plies % 0x100) as u8] + plies.writer.movetext@
}

/// A writer of records: the file that the chunks go to, the chunk that is
/// being filled, the plies of the game that is being written, and the
/// record that was written last.
pub struct CompressedTrainingDataEntryWriter {
    pub output_file: CompressedTrainingDataFile,
    pub last_entry: TrainingDataEntry,
    pub movelist: PackedMoveScoreList,
    pub packed_entries: Vec<u8>,
    /// The size from which on a chunk is written out.
    pub chunk_size: usize,
    /// Whether no record has been written into the chunk yet.
    pub is_first: bool,
}

impl CompressedTrainingDataEntryWriter {
    /// The parts of the writer are well-formed.
    pub open spec fn wf(&self) -> bool {
        self.output_file.wf() && self.movelist.writer.wf() && self.last_entry.pos.consistent()
    }

    /// Whether the record `e` is written as a ply of the game that is being
    /// written: it goes on that game, its move can be numbered in its
    /// position, and the game has room for one more ply.
    pub open spec fn continues(&self, e: EntryModel) -> bool {
        !self.is_first && is_continuation_spec(self.last_entry@, e) && encodable(e.pos, e.mv)
            && self.movelist.num_plies < u16::MAX
    }

    /// The chunk that is being filled, with the game that is being written
    /// brought to its end.
    pub open spec fn closed(&self) -> Seq<u8> {
        if self.is_first {
            self.packed_entries@
        } else {
            self.packed_entries@ + chain_tail(self.movelist)
        }
    }

    /// A writer that appends to the file with the bytes `data`.
    pub fn new(data: Vec<u8>) -> (r: Self)
        ensures
            r.wf(),
            r.is_first,
            r.output_file.data@ == data@,
            r.packed_entries@.len() == 0,
            r.chunk_size == SUGGESTED_CHUNK_SIZE,
    {
        Self {
            output_file: CompressedTrainingDataFile::new(data),
            last_entry: TrainingDataEntry {
                pos: Position::new(),
                mv: Move::null(),
                score: 0,
                ply: 0,
                result: 0,
            },
            movelist: PackedMoveScoreList::new(),
            packed_entries: Vec::new(),
            chunk_size: SUGGESTED_CHUNK_SIZE,
            is_first: true,
        }
    }

    /// Brings the game that is being written to its end in the chunk.
    fn write_movelist(&mut self)
        ensures
            final(self).packed_entries@ == old(self).packed_entries@ + chain_tail(old(self).movelist),
            final(self).output_file == old(self).output_file,
            final(self).last_entry == old(self).last_entry,
            final(self).movelist == old(self).movelist,
            final(self).chunk_size == old(self).chunk_size,
            final(self).is_first == old(self).is_first,
    {
        self.packed_entries.push((self.movelist.num_plies / 0x100) as u8);
        self.packed_entries.push((self.movelist.num_plies % 0x100) as u8);
        let n: usize = self.movelist.writer.movetext.len();
        let mut i: usize = 0;
        while i < n
            invariant
                i <= n,
                n == self.movelist.writer.movetext@.len(),
                self.output_file == old(self).output_file,
                self.last_entry == old(self).last_entry,
                self.movelist == old(self).movelist,
                self.chunk_size == old(self).chunk_size,
                self.is_first == old(self).is_first,
                self.packed_entries@ == old(self).packed_entries@ + seq![
                    (self.movelist.num_plies / 0x100) as u8,
                    (self.movelist.num_plies % 0x100) as u8,
                ] + self.movelist.writer.movetext@.subrange(0, i as int),
            decreases n - i,
        {
            self.packed_entries.push(self.movelist.writer.movetext[i]);
            proof {
                assert(self.movelist.writer.movetext@.subrange(0, i as int).push(
                    self.movelist.writer.movetext@[i as int],
                ) =~= self.movelist.writer.movetext@.subrange(0, i + 1));
            }
            i = i + 1;
        }
        proof {
            assert(self.movelist.writer.movetext@.subrange(0, n as int) =~= self.movelist.writer.movetext@);
            assert(self.packed_entries@ =~= old(self).packed_entries@ + chain_tail(old(self).movelist));
        }
    }

    /// Writes a record. Where it goes on the game that is being written,
    /// it becomes a ply of that game. Else that game is brought to its
    /// end, the chunk is written out if it has reached its size, and the
    /// record is packed into the chunk as the first of a new game. Fails,
    /// and writes nothing, where the record starts a game and its move
    /// cannot be packed, or where the chunk has grown beyond what a chunk
    /// may hold.
    pub fn write_entry(&mut self, e: &TrainingDataEntry) -> (r: Result<(), BinpackError>)
        requires
            old(self).wf(),
            e.pos.consistent(),
        ensures
            final(self).wf(),
            final(self).chunk_size == old(self).chunk_size,
            match r {
                Ok(_) => {
                    &&& final(self).last_entry == *e
                    &&& !final(self).is_first
                    &&& if old(self).continues(e@) {
                        &&& final(self).movelist.writer@ == old(self).movelist.writer@ + ply_bits(
                            e.pos@,
                            e.mv,
                            e.score,
                            old(self).movelist.last_score,
                        )
                        &&& final(self).movelist.num_plies == old(self).movelist.num_plies + 1
                        &&& final(self).movelist.last_score == 0i16.wrapping_sub(e.score)
                        &&& final(self).packed_entries@ == old(self).packed_entries@
                        &&& final(self).output_file.data@ == old(self).output_file.data@
                    } else {
                        let closed = old(self).closed();
                        let kept = if closed.len() >= old(self).chunk_size {
                            Seq::<u8>::empty()
                        } else {
                            closed
                        };
                        &&& packable_move(e.mv)
                        &&& closed.len() <= MAX_CHUNK_SIZE
                        &&& final(self).output_file.data@ == if closed.len() >= old(self).chunk_size {
                            old(self).output_file.data@ + chunk_bytes(closed)
                        } else {
                            old(self).output_file.data@
                        }
                        &&& final(self).packed_entries@.len() == kept.len() + 32
                        &&& final(self).packed_entries@.subrange(0, kept.len() as int) == kept
                        &&& entry_packs(
                            e@,
                            final(self).packed_entries@.subrange(kept.len() as int, (kept.len()
                                + 32) as int),
                        )
                        &&& final(self).movelist.num_plies == 0
                        &&& final(self).movelist.writer@ == Seq::<bool>::empty()
                        &&& final(self).movelist.last_score == 0i16.wrapping_sub(e.score)
                    }
                },
                Err(err) => {
                    &&& err is InvalidFormat
                    &&& !old(self).continues(e@)
                    &&& !packable_move(e.mv) || old(self).closed().len() > MAX_CHUNK_SIZE
                    &&& final(self).packed_entries@ == old(self).packed_entries@
                    &&& final(self).output_file.data@ == old(self).output_file.data@
                    &&& final(self).movelist == old(self).movelist
                    &&& final(self).last_entry == old(self).last_entry
                    &&& final(self).is_first == old(self).is_first
                },
            },
    {
        if !self.is_first && self.movelist.num_plies < u16::MAX && is_continuation(&self.last_entry, e) {
            match self.movelist.add_move_score(&e.pos, e.mv, e.score) {
                Ok(_) => {
                    self.last_entry = *e;
                    return Ok(());
                },
                Err(_) => {},
            }
        }
        let from: u32 = e.mv.from.index;
        let to: u32 = e.mv.to.index;
        if from != to {
            if from >= 64 || to >= 64 {
                return Err(BinpackError::InvalidFormat("Move cannot be packed".to_string()));
            }
            if e.mv.mtype() == crate::chess::chess_move::MoveType::Promotion {
                let promoted = e.mv.promoted_piece();
                if promoted.id >= 14 {
                    return Err(BinpackError::InvalidFormat("Move cannot be packed".to_string()));
                }
                let kind: u8 = promoted.piece_type().ordinal();
                if kind < 1 || kind > 4 {
                    return Err(BinpackError::InvalidFormat("Move cannot be packed".to_string()));
                }
            }
        }
        let text: usize = self.movelist.writer.movetext.len();
        let pending: usize = self.packed_entries.len();
        let limit: usize = MAX_CHUNK_SIZE as usize;
        if pending > limit || (!self.is_first && (text > limit || 2 + text > limit - pending)) {
            return Err(BinpackError::InvalidFormat("Chunk larger than supported".to_string()));
        }
        if !self.is_first {
            self.write_movelist();
        }
        if self.packed_entries.len() >= self.chunk_size {
            match self.output_file.append(self.packed_entries.as_slice()) {
                Ok(_) => {},
                Err(err) => {
                    return Err(err);
                },
            }
            self.packed_entries.clear();
        }
        let packed: PackedTrainingDataEntry = PackedTrainingDataEntry::pack_entry(e);
        let ghost kept = self.packed_entries@;
        let ghost file = self.output_file;
        let mut i: usize = 0;
        while i < 32
            invariant
                i <= 32,
                self.wf(),
                self.output_file == file,
                self.last_entry == old(self).last_entry,
                self.packed_entries@ == kept + packed.data@.subrange(0, i as int),
                self.movelist == old(self).movelist,
                self.chunk_size == old(self).chunk_size,
                self.is_first == old(self).is_first,
            decreases 32 - i,
        {
            self.packed_entries.push(packed.data[i]);
            proof {
                assert(packed.data@.subrange(0,
                    i as int).push(packed.data@[i as int]) =~= packed.data@.subrange(
                    0,
                    i + 1,
                ));
            }
            i = i + 1;
        }
        proof {
            assert(packed.data@.subrange(0, 32) =~= packed.data@);
            assert(self.packed_entries@.subrange(0, kept.len() as int) =~= kept);
            assert(self.packed_entries@.subrange(kept.len() as int, (kept.len()
                + 32) as int) =~= packed.data@);
        }
        self.movelist.clear(e.score);
        self.is_first = false;
        self.last_entry = *e;
        Ok(())
    }

    /// Brings the game that is being written to its end, and writes the
    /// chunk out if it holds anything. Fails, and writes nothing, where
    /// the chunk has grown beyond what a chunk may hold.
    pub fn close(&mut self) -> (r: Result<(), BinpackError>)
        requires
            old(self).wf(),
        ensures
            final(self).wf(),
            final(self).chunk_size == old(self).chunk_size,
            match r {
                Ok(_) => {
                    let closed = old(self).closed();
                    &&& closed.len() <= MAX_CHUNK_SIZE
                    &&& final(self).is_first
                    &&& final(self).packed_entries@.len() == 0
                    &&& final(self).output_file.data@ == if closed.len() > 0 {
                        old(self).output_file.data@ + chunk_bytes(closed)
                    } else {
                        old(self).output_file.data@
                    }
                },
                Err(err) => {
                    &&& err is InvalidFormat
                    &&& old(self).closed().len() > MAX_CHUNK_SIZE
                    &&& final(self).packed_entries@ == old(self).packed_entries@
                    &&& final(self).output_file.data@ == old(self).output_file.data@
                    &&& final(self).movelist == old(self).movelist
                    &&& final(self).is_first == old(self).is_first
                },
            },
    {
        let text: usize = self.movelist.writer.movetext.len();
        let pending: usize = self.packed_entries.len();
        let limit: usize = MAX_CHUNK_SIZE as usize;
        if pending > limit || (!self.is_first && (text > limit || 2 + text > limit - pending)) {
            return Err(BinpackError::InvalidFormat("Chunk larger than supported".to_string()));
        }
        if !self.is_first {
            self.write_movelist();
        }
        if self.packed_entries.len() > 0 {
            match self.output_file.append(self.packed_entries.as_slice()) {
                Ok(_) => {},
                Err(err) => {
                    return Err(err);
                },
            }
            self.packed_entries.clear();
        }
        self.movelist.clear(0);
        self.is_first = true;
        Ok(())
    }

    /// The bytes of the file as it has been written so far.
    pub fn into_bytes(self) -> (r: Vec<u8>)
        ensures
            r@ == self.output_file.data@,
    {
        self.output_file.data
    }
}

} // verus!
