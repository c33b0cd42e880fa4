//! Reading the records of a file one by one.

use crate::binpack_error::BinpackError;
use crate::move_encoding::read_ply;
use crate::reader::bitreader::BitReader;
use crate::reader::move_score_list_reader::PackedMoveScoreListReader;
use crate::training_data_entry::{
    be_u16, unpack_entry_model, PackedTrainingDataEntry, TrainingDataEntry,
};
use crate::training_data_file::{chunk_at, ChunkAt, CompressedTrainingDataFile};
use vstd::prelude::*;
use vstd::slice::slice_subrange;

verus! {

/// The size of a chunk that a writer aims at.
pub const SUGGESTED_CHUNK_SIZE: usize = 8192;

/// The length of a record's fixed part: the packed record and the number
/// of plies that follow it.
pub const ENTRY_HEADER_SIZE: usize = 34;

/// What can go wrong while records are read.
#[derive(Debug)]
pub enum CompressedReaderError {
    /// The source of the bytes failed; the message says how.
    Io(String),
    /// A record is not what the format allows; the message says where.
    InvalidFormat(String),
    /// The file holds no chunk at all.
    EndOfFile,
    /// A chunk or the plies of a game could not be read.
    BinpackError(BinpackError),
}

/// A place in the plies of a game whose bytes lie in the reader's chunk:
/// the record that was read last, the number of plies of the game and of
/// those read, the score that was read last, negated, and the place in the
/// bits, counted from the first byte after the game's first record.
#[derive(Clone, Copy, Debug)]
pub struct OwnedMoveScoreListReader {
    pub entry: TrainingDataEntry,
    pub num_plies: u16,
    pub num_read_plies: u16,
    pub last_score: i16,
    pub read_offset: usize,
    pub read_bits_left: usize,
}

impl OwnedMoveScoreListReader {
    /// The number of bits read so far.
    pub open spec fn pos(&self) -> int {
        self.read_offset * 8 + 8 - self.read_bits_left
    }

    /// Whether this is the place after `prev` once the record `e` has been
    /// read, whose bits end before bit `next`.
    pub open spec fn follows(&self, prev: Self, e: TrainingDataEntry, next: int) -> bool {
        &&& self.entry == e
        &&& self.num_plies == prev.num_plies
        &&& self.num_read_plies == prev.num_read_plies + 1
        &&& self.last_score == 0i16.wrapping_sub(e.score)
        &&& self.pos() == next
    }

    /// The place lies within the `len` bytes that are left of the chunk, a
    /// ply is left to read, and the record's position holds its pieces
    /// consistently.
    pub open spec fn wf(&self, len: int) -> bool {
        &&& self.entry.pos.consistent()
        &&& self.num_read_plies < self.num_plies
        &&& self.read_bits_left <= 8
        &&& self.pos() <= 8 * len
    }
}

/// A reader of records: the chunk that is being read and the place in it,
/// the plies of the game that is being read, if any, and the file that the
/// chunks come from.
#[derive(Debug)]
pub struct CompressedTrainingDataEntryReader {
    pub chunk: Vec<u8>,
    pub movelist_reader: Option<OwnedMoveScoreListReader>,
    pub input_file: CompressedTrainingDataFile,
    pub offset: usize,
    pub file_size: u64,
    pub is_end: bool,
}

impl CompressedTrainingDataEntryReader {
    /// The place lies within the chunk, and so does the place in the plies
    /// of the game that is being read.
    pub open spec fn wf(&self) -> bool {
        &&& self.input_file.wf()
        &&& self.offset <= self.chunk@.len()
        &&& match self.movelist_reader {
            Some(cursor) => cursor.wf(self.chunk@.len() - self.offset),
            None => true,
        }
    }

    /// Whether the reader stands as it does after a record has been taken
    /// from `chunk` up to `offset`, with `file` behind it: where the chunk
    /// has no room left for a record, the next chunk of the file is taken
    /// from its start, or the reader is at its end if the file has none.
    pub open spec fn refilled(
        &self,
        chunk: Seq<u8>,
        offset: int,
        file: CompressedTrainingDataFile,
    ) -> bool {
        &&& self.movelist_reader is None
        &&& self.input_file.data@ == file.data@
        &&& if offset + ENTRY_HEADER_SIZE <= chunk.len() {
            self.chunk@ == chunk && self.offset == offset && self.input_file.pos == file.pos
                && !self.is_end
        } else {
            match chunk_at(file.data@, file.pos as int) {
                ChunkAt::Chunk(payload) => self.chunk@ == payload && self.offset == 0
                    && self.input_file.pos == file.pos + 8 + payload.len() && !self.is_end,
                ChunkAt::EndOfFile => self.chunk@ == chunk && self.offset == offset
                    && self.input_file.pos == file.pos && self.is_end,
                _ => false,
            }
        }
    }

    /// Whether no chunk can be taken after a record has been taken from
    /// `chunk` up to `offset`, and the error `e` says why: the chunk has no
    /// room left for a record, and what stands next in the file is no
    /// chunk.
    pub open spec fn refill_fails(
        chunk: Seq<u8>,
        offset: int,
        file: CompressedTrainingDataFile,
        e: BinpackError,
    ) -> bool {
        offset + ENTRY_HEADER_SIZE > chunk.len() && match chunk_at(file.data@, file.pos as int) {
            ChunkAt::InvalidMagic => e is InvalidMagic,
            ChunkAt::InvalidFormat => e is InvalidFormat,
            _ => false,
        }
    }

    /// Whether the next record cannot be read from the plies of the game at
    /// the place `cursor`, and the error `e` says why: the move of the
    /// record before cannot be made, its ply has no room for one more, or
    /// the chunk does not hold a move and a score; or the record is the
    /// last of its game and no chunk can be taken after it.
    pub open spec fn ply_fails(&self, cursor: OwnedMoveScoreListReader, e: BinpackError) -> bool {
        let text = self.chunk@.subrange(self.offset as int, self.chunk@.len() as int);
        let after = cursor.entry.pos@.after_move(cursor.entry.mv);
        let read = read_ply(after, text, cursor.pos(), cursor.last_score);
        if !cursor.entry.pos@.admits(cursor.entry.mv) || cursor.entry.ply == u16::MAX || read is None {
            e is InvalidFormat
        } else {
            cursor.num_read_plies + 1 >= cursor.num_plies && Self::refill_fails(
                self.chunk@,
                self.offset + (read.unwrap().2 + 7) / 8,
                self.input_file,
                e,
            )
        }
    }

    /// Whether the record that stands packed at the reader's place cannot
    /// be read, and the error `err` says why: the chunk is too short for a
    /// record; or no plies follow the record and no chunk can be taken
    /// after it.
    pub open spec fn record_fails(&self, err: CompressedReaderError) -> bool {
        let at = self.offset as int;
        if at + ENTRY_HEADER_SIZE > self.chunk@.len() {
            err is InvalidFormat
        } else {
            be_u16(self.chunk@, at + 32) == 0 && match err {
                CompressedReaderError::BinpackError(e) => Self::refill_fails(
                    self.chunk@,
                    at + ENTRY_HEADER_SIZE,
                    self.input_file,
                    e,
                ),
                _ => false,
            }
        }
    }

    /// A reader of the records in the file with the bytes `data`. Fails
    /// where the file is empty, and where its first chunk cannot be read.
    pub fn new(data: Vec<u8>) -> (r: Result<Self, CompressedReaderError>)
        ensures
            match r {
                Ok(reader) => reader.wf() && !reader.is_end && reader.movelist_reader is None
                    && reader.offset == 0 && reader.input_file.data@ == data@ && reader.file_size
                    == data@.len() && chunk_at(data@, 0) == ChunkAt::Chunk(reader.chunk@),
                Err(e) => match chunk_at(data@, 0) {
                    ChunkAt::EndOfFile => e is EndOfFile,
                    ChunkAt::InvalidMagic => e matches CompressedReaderError::BinpackError(
                        BinpackError::InvalidMagic,
                    ),
                    ChunkAt::InvalidFormat => e matches CompressedReaderError::BinpackError(
                        BinpackError::InvalidFormat(_),
                    ),
                    ChunkAt::Chunk(_) => false,
                },
            },
    {
        let file_size: u64 = data.len() as u64;
        let mut input_file: CompressedTrainingDataFile = CompressedTrainingDataFile::new(data);
        if !input_file.has_next_chunk() {
            return Err(CompressedReaderError::EndOfFile);
        }
        let chunk: Vec<u8> = match input_file.read_next_chunk() {
            Ok(chunk) => chunk,
            Err(e) => {
                return Err(CompressedReaderError::BinpackError(e));
            },
        };
        Ok(Self { chunk, movelist_reader: None, input_file, offset: 0, file_size, is_end: false })
    }

    /// The size of the file in bytes.
    pub fn file_size(&self) -> (r: u64)
        ensures
            r == self.file_size,
    {
        self.file_size
    }

    /// How many bytes of the file have been read so far.
    pub fn read_bytes(&self) -> (r: u64)
        ensures
            r == self.input_file.read_bytes,
    {
        self.input_file.read_bytes()
    }

    /// Whether a record is left to read.
    pub fn has_next(&self) -> (r: bool)
        ensures
            r == !self.is_end,
    {
        !self.is_end
    }

    /// Takes the next chunk of the file where the chunk has no room left
    /// for a record.
    fn fetch_next_chunk_if_needed(&mut self) -> (r: Result<(), BinpackError>)
        requires
            old(self).input_file.wf(),
            old(self).offset <= old(self).chunk@.len(),
            old(self).movelist_reader is None,
            !old(self).is_end,
        ensures
            final(self).wf(),
            final(self).file_size == old(self).file_size,
            match r {
                Ok(_) => final(self).refilled(old(self).chunk@, old(self).offset as int,
                    old(self).input_file),
                Err(e) => final(self).is_end && Self::refill_fails(
                    old(self).chunk@,
                    old(self).offset as int,
                    old(self).input_file,
                    e,
                ),
            },
    {
        if self.chunk.len() - self.offset < ENTRY_HEADER_SIZE {
            if self.input_file.has_next_chunk() {
                match self.input_file.read_next_chunk() {
                    Ok(chunk) => {
                        self.chunk = chunk;
                        self.offset = 0;
                    },
                    Err(e) => {
                        self.is_end = true;
                        return Err(e);
                    },
                }
            } else {
                self.is_end = true;
            }
        }
        Ok(())
    }

    /// Whether this reader is what `before` becomes when the record `e` is
    /// read from the plies of the game at the place `cursor`: the move of
    /// the record before can be made, and `e` has the position after it,
    /// the move and the score that the chunk holds for that position, the
    /// ply one higher and the same result; the reader stands after the
    /// ply, or, after the last ply of the game, on the next whole byte,
    /// refilled.
    pub open spec fn after_ply(
        &self,
        before: Self,
        cursor: OwnedMoveScoreListReader,
        e: TrainingDataEntry,
    ) -> bool {
        let text = before.chunk@.subrange(before.offset as int, before.chunk@.len() as int);
        let after = cursor.entry.pos@.after_move(cursor.entry.mv);
        &&& cursor.entry.pos@.admits(cursor.entry.mv)
        &&& e.pos@ == after
        &&& e.pos@.stm == cursor.entry.pos@.stm.flip()
        &&& e.ply == cursor.entry.ply + 1
        &&& e.result == cursor.entry.result
        &&& match read_ply(after, text, cursor.pos(), cursor.last_score) {
            Some((mv, score, next)) => {
                &&& mv == e.mv
                &&& score == e.score
                &&& if cursor.num_read_plies + 1 < cursor.num_plies {
                    self.movelist_reader is Some && self.movelist_reader.unwrap().follows(cursor, e, next)
                        && self.chunk@ == before.chunk@ && self.offset == before.offset
                        && self.input_file == before.input_file && !self.is_end
                } else {
                    self.refilled(before.chunk@, before.offset + (next + 7) / 8, before.input_file)
                }
            },
            None => false,
        }
    }

    /// Whether this reader is what `before` becomes when the record `e` is
    /// read from the chunk: `e` is the record that stands packed at the
    /// reader's place; where plies follow it, the reader stands at their
    /// start, else after the record, refilled.
    pub open spec fn after_record(&self, before: Self, e: TrainingDataEntry) -> bool {
        let at = before.offset as int;
        let plies = be_u16(before.chunk@, at + 32);
        &&& at + ENTRY_HEADER_SIZE <= before.chunk@.len()
        &&& e@ == unpack_entry_model(before.chunk@.subrange(at, at + 32))
        &&& if plies > 0 {
            self.movelist_reader == Some(
                OwnedMoveScoreListReader {
                    entry: e,
                    num_plies: plies as u16,
                    num_read_plies: 0,
                    last_score: 0i16.wrapping_sub(e.score),
                    read_offset: 0,
                    read_bits_left: 8,
                },
            ) && self.chunk@ == before.chunk@ && self.offset == at + ENTRY_HEADER_SIZE
                && self.input_file == before.input_file && !self.is_end
        } else {
            self.refilled(before.chunk@, at + ENTRY_HEADER_SIZE, before.input_file)
        }
    }

    /// Reads the next record from the plies of the game at the place
    /// `cursor`.
    fn next_ply(&mut self, cursor: OwnedMoveScoreListReader) -> (r: Result<
        TrainingDataEntry,
        CompressedReaderError,
    >)
        requires
            old(self).wf(),
            !old(self).is_end,
            old(self).movelist_reader == Some(cursor),
        ensures
            final(self).wf(),
            final(self).file_size == old(self).file_size,
            match r {
                Ok(e) => e.pos.consistent() && final(self).after_ply(*old(self), cursor, e),
                Err(err) => final(self).is_end && match err {
                    CompressedReaderError::BinpackError(e) => old(self).ply_fails(cursor, e),
                    _ => false,
                },
            },
    {
        self.movelist_reader = None;
        let ghost text = self.chunk@.subrange(self.offset as int, self.chunk@.len() as int);
        let movetext: &[u8] = slice_subrange(self.chunk.as_slice(), self.offset, self.chunk.len());
        let mut plies = PackedMoveScoreListReader {
            entry: cursor.entry,
            num_plies: cursor.num_plies,
            reader: BitReader {
                movetext,
                read_bits_left: cursor.read_bits_left,
                read_offset: cursor.read_offset,
            },
            last_score: cursor.last_score,
            num_read_plies: cursor.num_read_plies,
        };
        let entry: TrainingDataEntry = match plies.next_entry() {
            Ok(entry) => entry,
            Err(e) => {
                self.is_end = true;
                return Err(CompressedReaderError::BinpackError(e));
            },
        };
        let ghost next = plies.reader.pos();
        proof {
            assert(read_ply(
                cursor.entry.pos@.after_move(cursor.entry.mv),
                text,
                cursor.pos(),
                cursor.last_score,
            ) == Some((entry.mv, entry.score, next)));
        }
        if plies.has_next() {
            self.movelist_reader = Some(
                OwnedMoveScoreListReader {
                    entry,
                    num_plies: plies.num_plies,
                    num_read_plies: plies.num_read_plies,
                    last_score: plies.last_score,
                    read_offset: plies.reader.read_offset,
                    read_bits_left: plies.reader.read_bits_left,
                },
            );
        } else {
            let used: usize = plies.num_read_bytes();
            self.offset = self.offset + used;
            match self.fetch_next_chunk_if_needed() {
                Ok(_) => {},
                Err(e) => {
                    return Err(CompressedReaderError::BinpackError(e));
                },
            }
        }
        Ok(entry)
    }

    /// Reads the record that stands packed at the reader's place.
    fn next_record(&mut self) -> (r: Result<TrainingDataEntry, CompressedReaderError>)
        requires
            old(self).wf(),
            !old(self).is_end,
            old(self).movelist_reader is None,
        ensures
            final(self).wf(),
            final(self).file_size == old(self).file_size,
            match r {
                Ok(e) => e.pos.consistent() && final(self).after_record(*old(self), e),
                Err(err) => final(self).is_end && old(self).record_fails(err),
            },
    {
        if self.chunk.len() - self.offset < ENTRY_HEADER_SIZE {
            self.is_end = true;
            return Err(CompressedReaderError::InvalidFormat("Truncated entry".to_string()));
        }
        let mut packed: PackedTrainingDataEntry = PackedTrainingDataEntry::default();
        packed.copy_from_slice(slice_subrange(self.chunk.as_slice(), self.offset, self.offset + 32));
        let num_plies: u16 = (self.chunk[self.offset + 32] as u16) * 0x100 + (self.chunk[self.offset
            + 33] as u16);
        self.offset = self.offset + ENTRY_HEADER_SIZE;
        let entry: TrainingDataEntry = packed.unpack_entry();
        if num_plies > 0 {
            self.movelist_reader = Some(
                OwnedMoveScoreListReader {
                    entry,
                    num_plies,
                    num_read_plies: 0,
                    last_score: 0i16.wrapping_sub(entry.score),
                    read_offset: 0,
                    read_bits_left: 8,
                },
            );
        } else {
            match self.fetch_next_chunk_if_needed() {
                Ok(_) => {},
                Err(e) => {
                    return Err(CompressedReaderError::BinpackError(e));
                },
            }
        }
        Ok(entry)
    }

    /// The next record. While the plies of a game are read, it is the
    /// record after the move of the record before: the position after that
    /// move, the move and the score that the chunk holds for it, the ply
    /// one higher and the same result. Else it is the record that stands
    /// packed in the chunk. Fails, and ends the reading, where the chunk is
    /// too short for a record, where the plies of a game cannot be read,
    /// and where the next chunk cannot be read.
    pub fn next(&mut self) -> (r: Result<TrainingDataEntry, CompressedReaderError>)
        requires
            old(self).wf(),
            !old(self).is_end,
        ensures
            final(self).wf(),
            final(self).file_size == old(self).file_size,
            match r {
                Ok(e) => e.pos.consistent() && match old(self).movelist_reader {
                    Some(cursor) => final(self).after_ply(*old(self), cursor, e),
                    None => final(self).after_record(*old(self), e),
                },
                Err(err) => final(self).is_end && match old(self).movelist_reader {
                    Some(cursor) => match err {
                        CompressedReaderError::BinpackError(e) => old(self).ply_fails(cursor, e),
                        _ => false,
                    },
                    None => old(self).record_fails(err),
                },
            },
    {
        match self.movelist_reader {
            Some(cursor) => self.next_ply(cursor),
            None => self.next_record(),
        }
    }
}

} // verus!
