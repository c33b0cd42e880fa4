//! The container: a file of chunks, each a header of eight bytes and a
//! payload.

use crate::binpack_error::BinpackError;
use vstd::prelude::*;
use vstd::slice::{slice_subrange, slice_to_vec};

verus! {

/// The length of a chunk's header.
pub const HEADER_SIZE: usize = 8;

/// The largest payload that a chunk may have: 100 MiB.
pub const MAX_CHUNK_SIZE: u32 = 100 * 1024 * 1024;

/// The header of a chunk.
#[derive(Debug)]
pub struct Header {
    pub chunk_size: u32,
}

/// The outcome of looking for a chunk at a place in a file.
pub enum ChunkAt {
    /// The file ends at that place.
    EndOfFile,
    /// What is there does not start with the letters `BINP`.
    InvalidMagic,
    /// The header names a payload that is too large, or the file ends
    /// within the header or the payload.
    InvalidFormat,
    /// There is a chunk with this payload.
    Chunk(Seq<u8>),
}

/// The number in the four bytes from `at` on, the least significant byte
/// first.
pub open spec fn le_u32(b: Seq<u8>, at: int) -> int {
    b[at] + b[at + 1] * 0x100 + b[at + 2] * 0x1_0000 + b[at + 3] * 0x100_0000
}

/// Whether the letters `BINP` stand in the file from `pos` on.
pub open spec fn magic_at(file: Seq<u8>, pos: int) -> bool {
    pos + 4 <= file.len() && file[pos] == 0x42 && file[pos + 1] == 0x49 && file[pos + 2] == 0x4E
        && file[pos + 3] == 0x50
}

/// What stands in the file at `pos`.
pub open spec fn chunk_at(file: Seq<u8>, pos: int) -> ChunkAt {
    if pos >= file.len() {
        ChunkAt::EndOfFile
    } else if !magic_at(file, pos) {
        ChunkAt::InvalidMagic
    } else if pos + 8 > file.len() || le_u32(file, pos + 4) > MAX_CHUNK_SIZE || pos + 8 + le_u32(
        file,
        pos + 4,
    ) > file.len() {
        ChunkAt::InvalidFormat
    } else {
        ChunkAt::Chunk(file.subrange(pos + 8, pos + 8 + le_u32(file, pos + 4)))
    }
}

/// The header of a chunk with a payload of `size` bytes: the letters
/// `BINP`, then the size in four bytes, the least significant first.
pub open spec fn header_bytes(size: int) -> Seq<u8> {
    seq![
        0x42u8,
        0x49u8,
        0x4Eu8,
        0x50u8,
        (size % 0x100) as u8,
        ((size / 0x100) % 0x100) as u8,
        ((size / 0x1_0000) % 0x100) as u8,
        ((size / 0x100_0000) % 0x100) as u8,
    ]
}

/// A chunk as it stands in a file.
pub open spec fn chunk_bytes(payload: Seq<u8>) -> Seq<u8> {
    header_bytes(payload.len() as int) + payload
}

/// The file that holds the given payloads as chunks, one after the other.
pub open spec fn file_of(payloads: Seq<Seq<u8>>) -> Seq<u8>
    decreases payloads.len(),
{
    if payloads.len() == 0 {
        Seq::empty()
    } else {
        chunk_bytes(payloads[0]) + file_of(payloads.subrange(1, payloads.len() as int))
    }
}

/// The payloads of the chunks that a file holds from `pos` on, if it holds
/// nothing but chunks from there to its end.
pub open spec fn payloads_from(file: Seq<u8>, pos: int) -> Option<Seq<Seq<u8>>>
    decreases file.len() - pos,
{
    match chunk_at(file, pos) {
        ChunkAt::EndOfFile => Some(Seq::empty()),
        ChunkAt::Chunk(payload) => if pos < 0 {
            None
        } else {
            match payloads_from(file, pos + 8 + le_u32(file, pos + 4)) {
                Some(rest) => Some(seq![payload] + rest),
                None => None,
            }
        },
        _ => None,
    }
}

/// A chunk that was written is found again: where a file holds the bytes
/// of a chunk at `pos`, that chunk stands there with its payload.
pub proof fn lemma_chunk_found(file: Seq<u8>, pos: int, payload: Seq<u8>)
    requires
        0 <= pos,
        payload.len() <= MAX_CHUNK_SIZE,
        pos + 8 + payload.len() <= file.len(),
        file.subrange(pos, pos + 8 + payload.len()) == chunk_bytes(payload),
    ensures
        chunk_at(file, pos) == ChunkAt::Chunk(payload),
        le_u32(file, pos + 4) == payload.len(),
{
    let n = payload.len() as int;
    let c = chunk_bytes(payload);
    assert forall|i: int| 0 <= i < 8 + n implies file[pos + i] == #[trigger] c[i] by {
        assert(file.subrange(pos, pos + 8 + n)[i] == file[pos + i]);
    }
    assert(c[0] == 0x42 && c[1] == 0x49 && c[2] == 0x4E && c[3] == 0x50);
    assert(c[4] == (n % 0x100) as u8);
    assert(c[5] == ((n / 0x100) % 0x100) as u8);
    assert(c[6] == ((n / 0x1_0000) % 0x100) as u8);
    assert(c[7] == ((n / 0x100_0000) % 0x100) as u8);
    assert(le_u32(file, pos + 4) == n);
    assert(file.subrange(pos + 8, pos + 8 + n) =~= payload) by {
        assert forall|i: int| 0 <= i < n implies file.subrange(pos + 8, pos + 8 + n)[i] == payload[i] by {
            assert(c[8 + i] == payload[i]);
        }
    }
}

/// A file that holds a chunk at `pos` and is read from there on gives the
/// chunk's payload first, and then what it gives after the chunk.
proof fn lemma_payloads_step(file: Seq<u8>, pos: int, payload: Seq<u8>, rest: Seq<Seq<u8>>)
    requires
        0 <= pos,
        chunk_at(file, pos) == ChunkAt::Chunk(payload),
        le_u32(file, pos + 4) == payload.len(),
        payloads_from(file, pos + 8 + payload.len()) == Some(rest),
    ensures
        payloads_from(file, pos) == Some(seq![payload] + rest),
{
}

/// The bytes of a chunk in a file that is put together from what stands
/// before the chunk, the chunk and what stands after it.
proof fn lemma_chunk_placed(prefix: Seq<u8>, chunk: Seq<u8>, tail: Seq<u8>)
    ensures
        (prefix + (chunk + tail)).subrange(prefix.len() as int, (prefix.len()
            + chunk.len()) as int) == chunk,
        prefix + (chunk + tail) == (prefix + chunk) + tail,
{
    assert((prefix + (chunk + tail)).subrange(prefix.len() as int, (prefix.len()
        + chunk.len()) as int) =~= chunk);
    assert(prefix + (chunk + tail) =~= (prefix + chunk) + tail);
}

/// Reading the chunks of a file that was written chunk by chunk gives the
/// payloads that were written, in their order, whatever stands before
/// them in the file.
pub proof fn lemma_chunks_round_trip(prefix: Seq<u8>, payloads: Seq<Seq<u8>>)
    requires
        forall|i: int| 0 <= i < payloads.len() ==> (#[trigger] payloads[i]).len() <= MAX_CHUNK_SIZE,
    ensures
        payloads_from(prefix + file_of(payloads), prefix.len() as int) == Some(payloads),
    decreases payloads.len(),
{
    let file = prefix + file_of(payloads);
    let pos = prefix.len() as int;
    if payloads.len() == 0 {
        assert(file =~= prefix);
        assert(payloads =~= Seq::<Seq<u8>>::empty());
    } else {
        let first = payloads[0];
        let rest = payloads.subrange(1, payloads.len() as int);
        let chunk = chunk_bytes(first);
        let tail = file_of(rest);
        let next = prefix + chunk;
        assert(file_of(payloads) == chunk + tail);
        lemma_chunk_placed(prefix, chunk, tail);
        assert(chunk.len() == 8 + first.len());
        lemma_chunk_found(file, pos, first);
        assert forall|i: int| 0 <= i < rest.len() implies (#[trigger] rest[i]).len() <= MAX_CHUNK_SIZE by {
            assert(rest[i] == payloads[i + 1]);
        }
        lemma_chunks_round_trip(next, rest);
        lemma_payloads_step(file, pos, first, rest);
        assert(seq![first] + rest =~= payloads);
    }
}

/// A file of chunks, and the place up to which it has been read.
#[derive(Debug)]
pub struct CompressedTrainingDataFile {
    /// The bytes of the file.
    pub data: Vec<u8>,
    /// The place of the next chunk.
    pub pos: usize,
    /// Number of bytes of the chunks read so far, headers included.
    pub read_bytes: u64,
}

impl CompressedTrainingDataFile {
    /// The place lies within the file, and counts the bytes read.
    pub open spec fn wf(&self) -> bool {
        self.pos <= self.data@.len() && self.read_bytes == self.pos
    }

    /// A file with the given bytes, at its start.
    pub fn new(data: Vec<u8>) -> (r: Self)
        ensures
            r.wf(),
            r.data@ == data@,
            r.pos == 0,
    {
        Self { data, pos: 0, read_bytes: 0 }
    }

    /// Number of bytes of the chunks read so far, headers included.
    pub fn read_bytes(&self) -> (r: u64)
        ensures
            r == self.read_bytes,
    {
        self.read_bytes
    }

    /// Whether the file goes on after the chunks read so far.
    pub fn has_next_chunk(&self) -> (r: bool)
        requires
            self.wf(),
        ensures
            r == (self.pos < self.data@.len()),
            r == !(chunk_at(self.data@, self.pos as int) is EndOfFile),
    {
        self.pos < self.data.len()
    }

    /// Reads the header of the next chunk, without going past it.
    fn read_chunk_header(&self) -> (r: Result<Header, BinpackError>)
        requires
            self.wf(),
        ensures
            match r {
                Ok(h) => magic_at(self.data@, self.pos as int) && self.pos + 8 <= self.data@.len()
                    && h.chunk_size == le_u32(self.data@, self.pos + 4) && h.chunk_size <= MAX_CHUNK_SIZE,
                Err(e) => match chunk_at(self.data@, self.pos as int) {
                    ChunkAt::EndOfFile => e is EndOfFile,
                    ChunkAt::InvalidMagic => e is InvalidMagic,
                    ChunkAt::InvalidFormat => e is InvalidFormat,
                    ChunkAt::Chunk(_) => false,
                },
            },
    {
        let len: usize = self.data.len();
        let pos: usize = self.pos;
        if pos >= len {
            return Err(BinpackError::EndOfFile);
        }
        if len - pos < 4 || self.data[pos] != 0x42 || self.data[pos + 1] != 0x49 || self.data[pos + 2]
            != 0x4E || self.data[pos + 3] != 0x50 {
            return Err(BinpackError::InvalidMagic);
        }
        if len - pos < HEADER_SIZE {
            return Err(BinpackError::InvalidFormat("Truncated chunk header".to_string()));
        }
        let chunk_size: u32 = self.data[pos + 4] as u32 + (self.data[pos + 5] as u32) * 0x100 + (
        self.data[pos + 6] as u32) * 0x1_0000 + (self.data[pos + 7] as u32) * 0x100_0000;
        if chunk_size > MAX_CHUNK_SIZE {
            return Err(
                BinpackError::InvalidFormat(
                    "Chunk size larger than supported. Malformed file?".to_string(),
                ),
            );
        }
        Ok(Header { chunk_size })
    }

    /// Reads the next chunk and gives its payload. Fails, without reading,
    /// where no chunk stands at the place: at the end of the file, where
    /// the letters `BINP` are missing, where the payload would be too
    /// large, or where the file ends within the chunk.
    pub fn read_next_chunk(&mut self) -> (r: Result<Vec<u8>, BinpackError>)
        requires
            old(self).wf(),
        ensures
            final(self).wf(),
            final(self).data@ == old(self).data@,
            match r {
                Ok(payload) => chunk_at(old(self).data@, old(self).pos as int) == ChunkAt::Chunk(payload@)
                    && final(self).pos == old(self).pos + 8 + payload@.len(),
                Err(e) => final(self).pos == old(self).pos && match chunk_at(
                    old(self).data@,
                    old(self).pos as int,
                ) {
                    ChunkAt::EndOfFile => e is EndOfFile,
                    ChunkAt::InvalidMagic => e is InvalidMagic,
                    ChunkAt::InvalidFormat => e is InvalidFormat,
                    ChunkAt::Chunk(_) => false,
                },
            },
    {
        let header: Header = match self.read_chunk_header() {
            Ok(h) => h,
            Err(e) => {
                return Err(e);
            },
        };
        let len: usize = self.data.len();
        let start: usize = self.pos + HEADER_SIZE;
        let size: usize = header.chunk_size as usize;
        if len - start < size {
            return Err(BinpackError::InvalidFormat("Truncated chunk".to_string()));
        }
        let payload: Vec<u8> = slice_to_vec(slice_subrange(self.data.as_slice(), start, start + size));
        self.pos = start + size;
        self.read_bytes = self.read_bytes + (HEADER_SIZE as u64) + (header.chunk_size as u64);
        Ok(payload)
    }

    /// Appends a chunk with the payload `payload` to the file. Fails, and
    /// appends nothing, where the payload is larger than a chunk may be.
    pub fn append(&mut self, payload: &[u8]) -> (r: Result<(), BinpackError>)
        requires
            old(self).wf(),
        ensures
            final(self).wf(),
            final(self).pos == old(self).pos,
            match r {
                Ok(_) => payload@.len() <= MAX_CHUNK_SIZE && final(self).data@ == old(self).data@
                    + chunk_bytes(payload@),
                Err(e) => payload@.len() > MAX_CHUNK_SIZE && e is InvalidFormat && final(self).data@
                    == old(self).data@,
            },
    {
        let len: usize = payload.len();
        if len > MAX_CHUNK_SIZE as usize {
            return Err(
                BinpackError::InvalidFormat("Chunk size larger than supported".to_string()),
            );
        }
        let size: u32 = len as u32;
        self.data.push(0x42);
        self.data.push(0x49);
        self.data.push(0x4E);
        self.data.push(0x50);
        self.data.push((size % 0x100) as u8);
        self.data.push(((size / 0x100) % 0x100) as u8);
        self.data.push(((size / 0x1_0000) % 0x100) as u8);
        self.data.push(((size / 0x100_0000) % 0x100) as u8);
        proof {
            assert(self.data@ =~= old(self).data@ + header_bytes(len as int));
        }
        let mut i: usize = 0;
        while i < len
            invariant
                i <= len,
                len == payload@.len(),
                self.pos == old(self).pos,
                self.read_bytes == old(self).read_bytes,
                self.data@ == old(self).data@ + header_bytes(len as int) + payload@.subrange(0, i as int),
            decreases len - i,
        {
            self.data.push(payload[i]);
            proof {
                assert(payload@.subrange(0, i as int).push(payload@[i as int]) =~= payload@.subrange(
                    0,
                    i + 1,
                ));
            }
            i = i + 1;
        }
        proof {
            assert(payload@.subrange(0, len as int) =~= payload@);
            assert(self.data@ =~= old(self).data@ + chunk_bytes(payload@));
        }
        Ok(())
    }
}

} // verus!
