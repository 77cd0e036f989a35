//! Binary layout of the concatenated memory dump format.
//!
//! A dump file holds the raw bytes of every chunk, concatenated, followed by
//! an index (a chunk count, then one 24-byte entry per chunk) and finally an
//! 8-byte trailer giving the absolute offset where the index begins.  Every
//! integer is little-endian.  This module defines the data types of that
//! layout and the encoding of one index entry; the reader and the writer
//! build on it.

use vstd::bytes::*;
use vstd::prelude::*;
use vstd::slice::slice_subrange;

verus! {

/// Size in bytes of one serialized index entry: three little-endian `u64`s.
pub const CHUNK_ENTRY_SIZE: usize = 24;

/// A span of memory captured at a virtual address, as handed to the writer.
#[derive(Debug, Clone)]
pub struct MemoryChunk {
    /// The virtual memory address where this chunk was located.
    pub address: u64,
    /// The raw memory data.
    pub data: Vec<u8>,
}

/// Mathematical model of a chunk: its address and its byte sequence.
#[verifier::ext_equal]
pub ghost struct ChunkModel {
    pub address: u64,
    pub data: Seq<u8>,
}

impl View for MemoryChunk {
    type V = ChunkModel;

    open spec fn view(&self) -> ChunkModel {
        ChunkModel { address: self.address, data: self.data@ }
    }
}

/// One entry of the index: where a chunk's bytes sit in the file.
#[derive(Debug, Clone, Copy, PartialEq, Eq, Structural)]
pub struct ChunkEntry {
    /// Memory address of the chunk.
    pub address: u64,
    /// File offset of the chunk's first byte.
    pub file_offset: u64,
    /// Length of the chunk in bytes.
    pub length: u64,
}

/// Why a dump file or an index entry was rejected.
#[derive(Debug, Clone, Copy, PartialEq, Eq, Structural)]
pub enum DumpError {
    /// Fewer than 24 bytes were available for an index entry.
    TruncatedEntry,
    /// The file is too small to hold the trailing index offset.
    FileTooSmall,
    /// The trailing offset does not point at a chunk count inside the file.
    BadIndexOffset,
    /// The chunk count is larger than the file could possibly hold.
    BadChunkCount,
    /// An index entry record extends beyond the end of the file.
    EntryOutOfBounds,
    /// A chunk's data range reaches into or past the index.
    BadEntryRange,
    /// Two index entries carry the same address.
    DuplicateAddress,
}

/// The 24 bytes that stand for one entry on disk: address, file offset and
/// length, each little-endian.
pub open spec fn spec_entry_bytes(e: ChunkEntry) -> Seq<u8> {
    spec_u64_to_le_bytes(e.address) + spec_u64_to_le_bytes(e.file_offset)
        + spec_u64_to_le_bytes(e.length)
}

/// The entry encoded by the first 24 bytes of `s`.
pub open spec fn spec_parse_entry(s: Seq<u8>) -> ChunkEntry
    recommends
        s.len() >= CHUNK_ENTRY_SIZE,
{
    ChunkEntry {
        address: spec_u64_from_le_bytes(s.subrange(0, 8)),
        file_offset: spec_u64_from_le_bytes(s.subrange(8, 16)),
        length: spec_u64_from_le_bytes(s.subrange(16, 24)),
    }
}

impl ChunkEntry {
    /// Parses an entry from the first 24 bytes of `bytes`; shorter input is
    /// rejected as truncated.
    pub fn from_bytes(bytes: &[u8]) -> (r: Result<ChunkEntry, DumpError>)
        ensures
            bytes@.len() >= CHUNK_ENTRY_SIZE ==> r == Ok::<ChunkEntry, DumpError>(
                spec_parse_entry(bytes@),
            ),
            bytes@.len() < CHUNK_ENTRY_SIZE ==> r == Err::<ChunkEntry, DumpError>(
                DumpError::TruncatedEntry,
            ),
    {
        if bytes.len() < CHUNK_ENTRY_SIZE {
            return Err(DumpError::TruncatedEntry);
        }
        let address = u64_from_le_bytes(slice_subrange(bytes, 0, 8));
        let file_offset = u64_from_le_bytes(slice_subrange(bytes, 8, 16));
        let length = u64_from_le_bytes(slice_subrange(bytes, 16, 24));
        Ok(ChunkEntry { address, file_offset, length })
    }

    /// Serializes the entry into its 24-byte on-disk form.
    pub fn to_bytes(&self) -> (r: Vec<u8>)
        ensures
            r@ == spec_entry_bytes(*self),
            r@.len() == CHUNK_ENTRY_SIZE,
    {
        proof {
            lemma_auto_spec_u64_to_from_le_bytes();
        }
        let mut out = u64_to_le_bytes(self.address);
        let mut mid = u64_to_le_bytes(self.file_offset);
        let mut tail = u64_to_le_bytes(self.length);
        out.append(&mut mid);
        out.append(&mut tail);
        out
    }
}

/// Parsing the serialized form of an entry gives the entry back.
pub proof fn lemma_entry_round_trip(e: ChunkEntry)
    ensures
        spec_parse_entry(spec_entry_bytes(e)) == e,
{
    lemma_auto_spec_u64_to_from_le_bytes();
    let s = spec_entry_bytes(e);
    assert(s.subrange(0, 8) =~= spec_u64_to_le_bytes(e.address));
    assert(s.subrange(8, 16) =~= spec_u64_to_le_bytes(e.file_offset));
    assert(s.subrange(16, 24) =~= spec_u64_to_le_bytes(e.length));
}

} // verus!
