use memmap2::{Mmap, MmapOptions};
use yclass::codec::{ChunkEntry, DumpError, MemoryChunk};
use yclass::reader::ConcatenatedDumpReader;
use yclass::writer::ConcatenatedDumpWriter;

fn map_bytes(bytes: &[u8]) -> Mmap {
    let mut m = MmapOptions::new().len(bytes.len()).map_anon().unwrap();
    m.copy_from_slice(bytes);
    m.make_read_only().unwrap()
}

fn write_dump(chunks: &[(u64, &[u8])]) -> Vec<u8> {
    let mut writer = ConcatenatedDumpWriter::new();
    for (address, data) in chunks {
        writer.add_chunk(MemoryChunk {
            address: *address,
            data: data.to_vec(),
        });
    }
    writer.write()
}

#[test]
fn test_chunk_entry_serialization() {
    let entry = ChunkEntry {
        address: 0x1000,
        file_offset: 0x2000,
        length: 0x100,
    };

    let bytes = entry.to_bytes();
    let parsed = ChunkEntry::from_bytes(&bytes).unwrap();

    assert_eq!(entry.address, parsed.address);
    assert_eq!(entry.file_offset, parsed.file_offset);
    assert_eq!(entry.length, parsed.length);
}

#[test]
fn test_roundtrip() {
    let out = write_dump(&[(0x1000, b"Hello"), (0x2000, b"World")]);
    let reader = ConcatenatedDumpReader::open(map_bytes(&out)).unwrap();

    let chunk_list = reader.chunks();
    assert_eq!(chunk_list.len(), 2);
    assert!(chunk_list.contains(&(0x1000, 5)));
    assert!(chunk_list.contains(&(0x2000, 5)));

    assert_eq!(reader.get_chunk_slice(0x1000).unwrap(), b"Hello");
    assert_eq!(reader.get_chunk_slice(0x2000).unwrap(), b"World");
    assert!(reader.get_chunk_slice(0x1500).is_none());

    let memory = reader.get_memory_slice(0x1002, 3).unwrap();
    assert_eq!(memory, b"llo");
}

#[test]
fn test_containment() {
    let out = write_dump(&[(0x1000, b"ABCDE"), (0x2000, b"FGHIJ")]);
    let reader = ConcatenatedDumpReader::open(map_bytes(&out)).unwrap();

    // inside the first chunk
    assert_eq!(reader.get_memory_slice(0x1002, 3).unwrap(), b"CDE");
    // clamped to the first chunk, never crossing into the second
    assert_eq!(reader.get_memory_slice(0x1003, 10).unwrap(), b"DE");
    // no chunk contains this address
    assert!(reader.get_memory_slice(0x3000, 1).is_none());
    // contained with nothing requested gives an empty slice
    assert_eq!(reader.get_memory_slice(0x1004, 0).unwrap(), b"");
}

#[test]
fn test_order_invariance() {
    let forward = write_dump(&[(0x1000, b"Hello"), (0x2000, b"World"), (0x3000, b"!")]);
    let backward = write_dump(&[(0x3000, b"!"), (0x2000, b"World"), (0x1000, b"Hello")]);
    let shuffled = write_dump(&[(0x2000, b"World"), (0x3000, b"!"), (0x1000, b"Hello")]);
    assert_eq!(forward, backward);
    assert_eq!(forward, shuffled);
}

#[test]
fn test_trailer_consistency() {
    let out = write_dump(&[(0x1000, b"Hello"), (0x2000, b"World")]);
    let trailer = u64::from_le_bytes(out[out.len() - 8..].try_into().unwrap());
    assert_eq!(trailer, 10);

    let empty = write_dump(&[]);
    let trailer = u64::from_le_bytes(empty[empty.len() - 8..].try_into().unwrap());
    assert_eq!(trailer, 0);
}

#[test]
fn test_truncated_file_rejected() {
    let err = ConcatenatedDumpReader::open(map_bytes(&[1, 2, 3, 4, 5])).err().unwrap();
    assert_eq!(err, DumpError::FileTooSmall);
}

#[test]
fn test_corrupted_trailer_rejected() {
    let mut out = write_dump(&[(0x1000, b"Hello"), (0x2000, b"World")]);
    let n = out.len();
    out[n - 8..].copy_from_slice(&u64::MAX.to_le_bytes());
    let err = ConcatenatedDumpReader::open(map_bytes(&out)).err().unwrap();
    assert_eq!(err, DumpError::BadIndexOffset);
}

#[test]
fn test_implausible_count_rejected() {
    // a count region at offset 0 claiming more entries than the file
    // could hold, and a trailer pointing at it
    let mut file = Vec::new();
    file.extend_from_slice(&u64::MAX.to_le_bytes());
    file.extend_from_slice(&0u64.to_le_bytes());
    let err = ConcatenatedDumpReader::open(map_bytes(&file)).err().unwrap();
    assert_eq!(err, DumpError::BadChunkCount);
}

#[test]
fn test_entry_beyond_file_rejected() {
    // one entry announced, but only 8 bytes remain after the count
    let mut file = vec![0u8; 24];
    file.extend_from_slice(&1u64.to_le_bytes());
    file.extend_from_slice(&24u64.to_le_bytes());
    let err = ConcatenatedDumpReader::open(map_bytes(&file)).err().unwrap();
    assert_eq!(err, DumpError::EntryOutOfBounds);
}

#[test]
fn test_entry_overlapping_index_rejected() {
    // one entry whose data range does not lie strictly before the index
    let mut file = Vec::new();
    file.extend_from_slice(&1u64.to_le_bytes());
    file.extend_from_slice(&0x1000u64.to_le_bytes()); // address
    file.extend_from_slice(&0u64.to_le_bytes()); // file offset
    file.extend_from_slice(&0u64.to_le_bytes()); // length
    file.extend_from_slice(&0u64.to_le_bytes()); // trailer: index at 0
    let err = ConcatenatedDumpReader::open(map_bytes(&file)).err().unwrap();
    assert_eq!(err, DumpError::BadEntryRange);
}

#[test]
fn test_duplicate_address_rejected() {
    let out = write_dump(&[(0x1000, b"AA"), (0x1000, b"BB")]);
    let err = ConcatenatedDumpReader::open(map_bytes(&out)).err().unwrap();
    assert_eq!(err, DumpError::DuplicateAddress);
}

#[test]
fn test_trailing_empty_chunk_unreadable() {
    // a dump whose highest chunk is empty places that chunk's offset at
    // the index itself, which the reader rejects
    let out = write_dump(&[(0x1000, b"")]);
    let err = ConcatenatedDumpReader::open(map_bytes(&out)).err().unwrap();
    assert_eq!(err, DumpError::BadEntryRange);

    // an empty chunk below a non-empty one is fine
    let out = write_dump(&[(0x2000, b"XY"), (0x1000, b"")]);
    let reader = ConcatenatedDumpReader::open(map_bytes(&out)).unwrap();
    assert_eq!(reader.get_chunk_slice(0x1000).unwrap(), b"");
    assert_eq!(reader.get_chunk_slice(0x2000).unwrap(), b"XY");
}

#[test]
fn test_truncated_entry_bytes() {
    let err = ChunkEntry::from_bytes(&[0u8; 10]).err().unwrap();
    assert_eq!(err, DumpError::TruncatedEntry);
}

#[test]
fn test_entries_listed_in_address_order() {
    let out = write_dump(&[(0x3000, b"c"), (0x1000, b"a"), (0x2000, b"b")]);
    let reader = ConcatenatedDumpReader::open(map_bytes(&out)).unwrap();
    assert_eq!(reader.chunks(), vec![(0x1000, 1), (0x2000, 1), (0x3000, 1)]);
}
