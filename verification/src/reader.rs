//! Parsing and querying of concatenated memory dumps.
//!
//! A reader takes a finished memory mapping of a dump file, validates the
//! trailing index, and builds an address-ordered table of entries.  All
//! byte ranges that queries hand out borrow from the mapping; nothing is
//! copied.

use crate::codec::{spec_parse_entry, ChunkEntry, DumpError};
use memmap2::Mmap;
use vstd::bytes::{spec_u64_from_le_bytes, u64_from_le_bytes};
use vstd::pervasive::unreached;
use vstd::prelude::*;
use vstd::seq_lib::group_to_multiset_ensures;

verus! {

broadcast use group_to_multiset_ensures;

/// `memmap2::Mmap` as an opaque byte container.
#[verifier::external_type_specification]
#[verifier::external_body]
pub struct ExMmap(Mmap);

/// The bytes a mapping holds.  A mapping is created once, over a file that
/// this layer treats as immutable from then on, so its contents are a
/// function of the mapping value itself.
pub uninterp spec fn mmap_view(m: Mmap) -> Seq<u8>;

/// Relies on `memmap2::Mmap`'s deref to `[u8]`: the mapping's length.
#[verifier::external_body]
fn mmap_len(m: &Mmap) -> (n: usize)
    ensures
        n == mmap_view(*m).len(),
{
    m.len()
}

/// Relies on `memmap2::Mmap`'s deref to `[u8]`: a range of the mapped bytes.
#[verifier::external_body]
fn mmap_slice<'a>(m: &'a Mmap, start: usize, end: usize) -> (r: &'a [u8])
    requires
        start <= end,
        end <= mmap_view(*m).len(),
    ensures
        r@ == mmap_view(*m).subrange(start as int, end as int),
{
    &m[start..end]
}

/// The index offset recorded in the last 8 bytes of the file.
pub open spec fn spec_trailer_offset(data: Seq<u8>) -> u64
    recommends
        data.len() >= 8,
{
    spec_u64_from_le_bytes(data.subrange(data.len() - 8, data.len() as int))
}

/// The chunk count stored where the trailer points.
pub open spec fn spec_chunk_count(data: Seq<u8>) -> u64
    recommends
        spec_trailer_offset(data) + 8 <= data.len(),
{
    spec_u64_from_le_bytes(
        data.subrange(
            spec_trailer_offset(data) as int,
            spec_trailer_offset(data) + 8,
        ),
    )
}

/// The `i`-th index entry as recorded on disk.
pub open spec fn spec_entry_at(data: Seq<u8>, i: int) -> ChunkEntry {
    let base = spec_trailer_offset(data) + 8 + 24 * i;
    spec_parse_entry(data.subrange(base, base + 24))
}

/// The `i`-th entry record lies inside the file.
pub open spec fn spec_entry_in_file(data: Seq<u8>, i: int) -> bool {
    spec_trailer_offset(data) + 8 + 24 * i + 24 <= data.len()
}

/// The `i`-th entry's data range lies strictly before the index.
pub open spec fn spec_entry_range_ok(data: Seq<u8>, i: int) -> bool {
    let e = spec_entry_at(data, i);
    e.file_offset < spec_trailer_offset(data) && e.file_offset + e.length <= spec_trailer_offset(
        data,
    )
}

/// An earlier entry already carries the `i`-th entry's address.
pub open spec fn spec_entry_duplicate(data: Seq<u8>, i: int) -> bool {
    exists|j: int|
        0 <= j < i && spec_entry_at(data, j).address == spec_entry_at(data, i).address
}

/// The first reason to reject the `i`-th entry, if any.
pub open spec fn spec_entry_error(data: Seq<u8>, i: int) -> Option<DumpError> {
    if !spec_entry_in_file(data, i) {
        Some(DumpError::EntryOutOfBounds)
    } else if !spec_entry_range_ok(data, i) {
        Some(DumpError::BadEntryRange)
    } else if spec_entry_duplicate(data, i) {
        Some(DumpError::DuplicateAddress)
    } else {
        None
    }
}

/// The first reason to reject any entry from `i` on, if any.
pub open spec fn spec_scan_entries(data: Seq<u8>, i: int) -> Option<DumpError>
    decreases spec_chunk_count(data) - i,
{
    if i < 0 || i >= spec_chunk_count(data) {
        None
    } else if spec_entry_error(data, i) is Some {
        spec_entry_error(data, i)
    } else {
        spec_scan_entries(data, i + 1)
    }
}

/// The first reason to reject the whole file, if any: the checks run in
/// the order truncation, trailer, count, entries.
pub open spec fn spec_open_error(data: Seq<u8>) -> Option<DumpError> {
    if data.len() < 8 {
        Some(DumpError::FileTooSmall)
    } else if !(spec_trailer_offset(data) + 8 <= data.len()) {
        Some(DumpError::BadIndexOffset)
    } else if !(spec_chunk_count(data) <= data.len() / 24) {
        Some(DumpError::BadChunkCount)
    } else {
        spec_scan_entries(data, 0)
    }
}

/// All index entries of the file, in on-disk order.
pub open spec fn spec_raw_entries(data: Seq<u8>) -> Seq<ChunkEntry> {
    Seq::new(spec_chunk_count(data) as nat, |i: int| spec_entry_at(data, i))
}

/// Entry addresses are strictly increasing.
pub open spec fn entries_strictly_sorted(s: Seq<ChunkEntry>) -> bool {
    forall|i: int, j: int| 0 <= i < j < s.len() ==> s[i].address < s[j].address
}

/// The first entry carrying `address`, scanning front to back.
pub open spec fn spec_entry_with_address(s: Seq<ChunkEntry>, address: u64) -> Option<ChunkEntry>
    decreases s.len(),
{
    if s.len() == 0 {
        None
    } else if s[0].address == address {
        Some(s[0])
    } else {
        spec_entry_with_address(s.drop_first(), address)
    }
}

/// The entry with the greatest address not above `address`, scanning from
/// the back of an address-sorted table.
pub open spec fn spec_predecessor(s: Seq<ChunkEntry>, address: u64) -> Option<ChunkEntry>
    decreases s.len(),
{
    if s.len() == 0 {
        None
    } else if s.last().address <= address {
        Some(s.last())
    } else {
        spec_predecessor(s.drop_last(), address)
    }
}

/// The entry whose span contains `address`: the predecessor by address,
/// if `address` falls short of its end.  A containment query never spans
/// into a neighboring chunk.
pub open spec fn spec_memory_lookup(s: Seq<ChunkEntry>, address: u64) -> Option<ChunkEntry> {
    match spec_predecessor(s, address) {
        Some(e) => if address < e.address + e.length {
            Some(e)
        } else {
            None
        },
        None => None,
    }
}

/// If no entry before `i` carries `address`, the search over the whole
/// table gives whatever the search from `i` on gives.
proof fn lemma_find_skip(s: Seq<ChunkEntry>, address: u64, i: int)
    requires
        0 <= i <= s.len(),
        forall|j: int| 0 <= j < i ==> (#[trigger] s[j]).address != address,
    ensures
        spec_entry_with_address(s, address) == spec_entry_with_address(s.skip(i), address),
    decreases i,
{
    if i == 0 {
        assert(s.skip(0) =~= s);
    } else {
        lemma_find_skip(s, address, i - 1);
        let t = s.skip(i - 1);
        assert(t[0] == s[i - 1]);
        assert(t[0].address != address);
        assert(spec_entry_with_address(t, address) == spec_entry_with_address(
            t.drop_first(),
            address,
        ));
        assert(t.drop_first() =~= s.skip(i));
    }
}

/// What a successful predecessor search guarantees: the entry sits in
/// the table and starts at or before the address.
proof fn lemma_predecessor_props(s: Seq<ChunkEntry>, address: u64)
    ensures
        spec_predecessor(s, address) matches Some(e) ==> (s.contains(e) && e.address <= address),
    decreases s.len(),
{
    if s.len() > 0 {
        if s.last().address <= address {
            assert(s.contains(s.last()));
        } else {
            lemma_predecessor_props(s.drop_last(), address);
            if spec_predecessor(s.drop_last(), address) is Some {
                let e = choose|e: ChunkEntry| spec_predecessor(s.drop_last(), address) == Some(e);
                assert(s.drop_last().contains(e));
                let i = choose|i: int|
                    0 <= i < s.drop_last().len() && s.drop_last()[i] == e;
                assert(s[i] == e);
                assert(s.contains(e));
            }
        }
    }
}

/// What a successful containment lookup guarantees: the entry sits in
/// the table, starts at or before the address, and still covers it.
pub proof fn lemma_memory_lookup_props(s: Seq<ChunkEntry>, address: u64)
    ensures
        spec_memory_lookup(s, address) matches Some(e) ==> (s.contains(e) && e.address <= address
            && address < e.address + e.length),
{
    lemma_predecessor_props(s, address);
}

/// If no entry before `i` is rejected, the scan of the whole table gives
/// whatever the scan from `i` gives.
proof fn lemma_scan_from(data: Seq<u8>, i: int)
    requires
        0 <= i <= spec_chunk_count(data),
        forall|j: int| 0 <= j < i ==> spec_entry_error(data, j) is None,
    ensures
        spec_scan_entries(data, 0) == spec_scan_entries(data, i),
    decreases i,
{
    if i > 0 {
        lemma_scan_from(data, i - 1);
        assert(spec_scan_entries(data, i - 1) == spec_scan_entries(data, i));
    }
}

/// A parsed, address-indexed view over one mapped dump file.
pub struct ConcatenatedDumpReader {
    mmap: Mmap,
    index: Vec<ChunkEntry>,
}

impl ConcatenatedDumpReader {
    /// The mapped bytes of the file.
    pub closed spec fn data(self) -> Seq<u8> {
        mmap_view(self.mmap)
    }

    /// The index entries, ordered by ascending address.
    pub closed spec fn entries(self) -> Seq<ChunkEntry> {
        self.index@
    }

    /// The reader's invariant: the file parsed without error, and the
    /// table holds exactly the file's entries, ordered by strictly
    /// ascending address, every data range lying before the index.
    pub open spec fn wf(self) -> bool {
        &&& self.data().len() >= 8
        &&& spec_open_error(self.data()) is None
        &&& spec_trailer_offset(self.data()) + 8 <= self.data().len()
        &&& entries_strictly_sorted(self.entries())
        &&& self.entries().to_multiset() == spec_raw_entries(self.data()).to_multiset()
        &&& forall|k: int|
            0 <= k < self.entries().len() ==> (#[trigger] self.entries()[k]).file_offset
                + self.entries()[k].length <= spec_trailer_offset(self.data())
    }

    /// Opens a mapped dump file: reads the trailer, validates the chunk
    /// count and every entry, and builds the address-ordered index.  Any
    /// violation rejects the whole file with the first error met; no
    /// partial reader is ever returned.
    pub fn open(mmap: Mmap) -> (r: Result<ConcatenatedDumpReader, DumpError>)
        ensures
            match r {
                Ok(reader) => {
                    &&& reader.data() == mmap_view(mmap)
                    &&& reader.wf()
                    &&& spec_open_error(mmap_view(mmap)) is None
                },
                Err(e) => spec_open_error(mmap_view(mmap)) == Some(e),
            },
    {
        let ghost data = mmap_view(mmap);
        let len = mmap_len(&mmap);
        if len < 8 {
            return Err(DumpError::FileTooSmall);
        }
        let trailer = mmap_slice(&mmap, len - 8, len);
        let index_offset_u64 = u64_from_le_bytes(trailer);
        proof {
            assert(trailer@ =~= data.subrange(data.len() - 8, data.len() as int));
            assert(index_offset_u64 == spec_trailer_offset(data));
        }
        if index_offset_u64 > (len - 8) as u64 {
            return Err(DumpError::BadIndexOffset);
        }
        let off = index_offset_u64 as usize;
        let count_bytes = mmap_slice(&mmap, off, off + 8);
        let count_u64 = u64_from_le_bytes(count_bytes);
        proof {
            assert(count_bytes@ =~= data.subrange(off as int, off + 8));
            assert(count_u64 == spec_chunk_count(data));
        }
        if count_u64 > (len / 24) as u64 {
            return Err(DumpError::BadChunkCount);
        }
        let count = count_u64 as usize;
        let entries_start = off + 8;
        let avail = len - entries_start;
        let ghost raw = spec_raw_entries(data);
        let mut index: Vec<ChunkEntry> = Vec::new();
        let mut i: usize = 0;
        proof {
            assert(index@.to_multiset() =~= raw.take(0).to_multiset());
        }
        while i < count
            invariant
                data == mmap_view(mmap),
                len == data.len(),
                len >= 8,
                off == spec_trailer_offset(data),
                index_offset_u64 == spec_trailer_offset(data),
                off + 8 <= len,
                entries_start == off + 8,
                avail == len - entries_start,
                count == spec_chunk_count(data),
                count <= len / 24,
                raw == spec_raw_entries(data),
                raw.len() == count,
                i <= count,
                forall|j: int| 0 <= j < i ==> spec_entry_error(data, j) is None,
                entries_strictly_sorted(index@),
                index@.to_multiset() == raw.take(i as int).to_multiset(),
                index@.len() == i,
                forall|k: int|
                    0 <= k < index@.len() ==> (#[trigger] index@[k]).file_offset
                        + index@[k].length <= off,
            decreases count - i,
        {
            proof {
                vstd::arithmetic::div_mod::lemma_fundamental_div_mod(len as int, 24);
                assert((i + 1) * 24 <= (len / 24) * 24);
            }
            let need = (i as u64 + 1) * 24;
            if need > avail as u64 {
                proof {
                    assert(!spec_entry_in_file(data, i as int));
                    lemma_scan_from(data, i as int);
                }
                return Err(DumpError::EntryOutOfBounds);
            }
            let entry_off = entries_start + i * 24;
            let eb = mmap_slice(&mmap, entry_off, entry_off + 24);
            let entry = match ChunkEntry::from_bytes(eb) {
                Ok(e) => e,
                Err(_) => unreached(),
            };
            proof {
                assert(eb@ =~= data.subrange(
                    spec_trailer_offset(data) + 8 + 24 * (i as int),
                    spec_trailer_offset(data) + 8 + 24 * (i as int) + 24,
                ));
                assert(entry == spec_entry_at(data, i as int));
                assert(spec_entry_in_file(data, i as int));
            }
            if entry.file_offset >= index_offset_u64 || entry.length > index_offset_u64
                - entry.file_offset {
                proof {
                    assert(!spec_entry_range_ok(data, i as int));
                    lemma_scan_from(data, i as int);
                }
                return Err(DumpError::BadEntryRange);
            }
            proof {
                assert(spec_entry_range_ok(data, i as int));
            }
            let mut pos: usize = 0;
            while pos < index.len() && index[pos].address < entry.address
                invariant
                    pos <= index@.len(),
                    forall|j: int| 0 <= j < pos ==> (#[trigger] index@[j]).address < entry.address,
                decreases index@.len() - pos,
            {
                pos = pos + 1;
            }
            if pos < index.len() && index[pos].address == entry.address {
                proof {
                    // the colliding table entry comes from an earlier raw entry
                    assert(index@.contains(index@[pos as int]));
                    assert(raw.take(i as int).to_multiset().count(index@[pos as int]) > 0);
                    assert(raw.take(i as int).contains(index@[pos as int]));
                    let j = choose|j: int|
                        0 <= j < raw.take(i as int).len() && raw.take(i as int)[j]
                            == index@[pos as int];
                    assert(raw[j] == index@[pos as int]);
                    assert(spec_entry_at(data, j).address == spec_entry_at(
                        data,
                        i as int,
                    ).address);
                    assert(spec_entry_duplicate(data, i as int));
                    lemma_scan_from(data, i as int);
                }
                return Err(DumpError::DuplicateAddress);
            }
            proof {
                // no table entry carries this address, so no earlier raw
                // entry does either
                assert forall|j: int| 0 <= j < i implies (#[trigger] spec_entry_at(
                    data,
                    j,
                )).address != entry.address by {
                    assert(raw.take(i as int)[j] == spec_entry_at(data, j));
                    assert(raw.take(i as int).contains(raw.take(i as int)[j]));
                    assert(index@.to_multiset().count(raw.take(i as int)[j]) > 0);
                    assert(index@.contains(raw.take(i as int)[j]));
                    let k = choose|k: int|
                        0 <= k < index@.len() && index@[k] == raw.take(i as int)[j];
                    if k < pos {
                        assert(index@[k].address < entry.address);
                    } else {
                        assert(pos < index@.len());
                        if k > pos {
                            assert(index@[pos as int].address < index@[k].address);
                        }
                        assert(index@[k].address > entry.address || index@[k].address
                            == index@[pos as int].address);
                        assert(index@[k].address != entry.address);
                    }
                }
                assert(!spec_entry_duplicate(data, i as int));
                assert(spec_entry_error(data, i as int) is None);
            }
            let ghost before = index@;
            index.insert(pos, entry);
            proof {
                assert(index@ == before.insert(pos as int, entry));
                assert forall|a: int, b: int|
                    0 <= a < b < index@.len() implies index@[a].address < index@[b].address by {
                    let ae = index@[a];
                    let be = index@[b];
                    if a < pos && b == pos {
                    } else if a == pos && b > pos {
                        assert(be == before[b - 1]);
                        assert(b - 1 >= pos);
                        if b - 1 == pos {
                            assert(be.address >= entry.address);
                            assert(be.address != entry.address);
                        } else {
                            assert(before[pos as int].address < before[b - 1].address);
                            assert(before[pos as int].address >= entry.address);
                        }
                    } else if a < pos && b > pos {
                        assert(ae == before[a]);
                        assert(be == before[b - 1]);
                        if b - 1 == a {
                        } else {
                            assert(before[a].address < before[b - 1].address);
                        }
                    } else if a > pos && b > pos {
                        assert(ae == before[a - 1]);
                        assert(be == before[b - 1]);
                        assert(before[a - 1].address < before[b - 1].address);
                    } else {
                        assert(a < pos && b < pos);
                        assert(ae == before[a] && be == before[b]);
                    }
                }
                vstd::seq_lib::to_multiset_insert(before, pos as int, entry);
                assert(raw.take(i + 1) =~= raw.take(i as int).push(raw[i as int]));
                assert(raw[i as int] == entry);
                assert(index@.to_multiset() =~= raw.take(i + 1).to_multiset());
            }
            i = i + 1;
        }
        proof {
            lemma_scan_from(data, count as int);
            assert(spec_scan_entries(data, count as int) is None);
            assert(spec_open_error(data) is None);
            assert(raw.take(count as int) =~= raw);
        }
        Ok(ConcatenatedDumpReader { mmap, index })
    }

    /// Lists every chunk as an `(address, length)` pair, ordered by
    /// ascending address.
    pub fn chunks(&self) -> (out: Vec<(u64, u64)>)
        requires
            self.wf(),
        ensures
            out@.len() == self.entries().len(),
            forall|k: int|
                0 <= k < out@.len() ==> #[trigger] out@[k] == (
                    self.entries()[k].address,
                    self.entries()[k].length,
                ),
    {
        let mut out: Vec<(u64, u64)> = Vec::new();
        let mut i: usize = 0;
        while i < self.index.len()
            invariant
                i <= self.index@.len(),
                out@.len() == i,
                forall|k: int|
                    0 <= k < i ==> #[trigger] out@[k] == (
                        self.index@[k].address,
                        self.index@[k].length,
                    ),
            decreases self.index@.len() - i,
        {
            out.push((self.index[i].address, self.index[i].length));
            i = i + 1;
        }
        out
    }

    /// Returns the bytes of the chunk that starts exactly at `address`,
    /// borrowed from the mapping, or nothing if no chunk starts there.
    pub fn get_chunk_slice<'a>(&'a self, address: u64) -> (r: Option<&'a [u8]>)
        requires
            self.wf(),
        ensures
            match spec_entry_with_address(self.entries(), address) {
                Some(e) => r matches Some(s) && s@ == self.data().subrange(
                    e.file_offset as int,
                    e.file_offset + e.length,
                ),
                None => r is None,
            },
    {
        let len = mmap_len(&self.mmap);
        let mut i: usize = 0;
        while i < self.index.len()
            invariant
                self.wf(),
                len == self.data().len(),
                i <= self.index@.len(),
                forall|j: int| 0 <= j < i ==> (#[trigger] self.index@[j]).address != address,
            decreases self.index@.len() - i,
        {
            let e = self.index[i];
            if e.address == address {
                proof {
                    lemma_find_skip(self.entries(), address, i as int);
                    assert(self.entries().skip(i as int)[0] == e);
                    assert(spec_entry_with_address(self.entries(), address) == Some(e));
                    assert(e.file_offset + e.length <= spec_trailer_offset(self.data()));
                }
                let start = e.file_offset as usize;
                let end = start + e.length as usize;
                return Some(mmap_slice(&self.mmap, start, end));
            }
            i = i + 1;
        }
        proof {
            lemma_find_skip(self.entries(), address, self.entries().len() as int);
            assert(self.entries().skip(self.entries().len() as int) =~= Seq::<
                ChunkEntry,
            >::empty());
        }
        None
    }

    /// Returns up to `length` bytes starting at `address`, borrowed from
    /// the mapping: the chunk whose span contains `address` serves the
    /// read, clamped to the bytes that chunk still has; the read never
    /// continues into a neighboring chunk.  An address no chunk contains
    /// gives nothing; a contained address with nothing left gives an
    /// empty borrow.
    pub fn get_memory_slice<'a>(&'a self, address: u64, length: usize) -> (r: Option<&'a [u8]>)
        requires
            self.wf(),
        ensures
            match spec_memory_lookup(self.entries(), address) {
                Some(e) => {
                    let start = e.file_offset + (address - e.address);
                    let n = if length <= e.length - (address - e.address) {
                        length as int
                    } else {
                        e.length - (address - e.address)
                    };
                    r matches Some(s) && s@ == self.data().subrange(start, start + n)
                },
                None => r is None,
            },
    {
        let len = mmap_len(&self.mmap);
        let mut k: usize = self.index.len();
        proof {
            assert(self.entries().take(k as int) =~= self.entries());
        }
        while k > 0
            invariant
                self.wf(),
                len == self.data().len(),
                k <= self.index@.len(),
                spec_predecessor(self.entries(), address) == spec_predecessor(
                    self.entries().take(k as int),
                    address,
                ),
            decreases k,
        {
            let e = self.index[k - 1];
            proof {
                assert(self.entries().take(k as int).last() == e);
                assert(self.entries().take(k as int).drop_last() =~= self.entries().take(
                    k - 1,
                ));
            }
            if e.address <= address {
                proof {
                    assert(spec_predecessor(self.entries(), address) == Some(e));
                    assert(e.file_offset + e.length <= spec_trailer_offset(self.data()));
                }
                let offset_in_chunk = address - e.address;
                if offset_in_chunk >= e.length {
                    return None;
                }
                let available = e.length - offset_in_chunk;
                let read_len: usize = if (length as u64) <= available {
                    length
                } else {
                    available as usize
                };
                let start = (e.file_offset + offset_in_chunk) as usize;
                let end = start + read_len;
                return Some(mmap_slice(&self.mmap, start, end));
            }
            k = k - 1;
        }
        proof {
            assert(self.entries().take(0) =~= Seq::<ChunkEntry>::empty());
        }
        None
    }
}

} // verus!
