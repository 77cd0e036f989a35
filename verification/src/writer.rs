//! Serialization of concatenated memory dumps.
//!
//! The writer accumulates chunks, sorts them by address, and emits the
//! file: every chunk's bytes in sorted order, then the index (count and
//! one 24-byte entry per chunk), then the 8-byte trailer holding the
//! offset where the index begins.

use crate::codec::{spec_entry_bytes, ChunkEntry, ChunkModel, MemoryChunk};
use vstd::bytes::*;
use vstd::prelude::*;
use vstd::seq_lib::group_to_multiset_ensures;

verus! {

broadcast use group_to_multiset_ensures;

/// Total number of data bytes of the chunks.
pub open spec fn spec_data_len(chunks: Seq<ChunkModel>) -> int
    decreases chunks.len(),
{
    if chunks.len() == 0 {
        0
    } else {
        chunks[0].data.len() + spec_data_len(chunks.drop_first())
    }
}

/// The concatenation of every chunk's bytes, in sequence order.
pub open spec fn spec_data_blob(chunks: Seq<ChunkModel>) -> Seq<u8>
    decreases chunks.len(),
{
    if chunks.len() == 0 {
        Seq::empty()
    } else {
        chunks[0].data + spec_data_blob(chunks.drop_first())
    }
}

/// The index entries describing chunks laid out from file offset `base` on.
pub open spec fn spec_entries(chunks: Seq<ChunkModel>, base: int) -> Seq<ChunkEntry>
    decreases chunks.len(),
{
    if chunks.len() == 0 {
        Seq::empty()
    } else {
        seq![
            ChunkEntry {
                address: chunks[0].address,
                file_offset: base as u64,
                length: chunks[0].data.len() as u64,
            },
        ] + spec_entries(chunks.drop_first(), base + chunks[0].data.len())
    }
}

/// The serialized form of a sequence of index entries.
pub open spec fn spec_index_bytes(entries: Seq<ChunkEntry>) -> Seq<u8>
    decreases entries.len(),
{
    if entries.len() == 0 {
        Seq::empty()
    } else {
        spec_entry_bytes(entries[0]) + spec_index_bytes(entries.drop_first())
    }
}

/// The whole dump file for a chunk sequence taken in the given order:
/// data blob, chunk count, entries, and the trailing index offset.
pub open spec fn spec_serialize(chunks: Seq<ChunkModel>) -> Seq<u8> {
    spec_data_blob(chunks) + spec_u64_to_le_bytes(chunks.len() as u64) + spec_index_bytes(
        spec_entries(chunks, 0),
    ) + spec_u64_to_le_bytes(spec_data_len(chunks) as u64)
}

/// `c` placed in front of the first chunk whose address is not below its own.
pub open spec fn spec_insert_sorted(c: ChunkModel, s: Seq<ChunkModel>) -> Seq<ChunkModel>
    decreases s.len(),
{
    if s.len() == 0 {
        seq![c]
    } else if c.address <= s[0].address {
        seq![c] + s
    } else {
        seq![s[0]] + spec_insert_sorted(c, s.drop_first())
    }
}

/// The chunks ordered by ascending address (insertion sort).
pub open spec fn spec_sort_chunks(s: Seq<ChunkModel>) -> Seq<ChunkModel>
    decreases s.len(),
{
    if s.len() == 0 {
        Seq::empty()
    } else {
        spec_insert_sorted(s.last(), spec_sort_chunks(s.drop_last()))
    }
}

/// Addresses appear in non-decreasing order.
pub open spec fn sorted_by_address(s: Seq<ChunkModel>) -> bool {
    forall|i: int, j: int| 0 <= i < j < s.len() ==> s[i].address <= s[j].address
}

/// No two chunks share one address.
pub open spec fn unique_addresses(s: Seq<ChunkModel>) -> bool {
    forall|i: int, j: int| 0 <= i < j < s.len() ==> s[i].address != s[j].address
}

/// Concatenation splits the total data length.
pub proof fn lemma_data_len_concat(a: Seq<ChunkModel>, b: Seq<ChunkModel>)
    ensures
        spec_data_len(a + b) == spec_data_len(a) + spec_data_len(b),
    decreases a.len(),
{
    if a.len() == 0 {
        assert(a + b =~= b);
    } else {
        assert((a + b).drop_first() =~= a.drop_first() + b);
        lemma_data_len_concat(a.drop_first(), b);
    }
}

/// Concatenation splits the data blob.
pub proof fn lemma_data_blob_concat(a: Seq<ChunkModel>, b: Seq<ChunkModel>)
    ensures
        spec_data_blob(a + b) =~= spec_data_blob(a) + spec_data_blob(b),
    decreases a.len(),
{
    if a.len() == 0 {
        assert(a + b =~= b);
    } else {
        assert((a + b).drop_first() =~= a.drop_first() + b);
        lemma_data_blob_concat(a.drop_first(), b);
    }
}

/// Concatenation splits the entry table, the second part shifted by the
/// first part's data length.
pub proof fn lemma_entries_concat(a: Seq<ChunkModel>, b: Seq<ChunkModel>, base: int)
    ensures
        spec_entries(a + b, base) =~= spec_entries(a, base) + spec_entries(
            b,
            base + spec_data_len(a),
        ),
    decreases a.len(),
{
    if a.len() == 0 {
        assert(a + b =~= b);
    } else {
        assert((a + b).drop_first() =~= a.drop_first() + b);
        lemma_entries_concat(a.drop_first(), b, base + a[0].data.len());
    }
}

/// Concatenation splits the serialized entry table.
pub proof fn lemma_index_bytes_concat(a: Seq<ChunkEntry>, b: Seq<ChunkEntry>)
    ensures
        spec_index_bytes(a + b) =~= spec_index_bytes(a) + spec_index_bytes(b),
    decreases a.len(),
{
    if a.len() == 0 {
        assert(a + b =~= b);
    } else {
        assert((a + b).drop_first() =~= a.drop_first() + b);
        lemma_index_bytes_concat(a.drop_first(), b);
    }
}

/// The data blob holds exactly the total data length in bytes.
pub proof fn lemma_data_blob_len(chunks: Seq<ChunkModel>)
    ensures
        spec_data_blob(chunks).len() == spec_data_len(chunks),
        spec_data_len(chunks) >= 0,
    decreases chunks.len(),
{
    if chunks.len() > 0 {
        lemma_data_blob_len(chunks.drop_first());
    }
}

/// The serialized entry table holds 24 bytes per entry.
pub proof fn lemma_index_bytes_len(entries: Seq<ChunkEntry>)
    ensures
        spec_index_bytes(entries).len() == 24 * entries.len(),
    decreases entries.len(),
{
    lemma_auto_spec_u64_to_from_le_bytes();
    if entries.len() > 0 {
        lemma_index_bytes_len(entries.drop_first());
    }
}

/// There is one index entry per chunk.
pub proof fn lemma_entries_len(chunks: Seq<ChunkModel>, base: int)
    ensures
        spec_entries(chunks, base).len() == chunks.len(),
    decreases chunks.len(),
{
    if chunks.len() > 0 {
        lemma_entries_len(chunks.drop_first(), base + chunks[0].data.len());
    }
}

/// Inserting into a sorted sequence keeps it sorted, keeps the multiset of
/// chunks, and grows the length by one.
pub proof fn lemma_insert_sorted_ensures(c: ChunkModel, s: Seq<ChunkModel>)
    requires
        sorted_by_address(s),
    ensures
        sorted_by_address(spec_insert_sorted(c, s)),
        spec_insert_sorted(c, s).to_multiset() == s.to_multiset().insert(c),
        spec_insert_sorted(c, s).len() == s.len() + 1,
    decreases s.len(),
{
    if s.len() == 0 {
        assert(spec_insert_sorted(c, s) =~= seq![c]);
        assert(seq![c] =~= Seq::<ChunkModel>::empty().push(c));
        assert(seq![c].to_multiset() =~= s.to_multiset().insert(c));
    } else if c.address <= s[0].address {
        let r = seq![c] + s;
        assert forall|i: int, j: int| 0 <= i < j < r.len() implies r[i].address
            <= r[j].address by {
            if i > 0 {
                assert(s[i - 1].address <= s[j - 1].address);
            }
        }
        lemma_to_multiset_cons(c, s);
    } else {
        assert(sorted_by_address(s.drop_first()));
        lemma_insert_sorted_ensures(c, s.drop_first());
        let t = spec_insert_sorted(c, s.drop_first());
        let r = seq![s[0]] + t;
        assert(spec_insert_sorted(c, s) == r);
        // every element of t is either c or an element of s's tail, so it
        // cannot fall below s[0]
        assert forall|i: int, j: int| 0 <= i < j < r.len() implies r[i].address
            <= r[j].address by {
            if i == 0 {
                assert(t.to_multiset().count(r[j]) > 0);
                assert(t.contains(r[j]));
                let k = choose|k: int| 0 <= k < t.len() && t[k] == r[j];
                assert(s.to_multiset().insert(c).count(t[k]) > 0);
                if t[k] == c {
                    assert(r[i].address <= r[j].address);
                } else {
                    assert(s.drop_first().to_multiset().count(t[k]) > 0);
                    assert(s.drop_first().contains(t[k]));
                    let m = choose|m: int| 0 <= m < s.drop_first().len() && s.drop_first()[m]
                        == t[k];
                    assert(s[0].address <= s[m + 1].address);
                }
            } else {
                assert(t[i - 1].address <= t[j - 1].address);
            }
        }
        lemma_to_multiset_cons(s[0], t);
        lemma_to_multiset_cons(s[0], s.drop_first());
        assert(s =~= seq![s[0]] + s.drop_first());
        assert(r.to_multiset() =~= s.to_multiset().insert(c));
    }
}

/// Prepending one element inserts it into the multiset.
proof fn lemma_to_multiset_cons(c: ChunkModel, s: Seq<ChunkModel>)
    ensures
        (seq![c] + s).to_multiset() == s.to_multiset().insert(c),
    decreases s.len(),
{
    if s.len() == 0 {
        assert(seq![c] + s =~= Seq::<ChunkModel>::empty().push(c));
    } else {
        let front = seq![c] + s;
        assert(front =~= front.drop_last().push(s.last()));
        assert(front.drop_last() =~= seq![c] + s.drop_last());
        lemma_to_multiset_cons(c, s.drop_last());
        assert(s =~= s.drop_last().push(s.last()));
        assert(front.to_multiset() =~= front.drop_last().to_multiset().insert(s.last()));
        assert(s.to_multiset() =~= s.drop_last().to_multiset().insert(s.last()));
        assert(front.to_multiset() =~= s.to_multiset().insert(c)) by {
            assert(front.drop_last().to_multiset() =~= s.drop_last().to_multiset().insert(c));
        }
    }
}

/// Removing one chunk keeps the remaining addresses pairwise distinct.
proof fn lemma_unique_addresses_remove(a: Seq<ChunkModel>, m: int)
    requires
        unique_addresses(a),
        0 <= m < a.len(),
    ensures
        unique_addresses(a.remove(m)),
{
    let r = a.remove(m);
    assert forall|i: int, j: int| 0 <= i < j < r.len() implies r[i].address != r[j].address by {
        let i0 = if i < m {
            i
        } else {
            i + 1
        };
        let j0 = if j < m {
            j
        } else {
            j + 1
        };
        assert(r[i] == a[i0]);
        assert(r[j] == a[j0]);
    }
}

/// A permutation of chunks with pairwise distinct addresses again has
/// pairwise distinct addresses.
proof fn lemma_unique_addresses_perm(a: Seq<ChunkModel>, b: Seq<ChunkModel>)
    requires
        a.to_multiset() == b.to_multiset(),
        unique_addresses(a),
    ensures
        unique_addresses(b),
    decreases b.len(),
{
    if b.len() > 0 {
        let last = b.last();
        assert(b.contains(last));
        assert(a.to_multiset().count(last) > 0);
        assert(a.contains(last));
        let m = choose|m: int| 0 <= m < a.len() && a[m] == last;
        let a2 = a.remove(m);
        let b2 = b.remove(b.len() - 1);
        assert(b2 =~= b.drop_last());
        assert(a2.to_multiset() =~= b2.to_multiset());
        lemma_unique_addresses_remove(a, m);
        lemma_unique_addresses_perm(a2, b2);
        assert forall|i: int, j: int| 0 <= i < j < b.len() implies b[i].address
            != b[j].address by {
            if j < b.len() - 1 {
                assert(b2[i] == b[i] && b2[j] == b[j]);
            } else {
                // b[i] sits in b2, hence in a with an index other than m
                assert(b2[i] == b[i]);
                assert(b2.contains(b[i]));
                assert(a2.to_multiset().count(b[i]) > 0);
                assert(a2.contains(b[i]));
                let p = choose|p: int| 0 <= p < a2.len() && a2[p] == b[i];
                let p0 = if p < m {
                    p
                } else {
                    p + 1
                };
                assert(a2[p] == a[p0]);
                assert(a[p0].address != a[m].address);
            }
        }
    }
}

/// Two sequences that are sorted by address, are permutations of each
/// other, and have pairwise distinct addresses are equal.
proof fn lemma_sorted_unique_perm(a: Seq<ChunkModel>, b: Seq<ChunkModel>)
    requires
        sorted_by_address(a),
        sorted_by_address(b),
        unique_addresses(a),
        unique_addresses(b),
        a.to_multiset() == b.to_multiset(),
    ensures
        a == b,
    decreases a.len(),
{
    assert(a.to_multiset().len() == a.len());
    assert(b.to_multiset().len() == b.len());
    if a.len() == 0 {
        assert(a =~= b);
    } else {
        let last = a.last();
        assert(a.contains(last));
        assert(b.to_multiset().count(last) > 0);
        assert(b.contains(last));
        let k = choose|k: int| 0 <= k < b.len() && b[k] == last;
        if k < b.len() - 1 {
            // b's own last element would then exceed a's maximal address
            let bl = b.last();
            assert(b.contains(bl));
            assert(a.to_multiset().count(bl) > 0);
            assert(a.contains(bl));
            let j = choose|j: int| 0 <= j < a.len() && a[j] == bl;
            assert(b[k].address != bl.address);
            assert(b[k].address <= bl.address);
            assert(a[j].address <= last.address);
            assert(false);
        }
        assert(b.last() == last);
        let a2 = a.remove(a.len() - 1);
        let b2 = b.remove(b.len() - 1);
        assert(a2 =~= a.drop_last());
        assert(b2 =~= b.drop_last());
        assert(a2.to_multiset() =~= b2.to_multiset());
        lemma_unique_addresses_remove(a, a.len() - 1);
        lemma_unique_addresses_remove(b, b.len() - 1);
        lemma_sorted_unique_perm(a2, b2);
        assert(a =~= a2.push(last));
        assert(b =~= b2.push(last));
    }
}

/// Sorting orders the chunks by address and permutes them.
pub proof fn lemma_sort_chunks_ensures(s: Seq<ChunkModel>)
    ensures
        sorted_by_address(spec_sort_chunks(s)),
        spec_sort_chunks(s).to_multiset() == s.to_multiset(),
        spec_sort_chunks(s).len() == s.len(),
    decreases s.len(),
{
    if s.len() > 0 {
        lemma_sort_chunks_ensures(s.drop_last());
        lemma_insert_sorted_ensures(s.last(), spec_sort_chunks(s.drop_last()));
        assert(s =~= s.drop_last().push(s.last()));
        assert(s.to_multiset() =~= s.drop_last().to_multiset().insert(s.last()));
    }
}

/// Size in bytes of the serialized dump: the data, 24 bytes per index
/// entry, and 8 bytes each for the chunk count and the trailer.
pub open spec fn spec_dump_size(chunks: Seq<ChunkModel>) -> int {
    spec_data_len(chunks) + 24 * chunks.len() + 16
}

/// The serialized dump is exactly `spec_dump_size` bytes long.
pub proof fn lemma_serialize_len(chunks: Seq<ChunkModel>)
    ensures
        spec_serialize(chunks).len() == spec_dump_size(chunks),
{
    lemma_auto_spec_u64_to_from_le_bytes();
    lemma_data_blob_len(chunks);
    lemma_entries_len(chunks, 0);
    lemma_index_bytes_len(spec_entries(chunks, 0));
}

/// Ordering invariance: two insertion orders of one chunk set, with
/// pairwise distinct addresses, sort to the same sequence and therefore
/// serialize to byte-identical output.
pub proof fn lemma_order_invariance(a: Seq<ChunkModel>, b: Seq<ChunkModel>)
    requires
        a.to_multiset() == b.to_multiset(),
        unique_addresses(a),
    ensures
        spec_sort_chunks(a) == spec_sort_chunks(b),
        spec_serialize(spec_sort_chunks(a)) == spec_serialize(spec_sort_chunks(b)),
{
    lemma_sort_chunks_ensures(a);
    lemma_sort_chunks_ensures(b);
    lemma_unique_addresses_perm(a, spec_sort_chunks(a));
    lemma_unique_addresses_perm(a, b);
    lemma_unique_addresses_perm(b, spec_sort_chunks(b));
    lemma_sorted_unique_perm(spec_sort_chunks(a), spec_sort_chunks(b));
}

/// Trailer consistency: the last 8 bytes of a serialized dump decode to
/// the combined byte length of all chunk data written before the index.
pub proof fn lemma_trailer_consistency(chunks: Seq<ChunkModel>)
    requires
        spec_data_len(chunks) <= u64::MAX,
    ensures
        spec_u64_from_le_bytes(
            spec_serialize(chunks).subrange(
                spec_serialize(chunks).len() - 8,
                spec_serialize(chunks).len() as int,
            ),
        ) == spec_data_len(chunks),
{
    lemma_auto_spec_u64_to_from_le_bytes();
    let s = spec_serialize(chunks);
    lemma_serialize_len(chunks);
    lemma_data_blob_len(chunks);
    lemma_index_bytes_len(spec_entries(chunks, 0));
    lemma_entries_len(chunks, 0);
    assert(s.subrange(s.len() - 8, s.len() as int) =~= spec_u64_to_le_bytes(
        spec_data_len(chunks) as u64,
    ));
}

/// Inserting at the first position whose address is not below `c`'s is
/// what the recursive insertion function does.
proof fn lemma_insert_sorted_at(c: ChunkModel, s: Seq<ChunkModel>, idx: int)
    requires
        0 <= idx <= s.len(),
        forall|j: int| 0 <= j < idx ==> s[j].address < c.address,
        idx < s.len() ==> c.address <= s[idx].address,
    ensures
        spec_insert_sorted(c, s) =~= s.take(idx) + seq![c] + s.skip(idx),
    decreases s.len(),
{
    if s.len() == 0 {
        assert(spec_insert_sorted(c, s) =~= seq![c]);
    } else if idx == 0 {
        assert(spec_insert_sorted(c, s) =~= seq![c] + s);
    } else {
        assert(s[0].address < c.address);
        lemma_insert_sorted_at(c, s.drop_first(), idx - 1);
        assert(s.drop_first().take(idx - 1) =~= s.take(idx).drop_first());
        assert(s.drop_first().skip(idx - 1) =~= s.skip(idx));
        assert(seq![s[0]] + (s.take(idx).drop_first() + seq![c] + s.skip(idx)) =~= s.take(idx)
            + seq![c] + s.skip(idx));
    }
}

/// The models of a sequence of chunks.
pub open spec fn chunk_models(v: Seq<MemoryChunk>) -> Seq<ChunkModel> {
    v.map_values(|c: MemoryChunk| c@)
}

/// Unfolds the recursive layout functions on a one-chunk sequence.
pub proof fn lemma_singleton_chunk(c: ChunkModel, base: int)
    ensures
        spec_data_len(seq![c]) == c.data.len(),
        spec_data_blob(seq![c]) =~= c.data,
        spec_entries(seq![c], base) =~= seq![
            ChunkEntry { address: c.address, file_offset: base as u64, length: c.data.len() as u64 },
        ],
{
    let e = Seq::<ChunkModel>::empty();
    assert(seq![c].drop_first() =~= e);
    assert(seq![c][0] == c);
    assert(spec_data_len(e) == 0);
    assert(spec_data_blob(e) =~= Seq::<u8>::empty());
    assert(spec_entries(e, base + c.data.len()) =~= Seq::<ChunkEntry>::empty());
    assert(spec_data_blob(seq![c]) =~= c.data + spec_data_blob(e));
    assert(spec_entries(seq![c], base) =~= seq![
        ChunkEntry { address: c.address, file_offset: base as u64, length: c.data.len() as u64 },
    ] + spec_entries(e, base + c.data.len()));
}

/// Unfolds the index serialization on a one-entry sequence.
proof fn lemma_singleton_entry(e: ChunkEntry)
    ensures
        spec_index_bytes(seq![e]) =~= spec_entry_bytes(e),
{
    let ee = Seq::<ChunkEntry>::empty();
    assert(seq![e].drop_first() =~= ee);
    assert(seq![e][0] == e);
    assert(spec_index_bytes(ee) =~= Seq::<u8>::empty());
    assert(spec_index_bytes(seq![e]) =~= spec_entry_bytes(e) + spec_index_bytes(ee));
}

/// Inserts `c` into `acc`, which is sorted by address, keeping the order.
fn insert_chunk_sorted(acc: &mut Vec<MemoryChunk>, c: MemoryChunk)
    requires
        sorted_by_address(chunk_models(old(acc)@)),
        old(acc)@.len() < usize::MAX,
    ensures
        chunk_models(final(acc)@) == spec_insert_sorted(c@, chunk_models(old(acc)@)),
{
    let ghost s = chunk_models(acc@);
    let ghost cm = c@;
    let mut idx: usize = 0;
    while idx < acc.len() && acc[idx].address < c.address
        invariant
            idx <= acc@.len(),
            acc@ == old(acc)@,
            forall|j: int| 0 <= j < idx ==> acc@[j].address < c.address,
        decreases acc@.len() - idx,
    {
        idx = idx + 1;
    }
    acc.insert(idx, c);
    proof {
        assert(forall|j: int| 0 <= j < idx ==> s[j] == old(acc)@[j]@);
        assert(idx < s.len() ==> cm.address <= s[idx as int].address);
        lemma_insert_sorted_at(cm, s, idx as int);
        assert(chunk_models(acc@) =~= s.take(idx as int) + seq![cm] + s.skip(idx as int));
    }
}

/// Sorts the chunks by ascending address.
fn sort_chunks_by_address(v: Vec<MemoryChunk>) -> (out: Vec<MemoryChunk>)
    ensures
        chunk_models(out@) == spec_sort_chunks(chunk_models(v@)),
{
    let ghost m = chunk_models(v@);
    let mut rest = v;
    let n = rest.len();
    let mut acc: Vec<MemoryChunk> = Vec::new();
    proof {
        assert(m.len() == n as int);
        assert(chunk_models(rest@) =~= m.skip(0));
        assert(chunk_models(acc@) =~= spec_sort_chunks(m.take(0)));
    }
    while rest.len() > 0
        invariant
            m.len() == n as int,
            rest@.len() <= m.len(),
            chunk_models(rest@) =~= m.skip(m.len() - rest@.len()),
            chunk_models(acc@) == spec_sort_chunks(m.take(m.len() - rest@.len())),
            acc@.len() == m.len() - rest@.len(),
        decreases rest@.len(),
    {
        let ghost k = m.len() - rest@.len();
        let ghost prev = rest@;
        let c = rest.remove(0);
        proof {
            assert(chunk_models(prev)[0] == prev[0]@);
            assert(chunk_models(prev)[0] == m.skip(k)[0]);
            assert(m.skip(k)[0] == m[k]);
            assert(rest@ =~= prev.skip(1));
            assert(chunk_models(rest@) =~= chunk_models(prev).skip(1));
            assert(chunk_models(prev).skip(1) =~= m.skip(k).skip(1));
            assert(m.skip(k).skip(1) =~= m.skip(k + 1));
            lemma_sort_chunks_ensures(m.take(k));
        }
        insert_chunk_sorted(&mut acc, c);
        proof {
            assert(m.take(k + 1).drop_last() =~= m.take(k));
            assert(m.take(k + 1).last() == m[k]);
            lemma_sort_chunks_ensures(m.take(k));
            lemma_insert_sorted_ensures(m[k], spec_sort_chunks(m.take(k)));
            assert(chunk_models(acc@) == spec_insert_sorted(m[k], spec_sort_chunks(m.take(k))));
            assert(acc@.len() == chunk_models(acc@).len());
            assert(spec_sort_chunks(m.take(k + 1)) == spec_insert_sorted(
                m.take(k + 1).last(),
                spec_sort_chunks(m.take(k + 1).drop_last()),
            ));
        }
    }
    proof {
        assert(m.take(m.len() as int) =~= m);
    }
    acc
}

/// Accumulates memory chunks and serializes them as one dump file.
pub struct ConcatenatedDumpWriter {
    chunks: Vec<MemoryChunk>,
}

impl ConcatenatedDumpWriter {
    /// The models of the chunks added so far, in insertion order.
    pub closed spec fn chunks_model(self) -> Seq<ChunkModel> {
        chunk_models(self.chunks@)
    }

    /// A new writer holding no chunks yet.
    pub fn new() -> (w: Self)
        ensures
            w.chunks_model() == Seq::<ChunkModel>::empty(),
    {
        let w = ConcatenatedDumpWriter { chunks: Vec::new() };
        proof {
            assert(w.chunks_model() =~= Seq::<ChunkModel>::empty());
        }
        w
    }

    /// Appends one chunk.  Nothing is validated here: duplicate or
    /// overlapping addresses surface only when a reader opens the result.
    pub fn add_chunk(&mut self, chunk: MemoryChunk)
        requires
            old(self).chunks_model().len() < usize::MAX,
        ensures
            final(self).chunks_model() == old(self).chunks_model().push(chunk@),
    {
        let ghost cm = chunk@;
        let ghost before = self.chunks@;
        self.chunks.push(chunk);
        proof {
            assert(self.chunks@ =~= before.push(self.chunks@.last()));
            assert(chunk_models(self.chunks@) =~= chunk_models(before).push(cm));
        }
    }

    /// Serializes the dump and consumes the writer: every chunk's bytes in
    /// ascending address order, then the chunk count, the index entries,
    /// and the trailing index offset.
    pub fn write(self) -> (out: Vec<u8>)
        requires
            spec_dump_size(spec_sort_chunks(self.chunks_model())) <= usize::MAX,
        ensures
            out@ == spec_serialize(spec_sort_chunks(self.chunks_model())),
    {
        let ghost m = self.chunks_model();
        let ghost sm = spec_sort_chunks(m);
        let ConcatenatedDumpWriter { chunks } = self;
        let sorted = sort_chunks_by_address(chunks);
        proof {
            lemma_serialize_len(sm);
            lemma_data_blob_len(sm);
            lemma_sort_chunks_ensures(m);
        }
        let mut out: Vec<u8> = Vec::new();
        let mut entries: Vec<ChunkEntry> = Vec::new();
        let mut current_offset: u64 = 0;
        let mut i: usize = 0;
        proof {
            assert(out@ =~= spec_data_blob(sm.take(0)));
            assert(entries@ =~= spec_entries(sm.take(0), 0));
        }
        while i < sorted.len()
            invariant
                chunk_models(sorted@) == sm,
                spec_dump_size(sm) <= usize::MAX,
                sm.len() == sorted@.len(),
                i <= sorted@.len(),
                out@ == spec_data_blob(sm.take(i as int)),
                entries@ == spec_entries(sm.take(i as int), 0),
                current_offset == spec_data_len(sm.take(i as int)),
            decreases sorted@.len() - i,
        {
            let ghost pre = sm.take(i as int);
            proof {
                assert(sm.take(i + 1) =~= pre + seq![sm[i as int]]);
                lemma_data_len_concat(pre, seq![sm[i as int]]);
                lemma_data_blob_concat(pre, seq![sm[i as int]]);
                lemma_entries_concat(pre, seq![sm[i as int]], 0);
                lemma_singleton_chunk(sm[i as int], spec_data_len(pre));
                // the running offset stays below the total dump size
                assert(sm =~= sm.take(i + 1) + sm.skip(i + 1));
                lemma_data_len_concat(sm.take(i + 1), sm.skip(i + 1));
                lemma_data_blob_len(sm.skip(i + 1));
                lemma_data_blob_len(sm.take(i + 1));
                lemma_data_blob_len(pre);
                assert(sm[i as int] == sorted@[i as int]@);
            }
            let data_len = sorted[i].data.len();
            out.extend_from_slice(sorted[i].data.as_slice());
            entries.push(
                ChunkEntry {
                    address: sorted[i].address,
                    file_offset: current_offset,
                    length: data_len as u64,
                },
            );
            current_offset = current_offset + (data_len as u64);
            i = i + 1;
        }
        proof {
            assert(sm.take(sm.len() as int) =~= sm);
            lemma_entries_len(sm, 0);
        }
        let count = entries.len() as u64;
        let mut count_bytes = u64_to_le_bytes(count);
        out.append(&mut count_bytes);
        let index_offset = current_offset;
        let ghost all_entries = spec_entries(sm, 0);
        let ghost head = spec_data_blob(sm) + spec_u64_to_le_bytes(sm.len() as u64);
        let mut j: usize = 0;
        proof {
            assert(out@ =~= head + spec_index_bytes(all_entries.take(0)));
        }
        while j < entries.len()
            invariant
                entries@ == all_entries,
                all_entries.len() == sm.len(),
                j <= entries@.len(),
                out@ == head + spec_index_bytes(all_entries.take(j as int)),
            decreases entries@.len() - j,
        {
            let mut eb = entries[j].to_bytes();
            out.append(&mut eb);
            proof {
                assert(all_entries.take(j + 1) =~= all_entries.take(j as int) + seq![
                    all_entries[j as int],
                ]);
                lemma_index_bytes_concat(all_entries.take(j as int), seq![all_entries[j as int]]);
                lemma_singleton_entry(all_entries[j as int]);
            }
            j = j + 1;
        }
        let mut trailer = u64_to_le_bytes(index_offset);
        out.append(&mut trailer);
        proof {
            assert(all_entries.take(all_entries.len() as int) =~= all_entries);
            assert(out@ =~= spec_serialize(sm));
        }
        out
    }
}

} // verus!
