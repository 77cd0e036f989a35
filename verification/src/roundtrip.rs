//! End-to-end guarantees of the dump format: what the writer emits, the
//! reader accepts and serves back unchanged, and corrupt files are
//! rejected before any query can run.

use crate::codec::{
    lemma_entry_round_trip, spec_entry_bytes, spec_parse_entry, ChunkEntry, ChunkModel, DumpError,
};
use crate::reader::{
    spec_chunk_count, spec_entry_at, spec_entry_duplicate, spec_entry_error, spec_entry_in_file,
    spec_entry_range_ok, spec_entry_with_address, spec_open_error, spec_raw_entries,
    spec_scan_entries, spec_trailer_offset,
};
use crate::writer::{
    lemma_data_blob_concat, lemma_data_blob_len, lemma_data_len_concat, lemma_entries_concat,
    lemma_entries_len, lemma_index_bytes_concat, lemma_index_bytes_len, lemma_serialize_len,
    lemma_singleton_chunk,
    sorted_by_address, spec_data_blob, spec_data_len, spec_dump_size, spec_entries,
    spec_index_bytes, spec_serialize, unique_addresses,
};
use vstd::bytes::{lemma_auto_spec_u64_to_from_le_bytes, spec_u64_to_le_bytes};
use vstd::prelude::*;
use vstd::seq_lib::group_to_multiset_ensures;

verus! {

broadcast use group_to_multiset_ensures;

/// Truncation is rejected: a file of fewer than 8 bytes cannot hold a
/// trailer and fails to open.
pub proof fn lemma_truncation_rejected(data: Seq<u8>)
    requires
        data.len() < 8,
    ensures
        spec_open_error(data) == Some(DumpError::FileTooSmall),
{
}

/// An out-of-range trailer is rejected: when the recorded index offset
/// does not leave room for a chunk count inside the file, opening fails.
pub proof fn lemma_bad_trailer_rejected(data: Seq<u8>)
    requires
        data.len() >= 8,
        spec_trailer_offset(data) + 8 > data.len(),
    ensures
        spec_open_error(data) == Some(DumpError::BadIndexOffset),
{
}

/// The serialized entry table holds each entry's 24 bytes at its slot.
proof fn lemma_index_bytes_at(entries: Seq<ChunkEntry>, i: int)
    requires
        0 <= i < entries.len(),
    ensures
        spec_index_bytes(entries).subrange(24 * i, 24 * i + 24) =~= spec_entry_bytes(entries[i]),
    decreases i,
{
    lemma_auto_spec_u64_to_from_le_bytes();
    lemma_index_bytes_len(entries);
    lemma_index_bytes_len(entries.drop_first());
    if i == 0 {
        assert(spec_entry_bytes(entries[0]).len() == 24);
        assert(spec_index_bytes(entries) == spec_entry_bytes(entries[0]) + spec_index_bytes(
            entries.drop_first(),
        ));
    } else {
        lemma_index_bytes_at(entries.drop_first(), i - 1);
        assert(entries.drop_first()[i - 1] == entries[i]);
        assert(spec_entry_bytes(entries[0]).len() == 24);
        assert(spec_index_bytes(entries) == spec_entry_bytes(entries[0]) + spec_index_bytes(
            entries.drop_first(),
        ));
        assert(spec_index_bytes(entries).subrange(24 * i, 24 * i + 24) =~= spec_index_bytes(
            entries.drop_first(),
        ).subrange(24 * (i - 1), 24 * (i - 1) + 24));
    }
}

/// The entry table records, for chunk `i`, its address, the running data
/// offset, and its length.
proof fn lemma_entries_at(ss: Seq<ChunkModel>, base: int, i: int)
    requires
        0 <= i < ss.len(),
    ensures
        spec_entries(ss, base)[i] == (ChunkEntry {
            address: ss[i].address,
            file_offset: (base + spec_data_len(ss.take(i))) as u64,
            length: ss[i].data.len() as u64,
        }),
    decreases i,
{
    lemma_entries_len(ss, base);
    if i == 0 {
        assert(ss.take(0) =~= Seq::<ChunkModel>::empty());
    } else {
        lemma_entries_at(ss.drop_first(), base + ss[0].data.len(), i - 1);
        assert(ss.drop_first()[i - 1] == ss[i]);
        assert(ss.take(i) =~= seq![ss[0]] + ss.drop_first().take(i - 1));
        lemma_data_len_concat(seq![ss[0]], ss.drop_first().take(i - 1));
        lemma_singleton_chunk(ss[0], 0);
        lemma_entries_len(ss.drop_first(), base + ss[0].data.len());
        assert(spec_entries(ss, base)[i] == spec_entries(
            ss.drop_first(),
            base + ss[0].data.len(),
        )[i - 1]);
    }
}

/// Partial data lengths grow with the prefix.
proof fn lemma_data_len_take_le(ss: Seq<ChunkModel>, i: int, j: int)
    requires
        0 <= i <= j <= ss.len(),
    ensures
        spec_data_len(ss.take(i)) <= spec_data_len(ss.take(j)),
{
    assert(ss.take(j) =~= ss.take(i) + ss.take(j).skip(i));
    lemma_data_len_concat(ss.take(i), ss.take(j).skip(i));
    lemma_data_blob_len(ss.take(j).skip(i));
}

/// The data blob holds chunk `i`'s bytes at its running offset.
proof fn lemma_blob_at(ss: Seq<ChunkModel>, i: int)
    requires
        0 <= i < ss.len(),
    ensures
        spec_data_blob(ss).subrange(
            spec_data_len(ss.take(i)),
            spec_data_len(ss.take(i)) + ss[i].data.len(),
        ) =~= ss[i].data,
{
    assert(ss =~= ss.take(i) + ss.skip(i));
    lemma_data_blob_concat(ss.take(i), ss.skip(i));
    lemma_data_blob_len(ss.take(i));
    lemma_data_blob_len(ss.skip(i));
    lemma_data_len_concat(ss.take(i), ss.skip(i));
    assert(ss.skip(i)[0] == ss[i]);
    assert(spec_data_blob(ss.skip(i)) == ss[i].data + spec_data_blob(ss.skip(i).drop_first()));
    lemma_data_blob_len(ss.take(i));
}

/// If no entry from `i` on is rejected, the scan from `i` accepts.
proof fn lemma_scan_none(data: Seq<u8>, i: int)
    requires
        0 <= i <= spec_chunk_count(data),
        forall|j: int|
            i <= j < spec_chunk_count(data) ==> #[trigger] spec_entry_error(data, j) is None,
    ensures
        spec_scan_entries(data, i) is None,
    decreases spec_chunk_count(data) - i,
{
    if i < spec_chunk_count(data) {
        lemma_scan_none(data, i + 1);
    }
}

/// A dump serialized from chunks sorted by strictly ascending address,
/// whose last chunk is non-empty, parses without error and its raw entry
/// table is exactly the writer's entry table.
pub proof fn lemma_serialized_parses(ss: Seq<ChunkModel>)
    requires
        sorted_by_address(ss),
        unique_addresses(ss),
        spec_dump_size(ss) <= usize::MAX,
        ss.len() > 0 ==> ss.last().data.len() > 0,
    ensures
        spec_open_error(spec_serialize(ss)) is None,
        spec_trailer_offset(spec_serialize(ss)) == spec_data_len(ss),
        spec_chunk_count(spec_serialize(ss)) == ss.len(),
        spec_raw_entries(spec_serialize(ss)) == spec_entries(ss, 0),
{
    lemma_auto_spec_u64_to_from_le_bytes();
    let data = spec_serialize(ss);
    let n = ss.len() as int;
    let d = spec_data_len(ss);
    let blob = spec_data_blob(ss);
    let ib = spec_index_bytes(spec_entries(ss, 0));
    lemma_serialize_len(ss);
    lemma_data_blob_len(ss);
    lemma_entries_len(ss, 0);
    lemma_index_bytes_len(spec_entries(ss, 0));
    assert(data.len() == d + 16 + 24 * n);
    // the trailer decodes to the total data length
    assert(data.subrange(data.len() - 8, data.len() as int) =~= spec_u64_to_le_bytes(d as u64));
    assert(spec_trailer_offset(data) == d);
    // the chunk count sits where the trailer points
    assert(data.subrange(d, d + 8) =~= spec_u64_to_le_bytes(n as u64));
    assert(spec_chunk_count(data) == n);
    // the count passes its plausibility cap
    assert(n <= data.len() / 24) by {
        vstd::arithmetic::div_mod::lemma_fundamental_div_mod(data.len() as int, 24);
        assert(24 * n <= data.len());
        let q = data.len() / 24;
        let r = data.len() % 24;
        assert(data.len() == 24 * q + r);
        assert(24 * n <= 24 * q + r);
        assert(n <= q) by (nonlinear_arith)
            requires
                24 * n <= 24 * q + r,
                0 <= r < 24,
        ;
    }
    // every entry record sits inside the file and parses to the writer's
    // entry
    assert forall|i: int| 0 <= i < n implies #[trigger] spec_entry_at(data, i) == spec_entries(
        ss,
        0,
    )[i] && spec_entry_in_file(data, i) by {
        lemma_index_bytes_at(spec_entries(ss, 0), i);
        assert(data.subrange(d + 8 + 24 * i, d + 8 + 24 * i + 24) =~= ib.subrange(
            24 * i,
            24 * i + 24,
        ));
        lemma_entry_round_trip(spec_entries(ss, 0)[i]);
        assert(spec_parse_entry(spec_entry_bytes(spec_entries(ss, 0)[i])) == spec_entries(
            ss,
            0,
        )[i]);
    }
    // every entry's data range lies strictly before the index
    assert forall|i: int| 0 <= i < n implies #[trigger] spec_entry_error(data, i) is None by {
        lemma_entries_at(ss, 0, i);
        let e = spec_entries(ss, 0)[i];
        lemma_data_len_take_le(ss, 0, i);
        lemma_data_len_take_le(ss, i + 1, n);
        assert(ss.take(i + 1) =~= ss.take(i) + seq![ss[i]]);
        lemma_data_len_concat(ss.take(i), seq![ss[i]]);
        lemma_singleton_chunk(ss[i], 0);
        assert(ss.take(n) =~= ss);
        assert(e.file_offset + e.length <= d);
        // the last chunk is non-empty, so every running offset stays
        // strictly below the index offset
        lemma_data_len_take_le(ss, i, n - 1);
        assert(ss =~= ss.take(n - 1) + seq![ss.last()]);
        lemma_data_len_concat(ss.take(n - 1), seq![ss.last()]);
        lemma_singleton_chunk(ss.last(), 0);
        assert(spec_data_len(ss.take(n - 1)) < d);
        assert(e.file_offset < d);
        assert(spec_entry_range_ok(data, i));
        // addresses are pairwise distinct, so no duplicate is found
        assert(!spec_entry_duplicate(data, i)) by {
            assert forall|j: int| 0 <= j < i implies (#[trigger] spec_entry_at(
                data,
                j,
            )).address != spec_entry_at(data, i).address by {
                lemma_entries_at(ss, 0, j);
                assert(spec_entry_at(data, j).address == ss[j].address);
            }
        }
    }
    lemma_scan_none(data, 0);
    assert(spec_raw_entries(data) =~= spec_entries(ss, 0));
}

/// In a table whose sole entry at `e`'s address is `e` itself, the search
/// by address finds `e`.
proof fn lemma_find_unique(es: Seq<ChunkEntry>, e: ChunkEntry)
    requires
        es.contains(e),
        forall|k: int| 0 <= k < es.len() && (#[trigger] es[k]).address == e.address ==> es[k] == e,
    ensures
        spec_entry_with_address(es, e.address) == Some(e),
    decreases es.len(),
{
    if es[0].address == e.address {
        assert(es[0] == e);
    } else {
        assert(es[0] != e);
        let k = choose|k: int| 0 <= k < es.len() && es[k] == e;
        assert(es.drop_first()[k - 1] == e);
        assert(es.drop_first().contains(e));
        assert forall|m: int|
            0 <= m < es.drop_first().len() && (#[trigger] es.drop_first()[m]).address
                == e.address implies es.drop_first()[m] == e by {
            assert(es.drop_first()[m] == es[m + 1]);
        }
        lemma_find_unique(es.drop_first(), e);
    }
}

/// Round trip: serialize chunks with strictly ascending addresses and a
/// non-empty last chunk, open the result, and the chunk starting at each
/// original address reads back as exactly the original bytes.  `es`
/// stands for the reader's index: any address-ordered permutation of the
/// file's entry table.
pub proof fn lemma_round_trip(ss: Seq<ChunkModel>, es: Seq<ChunkEntry>, i: int)
    requires
        sorted_by_address(ss),
        unique_addresses(ss),
        spec_dump_size(ss) <= usize::MAX,
        ss.len() > 0 ==> ss.last().data.len() > 0,
        es.to_multiset() == spec_raw_entries(spec_serialize(ss)).to_multiset(),
        0 <= i < ss.len(),
    ensures
        spec_open_error(spec_serialize(ss)) is None,
        spec_entry_with_address(es, ss[i].address) matches Some(e) && spec_serialize(ss).subrange(
            e.file_offset as int,
            e.file_offset + e.length,
        ) == ss[i].data,
{
    lemma_serialized_parses(ss);
    let data = spec_serialize(ss);
    let table = spec_entries(ss, 0);
    let n = ss.len() as int;
    lemma_entries_len(ss, 0);
    lemma_entries_at(ss, 0, i);
    let e = table[i];
    // `es` holds `e`, and holds no other entry with `e`'s address
    assert(table.contains(e));
    assert(es.to_multiset().count(e) > 0);
    assert(es.contains(e));
    assert forall|k: int|
        0 <= k < es.len() && (#[trigger] es[k]).address == e.address implies es[k] == e by {
        assert(es.contains(es[k]));
        assert(table.to_multiset().count(es[k]) > 0);
        assert(table.contains(es[k]));
        let j = choose|j: int| 0 <= j < table.len() && table[j] == es[k];
        lemma_entries_at(ss, 0, j);
        assert(ss[j].address == ss[i].address);
        assert(j == i);
    }
    lemma_find_unique(es, e);
    // the slice the entry points at is the original chunk data
    lemma_blob_at(ss, i);
    lemma_data_len_take_le(ss, 0, i);
    lemma_data_len_take_le(ss, i + 1, n);
    assert(ss.take(i + 1) =~= ss.take(i) + seq![ss[i]]);
    lemma_data_len_concat(ss.take(i), seq![ss[i]]);
    lemma_singleton_chunk(ss[i], 0);
    assert(ss.take(n) =~= ss);
    lemma_serialize_len(ss);
    lemma_data_blob_len(ss);
    let fo = spec_data_len(ss.take(i));
    assert(fo + ss[i].data.len() <= spec_data_len(ss));
    assert(data.subrange(fo, fo + ss[i].data.len()) =~= spec_data_blob(ss).subrange(
        fo,
        fo + ss[i].data.len(),
    ));
    assert(e.file_offset == fo && e.length == ss[i].data.len());
    assert(data.subrange(e.file_offset as int, e.file_offset + e.length) =~= ss[i].data);
}

} // verus!
