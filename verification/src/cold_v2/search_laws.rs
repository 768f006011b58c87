//! What looking up a dictionary or a row in the cold stream finds.

use vstd::prelude::*;

use super::blocks::width_total;
use super::lookup::{ColdSection, ColdStream};
use super::reader::{value_dict_meta_result, KeySetBlock, ValueDictMeta};
use super::reader_laws::{
    block_widths_law, code_room, key_at, sound_pair, stored_block_law, stored_dict_law,
    stored_keyset_law, stored_pair_law, table_place_law,
};
use crate::bytes::{u32_at, u64_at};
use crate::error::Error;

verus! {

/// Where a dictionary was found.
pub proof fn lemma_found<E>(stream: ColdStream<E>, key: u32, low: u32, high: u32, missing: E) -> (at: u32)
    requires
        stream.find(key, low, high, missing) is Ok,
    ensures
        low <= at < high,
        stream.dict_meta(at) == stream.find(key, low, high, missing),
        stream.find(key, low, high, missing)->Ok_0.0.key_sym == key,
    decreases high - low,
{
    let mid = (low + (high - low) / 2) as u32;
    let (meta, _) = stream.dict_meta(mid)->Ok_0;
    if meta.key_sym < key {
        lemma_found(stream, key, (mid + 1) as u32, high, missing)
    } else if meta.key_sym > key {
        lemma_found(stream, key, low, mid, missing)
    } else {
        mid
    }
}

/// The dictionaries from `low` on and below `high` can be read, and their keys rise.
pub open spec fn dicts_rise<E>(stream: ColdStream<E>, low: u32, high: u32) -> bool {
    &&& forall|i: u32| low <= i < high ==> #[trigger] stream.dict_meta(i) is Ok
    &&& forall|i: u32, j: u32|
        low <= i < j < high ==> (#[trigger] stream.dict_meta(i))->Ok_0.0.key_sym < (
        #[trigger] stream.dict_meta(j))->Ok_0.0.key_sym
}

proof fn lemma_finds<E>(stream: ColdStream<E>, key: u32, low: u32, high: u32, missing: E, at: u32)
    requires
        dicts_rise(stream, low, high),
        low <= at < high,
        stream.dict_meta(at)->Ok_0.0.key_sym == key,
    ensures
        stream.find(key, low, high, missing) == stream.dict_meta(at),
    decreases high - low,
{
    let mid = (low + (high - low) / 2) as u32;
    assert(stream.dict_meta(mid) is Ok);
    let (meta, _) = stream.dict_meta(mid)->Ok_0;
    if meta.key_sym < key {
        assert(at > mid);
        lemma_finds(stream, key, (mid + 1) as u32, high, missing, at);
    } else if meta.key_sym > key {
        assert(at < mid);
        lemma_finds(stream, key, low, mid, missing, at);
    } else if at != mid {
        assert(false);
    }
}

/// The dictionary found for a key is one of the stream with that key, and where the keys of the
/// dictionaries rise every key that one has is found.
pub proof fn found_dict_law<E>(stream: ColdStream<E>, key: u32, count: u32, missing: E)
    ensures
        stream.find(key, 0, count, missing) matches Ok((meta, end)) ==> {
            &&& meta.key_sym == key
            &&& exists|i: u32| i < count && #[trigger] stream.dict_meta(i) == Ok::<
                (ValueDictMeta, u64),
                E,
            >((meta, end))
        },
        dicts_rise(stream, 0, count) ==> forall|i: u32|
            i < count && (#[trigger] stream.dict_meta(i))->Ok_0.0.key_sym == key ==> stream.find(
                key,
                0,
                count,
                missing,
            ) == stream.dict_meta(i),
{
    if stream.find(key, 0, count, missing) is Ok {
        let at = lemma_found(stream, key, 0, count, missing);
        assert(stream.dict_meta(at) == stream.find(key, 0, count, missing));
    }
    if dicts_rise(stream, 0, count) {
        assert forall|i: u32|
            i < count && (#[trigger] stream.dict_meta(i))->Ok_0.0.key_sym == key implies stream.find(
            key,
            0,
            count,
            missing,
        ) == stream.dict_meta(i) by {
            lemma_finds(stream, key, 0, count, missing, i);
        }
    }
}

/// A row that the block does not have is not read, whatever its length.
pub proof fn absent_row_law<E>(stream: ColdStream<E>, block: KeySetBlock, row: u32, absent: E)
    requires
        row >= block.rows,
    ensures
        stream.row(block, row, absent) is Err,
{
}

/// Whatever the stream reads of a range that is not empty is what the file holds there.
pub open spec fn reads_file<E>(stream: ColdStream<E>, file: Seq<u8>) -> bool {
    forall|start: u64, end: u64|
        start < end && #[trigger] (stream.read)(start, end) is Ok ==> end <= file.len()
            && (stream.read)(start, end)->Ok_0 == file.subrange(start as int, end as int)
}

/// The offset table of the section, in the file, bounds the entry from `start` to `end`.
pub open spec fn lists_entry(
    file: Seq<u8>,
    section: ColdSection,
    index: u32,
    start: u64,
    end: u64,
) -> bool {
    let at = section.offset + 8 * index;
    &&& at + 16 <= file.len()
    &&& start == u64_at(file, at)
    &&& end == u64_at(file, at + 8)
    &&& section.offset + 8 * (section.count + 1) <= section.end
    &&& sound_pair(start, end, section.offset, section.end, section.count, index)
}

proof fn lemma_words(file: Seq<u8>, from: int, to: int)
    requires
        0 <= from <= to <= file.len(),
    ensures
        forall|at: int|
            0 <= at && at + 4 <= to - from ==> #[trigger] u32_at(file.subrange(from, to), at)
                == u32_at(file, from + at),
        forall|at: int|
            0 <= at && at + 8 <= to - from ==> #[trigger] u64_at(file.subrange(from, to), at)
                == u64_at(file, from + at),
{
    let part = file.subrange(from, to);
    assert forall|at: int| 0 <= at && at + 4 <= to - from implies #[trigger] u32_at(part, at)
        == u32_at(file, from + at) by {}
    assert forall|at: int| 0 <= at && at + 8 <= to - from implies #[trigger] u64_at(part, at)
        == u64_at(file, from + at) by {
        assert(u32_at(part, at) == u32_at(file, from + at));
        assert(u32_at(part, at + 4) == u32_at(file, from + (at + 4)));
    }
}

proof fn lemma_word(file: Seq<u8>, from: int, to: int, at: int)
    requires
        0 <= from <= to <= file.len(),
        0 <= at,
        at + 4 <= to - from,
    ensures
        u32_at(file.subrange(from, to), at) == u32_at(file, from + at),
{
}

/// The range of an entry is the one that the offset table of its section lists.
pub proof fn listed_entry_law<E>(
    stream: ColdStream<E>,
    file: Seq<u8>,
    section: ColdSection,
    index: u32,
)
    requires
        reads_file(stream, file),
    ensures
        stream.entry_range(section, index) matches Ok(range) ==> lists_entry(
            file,
            section,
            index,
            range.start,
            range.end,
        ),
{
    if stream.entry_range(section, index) is Ok {
        table_place_law(section.offset, section.end, section.count, index);
        let at = section.offset + 8 * index;
        let bytes = (stream.read)(at as u64, (at + 16) as u64)->Ok_0;
        lemma_words(file, at, at + 16);
        stored_pair_law(bytes, section.offset, section.end, section.count, index);
    }
}

/// A keyset that is read is the one whose entry the table lists: its count, its zero word and
/// its keys, which rise, stand in the file.
pub proof fn listed_keyset_law<E>(stream: ColdStream<E>, file: Seq<u8>, keyset_id: u32)
    requires
        reads_file(stream, file),
    ensures
        stream.keyset(keyset_id) matches Ok(keys) ==> exists|start: u64, end: u64| #[trigger]
            lists_entry(file, stream.keysets, keyset_id, start, end) && {
                &&& end <= file.len()
                &&& u32_at(file, start as int) == keys.len()
                &&& u32_at(file, start + 4) == 0
                &&& end - start == 8 + 4 * keys.len()
                &&& forall|i: int|
                    0 <= i < keys.len() ==> #[trigger] keys[i] == u32_at(file, start + 8 + 4 * i)
                &&& forall|i: int, j: int| 0 <= i < j < keys.len() ==> keys[i] < keys[j]
            },
{
    if stream.keyset(keyset_id) is Ok {
        let keys = stream.keyset(keyset_id)->Ok_0;
        let range = stream.entry_range(stream.keysets, keyset_id)->Ok_0;
        let (start, end) = (range.start, range.end);
        listed_entry_law(stream, file, stream.keysets, keyset_id);
        let bytes = (stream.read)(start, end)->Ok_0;
        lemma_words(file, start as int, end as int);
        stored_keyset_law(bytes, start, end);
        assert(u32_at(bytes, 0) == u32_at(file, start as int));
        assert(u32_at(bytes, 4) == u32_at(file, start + 4));
        assert forall|i: int| 0 <= i < keys.len() implies #[trigger] keys[i] == u32_at(
            file,
            start + 8 + 4 * i,
        ) by {
            assert(keys[i] == key_at(bytes, i));
            assert(u32_at(bytes, 8 + 4 * i) == u32_at(file, start + (8 + 4 * i)));
        }
        assert forall|i: int, j: int| 0 <= i < j < keys.len() implies keys[i] < keys[j] by {
            assert(key_at(bytes, i) < key_at(bytes, j));
        }
        assert(lists_entry(file, stream.keysets, keyset_id, start, end));
    }
}

/// A dictionary that is read is the one whose entry the table lists: its key and its count stand
/// in the file, and its values fill the rest of the entry.
pub proof fn listed_dict_law<E>(stream: ColdStream<E>, file: Seq<u8>, dict_id: u32)
    requires
        reads_file(stream, file),
    ensures
        stream.dict_meta(dict_id) matches Ok((meta, end)) ==> exists|start: u64| #[trigger]
            lists_entry(file, stream.value_dicts, dict_id, start, end) && {
                &&& start + 8 <= file.len()
                &&& meta.key_sym == u32_at(file, start as int)
                &&& meta.cardinality == u32_at(file, start + 4)
                &&& meta.cardinality >= 1
                &&& meta.values_offset == start + 8
                &&& end == meta.values_offset + 4 * meta.cardinality
            },
{
    if stream.dict_meta(dict_id) is Ok {
        let (meta, end) = stream.dict_meta(dict_id)->Ok_0;
        let start = lemma_dict_read(stream, file, dict_id);
        lemma_dict_words(file, start, end, meta);
        assert(lists_entry(file, stream.value_dicts, dict_id, start, end));
    }
}

proof fn lemma_dict_read<E>(stream: ColdStream<E>, file: Seq<u8>, dict_id: u32) -> (start: u64)
    requires
        reads_file(stream, file),
        stream.dict_meta(dict_id) is Ok,
    ensures
        ({
            let (meta, end) = stream.dict_meta(dict_id)->Ok_0;
            &&& lists_entry(file, stream.value_dicts, dict_id, start, end)
            &&& start + 8 <= file.len()
            &&& value_dict_meta_result(file.subrange(start as int, start + 8), start, end) == Ok::<
                ValueDictMeta,
                Error,
            >(meta)
        }),
{
    reveal(ColdStream::dict_meta);
    listed_entry_law(stream, file, stream.value_dicts, dict_id);
    let start = stream.entry_range(stream.value_dicts, dict_id)->Ok_0.start;
    assert((stream.read)(start, (start + 8) as u64) is Ok);
    start
}

proof fn lemma_dict_words(file: Seq<u8>, start: u64, end: u64, meta: ValueDictMeta)
    requires
        start + 8 <= file.len(),
        value_dict_meta_result(file.subrange(start as int, start + 8), start, end) == Ok::<
            ValueDictMeta,
            Error,
        >(meta),
    ensures
        meta.key_sym == u32_at(file, start as int),
        meta.cardinality == u32_at(file, start + 4),
        meta.cardinality >= 1,
        meta.values_offset == start + 8,
        end == meta.values_offset + 4 * meta.cardinality,
{
    lemma_word(file, start as int, start + 8, 0);
    lemma_word(file, start as int, start + 8, 4);
    stored_dict_law(file.subrange(start as int, start + 8), start, end);
}

/// A keyset block that is read is the one whose entry the table lists: its counts and its
/// widths stand in the file, and its rows fill the rest of the entry.
pub proof fn listed_block_law<E>(stream: ColdStream<E>, file: Seq<u8>, keyset_id: u32)
    requires
        reads_file(stream, file),
    ensures
        stream.block(keyset_id) matches Ok(block) ==> exists|start: u64, end: u64| #[trigger]
            lists_entry(file, stream.keyset_blocks, keyset_id, start, end) && {
                let widths_end = start + 16 + block.widths.len();
                &&& start + 16 <= file.len()
                &&& block.rows == u32_at(file, start as int)
                &&& block.rows >= 1
                &&& block.key_count == u32_at(file, start + 4)
                &&& block.key_count == block.widths.len()
                &&& block.row_len_bytes == u32_at(file, start + 8)
                &&& block.row_len_bytes == width_total(block.widths, block.widths.len())
                &&& block.data_len == u32_at(file, start + 12)
                &&& block.data_len == block.rows * block.row_len_bytes
                &&& block.data_offset == widths_end
                &&& end == block.data_offset + block.data_len
                &&& block.widths.len() > 0 ==> widths_end <= file.len() && block.widths
                    == file.subrange(start + 16, widths_end)
                &&& forall|j: int|
                    0 <= j < block.widths.len() ==> code_room(#[trigger] block.widths[j]) > 0
            },
{
    if stream.block(keyset_id) is Ok {
        let block = stream.block(keyset_id)->Ok_0;
        let range = stream.entry_range(stream.keyset_blocks, keyset_id)->Ok_0;
        let (start, end) = (range.start, range.end);
        listed_entry_law(stream, file, stream.keyset_blocks, keyset_id);
        let fixed = (stream.read)(start, (start + 16) as u64)->Ok_0;
        lemma_word(file, start as int, start + 16, 0);
        lemma_word(file, start as int, start + 16, 4);
        lemma_word(file, start as int, start + 16, 8);
        lemma_word(file, start as int, start + 16, 12);
        block_widths_law(fixed, start, end);
        stored_block_law(fixed, block.widths, start, end);
        assert(lists_entry(file, stream.keyset_blocks, keyset_id, start, end));
    }
}

} // verus!
