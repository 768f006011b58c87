//! How a label row is looked up in a cold label stream that is read range by
//! range, and what a lookup gives back of a written plan.

use core::ops::Range;
use vstd::prelude::*;

use super::blocks::{
    block_entries, block_entry, block_shape_result, blocks_codes_result, blocks_end_result,
    cardinality, code_row, dict_values, lemma_block_entry_len, lemma_row_bytes_len,
    lemma_width_total_monotonic, lemma_widths_packable, packed_result, row_bytes, row_len, width_total,
    widths_of, KeysetRows,
};
use super::encode::{
    dict_entries, dict_entry, entry_offset, keyset_entries, keyset_entry, lemma_dict_entry_len,
    lemma_keyset_entry_len, section_bytes,
};
use super::plan::{
    plan_result, row_codes, section_offsets_result, sections_bytes, value_code, ColdPlan,
    SeriesColdV2SectionOffsets,
};
use super::plan_laws::{
    lemma_code_bound, lemma_collected_ordered, lemma_corpus, plan_rows_law, written_plan_law,
};
use super::read_back::{
    block_codes_law, block_entry_law, block_of, dict_entry_law, keyset_entry_law,
    lemma_section_len, section_entry_law,
};
use super::reader::{
    block_result, canonical_width, code_result, entry_range_result, keyset_result,
    pair_range_result, prefix_range_result, row_range_result, strictly_increasing,
    value_dict_meta_result, value_dict_values_result, value_range_result, value_result,
    widths_range_result, KeySetBlock, ValueDictMeta,
};
use super::shapes::{has_keyset, keys_of};
use crate::error::Error;

verus! {

/// One section of the stream.
#[derive(Debug, Clone, Copy, PartialEq, Eq, Structural)]
pub struct ColdSection {
    pub offset: u64,
    pub end: u64,
    pub count: u32,
}

/// A stream whose ranges can be read: what a range gives, and how an error in
/// what it holds is reported.
pub struct ColdStream<E> {
    pub read: spec_fn(u64, u64) -> Result<Seq<u8>, E>,
    pub fail: spec_fn(Error) -> E,
    pub keysets: ColdSection,
    pub value_dicts: ColdSection,
    pub keyset_blocks: ColdSection,
}

impl<E> ColdStream<E> {
    /// The range of an entry of a section.
    pub open spec fn entry_range(self, section: ColdSection, index: u32) -> Result<Range<u64>, E> {
        match pair_range_result(section.offset, section.end, section.count, index) {
            Err(error) => Err((self.fail)(error)),
            Ok(pair) => match (self.read)(pair.start, pair.end) {
                Err(error) => Err(error),
                Ok(bytes) => match entry_range_result(
                    bytes,
                    section.offset,
                    section.end,
                    section.count,
                    index,
                ) {
                    Err(error) => Err((self.fail)(error)),
                    Ok(range) => Ok(range),
                },
            },
        }
    }

    /// The keys of a keyset.
    pub open spec fn keyset(self, keyset_id: u32) -> Result<Seq<u32>, E> {
        match self.entry_range(self.keysets, keyset_id) {
            Err(error) => Err(error),
            Ok(range) => match (self.read)(range.start, range.end) {
                Err(error) => Err(error),
                Ok(bytes) => match keyset_result(bytes, range.start, range.end) {
                    Err(error) => Err((self.fail)(error)),
                    Ok(keys) => Ok(keys),
                },
            },
        }
    }

    /// The block of a keyset.
    pub open spec fn block(self, keyset_id: u32) -> Result<KeySetBlock, E> {
        match self.entry_range(self.keyset_blocks, keyset_id) {
            Err(error) => Err(error),
            Ok(range) => match prefix_range_result(
                range.start,
                range.end,
                16,
                "series cold keyset block header exceeds its entry",
            ) {
                Err(error) => Err((self.fail)(error)),
                Ok(fixed_range) => match (self.read)(fixed_range.start, fixed_range.end) {
                    Err(error) => Err(error),
                    Ok(fixed) => match widths_range_result(fixed, range.start, range.end) {
                        Err(error) => Err((self.fail)(error)),
                        Ok(widths_range) => match (self.read)(
                            widths_range.start,
                            widths_range.end,
                        ) {
                            Err(error) => Err(error),
                            Ok(widths) => match block_result(
                                fixed,
                                widths,
                                range.start,
                                range.end,
                            ) {
                                Err(error) => Err((self.fail)(error)),
                                Ok(block) => Ok(block),
                            },
                        },
                    },
                },
            },
        }
    }

    /// The header of a value dictionary, and where its entry ends.
    #[verifier::opaque]
    pub open spec fn dict_meta(self, dict_id: u32) -> Result<(ValueDictMeta, u64), E> {
        match self.entry_range(self.value_dicts, dict_id) {
            Err(error) => Err(error),
            Ok(range) => match prefix_range_result(
                range.start,
                range.end,
                8,
                "series cold value dictionary header exceeds its entry",
            ) {
                Err(error) => Err((self.fail)(error)),
                Ok(header_range) => match (self.read)(header_range.start, header_range.end) {
                    Err(error) => Err(error),
                    Ok(bytes) => match value_dict_meta_result(bytes, range.start, range.end) {
                        Err(error) => Err((self.fail)(error)),
                        Ok(meta) => Ok((meta, range.end)),
                    },
                },
            },
        }
    }

    /// The dictionary of a key, by halving the entries from `low` to `high`.
    pub open spec fn find(self, key: u32, low: u32, high: u32, missing: E) -> Result<
        (ValueDictMeta, u64),
        E,
    >
        decreases high - low,
    {
        if low >= high {
            Err(missing)
        } else {
            let mid = (low + (high - low) / 2) as u32;
            match self.dict_meta(mid) {
                Err(error) => Err(error),
                Ok((meta, end)) => if meta.key_sym < key {
                    self.find(key, (mid + 1) as u32, high, missing)
                } else if meta.key_sym > key {
                    self.find(key, low, mid, missing)
                } else {
                    Ok((meta, end))
                },
            }
        }
    }

    /// The packed codes of a row. A row whose codes are all implicit has no
    /// bytes, but must still exist.
    pub open spec fn row(self, block: KeySetBlock, row: u32, absent: E) -> Result<Seq<u8>, E> {
        if block.row_len_bytes == 0 {
            if row >= block.rows {
                Err(absent)
            } else {
                Ok(Seq::empty())
            }
        } else {
            match row_range_result(block, row) {
                Err(error) => Err((self.fail)(error)),
                Ok(range) => (self.read)(range.start, range.end),
            }
        }
    }

    /// The stream holds a plan at these offsets.
    pub open spec fn holds(self, plan: ColdPlan, offsets: SeriesColdV2SectionOffsets) -> bool {
        &&& self.keysets == (ColdSection {
            offset: offsets.keysets,
            end: offsets.value_dicts,
            count: plan.num_keysets,
        })
        &&& self.value_dicts == (ColdSection {
            offset: offsets.value_dicts,
            end: offsets.keyset_blocks,
            count: plan.num_value_dicts,
        })
        &&& self.keyset_blocks == (ColdSection {
            offset: offsets.keyset_blocks,
            end: offsets.end,
            count: plan.num_keysets,
        })
        &&& forall|start: u64, end: u64|
            offsets.keysets <= start <= end <= offsets.end ==> #[trigger] (self.read)(start, end)
                == Ok::<Seq<u8>, E>(
                sections_bytes(plan, offsets).subrange(
                    start - offsets.keysets,
                    end - offsets.keysets,
                ),
            )
    }
}

/// The stream reads these entries from a section.
#[verifier::opaque]
spec fn section_held<E>(stream: ColdStream<E>, section: ColdSection, entries: Seq<Seq<u8>>) -> bool {
    let bytes = section_bytes(section.offset as int, entries);
    &&& section.offset + bytes.len() == section.end
    &&& section.count == entries.len()
    &&& forall|start: u64, end: u64|
        section.offset <= start <= end <= section.end ==> #[trigger] (stream.read)(start, end)
            == Ok::<Seq<u8>, E>(bytes.subrange(start - section.offset, end - section.offset))
}

/// The stream holds the three sections of a plan.
proof fn lemma_sections_held<E>(
    heads: Seq<(u64, u8)>,
    rows: Seq<Seq<(u32, u32)>>,
    keysets_offset: u64,
    stream: ColdStream<E>,
)
    requires
        plan_result(heads, rows) is Ok,
        section_offsets_result(plan_result(heads, rows)->Ok_0.lengths, keysets_offset) is Ok,
        stream.holds(
            plan_result(heads, rows)->Ok_0,
            section_offsets_result(
                plan_result(heads, rows)->Ok_0.lengths,
                keysets_offset,
            )->Ok_0,
        ),
    ensures
        ({
            let plan = plan_result(heads, rows)->Ok_0;
            &&& section_held(stream, stream.keysets, keyset_entries(plan.keysets))
            &&& section_held(stream, stream.value_dicts, dict_entries(plan.value_dicts))
            &&& section_held(
                stream,
                stream.keyset_blocks,
                block_entries(plan.keysets, plan.rows, plan.value_dicts),
            )
        }),
{
    let plan = plan_result(heads, rows)->Ok_0;
    let offsets = section_offsets_result(plan.lengths, keysets_offset)->Ok_0;
    written_plan_law(heads, rows, keysets_offset);
    lemma_corpus(heads, rows);
    let keysets = section_bytes(offsets.keysets as int, keyset_entries(plan.keysets));
    let dicts = section_bytes(offsets.value_dicts as int, dict_entries(plan.value_dicts));
    let blocks = section_bytes(
        offsets.keyset_blocks as int,
        block_entries(plan.keysets, plan.rows, plan.value_dicts),
    );
    let all = sections_bytes(plan, offsets);
    assert(all == keysets + dicts + blocks);
    lemma_part_held(stream, all, offsets.keysets, offsets.end, offsets.keysets, keysets);
    lemma_part_held(stream, all, offsets.keysets, offsets.end, offsets.value_dicts, dicts);
    lemma_part_held(stream, all, offsets.keysets, offsets.end, offsets.keyset_blocks, blocks);
    reveal(section_held);
}

/// A stretch of what a stream holds is read from that stretch.
proof fn lemma_part_held<E>(
    stream: ColdStream<E>,
    all: Seq<u8>,
    base: u64,
    limit: u64,
    offset: u64,
    part: Seq<u8>,
)
    requires
        forall|start: u64, end: u64|
            base <= start <= end <= limit ==> #[trigger] (stream.read)(start, end) == Ok::<
                Seq<u8>,
                E,
            >(all.subrange(start - base, end - base)),
        base <= offset,
        offset + part.len() <= limit,
        all.len() == limit - base,
        forall|p: int| 0 <= p < part.len() ==> #[trigger] part[p] == all[offset - base + p],
    ensures
        forall|start: u64, end: u64|
            offset <= start <= end <= offset + part.len() ==> #[trigger] (stream.read)(start, end)
                == Ok::<Seq<u8>, E>(part.subrange(start - offset, end - offset)),
{
    assert forall|start: u64, end: u64|
        offset <= start <= end <= offset + part.len() implies #[trigger] (stream.read)(start, end)
        == Ok::<Seq<u8>, E>(part.subrange(start - offset, end - offset)) by {
        assert(all.subrange(start - base, end - base) =~= part.subrange(
            start - offset,
            end - offset,
        ));
    }
}

/// An entry of a section that the stream holds is found and read.
proof fn lemma_entry_read<E>(
    stream: ColdStream<E>,
    section: ColdSection,
    entries: Seq<Seq<u8>>,
    i: u32,
) -> (range: Range<u64>)
    requires
        section_held(stream, section, entries),
        i < entries.len(),
        entries[i as int].len() > 0,
    ensures
        entry_held(stream, section, i, entries[i as int], range),
{
    reveal(section_held);
    reveal(entry_held);
    let bytes = section_bytes(section.offset as int, entries);
    let first = section.offset + 8 * (entries.len() + 1);
    section_entry_law(section.offset, entries, i);
    lemma_section_len(section.offset as int, entries);
    let start = entry_offset(first, entries, i as int);
    let end = entry_offset(first, entries, i + 1);
    let range = Range { start: start as u64, end: end as u64 };
    let pair_start = (section.offset + 8 * i) as u64;
    let pair_end = (section.offset + 8 * i + 16) as u64;
    assert((stream.read)(pair_start, pair_end) == Ok::<Seq<u8>, E>(
        bytes.subrange(8 * i as int, 8 * i + 16),
    ));
    assert(bytes.subrange(start - section.offset, end - section.offset).len() == end - start);
    assert forall|from: u64, to: u64| range.start <= from <= to <= range.end implies #[trigger] (
    stream.read)(from, to) == Ok::<Seq<u8>, E>(
        entries[i as int].subrange(from - range.start, to - range.start),
    ) by {
        assert(bytes.subrange(from - section.offset, to - section.offset) =~= bytes.subrange(
            start - section.offset,
            end - section.offset,
        ).subrange(from - range.start, to - range.start));
    }
    range
}

/// Every block of a plan that can be written has a shape and packed codes.
proof fn lemma_block_packed(
    cursor: u64,
    plan: ColdPlan,
    n: nat,
    k: int,
)
    requires
        0 <= k < n,
        blocks_end_result(cursor, plan.keysets, plan.rows, plan.value_dicts, n) is Ok,
        blocks_codes_result(plan.keysets, plan.rows, plan.value_dicts, n) is Ok,
    ensures
        block_shape_result(plan.keysets, plan.rows, plan.value_dicts, k) is Ok,
        packed_result(
            plan.rows[k].codes,
            widths_of(plan.keysets[k], plan.value_dicts),
            plan.rows[k].row_count as nat,
        ) is Ok,
    decreases n,
{
    if k < n - 1 {
        lemma_block_packed(cursor, plan, (n - 1) as nat, k);
    }
}

/// The stream names this range for an entry, and reads the entry from it.
#[verifier::opaque]
spec fn entry_held<E>(
    stream: ColdStream<E>,
    section: ColdSection,
    index: u32,
    entry: Seq<u8>,
    range: Range<u64>,
) -> bool {
    &&& range.start < range.end
    &&& range.end - range.start == entry.len()
    &&& stream.entry_range(section, index) == Ok::<Range<u64>, E>(range)
    &&& forall|start: u64, end: u64|
        range.start <= start <= end <= range.end ==> #[trigger] (stream.read)(start, end) == Ok::<
            Seq<u8>,
            E,
        >(entry.subrange(start - range.start, end - range.start))
}

proof fn lemma_keyset_held<E>(
    stream: ColdStream<E>,
    keyset_id: u32,
    keys: Seq<u32>,
    range: Range<u64>,
)
    requires
        entry_held(stream, stream.keysets, keyset_id, keyset_entry(keys), range),
        strictly_increasing(keys),
        keys.len() <= u32::MAX,
    ensures
        stream.keyset(keyset_id) == Ok::<Seq<u32>, E>(keys),
{
    reveal(entry_held);
    keyset_entry_law(keys, range.start, range.end);
    assert(keyset_entry(keys).subrange(0, keyset_entry(keys).len() as int) =~= keyset_entry(keys));
}

proof fn lemma_dict_held<E>(
    stream: ColdStream<E>,
    dict_id: u32,
    key: u32,
    values: Seq<u32>,
    range: Range<u64>,
)
    requires
        entry_held(stream, stream.value_dicts, dict_id, dict_entry(key, values), range),
        0 < values.len() <= u32::MAX,
    ensures
        stream.dict_meta(dict_id) is Ok,
        dict_read(stream, key, values, stream.dict_meta(dict_id)->Ok_0),
{
    reveal(ColdStream::dict_meta);
    reveal(entry_held);
    let entry = dict_entry(key, values);
    dict_entry_law(key, values, range.start, range.end);
    let after = (range.start + 8) as u64;
    assert(entry.subrange(0, 8) =~= entry.take(8));
    assert((stream.read)(range.start, after) == Ok::<Seq<u8>, E>(entry.take(8)));
    assert(entry.subrange(8, entry.len() as int) =~= entry.skip(8));
    assert((stream.read)(after, range.end) == Ok::<Seq<u8>, E>(entry.skip(8)));
    let meta = ValueDictMeta { key_sym: key, values_offset: after, cardinality: values.len() as u32 };
    assert(stream.dict_meta(dict_id) == Ok::<(ValueDictMeta, u64), E>((meta, range.end)));
}

proof fn lemma_block_held<E>(
    stream: ColdStream<E>,
    keyset_id: u32,
    keys: Seq<u32>,
    rows: KeysetRows,
    dicts: Seq<(u32, Seq<u32>)>,
    range: Range<u64>,
    row: u32,
    absent: E,
)
    requires
        entry_held(
            stream,
            stream.keyset_blocks,
            keyset_id,
            block_entry(keys, rows, dicts),
            range,
        ),
        keys.len() <= u32::MAX,
        row_len(keys, dicts) <= u32::MAX,
        row_len(keys, dicts) * rows.row_count <= u32::MAX,
        row < rows.row_count,
    ensures
        ({
            let widths = widths_of(keys, dicts);
            let block = stream.block(keyset_id);
            &&& block is Ok
            &&& block->Ok_0.key_count == keys.len()
            &&& block->Ok_0.widths == widths
            &&& stream.row(block->Ok_0, row, absent) == Ok::<Seq<u8>, E>(
                row_bytes(code_row(rows.codes, widths.len(), row as int), widths, widths.len()),
            )
        }),
{
    reveal(entry_held);
    let entry = block_entry(keys, rows, dicts);
    let widths = widths_of(keys, dicts);
    block_entry_law(keys, rows, dicts, range.start, range.end, row);
    let block = block_of(keys, rows, dicts, range.start);
    let after = (range.start + 16) as u64;
    assert(entry.subrange(0, 16) =~= entry.take(16));
    assert((stream.read)(range.start, after) == Ok::<Seq<u8>, E>(entry.take(16)));
    assert((stream.read)(after, block.data_offset) == Ok::<Seq<u8>, E>(widths));
    assert(stream.block(keyset_id) == Ok::<KeySetBlock, E>(block));
    let codes = code_row(rows.codes, widths.len(), row as int);
    let packed = row_bytes(codes, widths, widths.len());
    lemma_widths_packable(keys, dicts);
    lemma_row_bytes_len(codes, widths, widths.len());
    if block.row_len_bytes == 0 {
        assert(packed =~= Seq::empty());
    } else {
        let row_range = row_range_result(block, row)->Ok_0;
        assert((stream.read)(row_range.start, row_range.end) == Ok::<Seq<u8>, E>(packed));
    }
}

/// What a stream gives back of the keyset section of a plan.
pub proof fn keyset_lookup_law<E>(
    heads: Seq<(u64, u8)>,
    rows: Seq<Seq<(u32, u32)>>,
    keysets_offset: u64,
    stream: ColdStream<E>,
    keyset_id: u32,
)
    requires
        plan_result(heads, rows) is Ok,
        section_offsets_result(plan_result(heads, rows)->Ok_0.lengths, keysets_offset) is Ok,
        stream.holds(
            plan_result(heads, rows)->Ok_0,
            section_offsets_result(
                plan_result(heads, rows)->Ok_0.lengths,
                keysets_offset,
            )->Ok_0,
        ),
        keyset_id < plan_result(heads, rows)->Ok_0.keysets.len(),
    ensures
        stream.keyset(keyset_id) == Ok::<Seq<u32>, E>(
            plan_result(heads, rows)->Ok_0.keysets[keyset_id as int],
        ),
{
    let plan = plan_result(heads, rows)->Ok_0;
    let keys = plan.keysets[keyset_id as int];
    let entries = keyset_entries(plan.keysets);
    lemma_sections_held(heads, rows, keysets_offset, stream);
    lemma_corpus(heads, rows);
    assert(plan.keysets.contains(keys));
    assert(has_keyset(rows, keys));
    let i = choose|i: int| 0 <= i < rows.len() && keys_of(#[trigger] rows[i]) == keys;
    lemma_collected_ordered(rows, rows.len(), i);
    lemma_keyset_entry_len(plan.keysets);
    assert(entries[keyset_id as int] == keyset_entry(keys));
    let range = lemma_entry_read(stream, stream.keysets, entries, keyset_id);
    lemma_keyset_held(stream, keyset_id, keys, range);
}

/// What a stream gives back of a value dictionary of a plan: its header, all
/// its values, and every single one.
pub open spec fn dict_read<E>(
    stream: ColdStream<E>,
    key: u32,
    values: Seq<u32>,
    found: (ValueDictMeta, u64),
) -> bool {
    let (meta, end) = found;
    &&& meta.key_sym == key
    &&& meta.cardinality == values.len()
    &&& end - meta.values_offset == 4 * values.len()
    &&& (stream.read)(meta.values_offset, end) is Ok
    &&& 4 * values.len() <= usize::MAX ==> value_dict_values_result(
        (stream.read)(meta.values_offset, end)->Ok_0,
        meta,
    ) == Ok::<Seq<u32>, Error>(values)
    &&& forall|code: u32|
        code < values.len() ==> {
            let range = #[trigger] value_range_result(meta, code);
            &&& range is Ok
            &&& (stream.read)(range->Ok_0.start, range->Ok_0.end) is Ok
            &&& value_result(
                (stream.read)(range->Ok_0.start, range->Ok_0.end)->Ok_0,
                meta,
                code,
            ) == Ok::<u32, Error>(values[code as int])
        }
}

proof fn lemma_dict_meta<E>(
    heads: Seq<(u64, u8)>,
    rows: Seq<Seq<(u32, u32)>>,
    keysets_offset: u64,
    stream: ColdStream<E>,
    d: u32,
)
    requires
        plan_result(heads, rows) is Ok,
        section_offsets_result(plan_result(heads, rows)->Ok_0.lengths, keysets_offset) is Ok,
        stream.holds(
            plan_result(heads, rows)->Ok_0,
            section_offsets_result(
                plan_result(heads, rows)->Ok_0.lengths,
                keysets_offset,
            )->Ok_0,
        ),
        d < plan_result(heads, rows)->Ok_0.value_dicts.len(),
    ensures
        ({
            let dict = plan_result(heads, rows)->Ok_0.value_dicts[d as int];
            &&& stream.dict_meta(d) is Ok
            &&& dict_read(stream, dict.0, dict.1, stream.dict_meta(d)->Ok_0)
        }),
{
    let plan = plan_result(heads, rows)->Ok_0;
    let (key, values) = plan.value_dicts[d as int];
    let entries = dict_entries(plan.value_dicts);
    lemma_sections_held(heads, rows, keysets_offset, stream);
    lemma_corpus(heads, rows);
    assert(plan.value_dicts[d as int].1.len() <= u32::MAX);
    lemma_dict_entry_len(plan.value_dicts);
    assert(entries[d as int] == dict_entry(key, values));
    let range = lemma_entry_read(stream, stream.value_dicts, entries, d);
    lemma_dict_held(stream, d, key, values, range);
}

proof fn lemma_find<E>(
    heads: Seq<(u64, u8)>,
    rows: Seq<Seq<(u32, u32)>>,
    keysets_offset: u64,
    stream: ColdStream<E>,
    d: u32,
    low: u32,
    high: u32,
    missing: E,
)
    requires
        plan_result(heads, rows) is Ok,
        section_offsets_result(plan_result(heads, rows)->Ok_0.lengths, keysets_offset) is Ok,
        stream.holds(
            plan_result(heads, rows)->Ok_0,
            section_offsets_result(
                plan_result(heads, rows)->Ok_0.lengths,
                keysets_offset,
            )->Ok_0,
        ),
        low <= d < high <= plan_result(heads, rows)->Ok_0.value_dicts.len(),
    ensures
        ({
            let dict = plan_result(heads, rows)->Ok_0.value_dicts[d as int];
            let found = stream.find(dict.0, low, high, missing);
            &&& found is Ok
            &&& dict_read(stream, dict.0, dict.1, found->Ok_0)
        }),
    decreases high - low,
{
    let plan = plan_result(heads, rows)->Ok_0;
    lemma_corpus(heads, rows);
    let mid = (low + (high - low) / 2) as u32;
    lemma_dict_meta(heads, rows, keysets_offset, stream, mid);
    if mid < d {
        assert(plan.value_dicts[mid as int].0 < plan.value_dicts[d as int].0);
        lemma_find(heads, rows, keysets_offset, stream, d, (mid + 1) as u32, high, missing);
    } else if d < mid {
        assert(plan.value_dicts[d as int].0 < plan.value_dicts[mid as int].0);
        lemma_find(heads, rows, keysets_offset, stream, d, low, mid, missing);
    }
}

/// The dictionary of every key of a plan is found by halving, and read back.
pub proof fn dict_lookup_law<E>(
    heads: Seq<(u64, u8)>,
    rows: Seq<Seq<(u32, u32)>>,
    keysets_offset: u64,
    stream: ColdStream<E>,
    i: int,
    j: int,
    missing: E,
)
    requires
        plan_result(heads, rows) is Ok,
        section_offsets_result(plan_result(heads, rows)->Ok_0.lengths, keysets_offset) is Ok,
        stream.holds(
            plan_result(heads, rows)->Ok_0,
            section_offsets_result(
                plan_result(heads, rows)->Ok_0.lengths,
                keysets_offset,
            )->Ok_0,
        ),
        0 <= i < rows.len(),
        0 <= j < rows[i].len(),
    ensures
        ({
            let plan = plan_result(heads, rows)->Ok_0;
            let (key, value) = rows[i][j];
            let values = dict_values(plan.value_dicts, plan.value_dicts.len(), key);
            let code = value_code(plan.value_dicts, key, value);
            let found = stream.find(key, 0, plan.num_value_dicts, missing);
            &&& values is Some
            &&& plan.value_dicts.contains((key, values->Some_0))
            &&& strictly_increasing(values->Some_0)
            &&& code < values->Some_0.len() <= u32::MAX
            &&& values->Some_0[code as int] == value
            &&& found is Ok
            &&& dict_read(stream, key, values->Some_0, found->Ok_0)
        }),
{
    let plan = plan_result(heads, rows)->Ok_0;
    lemma_corpus(heads, rows);
    lemma_code_bound(rows, plan.value_dicts, i, j);
    let key = rows[i][j].0;
    let values = dict_values(plan.value_dicts, plan.value_dicts.len(), key)->Some_0;
    let d = plan.value_dicts.index_of((key, values));
    assert(plan.value_dicts[d] == (key, values));
    assert(plan.value_dicts[d].1.len() <= u32::MAX);
    lemma_find(
        heads,
        rows,
        keysets_offset,
        stream,
        d as u32,
        0,
        plan.num_value_dicts,
        missing,
    );
}

/// The block and the packed row of every series of a plan are read back.
pub proof fn row_lookup_law<E>(
    heads: Seq<(u64, u8)>,
    rows: Seq<Seq<(u32, u32)>>,
    keysets_offset: u64,
    stream: ColdStream<E>,
    i: int,
    absent: E,
)
    requires
        plan_result(heads, rows) is Ok,
        section_offsets_result(plan_result(heads, rows)->Ok_0.lengths, keysets_offset) is Ok,
        stream.holds(
            plan_result(heads, rows)->Ok_0,
            section_offsets_result(
                plan_result(heads, rows)->Ok_0.lengths,
                keysets_offset,
            )->Ok_0,
        ),
        0 <= i < rows.len(),
    ensures
        ({
            let plan = plan_result(heads, rows)->Ok_0;
            let at = plan.series_rows[i];
            let widths = widths_of(keys_of(rows[i]), plan.value_dicts);
            let block = stream.block(at.keyset_id);
            &&& block is Ok
            &&& block->Ok_0.key_count == rows[i].len()
            &&& block->Ok_0.widths == widths
            &&& stream.row(block->Ok_0, at.row, absent) == Ok::<Seq<u8>, E>(
                row_bytes(row_codes(rows[i], plan.value_dicts), widths, widths.len()),
            )
        }),
{
    let plan = plan_result(heads, rows)->Ok_0;
    let offsets = section_offsets_result(plan.lengths, keysets_offset)->Ok_0;
    let at = plan.series_rows[i];
    let k = at.keyset_id as int;
    let dicts = plan.value_dicts;
    let entries = block_entries(plan.keysets, plan.rows, dicts);
    let first = 8 * (plan.keysets.len() + 1);
    plan_rows_law(heads, rows, i);
    lemma_sections_held(heads, rows, keysets_offset, stream);
    lemma_corpus(heads, rows);
    written_plan_law(heads, rows, keysets_offset);
    lemma_block_packed(
        (offsets.keyset_blocks + first) as u64,
        plan,
        plan.keysets.len(),
        k,
    );
    reveal(block_shape_result);
    let keys = plan.keysets[k];
    let entry = block_entry(keys, plan.rows[k], dicts);
    lemma_block_entry_len(keys, plan.rows[k], dicts);
    assert(entries[k] == entry);
    let range = lemma_entry_read(stream, stream.keyset_blocks, entries, at.keyset_id);
    lemma_block_held(stream, at.keyset_id, keys, plan.rows[k], dicts, range, at.row, absent);
}

/// The code of every label of a series stands in its packed row.
pub proof fn row_code_law(
    heads: Seq<(u64, u8)>,
    rows: Seq<Seq<(u32, u32)>>,
    keysets_offset: u64,
    i: int,
    j: int,
)
    requires
        plan_result(heads, rows) is Ok,
        section_offsets_result(plan_result(heads, rows)->Ok_0.lengths, keysets_offset) is Ok,
        0 <= i < rows.len(),
        0 <= j < rows[i].len(),
    ensures
        ({
            let dicts = plan_result(heads, rows)->Ok_0.value_dicts;
            let widths = widths_of(keys_of(rows[i]), dicts);
            let packed = row_bytes(row_codes(rows[i], dicts), widths, widths.len());
            &&& widths[j] == canonical_width(cardinality(dicts, rows[i][j].0) as int)
            &&& width_total(widths, j as nat) + widths[j] == width_total(widths, (j + 1) as nat)
            &&& width_total(widths, (j + 1) as nat) <= width_total(widths, widths.len())
            &&& packed.len() == width_total(widths, widths.len()) <= u32::MAX
            &&& code_result(packed, width_total(widths, j as nat) as usize, widths[j]) == Ok::<
                u32,
                Error,
            >(value_code(dicts, rows[i][j].0, rows[i][j].1))
        }),
{
    let plan = plan_result(heads, rows)->Ok_0;
    let offsets = section_offsets_result(plan.lengths, keysets_offset)->Ok_0;
    let at = plan.series_rows[i];
    let k = at.keyset_id as int;
    let first = 8 * (plan.keysets.len() + 1);
    plan_rows_law(heads, rows, i);
    lemma_corpus(heads, rows);
    written_plan_law(heads, rows, keysets_offset);
    lemma_block_packed((offsets.keyset_blocks + first) as u64, plan, plan.keysets.len(), k);
    reveal(block_shape_result);
    let keys = plan.keysets[k];
    let widths = widths_of(keys, plan.value_dicts);
    block_codes_law(keys, plan.rows[k], plan.value_dicts, at.row, j);
    lemma_widths_packable(keys, plan.value_dicts);
    lemma_row_bytes_len(row_codes(rows[i], plan.value_dicts), widths, widths.len());
    lemma_width_total_monotonic(widths, (j + 1) as nat, widths.len());
    assert(keys[j] == rows[i][j].0);
}

} // verus!
