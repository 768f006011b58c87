//! What holds of every plan.

use vstd::prelude::*;

use super::blocks::{
    block_entries, block_shape_result, blocks_codes_result, blocks_end_result, blocks_len_result,
    code_row, dict_values, lemma_blocks_end, packed_result, row_codes_result, row_len, widths_of,
    write_blocks_result, KeysetRows,
};
use super::canonical::{
    dicts_for, key_ordered, keysets_for, lemma_dicts_exist, lemma_keysets_exist, sorted_labels,
    sorted_labels_keep_law, stable_sorted, with_key,
};
use super::encode::{
    counted_section_result, dict_counts, dict_entries, dict_texts, entries_end_result,
    keyset_counts, keyset_entries, keyset_texts, lemma_counted_end, lemma_dict_entry_len,
    lemma_keyset_entry_len, offsets_len_result, section_bytes, EntryTexts,
};
use super::plan::{
    append_sections_result, heads_of, keyset_codes, plan_result, planned_keyset, planned_keysets,
    planned_row, row_codes, section_offsets_result, sections_bytes, total_result, value_code,
    write_sections_result,
};
use super::planner::{lemma_keyset_codes_len, lemma_label_coded, sorted_rows};
use super::read_back::lemma_section_len;
use super::reader::strictly_increasing;
use super::shapes::{
    collect_result, dict_has, dicts_of, has_keyset, has_label, keys_of, keyset_rows, keysets_of,
    lemma_keyset_rows_bound, row_ordered, rows_of,
};
use crate::entry::SeriesEntry;
use crate::error::Error;

verus! {

/// Rows in order are planned alike on both ways of building.
pub proof fn canonical_build_law(entries: Seq<SeriesEntry>)
    requires
        forall|i: int| 0 <= i < entries.len() ==> row_ordered((#[trigger] entries[i]).labels@),
    ensures
        plan_result(heads_of(entries), sorted_rows(entries)) == plan_result(
            heads_of(entries),
            rows_of(entries),
        ),
{
    assert forall|i: int| 0 <= i < entries.len() implies #[trigger] sorted_rows(entries)[i]
        == rows_of(entries)[i] by {
        let labels = entries[i].labels@;
        assert(row_ordered(labels));
        assert forall|a: int, b: int| 0 <= a <= b < labels.len() implies labels[a].0
            <= labels[b].0 by {
            if a < b {
                assert(keys_of(labels)[a] < keys_of(labels)[b]);
            }
        }
        sorted_labels_keep_law(labels);
    }
    assert(sorted_rows(entries) =~= rows_of(entries));
}

/// Rows that were collected are in order.
pub proof fn lemma_collected_ordered(rows: Seq<Seq<(u32, u32)>>, n: nat, i: int)
    requires
        0 <= i < n,
        collect_result(rows, n) is Ok,
    ensures
        row_ordered(rows[i]),
    decreases n,
{
    if i < n - 1 {
        lemma_collected_ordered(rows, (n - 1) as nat, i);
    }
}

proof fn lemma_one_per_key(labels: Seq<(u32, u32)>, n: nat, key: u32)
    requires
        row_ordered(labels),
        n <= labels.len(),
    ensures
        with_key(labels, n, key).len() <= 1,
        n > 0 && labels[n - 1].0 < key ==> with_key(labels, n, key).len() == 0,
        n > 0 && labels[n - 1].0 == key ==> with_key(labels, (n - 1) as nat, key).len() == 0,
    decreases n,
{
    if n > 0 {
        lemma_one_per_key(labels, (n - 1) as nat, key);
        if n > 1 {
            assert(keys_of(labels)[n - 2] < keys_of(labels)[n - 1]);
        }
    }
}

proof fn lemma_with_key_counts(labels: Seq<(u32, u32)>, n: nat, i: int, j: int)
    requires
        n <= labels.len(),
        0 <= i < n,
    ensures
        with_key(labels, n, labels[i].0).len() >= 1,
        i < j < n && labels[j].0 == labels[i].0 ==> with_key(labels, n, labels[i].0).len() >= 2,
    decreases n,
{
    if i < n - 1 {
        lemma_with_key_counts(labels, (n - 1) as nat, i, j);
    }
}

/// The stable order by key exists: a row that is sorted holds its labels.
pub proof fn lemma_sorted_exists(labels: Seq<(u32, u32)>, n: nat) -> (sorted: Seq<(u32, u32)>)
    requires
        n <= labels.len(),
    ensures
        key_ordered(sorted),
        forall|key: u32| #[trigger] with_key(sorted, sorted.len(), key) == with_key(labels, n, key),
    decreases n,
{
    if n == 0 {
        Seq::empty()
    } else {
        let before = lemma_sorted_exists(labels, (n - 1) as nat);
        let label = labels[n - 1];
        let at = insert_point(before, before.len(), label.0);
        lemma_insert_point(before, before.len(), label.0);
        let after = before.insert(at as int, label);
        assert forall|i: int, j: int| 0 <= i <= j < after.len() implies after[i].0
            <= after[j].0 by {
            if i < at {
                assert(after[i] == before[i]);
            } else if i > at {
                assert(after[i] == before[i - 1]);
            }
            if j < at {
                assert(after[j] == before[j]);
            } else if j > at {
                assert(after[j] == before[j - 1]);
            }
        }
        assert forall|key: u32| #[trigger]
            with_key(after, after.len(), key) == with_key(labels, n, key) by {
            super::normalize::lemma_with_key_inserted(
                before,
                before.len(),
                at as int,
                label,
                key,
            );
            assert(with_key(before, before.len(), key) == with_key(labels, (n - 1) as nat, key));
        }
        after
    }
}

/// Behind the last of the first `n` labels whose key is not larger.
spec fn insert_point(labels: Seq<(u32, u32)>, n: nat, key: u32) -> nat
    decreases n,
{
    if n == 0 || labels[n - 1].0 <= key {
        n
    } else {
        insert_point(labels, (n - 1) as nat, key)
    }
}

proof fn lemma_insert_point(labels: Seq<(u32, u32)>, n: nat, key: u32)
    requires
        n <= labels.len(),
        key_ordered(labels),
    ensures
        insert_point(labels, n, key) <= n,
        forall|i: int|
            0 <= i < insert_point(labels, n, key) ==> (#[trigger] labels[i]).0 <= key,
        forall|i: int| insert_point(labels, n, key) <= i < n ==> (#[trigger] labels[i]).0 > key,
    decreases n,
{
    if n > 0 && labels[n - 1].0 > key {
        lemma_insert_point(labels, (n - 1) as nat, key);
    }
}

/// Sorting a row keeps how often each key stands in it.
pub proof fn lemma_sorted_stable(labels: Seq<(u32, u32)>)
    ensures
        stable_sorted(labels, sorted_labels(labels)),
{
    let sorted = lemma_sorted_exists(labels, labels.len());
    assert(stable_sorted(labels, sorted));
}

/// A row that has a key twice is refused on both ways of building.
pub proof fn duplicate_key_law(entries: Seq<SeriesEntry>, row: int, i: int, j: int)
    requires
        0 <= row < entries.len(),
        0 <= i < j < entries[row].labels@.len(),
        entries[row].labels@[i].0 == entries[row].labels@[j].0,
    ensures
        plan_result(heads_of(entries), rows_of(entries)) is Err,
        plan_result(heads_of(entries), sorted_rows(entries)) is Err,
{
    let labels = entries[row].labels@;
    let key = labels[i].0;
    let rows = rows_of(entries);
    if collect_result(rows, rows.len()) is Ok {
        lemma_collected_ordered(rows, rows.len(), row);
        assert(keys_of(labels)[i] < keys_of(labels)[j]);
    }
    let sorted = sorted_rows(entries);
    if collect_result(sorted, sorted.len()) is Ok {
        lemma_collected_ordered(sorted, sorted.len(), row);
        lemma_sorted_stable(labels);
        lemma_with_key_counts(labels, labels.len(), i, j);
        let ordered = sorted_labels(labels);
        assert(with_key(ordered, ordered.len(), key) == with_key(labels, labels.len(), key));
        lemma_one_per_key(ordered, ordered.len(), key);
    }
}

/// The codes of row `i` stand where the plan says.
proof fn lemma_codes_at(
    rows: Seq<Seq<(u32, u32)>>,
    n: nat,
    keys: Seq<u32>,
    dicts: Seq<(u32, Seq<u32>)>,
    i: int,
)
    requires
        0 <= i < n <= rows.len(),
        keys_of(rows[i]) == keys,
    ensures
        keyset_rows(rows, i as nat, keys) < keyset_rows(rows, n, keys),
        code_row(
            keyset_codes(rows, n, keys, dicts),
            keys.len(),
            keyset_rows(rows, i as nat, keys) as int,
        ) == row_codes(rows[i], dicts),
    decreases n,
{
    let width = keys.len();
    let codes = keyset_codes(rows, n, keys, dicts);
    let before = keyset_codes(rows, (n - 1) as nat, keys, dicts);
    let r = keyset_rows(rows, i as nat, keys) as int;
    assert(rows[i].len() == width);
    lemma_keyset_codes_len(rows, n, keys, dicts);
    lemma_keyset_codes_len(rows, (n - 1) as nat, keys, dicts);
    if i == n - 1 {
        assert(code_row(codes, width, r) =~= row_codes(rows[i], dicts));
    } else {
        lemma_codes_at(rows, (n - 1) as nat, keys, dicts, i);
        let count = keyset_rows(rows, (n - 1) as nat, keys);
        assert(r * width + width <= count * width) by (nonlinear_arith)
            requires
                0 <= r < count,
                0 <= width,
        ;
        assert(0 <= r * width) by (nonlinear_arith)
            requires
                0 <= r,
                0 <= width,
        ;
        assert forall|j: int| 0 <= j < width implies #[trigger] code_row(codes, width, r)[j]
            == code_row(before, width, r)[j] by {
            assert(codes[r * width + j] == before[r * width + j]);
        }
        assert(code_row(codes, width, r) =~= code_row(before, width, r));
    }
}

/// Every packed row is the row of some series.
proof fn lemma_row_origin(
    rows: Seq<Seq<(u32, u32)>>,
    n: nat,
    keys: Seq<u32>,
    r: int,
) -> (i: int)
    requires
        n <= rows.len(),
        0 <= r < keyset_rows(rows, n, keys),
    ensures
        0 <= i < n,
        keys_of(rows[i]) == keys,
        keyset_rows(rows, i as nat, keys) == r,
    decreases n,
{
    if r < keyset_rows(rows, (n - 1) as nat, keys) {
        lemma_row_origin(rows, (n - 1) as nat, keys, r)
    } else {
        n - 1
    }
}

/// A label of the rows has a code below the number of values of its key.
pub proof fn lemma_code_bound(
    rows: Seq<Seq<(u32, u32)>>,
    dicts: Seq<(u32, Seq<u32>)>,
    i: int,
    j: int,
)
    requires
        dicts_of(rows, dicts),
        forall|d: int| 0 <= d < dicts.len() ==> (#[trigger] dicts[d]).1.len() <= u32::MAX,
        0 <= i < rows.len(),
        0 <= j < rows[i].len(),
    ensures
        ({
            let values = dict_values(dicts, dicts.len(), rows[i][j].0);
            let code = value_code(dicts, rows[i][j].0, rows[i][j].1);
            &&& values is Some
            &&& dicts.contains((rows[i][j].0, values->Some_0))
            &&& strictly_increasing(values->Some_0)
            &&& code < values->Some_0.len()
            &&& values->Some_0[code as int] == rows[i][j].1
        }),
{
    let (key, value) = rows[i][j];
    assert(rows[i][j] == (key, value));
    assert(has_label(rows, key, value));
    assert(dict_has(dicts, key, value));
    lemma_label_coded(dicts, key, value);
    let values = dict_values(dicts, dicts.len(), key)->Some_0;
    let d = dicts.index_of((key, values));
    assert(dicts[d].1 == values);
    let c = values.index_of(value);
    assert(0 <= c < values.len() && values[c] == value);
}

proof fn lemma_row_packs(
    rows: Seq<Seq<(u32, u32)>>,
    dicts: Seq<(u32, Seq<u32>)>,
    i: int,
    n: nat,
)
    requires
        dicts_of(rows, dicts),
        forall|d: int| 0 <= d < dicts.len() ==> (#[trigger] dicts[d]).1.len() <= u32::MAX,
        0 <= i < rows.len(),
        n <= rows[i].len(),
    ensures
        row_codes_result(row_codes(rows[i], dicts), widths_of(keys_of(rows[i]), dicts), n) is Ok,
    decreases n,
{
    if n > 0 {
        lemma_row_packs(rows, dicts, i, (n - 1) as nat);
        lemma_code_bound(rows, dicts, i, n - 1);
        assert(keys_of(rows[i])[n - 1] == rows[i][n - 1].0);
    }
}

proof fn lemma_keyset_packs(
    rows: Seq<Seq<(u32, u32)>>,
    dicts: Seq<(u32, Seq<u32>)>,
    keys: Seq<u32>,
    n: nat,
)
    requires
        dicts_of(rows, dicts),
        forall|d: int| 0 <= d < dicts.len() ==> (#[trigger] dicts[d]).1.len() <= u32::MAX,
        n <= keyset_rows(rows, rows.len(), keys),
    ensures
        packed_result(
            keyset_codes(rows, rows.len(), keys, dicts),
            widths_of(keys, dicts),
            n,
        ) is Ok,
    decreases n,
{
    if n > 0 {
        lemma_keyset_packs(rows, dicts, keys, (n - 1) as nat);
        let i = lemma_row_origin(rows, rows.len(), keys, n - 1);
        lemma_codes_at(rows, rows.len(), keys, dicts, i);
        lemma_row_packs(rows, dicts, i, rows[i].len());
        assert(rows[i].len() == keys.len());
    }
}

/// The facts that a plan rests on.
pub proof fn lemma_corpus(heads: Seq<(u64, u8)>, rows: Seq<Seq<(u32, u32)>>)
    requires
        plan_result(heads, rows) is Ok,
    ensures
        keysets_of(rows, keysets_for(rows)),
        dicts_of(rows, dicts_for(rows)),
        rows.len() <= u32::MAX,
        keysets_for(rows).len() <= u32::MAX,
        dicts_for(rows).len() <= u32::MAX,
        forall|k: int|
            0 <= k < keysets_for(rows).len() ==> (#[trigger] keysets_for(rows)[k]).len()
                <= u32::MAX,
        forall|d: int|
            0 <= d < dicts_for(rows).len() ==> (#[trigger] dicts_for(rows)[d]).1.len() <= u32::MAX,
{
    lemma_keysets_exist(rows);
    lemma_dicts_exist(rows);
}

proof fn lemma_entries_shift(start: u64, shift: u64, counts: Seq<nat>, n: nat, texts: EntryTexts)
    requires
        entries_end_result(start, counts, n, texts) is Ok,
        shift + entries_end_result(start, counts, n, texts)->Ok_0 <= u64::MAX,
    ensures
        start <= entries_end_result(start, counts, n, texts)->Ok_0,
        entries_end_result((shift + start) as u64, counts, n, texts) == Ok::<u64, Error>(
            (shift + entries_end_result(start, counts, n, texts)->Ok_0) as u64,
        ),
    decreases n,
{
    if n > 0 {
        lemma_entries_shift(start, shift, counts, (n - 1) as nat, texts);
    }
}

/// A section of counted entries that has a length can be written wherever it
/// fits, and has that length.
proof fn lemma_counted_written(
    section_offset: u64,
    entries: Seq<Seq<u8>>,
    counts: Seq<nat>,
    offset_text: &'static str,
    texts: EntryTexts,
)
    requires
        entries.len() == counts.len(),
        forall|i: int| 0 <= i < entries.len() ==> (#[trigger] entries[i]).len() == 8 + 4 * counts[i],
        forall|i: int| 0 <= i < counts.len() ==> #[trigger] counts[i] <= u32::MAX,
        offsets_len_result(counts.len()) is Ok,
        entries_end_result(
            offsets_len_result(counts.len())->Ok_0,
            counts,
            counts.len(),
            texts,
        ) is Ok,
        section_offset + entries_end_result(
            offsets_len_result(counts.len())->Ok_0,
            counts,
            counts.len(),
            texts,
        )->Ok_0 <= u64::MAX,
    ensures
        counted_section_result(section_offset, counts, offset_text, texts) is Ok,
        section_bytes(section_offset as int, entries).len() == entries_end_result(
            offsets_len_result(counts.len())->Ok_0,
            counts,
            counts.len(),
            texts,
        )->Ok_0,
{
    let first = offsets_len_result(counts.len())->Ok_0;
    lemma_entries_shift(first, section_offset, counts, counts.len(), texts);
    lemma_counted_end(first, entries, counts, counts.len(), texts);
    lemma_section_len(section_offset as int, entries);
    assert(entries.take(entries.len() as int) =~= entries);
}

proof fn lemma_blocks_shift(
    start: u64,
    shift: u64,
    keysets: Seq<Seq<u32>>,
    rows: Seq<KeysetRows>,
    dicts: Seq<(u32, Seq<u32>)>,
    n: nat,
)
    requires
        blocks_len_result(start, keysets, rows, dicts, n) is Ok,
        shift + blocks_len_result(start, keysets, rows, dicts, n)->Ok_0 <= u64::MAX,
    ensures
        start <= blocks_len_result(start, keysets, rows, dicts, n)->Ok_0,
        blocks_end_result((shift + start) as u64, keysets, rows, dicts, n) == Ok::<u64, Error>(
            (shift + blocks_len_result(start, keysets, rows, dicts, n)->Ok_0) as u64,
        ),
    decreases n,
{
    if n > 0 {
        let k = n - 1;
        reveal(block_shape_result);
        assert(0 <= row_len(keysets[k], dicts) * rows[k].row_count) by (nonlinear_arith);
        lemma_blocks_shift(start, shift, keysets, rows, dicts, (n - 1) as nat);
    }
}

proof fn lemma_blocks_pack(
    rows: Seq<Seq<(u32, u32)>>,
    keysets: Seq<Seq<u32>>,
    dicts: Seq<(u32, Seq<u32>)>,
    n: nat,
)
    requires
        dicts_of(rows, dicts),
        forall|d: int| 0 <= d < dicts.len() ==> (#[trigger] dicts[d]).1.len() <= u32::MAX,
        rows.len() <= u32::MAX,
        n <= keysets.len(),
    ensures
        blocks_codes_result(keysets, planned_keysets(rows, rows.len(), keysets, dicts), dicts, n)
            is Ok,
    decreases n,
{
    if n > 0 {
        lemma_blocks_pack(rows, keysets, dicts, (n - 1) as nat);
        lemma_keyset_rows_bound(rows, rows.len(), keysets[n - 1]);
        lemma_keyset_packs(
            rows,
            dicts,
            keysets[n - 1],
            keyset_rows(rows, rows.len(), keysets[n - 1]),
        );
    }
}

/// A plan can be written at every offset at which it fits, and what is written
/// has the length that the plan gives.
pub proof fn written_plan_law(
    heads: Seq<(u64, u8)>,
    rows: Seq<Seq<(u32, u32)>>,
    keysets_offset: u64,
)
    requires
        plan_result(heads, rows) is Ok,
        section_offsets_result(plan_result(heads, rows)->Ok_0.lengths, keysets_offset) is Ok,
    ensures
        ({
            let plan = plan_result(heads, rows)->Ok_0;
            let offsets = section_offsets_result(plan.lengths, keysets_offset)->Ok_0;
            let total = offsets.end - offsets.keysets;
            &&& total_result(plan.lengths) == Ok::<u64, Error>(total as u64)
            &&& write_sections_result(plan, offsets) == Ok::<u64, Error>(total as u64)
            &&& sections_bytes(plan, offsets).len() == total
            &&& total <= usize::MAX ==> append_sections_result(
                plan,
                keysets_offset as nat,
                offsets,
            ) == Ok::<(), Error>(())
            &&& section_bytes(offsets.keysets as int, keyset_entries(plan.keysets)).len()
                == plan.lengths.keysets
            &&& section_bytes(offsets.value_dicts as int, dict_entries(plan.value_dicts)).len()
                == plan.lengths.value_dicts
            &&& section_bytes(
                offsets.keyset_blocks as int,
                block_entries(plan.keysets, plan.rows, plan.value_dicts),
            ).len() == plan.lengths.keyset_blocks
            &&& write_blocks_result(
                offsets.keyset_blocks,
                plan.keysets,
                plan.rows,
                plan.value_dicts,
            ) is Ok
        }),
{
    let keysets = keysets_for(rows);
    let dicts = dicts_for(rows);
    let plan = plan_result(heads, rows)->Ok_0;
    let offsets = section_offsets_result(plan.lengths, keysets_offset)->Ok_0;
    lemma_corpus(heads, rows);
    assert forall|k: int| 0 <= k < keysets.len() implies #[trigger] keyset_counts(keysets)[k]
        <= u32::MAX by {
        assert(keysets[k].len() <= u32::MAX);
    }
    lemma_keyset_entry_len(keysets);
    lemma_counted_written(
        offsets.keysets,
        keyset_entries(keysets),
        keyset_counts(keysets),
        "series keysets offset overflow",
        keyset_texts(),
    );
    assert forall|d: int| 0 <= d < dicts.len() implies #[trigger] dict_counts(dicts)[d]
        <= u32::MAX by {
        assert(dicts[d].1.len() <= u32::MAX);
    }
    lemma_dict_entry_len(dicts);
    lemma_counted_written(
        offsets.value_dicts,
        dict_entries(dicts),
        dict_counts(dicts),
        "series value dictionaries offset overflow",
        dict_texts(),
    );
    let first = offsets_len_result(keysets.len())->Ok_0;
    let blocks = block_entries(keysets, plan.rows, dicts);
    lemma_blocks_shift(first, offsets.keyset_blocks, keysets, plan.rows, dicts, keysets.len());
    lemma_blocks_pack(rows, keysets, dicts, keysets.len());
    lemma_blocks_end(
        (offsets.keyset_blocks + first) as u64,
        keysets,
        plan.rows,
        dicts,
        keysets.len(),
    );
    lemma_section_len(offsets.keyset_blocks as int, blocks);
    assert(blocks.take(blocks.len() as int) =~= blocks);
}

/// The plan places every series: its keyset is that of its row, and its packed
/// row holds the code of every label.
pub proof fn plan_rows_law(heads: Seq<(u64, u8)>, rows: Seq<Seq<(u32, u32)>>, i: int)
    requires
        plan_result(heads, rows) is Ok,
        0 <= i < rows.len(),
    ensures
        ({
            let plan = plan_result(heads, rows)->Ok_0;
            let at = plan.series_rows[i];
            &&& at.series_id == heads[i].0
            &&& at.kind_mask == heads[i].1
            &&& at.keyset_id < plan.keysets.len()
            &&& plan.keysets[at.keyset_id as int] == keys_of(rows[i])
            &&& at.row < plan.rows[at.keyset_id as int].row_count
            &&& code_row(
                plan.rows[at.keyset_id as int].codes,
                rows[i].len(),
                at.row as int,
            ) == row_codes(rows[i], plan.value_dicts)
        }),
{
    let keysets = keysets_for(rows);
    let dicts = dicts_for(rows);
    let plan = plan_result(heads, rows)->Ok_0;
    lemma_corpus(heads, rows);
    let keys = keys_of(rows[i]);
    assert(has_keyset(rows, keys));
    assert(keysets.contains(keys));
    let k = keysets.index_of(keys);
    assert(keysets[k] == keys);
    lemma_codes_at(rows, rows.len(), keys, dicts, i);
    lemma_keyset_rows_bound(rows, rows.len(), keys);
    assert(plan.series_rows[i] == planned_row(heads, rows, keysets, i));
    assert(plan.rows[k] == planned_keyset(rows, rows.len(), keysets[k], dicts));
}

} // verus!
