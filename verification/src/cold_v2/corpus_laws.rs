//! Which series can be planned.

use vstd::prelude::*;

use super::blocks::{
    blocks_len_result, blocks_section_len_result, row_len, rows_result, width_total, widths_of,
};
use super::canonical::{dicts_for, keysets_for, lemma_dicts_exist, lemma_keysets_exist};
use super::encode::{
    dict_counts, dict_texts, dicts_len_result, entries_end_result, keyset_counts, keyset_texts,
    keysets_len_result, EntryTexts,
};
use super::plan::{
    corpus_result, lengths_result, plan_result, planned_keyset, planned_keysets, room_result,
};
use super::planner::lemma_keyset_codes_len;
use super::reader::strictly_increasing;
use super::shapes::{
    collect_result, dict_has, has_keyset, has_label, keys_of, keyset_rows, lemma_keyset_rows_bound,
    lex_less, lex_less_at, row_ordered,
};
use crate::error::{Error, ErrorKind, Message};

verus! {

/// The keys of the row rise.
pub open spec fn keys_rise(row: Seq<(u32, u32)>) -> bool {
    forall|j: int, k: int| 0 <= j < k < row.len() ==> row[j].0 < row[k].0
}

proof fn lemma_keys_rise(row: Seq<(u32, u32)>)
    ensures
        keys_rise(row) <==> row_ordered(row),
{
    let keys = keys_of(row);
    if keys_rise(row) {
        assert forall|j: int, k: int| 0 <= j < k < keys.len() implies keys[j] < keys[k] by {
            assert(row[j].0 < row[k].0);
        }
    }
    if row_ordered(row) {
        assert forall|j: int, k: int| 0 <= j < k < row.len() implies row[j].0 < row[k].0 by {
            assert(keys[j] < keys[k]);
        }
    }
}

proof fn lemma_collected(rows: Seq<Seq<(u32, u32)>>, n: nat)
    requires
        n <= rows.len() <= u32::MAX,
        forall|i: int| 0 <= i < n ==> keys_rise(#[trigger] rows[i]),
    ensures
        collect_result(rows, n) is Ok,
    decreases n,
{
    if n > 0 {
        lemma_collected(rows, (n - 1) as nat);
        lemma_keys_rise(rows[n - 1]);
        lemma_keyset_rows_bound(rows, (n - 1) as nat, keys_of(rows[n - 1]));
    }
}

proof fn lemma_refused(rows: Seq<Seq<(u32, u32)>>, n: nat, i: int)
    requires
        0 <= i < n <= rows.len() <= u32::MAX,
        forall|k: int| 0 <= k < i ==> keys_rise(#[trigger] rows[k]),
        !keys_rise(rows[i]),
    ensures
        collect_result(rows, n) == Err::<(), Error>(
            Error { kind: ErrorKind::InvalidData, message: Message::LabelOrder { row: i as usize } },
        ),
    decreases n,
{
    if n == i + 1 {
        lemma_collected(rows, i as nat);
        lemma_keys_rise(rows[i]);
    } else {
        lemma_refused(rows, (n - 1) as nat, i);
    }
}

/// Series with a row whose keys do not rise are not planned, and the error names the first such
/// row.
pub proof fn unordered_row_law(heads: Seq<(u64, u8)>, rows: Seq<Seq<(u32, u32)>>, i: int)
    requires
        rows.len() <= u32::MAX,
        0 <= i < rows.len(),
        forall|k: int| 0 <= k < i ==> keys_rise(#[trigger] rows[k]),
        !keys_rise(rows[i]),
    ensures
        plan_result(heads, rows) is Err,
        plan_result(heads, rows)->Err_0.kind == ErrorKind::InvalidData,
        plan_result(heads, rows)->Err_0.message == (Message::LabelOrder { row: i as usize }),
{
    lemma_refused(rows, rows.len(), i);
}

/// Distinct values that all occur in a list are no more than the list has.
proof fn lemma_distinct_len<A>(some: Seq<A>, all: Seq<A>)
    requires
        some.no_duplicates(),
        forall|i: int| 0 <= i < some.len() ==> all.contains(#[trigger] some[i]),
    ensures
        some.len() <= all.len(),
{
    some.unique_seq_to_set();
    all.lemma_cardinality_of_set();
    vstd::seq_lib::seq_to_set_is_finite(all);
    assert(some.to_set().subset_of(all.to_set()));
    vstd::set_lib::lemma_len_subset(some.to_set(), all.to_set());
}

spec fn labels_upto(rows: Seq<Seq<(u32, u32)>>, n: nat) -> Seq<(u32, u32)>
    decreases n,
{
    if n == 0 {
        Seq::empty()
    } else {
        labels_upto(rows, (n - 1) as nat) + rows[n - 1]
    }
}

proof fn lemma_labels_len(rows: Seq<Seq<(u32, u32)>>, n: nat, width: nat)
    requires
        n <= rows.len(),
        forall|i: int| 0 <= i < rows.len() ==> (#[trigger] rows[i]).len() <= width,
    ensures
        labels_upto(rows, n).len() <= n * width,
    decreases n,
{
    if n > 0 {
        lemma_labels_len(rows, (n - 1) as nat, width);
        assert(n * width == (n - 1) * width + width) by (nonlinear_arith);
        assert(rows[n - 1].len() <= width);
    }
}

proof fn lemma_label_listed(rows: Seq<Seq<(u32, u32)>>, n: nat, i: int, j: int)
    requires
        0 <= i < n <= rows.len(),
        0 <= j < rows[i].len(),
    ensures
        labels_upto(rows, n).contains(rows[i][j]),
    decreases n,
{
    let before = labels_upto(rows, (n - 1) as nat);
    let all = before + rows[n - 1];
    if i == n - 1 {
        assert(all[before.len() + j] == rows[i][j]);
    } else {
        lemma_label_listed(rows, (n - 1) as nat, i, j);
        let at = before.index_of(rows[i][j]);
        assert(all[at] == rows[i][j]);
    }
}

proof fn lemma_lex_irreflexive(keys: Seq<u32>)
    ensures
        !lex_less(keys, keys),
{
}

proof fn lemma_keysets_bound(rows: Seq<Seq<(u32, u32)>>, width: nat)
    requires
        forall|i: int| 0 <= i < rows.len() ==> (#[trigger] rows[i]).len() <= width,
    ensures
        keysets_for(rows).len() <= rows.len(),
        forall|k: int|
            0 <= k < keysets_for(rows).len() ==> (#[trigger] keysets_for(rows)[k]).len() <= width,
{
    let keysets = keysets_for(rows);
    let all = Seq::new(rows.len(), |i: int| keys_of(rows[i]));
    lemma_keysets_exist(rows);
    assert forall|k: int| 0 <= k < keysets.len() implies all.contains(#[trigger] keysets[k])
        && keysets[k].len() <= width by {
        assert(keysets.contains(keysets[k]));
        assert(has_keyset(rows, keysets[k]));
        let i = choose|i: int| 0 <= i < rows.len() && keys_of(#[trigger] rows[i]) == keysets[k];
        assert(all[i] == keysets[k]);
    }
    assert forall|i: int, j: int| 0 <= i < keysets.len() && 0 <= j < keysets.len() && i
        != j implies keysets[i] != keysets[j] by {
        lemma_lex_irreflexive(keysets[i]);
        if i < j {
            assert(lex_less(keysets[i], keysets[j]));
        } else {
            assert(lex_less(keysets[j], keysets[i]));
        }
    }
    lemma_distinct_len(keysets, all);
}

proof fn lemma_dicts_bound(rows: Seq<Seq<(u32, u32)>>, width: nat)
    requires
        forall|i: int| 0 <= i < rows.len() ==> (#[trigger] rows[i]).len() <= width,
    ensures
        dicts_for(rows).len() <= rows.len() * width,
        forall|d: int|
            0 <= d < dicts_for(rows).len() ==> (#[trigger] dicts_for(rows)[d]).1.len() <= rows.len()
                * width,
{
    let dicts = dicts_for(rows);
    let labels = labels_upto(rows, rows.len());
    let label_keys = Seq::new(labels.len(), |i: int| labels[i].0);
    let label_values = Seq::new(labels.len(), |i: int| labels[i].1);
    let keys = Seq::new(dicts.len(), |d: int| dicts[d].0);
    lemma_dicts_exist(rows);
    lemma_labels_len(rows, rows.len(), width);
    assert forall|d: int, c: int|
        0 <= d < dicts.len() && 0 <= c < dicts[d].1.len() implies label_keys.contains(dicts[d].0)
        && label_values.contains(#[trigger] dicts[d].1[c]) by {
        let (key, value) = (dicts[d].0, dicts[d].1[c]);
        assert(dicts[d].1.contains(value));
        assert(dict_has(dicts, key, value));
        assert(has_label(rows, key, value));
        let (i, j) = choose|i: int, j: int|
            0 <= i < rows.len() && 0 <= j < rows[i].len() && #[trigger] rows[i][j] == (key, value);
        lemma_label_listed(rows, rows.len(), i, j);
        let at = labels.index_of((key, value));
        assert(label_keys[at] == key);
        assert(label_values[at] == value);
    }
    assert forall|d: int| 0 <= d < keys.len() implies label_keys.contains(#[trigger] keys[d]) by {
        assert(dicts[d].1.len() > 0);
        let first = dicts[d].1[0];
        assert(label_values.contains(first));
    }
    lemma_distinct_len(keys, label_keys);
    assert forall|d: int| 0 <= d < dicts.len() implies (#[trigger] dicts[d]).1.len() <= rows.len()
        * width by {
        let values = dicts[d].1;
        assert(strictly_increasing(values));
        assert forall|c: int| 0 <= c < values.len() implies label_values.contains(
            #[trigger] values[c],
        ) by {
            assert(values[c] == dicts[d].1[c]);
        }
        lemma_distinct_len(values, label_values);
    }
}

proof fn lemma_entries_fit(cursor: u64, counts: Seq<nat>, n: nat, texts: EntryTexts, most: nat)
    requires
        n <= counts.len(),
        forall|i: int| 0 <= i < counts.len() ==> #[trigger] counts[i] <= most,
        cursor + n * (8 + 4 * most) <= u64::MAX,
    ensures
        entries_end_result(cursor, counts, n, texts) is Ok,
        entries_end_result(cursor, counts, n, texts)->Ok_0 <= cursor + n * (8 + 4 * most),
    decreases n,
{
    if n > 0 {
        assert(n * (8 + 4 * most) == (n - 1) * (8 + 4 * most) + (8 + 4 * most))
            by (nonlinear_arith)
            requires
                n > 0,
        ;
        lemma_entries_fit(cursor, counts, (n - 1) as nat, texts, most);
        assert(counts[n - 1] <= most);
    }
}

proof fn lemma_width_total_fits(widths: Seq<u8>, n: nat)
    requires
        n <= widths.len(),
        forall|j: int| 0 <= j < widths.len() ==> #[trigger] widths[j] <= 4,
    ensures
        width_total(widths, n) <= 4 * n,
    decreases n,
{
    if n > 0 {
        lemma_width_total_fits(widths, (n - 1) as nat);
        assert(widths[n - 1] <= 4);
    }
}

proof fn lemma_row_len_fits(keys: Seq<u32>, dicts: Seq<(u32, Seq<u32>)>)
    ensures
        row_len(keys, dicts) <= 4 * keys.len(),
{
    let widths = widths_of(keys, dicts);
    assert forall|j: int| 0 <= j < widths.len() implies #[trigger] widths[j] <= 4 by {}
    lemma_width_total_fits(widths, keys.len());
}

proof fn lemma_room(rows: Seq<Seq<(u32, u32)>>, keysets: Seq<Seq<u32>>, n: nat, width: nat)
    requires
        n <= keysets.len(),
        rows.len() <= u32::MAX,
        width <= u32::MAX,
        rows.len() * width <= u32::MAX,
        forall|k: int| 0 <= k < keysets.len() ==> (#[trigger] keysets[k]).len() <= width,
    ensures
        room_result(rows, keysets, n) is Ok,
    decreases n,
{
    if n > 0 {
        let keys = keysets[n - 1];
        let count = keyset_rows(rows, rows.len(), keys);
        lemma_room(rows, keysets, (n - 1) as nat, width);
        lemma_keyset_rows_bound(rows, rows.len(), keys);
        lemma_product(keys.len(), width, count, rows.len());
        assert(width * rows.len() == rows.len() * width) by (nonlinear_arith);
    }
}

proof fn lemma_product(a: nat, b: nat, c: nat, d: nat)
    by (nonlinear_arith)
    requires
        a <= b,
        c <= d,
    ensures
        a * c <= b * d,
{
}

proof fn lemma_blocks_fit(
    cursor: u64,
    rows: Seq<Seq<(u32, u32)>>,
    keysets: Seq<Seq<u32>>,
    dicts: Seq<(u32, Seq<u32>)>,
    n: nat,
    width: nat,
)
    requires
        n <= keysets.len(),
        rows.len() <= u32::MAX,
        4 * width <= u32::MAX,
        4 * width * rows.len() <= u32::MAX,
        forall|k: int| 0 <= k < keysets.len() ==> (#[trigger] keysets[k]).len() <= width,
        cursor + n * 0x3_0000_0000 <= u64::MAX,
    ensures
        ({
            let planned = planned_keysets(rows, rows.len(), keysets, dicts);
            let result = blocks_len_result(cursor, keysets, planned, dicts, n);
            result is Ok && result->Ok_0 <= cursor + n * 0x3_0000_0000
        }),
    decreases n,
{
    if n > 0 {
        let planned = planned_keysets(rows, rows.len(), keysets, dicts);
        let keys = keysets[n - 1];
        let count = keyset_rows(rows, rows.len(), keys);
        lemma_blocks_fit(cursor, rows, keysets, dicts, (n - 1) as nat, width);
        lemma_keyset_rows_bound(rows, rows.len(), keys);
        lemma_keyset_codes_len(rows, rows.len(), keys, dicts);
        lemma_row_len_fits(keys, dicts);
        assert(planned[n - 1] == planned_keyset(rows, rows.len(), keys, dicts));
        lemma_product(row_len(keys, dicts), 4 * width, count, rows.len());
        lemma_product(keys.len(), 4 * width, count, rows.len());
        assert(keys.len() * count == count * keys.len()) by (nonlinear_arith);
        let group = planned[n - 1];
        assert(group.row_count == count && group.row_width == keys.len());
        assert(group.row_count * group.row_width == count * keys.len());
        assert(row_len(keys, dicts) * group.row_count == row_len(keys, dicts) * count);
        assert(rows_result(group, None) is Ok);
    }
}

/// Every list of series whose rows have rising keys is planned, as long as eight bytes for each
/// label that its widest row could hold, in every row, can be counted in 32 bits.
pub proof fn planned_series_law(heads: Seq<(u64, u8)>, rows: Seq<Seq<(u32, u32)>>, width: nat)
    requires
        forall|i: int| 0 <= i < rows.len() ==> keys_rise(#[trigger] rows[i]),
        forall|i: int| 0 <= i < rows.len() ==> (#[trigger] rows[i]).len() <= width,
        8 * ((rows.len() + 1) * (width + 1)) <= u32::MAX,
    ensures
        plan_result(heads, rows) is Ok,
{
    let keysets = keysets_for(rows);
    let dicts = dicts_for(rows);
    let most = rows.len() * width;
    assert((rows.len() + 1) * (width + 1) == most + rows.len() + width + 1) by (nonlinear_arith)
        requires
            most == rows.len() * width,
    ;
    lemma_collected(rows, rows.len());
    lemma_keysets_bound(rows, width);
    lemma_dicts_bound(rows, width);
    lemma_room(rows, keysets, keysets.len(), width);
    assert(corpus_result(rows) is Ok);
    assert(keysets.len() * (8 + 4 * width) <= 0x2000_0000 * 0x1_0000_0000) by {
        lemma_product(keysets.len(), 0x2000_0000, 8 + 4 * width, 0x1_0000_0000);
    }
    assert(dicts.len() * (8 + 4 * most) <= 0x2000_0000 * 0x1_0000_0000) by {
        lemma_product(dicts.len(), 0x2000_0000, 8 + 4 * most, 0x1_0000_0000);
    }
    assert(4 * width * rows.len() == 4 * most) by (nonlinear_arith)
        requires
            most == rows.len() * width,
    ;
    let first = (8 * (keysets.len() + 1)) as u64;
    lemma_entries_fit(first, keyset_counts(keysets), keysets.len(), keyset_texts(), width);
    lemma_entries_fit(
        (8 * (dicts.len() + 1)) as u64,
        dict_counts(dicts),
        dicts.len(),
        dict_texts(),
        most,
    );
    lemma_blocks_fit(first, rows, keysets, dicts, keysets.len(), width);
    let planned = planned_keysets(rows, rows.len(), keysets, dicts);
    assert(keysets_len_result(keysets) is Ok);
    assert(dicts_len_result(dicts) is Ok);
    assert(blocks_section_len_result(keysets, planned, dicts) is Ok);
    assert(lengths_result(keysets, planned, dicts) is Ok);
}

/// One keyset comes before another: they agree up to a place where the first ends or has the
/// smaller key.
pub open spec fn comes_before(a: Seq<u32>, b: Seq<u32>, place: int) -> bool {
    &&& 0 <= place <= a.len()
    &&& place < b.len()
    &&& forall|q: int| 0 <= q < place ==> #[trigger] a[q] == b[q]
    &&& place < a.len() ==> a[place] < b[place]
}

/// A row has these keys, in this order.
pub open spec fn has_keys(row: Seq<(u32, u32)>, keys: Seq<u32>) -> bool {
    &&& row.len() == keys.len()
    &&& forall|j: int| 0 <= j < row.len() ==> (#[trigger] row[j]).0 == keys[j]
}

/// A plan lists the keys that some row has, and no others, once and in order.
pub proof fn planned_keysets_law(
    heads: Seq<(u64, u8)>,
    rows: Seq<Seq<(u32, u32)>>,
    keys: Seq<u32>,
    a: int,
    b: int,
)
    requires
        plan_result(heads, rows) is Ok,
    ensures
        plan_result(heads, rows)->Ok_0.keysets.contains(keys) <==> exists|i: int|
            0 <= i < rows.len() && has_keys(#[trigger] rows[i], keys),
        ({
            let keysets = plan_result(heads, rows)->Ok_0.keysets;
            0 <= a < b < keysets.len() ==> exists|place: int|
                comes_before(keysets[a], keysets[b], place)
        }),
{
    let keysets = plan_result(heads, rows)->Ok_0.keysets;
    lemma_keysets_exist(rows);
    assert forall|i: int| 0 <= i < rows.len() implies (has_keys(#[trigger] rows[i], keys)
        <==> keys_of(rows[i]) == keys) by {
        let own = keys_of(rows[i]);
        if has_keys(rows[i], keys) {
            assert(own =~= keys);
        }
        if own == keys {
            assert forall|j: int| 0 <= j < rows[i].len() implies (#[trigger] rows[i][j]).0
                == keys[j] by {
                assert(own[j] == rows[i][j].0);
            }
        }
    }
    if keysets.contains(keys) {
        assert(has_keyset(rows, keys));
    }
    if 0 <= a < b < keysets.len() {
        assert(lex_less(keysets[a], keysets[b]));
        let place = choose|place: int| lex_less_at(keysets[a], keysets[b], place);
        assert(comes_before(keysets[a], keysets[b], place));
    }
}

/// A plan has a dictionary for the keys of the labels, in order, and in each the values of the
/// labels with that key, in order, and no others.
pub proof fn planned_dicts_law(
    heads: Seq<(u64, u8)>,
    rows: Seq<Seq<(u32, u32)>>,
    key: u32,
    value: u32,
    c: int,
    d: int,
    i: int,
    j: int,
)
    requires
        plan_result(heads, rows) is Ok,
    ensures
        ({
            let dicts = plan_result(heads, rows)->Ok_0.value_dicts;
            &&& (exists|e: int|
                0 <= e < dicts.len() && (#[trigger] dicts[e]).0 == key && dicts[e].1.contains(
                    value,
                )) <==> exists|r: int, p: int|
                0 <= r < rows.len() && 0 <= p < rows[r].len() && #[trigger] rows[r][p] == (
                    key,
                    value,
                )
            &&& 0 <= c < d < dicts.len() ==> dicts[c].0 < dicts[d].0
            &&& 0 <= d < dicts.len() ==> dicts[d].1.len() > 0
            &&& 0 <= d < dicts.len() && 0 <= i < j < dicts[d].1.len() ==> dicts[d].1[i]
                < dicts[d].1[j]
        }),
{
    let dicts = plan_result(heads, rows)->Ok_0.value_dicts;
    lemma_dicts_exist(rows);
    assert(dict_has(dicts, key, value) <==> has_label(rows, key, value));
    if 0 <= d < dicts.len() {
        assert(strictly_increasing(dicts[d].1));
    }
}

} // verus!
