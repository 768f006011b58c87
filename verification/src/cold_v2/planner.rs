//! Building the plan for the cold label stream.

use std::collections::BTreeMap;

use vstd::prelude::*;

use super::blocks::{
    append_row_result, code_maps_of, code_maps_result, dict_values, found_codes, is_code_map,
    keyset_blocks_section_len, label_code, new_rows_result, rows_view, value_code_maps,
    value_codes_result, ColdKeysetRows,
};
use super::canonical::{dicts_law, keysets_law, sorted_labels};
use super::encode::{
    checked_u32, keysets_section_len, value_dicts_section_len,
};
use super::ids::{keyset_id_map, keyset_ids_result, numbered};
use super::normalize::{normalize_series_entries, normalizes};
use super::plan::{
    heads_of, keyset_codes, plan_result, planned_keyset, planned_keysets, planned_row, room_result,
    row_codes, validate_cold_shapes, SeriesColdV2Lengths, SeriesColdV2Plan, SeriesColdV2SeriesRow,
};
use super::shapes::{
    collect_cold_shapes, dict_has, dict_keys_sorted, dicts_of, dicts_sorted, dicts_view, has_keyset,
    has_label, keys_of, keyset_rows, keysets_of, keysets_view, lemma_keyset_rows_bound,
    lemma_keysets_distinct, lex_sorted, rows_of, ColdPlanSeriesEntry,
};
use crate::entry::SeriesEntry;
use crate::error::{invalid_data, Error};

verus! {

broadcast use vstd::std_specs::btree::group_btree_axioms;

/// Keysets in order can be numbered.
proof fn lemma_keysets_numbered(keysets: Seq<Seq<u32>>, n: nat)
    requires
        lex_sorted(keysets),
        n <= keysets.len() <= u32::MAX,
    ensures
        keyset_ids_result(keysets, n) is Ok,
    decreases n,
{
    if n > 0 {
        lemma_keysets_numbered(keysets, (n - 1) as nat);
        let before = keysets.take(n - 1);
        if before.contains(keysets[n - 1]) {
            let i = before.index_of(keysets[n - 1]);
            assert(keysets[i] == keysets[n - 1]);
            lemma_keysets_distinct(keysets, i, n - 1);
        }
    }
}

proof fn lemma_values_numbered(values: Seq<u32>, n: nat)
    requires
        super::reader::strictly_increasing(values),
        n <= values.len() <= u32::MAX,
    ensures
        value_codes_result(values, n) is Ok,
    decreases n,
{
    if n > 0 {
        lemma_values_numbered(values, (n - 1) as nat);
        let before = values.take(n - 1);
        if before.contains(values[n - 1]) {
            let i = before.index_of(values[n - 1]);
            assert(values[i] == values[n - 1]);
        }
    }
}

proof fn lemma_dict_absent(dicts: Seq<(u32, Seq<u32>)>, n: nat, key: u32)
    requires
        n <= dicts.len(),
        forall|d: int| 0 <= d < n ==> (#[trigger] dicts[d]).0 != key,
    ensures
        dict_values(dicts, n, key) is None,
    decreases n,
{
    if n > 0 {
        lemma_dict_absent(dicts, (n - 1) as nat, key);
    }
}

/// The values of a key are those of its dictionary.
pub proof fn lemma_dict_present(dicts: Seq<(u32, Seq<u32>)>, n: nat, d: int)
    requires
        dict_keys_sorted(dicts),
        0 <= d < n <= dicts.len(),
    ensures
        dict_values(dicts, n, dicts[d].0) == Some(dicts[d].1),
    decreases n,
{
    if d < n - 1 {
        assert(dicts[d].0 < dicts[n - 1].0);
        lemma_dict_present(dicts, (n - 1) as nat, d);
    }
}

/// Dictionaries in order can be numbered.
proof fn lemma_dicts_numbered(dicts: Seq<(u32, Seq<u32>)>, n: nat)
    requires
        dicts_sorted(dicts),
        forall|d: int| 0 <= d < dicts.len() ==> (#[trigger] dicts[d]).1.len() <= u32::MAX,
        n <= dicts.len(),
    ensures
        code_maps_result(dicts, n) is Ok,
    decreases n,
{
    if n > 0 {
        lemma_dicts_numbered(dicts, (n - 1) as nat);
        lemma_values_numbered(dicts[n - 1].1, dicts[n - 1].1.len());
        assert forall|d: int| 0 <= d < n - 1 implies (#[trigger] dicts[d]).0 != dicts[n - 1].0 by {
            assert(dicts[d].0 < dicts[n - 1].0);
        }
        lemma_dict_absent(dicts, (n - 1) as nat, dicts[n - 1].0);
    }
}

/// A label of the rows has a code.
pub proof fn lemma_label_coded(dicts: Seq<(u32, Seq<u32>)>, key: u32, value: u32)
    requires
        dicts_sorted(dicts),
        dict_has(dicts, key, value),
    ensures
        dict_values(dicts, dicts.len(), key) is Some,
        dict_values(dicts, dicts.len(), key)->Some_0.contains(value),
        super::reader::strictly_increasing(dict_values(dicts, dicts.len(), key)->Some_0),
        dicts.contains((key, dict_values(dicts, dicts.len(), key)->Some_0)),
{
    let d = choose|d: int|
        0 <= d < dicts.len() && (#[trigger] dicts[d]).0 == key && dicts[d].1.contains(value);
    lemma_dict_present(dicts, dicts.len(), d);
    assert(dicts[d] == (key, dicts[d].1));
}

/// The maps give every label its code.
proof fn lemma_codes_found(
    labels: Seq<(u32, u32)>,
    maps: Map<u32, BTreeMap<u32, u32>>,
    dicts: Seq<(u32, Seq<u32>)>,
    n: nat,
)
    requires
        n <= labels.len(),
        code_maps_of(maps, dicts, dicts.len()),
        dicts_sorted(dicts),
        forall|d: int| 0 <= d < dicts.len() ==> (#[trigger] dicts[d]).1.len() <= u32::MAX,
        forall|j: int|
            0 <= j < labels.len() ==> dict_has(dicts, (#[trigger] labels[j]).0, labels[j].1),
    ensures
        found_codes(labels, maps, n) == row_codes(labels, dicts).take(n as int),
    decreases n,
{
    let codes = row_codes(labels, dicts);
    if n > 0 {
        lemma_codes_found(labels, maps, dicts, (n - 1) as nat);
        let (key, value) = labels[n - 1];
        assert(dict_has(dicts, labels[n - 1].0, labels[n - 1].1));
        lemma_label_coded(dicts, key, value);
        let values = dict_values(dicts, dicts.len(), key)->Some_0;
        let d = dicts.index_of((key, values));
        assert(dicts[d].1 == values);
        assert(is_code_map(maps[key]@, values));
        assert(values[values.index_of(value)] == value);
        assert(maps[key]@.contains_key(value));
        assert(label_code(maps, key, value) == Some(codes[n - 1]));
        assert(codes.take(n as int) =~= codes.take(n - 1).push(codes[n - 1]));
    } else {
        assert(codes.take(0) =~= Seq::empty());
    }
}

pub proof fn lemma_keyset_codes_len(
    rows: Seq<Seq<(u32, u32)>>,
    n: nat,
    keys: Seq<u32>,
    dicts: Seq<(u32, Seq<u32>)>,
)
    ensures
        keyset_codes(rows, n, keys, dicts).len() == keyset_rows(rows, n, keys) * keys.len(),
    decreases n,
{
    let count = keyset_rows(rows, n, keys);
    if n > 0 {
        lemma_keyset_codes_len(rows, (n - 1) as nat, keys, dicts);
        if keys_of(rows[n - 1]) == keys {
            assert(rows[n - 1].len() == keys.len());
            assert((count - 1) * keys.len() + keys.len() == count * keys.len()) by (nonlinear_arith);
        }
    } else {
        assert(0 * keys.len() == 0) by (nonlinear_arith);
    }
}

proof fn lemma_room_error(rows: Seq<Seq<(u32, u32)>>, keysets: Seq<Seq<u32>>, n: nat, m: nat)
    requires
        n <= m,
        room_result(rows, keysets, n) is Err,
    ensures
        room_result(rows, keysets, m) == room_result(rows, keysets, n),
    decreases m,
{
    if n < m {
        lemma_room_error(rows, keysets, n, (m - 1) as nat);
    }
}

pub proof fn lemma_room(rows: Seq<Seq<(u32, u32)>>, keysets: Seq<Seq<u32>>, n: nat, k: int)
    requires
        0 <= k < n,
        room_result(rows, keysets, n) is Ok,
    ensures
        new_rows_result(
            keysets[k].len() as usize,
            keyset_rows(rows, rows.len(), keysets[k]) as u32,
        ) is Ok,
    decreases n,
{
    if k < n - 1 {
        lemma_room(rows, keysets, (n - 1) as nat, k);
    }
}

/// Empty rows for every keyset.
fn empty_rows(
    keysets: &[Vec<u32>],
    counts: &[u32],
    Ghost(rows): Ghost<Seq<Seq<(u32, u32)>>>,
    Ghost(dicts): Ghost<Seq<(u32, Seq<u32>)>>,
) -> (result: Result<Vec<ColdKeysetRows>, Error>)
    requires
        counts@.len() == keysets@.len(),
        forall|k: int|
            0 <= k < keysets@.len() ==> #[trigger] counts@[k] == keyset_rows(
                rows,
                rows.len(),
                keysets_view(keysets@)[k],
            ),
    ensures
        match room_result(rows, keysets_view(keysets@), keysets@.len()) {
            Err(error) => result == Err::<Vec<ColdKeysetRows>, Error>(error),
            Ok(_) => result is Ok && rows_view(result->Ok_0@) == planned_keysets(
                rows,
                0,
                keysets_view(keysets@),
                dicts,
            ),
        },
{
    let ghost view = keysets_view(keysets@);
    let mut rows_by_keyset: Vec<ColdKeysetRows> = Vec::new();
    let mut k: usize = 0;
    while k < keysets.len()
        invariant
            k <= keysets@.len(),
            view == keysets_view(keysets@),
            counts@.len() == keysets@.len(),
            forall|i: int|
                0 <= i < keysets@.len() ==> #[trigger] counts@[i] == keyset_rows(
                    rows,
                    rows.len(),
                    view[i],
                ),
            room_result(rows, view, k as nat) is Ok,
            rows_by_keyset@.len() == k,
            forall|i: int|
                0 <= i < k ==> (#[trigger] rows_by_keyset@[i])@ == planned_keyset(
                    rows,
                    0,
                    view[i],
                    dicts,
                ),
        decreases keysets@.len() - k,
    {
        assert(view[k as int] == keysets@[k as int]@);
        assert(counts@[k as int] == keyset_rows(rows, rows.len(), view[k as int]));
        match ColdKeysetRows::with_exact_capacity(keysets[k].len(), counts[k]) {
            Ok(empty) => {
                rows_by_keyset.push(empty);
            },
            Err(error) => {
                proof {
                    lemma_room_error(rows, view, (k + 1) as nat, keysets@.len());
                }
                return Err(error);
            },
        }
        k += 1;
    }
    proof {
        let empty = planned_keysets(rows, 0, view, dicts);
        assert forall|i: int| 0 <= i < view.len() implies rows_view(rows_by_keyset@)[i]
            == #[trigger] empty[i] by {
            assert(rows_by_keyset@[i]@ == planned_keyset(rows, 0, view[i], dicts));
        }
        assert(rows_view(rows_by_keyset@) =~= empty);
    }
    Ok(rows_by_keyset)
}

/// The keys of a label row.
fn row_keys(labels: &[(u32, u32)]) -> (keys: Vec<u32>)
    ensures
        keys@ == keys_of(labels@),
{
    let mut keys: Vec<u32> = Vec::new();
    let mut j: usize = 0;
    while j < labels.len()
        invariant
            j <= labels@.len(),
            keys@.len() == j,
            forall|i: int| 0 <= i < j ==> #[trigger] keys@[i] == labels@[i].0,
        decreases labels@.len() - j,
    {
        keys.push(labels[j].0);
        j += 1;
    }
    assert(keys@ =~= keys_of(labels@));
    keys
}

/// The rows after one more row.
proof fn lemma_row_packed(
    rows: Seq<Seq<(u32, u32)>>,
    n: nat,
    keysets: Seq<Seq<u32>>,
    dicts: Seq<(u32, Seq<u32>)>,
    maps: Map<u32, BTreeMap<u32, u32>>,
    k: int,
)
    requires
        n < rows.len() <= u32::MAX,
        lex_sorted(keysets),
        0 <= k < keysets.len(),
        keysets[k] == keys_of(rows[n as int]),
        keysets[k].len() <= u32::MAX,
        code_maps_of(maps, dicts, dicts.len()),
        dicts_of(rows, dicts),
        forall|d: int| 0 <= d < dicts.len() ==> (#[trigger] dicts[d]).1.len() <= u32::MAX,
    ensures
        append_row_result(planned_keyset(rows, n, keysets[k], dicts), rows[n as int], maps) == (
            planned_keyset(rows, n + 1, keysets[k], dicts),
            Ok::<(), Error>(()),
        ),
        planned_keysets(rows, n + 1, keysets, dicts) == planned_keysets(
            rows,
            n,
            keysets,
            dicts,
        ).update(k, planned_keyset(rows, n + 1, keysets[k], dicts)),
{
    let row = rows[n as int];
    assert forall|j: int| 0 <= j < row.len() implies dict_has(
        dicts,
        (#[trigger] row[j]).0,
        row[j].1,
    ) by {
        assert(rows[n as int][j] == (row[j].0, row[j].1));
        assert(has_label(rows, row[j].0, row[j].1));
    }
    lemma_codes_found(row, maps, dicts, row.len());
    assert(row_codes(row, dicts).take(row.len() as int) =~= row_codes(row, dicts));
    lemma_keyset_rows_bound(rows, n, keysets[k]);
    let before = planned_keysets(rows, n, keysets, dicts);
    let after = planned_keysets(rows, n + 1, keysets, dicts);
    assert forall|i: int| 0 <= i < keysets.len() implies after[i] == #[trigger] before.update(
        k,
        planned_keyset(rows, n + 1, keysets[k], dicts),
    )[i] by {
        if i != k && keysets[i] == keys_of(row) {
            lemma_keysets_distinct(keysets, i, k);
        }
    }
    assert(after =~= before.update(k, planned_keyset(rows, n + 1, keysets[k], dicts)));
}

/// Packs every row under its keyset.
fn pack_rows<E: ColdPlanSeriesEntry>(
    entries: &[E],
    keyset_ids: &super::ids::KeysetIds,
    value_codes: &BTreeMap<u32, BTreeMap<u32, u32>>,
    rows_by_keyset: &mut Vec<ColdKeysetRows>,
    Ghost(keysets): Ghost<Seq<Seq<u32>>>,
    Ghost(dicts): Ghost<Seq<(u32, Seq<u32>)>>,
) -> (result: Result<Vec<SeriesColdV2SeriesRow>, Error>)
    requires
        entries@.len() <= u32::MAX,
        keyset_ids.wf(),
        numbered(keyset_ids@, keysets, keysets.len()),
        keysets.len() <= u32::MAX,
        keysets_of(rows_of(entries@), keysets),
        forall|k: int| 0 <= k < keysets.len() ==> (#[trigger] keysets[k]).len() <= u32::MAX,
        code_maps_of(value_codes@, dicts, dicts.len()),
        dicts_of(rows_of(entries@), dicts),
        forall|d: int| 0 <= d < dicts.len() ==> (#[trigger] dicts[d]).1.len() <= u32::MAX,
        rows_view(old(rows_by_keyset)@) == planned_keysets(rows_of(entries@), 0, keysets, dicts),
    ensures
        result is Ok,
        rows_view(final(rows_by_keyset)@) == planned_keysets(
            rows_of(entries@),
            entries@.len(),
            keysets,
            dicts,
        ),
        result->Ok_0@ == Seq::new(
            entries@.len(),
            |i: int| planned_row(heads_of(entries@), rows_of(entries@), keysets, i),
        ),
{
    let ghost rows = rows_of(entries@);
    let ghost heads = heads_of(entries@);
    let mut series_rows: Vec<SeriesColdV2SeriesRow> = Vec::new();
    let mut i: usize = 0;
    while i < entries.len()
        invariant
            i <= entries@.len() <= u32::MAX,
            rows == rows_of(entries@),
            heads == heads_of(entries@),
            keyset_ids.wf(),
            numbered(keyset_ids@, keysets, keysets.len()),
            keysets.len() <= u32::MAX,
            keysets_of(rows, keysets),
            forall|k: int| 0 <= k < keysets.len() ==> (#[trigger] keysets[k]).len() <= u32::MAX,
            code_maps_of(value_codes@, dicts, dicts.len()),
            dicts_of(rows, dicts),
            forall|d: int| 0 <= d < dicts.len() ==> (#[trigger] dicts[d]).1.len() <= u32::MAX,
            rows_view(rows_by_keyset@) == planned_keysets(rows, i as nat, keysets, dicts),
            series_rows@.len() == i,
            forall|j: int|
                0 <= j < i ==> #[trigger] series_rows@[j] == planned_row(heads, rows, keysets, j),
        decreases entries@.len() - i,
    {
        let labels = entries[i].labels();
        assert(rows[i as int] == labels@);
        let keys: Vec<u32> = row_keys(labels);
        let ghost k = keysets.index_of(keys@);
        proof {
            assert(has_keyset(rows, keys@)) by {
                assert(keys_of(rows[i as int]) == keys@);
            }
            assert(keysets.contains(keys@));
            assert(keysets[k] == keys@);
            assert(keysets.take(keysets.len() as int) =~= keysets);
            assert(keyset_ids@.contains_key(keys@));
            assert(keyset_ids@[keysets[k]] == k);
            assert(rows_view(rows_by_keyset@).len() == keysets.len());
        }
        let keyset_id: u32 = match keyset_ids.get(&keys) {
            Some(keyset_id) => keyset_id,
            None => {
                return Err(invalid_data("series keyset missing"));
            },
        };
        let keyset_idx: usize = keyset_id as usize;
        if keyset_idx >= rows_by_keyset.len() {
            return Err(invalid_data("series keyset id out of bounds"));
        }
        let ghost before = rows_by_keyset@;
        proof {
            lemma_row_packed(rows, i as nat, keysets, dicts, value_codes@, k);
            lemma_keyset_rows_bound(rows, i as nat, keysets[k]);
            assert(before[k]@ == rows_view(before)[k]);
            assert(before[k]@ == planned_keyset(rows, i as nat, keysets[k], dicts));
        }
        let row: u32 = rows_by_keyset[keyset_idx].next_row();
        rows_by_keyset[keyset_idx].append_row(labels, value_codes)?;
        proof {
            assert(rows_view(rows_by_keyset@) =~= rows_view(before).update(
                k,
                planned_keyset(rows, (i + 1) as nat, keysets[k], dicts),
            ));
        }
        series_rows.push(
            SeriesColdV2SeriesRow {
                series_id: entries[i].series_id(),
                kind_mask: entries[i].kind_mask(),
                keyset_id,
                row,
            },
        );
        i += 1;
    }
    assert(series_rows@ =~= Seq::new(
        entries@.len(),
        |i: int| planned_row(heads, rows, keysets, i),
    ));
    Ok(series_rows)
}

/// Checks that every keyset has the rows that were counted for it.
fn check_rows(
    rows_by_keyset: &[ColdKeysetRows],
    counts: &[u32],
    Ghost(rows): Ghost<Seq<Seq<(u32, u32)>>>,
    Ghost(keysets): Ghost<Seq<Seq<u32>>>,
    Ghost(dicts): Ghost<Seq<(u32, Seq<u32>)>>,
) -> (result: Result<(), Error>)
    requires
        rows.len() <= u32::MAX,
        rows_view(rows_by_keyset@) == planned_keysets(rows, rows.len(), keysets, dicts),
        counts@.len() == keysets.len(),
        forall|k: int|
            0 <= k < keysets.len() ==> #[trigger] counts@[k] == keyset_rows(
                rows,
                rows.len(),
                keysets[k],
            ),
        forall|k: int| 0 <= k < keysets.len() ==> (#[trigger] keysets[k]).len() <= u32::MAX,
        room_result(rows, keysets, keysets.len()) is Ok,
    ensures
        result is Ok,
{
    let mut k: usize = 0;
    while k < rows_by_keyset.len() && k < counts.len()
        invariant
            rows.len() <= u32::MAX,
            rows_view(rows_by_keyset@) == planned_keysets(rows, rows.len(), keysets, dicts),
            counts@.len() == keysets.len(),
            forall|k: int|
                0 <= k < keysets.len() ==> #[trigger] counts@[k] == keyset_rows(
                    rows,
                    rows.len(),
                    keysets[k],
                ),
            forall|k: int| 0 <= k < keysets.len() ==> (#[trigger] keysets[k]).len() <= u32::MAX,
            room_result(rows, keysets, keysets.len()) is Ok,
        decreases rows_by_keyset@.len() - k,
    {
        proof {
            assert(rows_by_keyset@[k as int]@ == rows_view(rows_by_keyset@)[k as int]);
            lemma_room(rows, keysets, keysets.len(), k as int);
            lemma_keyset_codes_len(rows, rows.len(), keysets[k as int], dicts);
            lemma_keyset_rows_bound(rows, rows.len(), keysets[k as int]);
            let count = counts@[k as int];
            let width = keysets[k as int].len() as usize;
            assert(width * count == count * width) by (nonlinear_arith);
        }
        rows_by_keyset[k].validate(Some(counts[k]))?;
        k += 1;
    }
    Ok(())
}

impl SeriesColdV2Plan {
    /// Builds from rows whose labels may stand in any order.
    pub fn build(entries: &[SeriesEntry]) -> (result: Result<Self, Error>)
        ensures
            match plan_result(heads_of(entries@), sorted_rows(entries@)) {
                Err(error) => result == Err::<SeriesColdV2Plan, Error>(error),
                Ok(plan) => result is Ok && result->Ok_0@ == plan,
            },
    {
        checked_u32(entries.len(), "series count")?;
        let normalized = normalize_series_entries(entries);
        proof {
            assert forall|i: int| 0 <= i < entries@.len() implies #[trigger] rows_of(
                normalized@,
            )[i] == sorted_rows(entries@)[i] by {
                assert(normalizes(entries@[i], normalized@[i]));
            }
            assert(rows_of(normalized@) =~= sorted_rows(entries@));
            assert forall|i: int| 0 <= i < entries@.len() implies #[trigger] heads_of(
                normalized@,
            )[i] == heads_of(entries@)[i] by {
                assert(normalizes(entries@[i], normalized@[i]));
            }
            assert(heads_of(normalized@) =~= heads_of(entries@));
        }
        Self::build_from_entries(&normalized)
    }

    /// Builds directly from rows whose label key IDs are already strictly increasing.
    ///
    /// The order is checked before plan construction so callers cannot publish
    /// a cold stream that its reader would reject.
    pub fn build_canonical(entries: &[SeriesEntry]) -> (result: Result<Self, Error>)
        ensures
            match plan_result(heads_of(entries@), rows_of(entries@)) {
                Err(error) => result == Err::<SeriesColdV2Plan, Error>(error),
                Ok(plan) => result is Ok && result->Ok_0@ == plan,
            },
    {
        Self::build_from_entries(entries)
    }

    pub fn build_from_entries<E: ColdPlanSeriesEntry>(entries: &[E]) -> (result: Result<
        Self,
        Error,
    >)
        ensures
            match plan_result(heads_of(entries@), rows_of(entries@)) {
                Err(error) => result == Err::<SeriesColdV2Plan, Error>(error),
                Ok(plan) => result is Ok && result->Ok_0@ == plan,
            },
    {
        let ghost rows = rows_of(entries@);
        let num_series: u32 = checked_u32(entries.len(), "series count")?;
        let (keysets, counts, value_dicts) = collect_cold_shapes(entries)?;
        let ghost view = keysets_view(keysets@);
        let ghost dicts = dicts_view(value_dicts@);
        proof {
            assert(rows.take(rows.len() as int) =~= rows);
            keysets_law(rows, view);
            dicts_law(rows, dicts);
        }
        let num_keysets: u32 = checked_u32(keysets.len(), "keyset count")?;
        proof {
            lemma_keysets_numbered(view, view.len());
        }
        let keyset_ids = keyset_id_map(&keysets)?;
        let num_value_dicts: u32 = checked_u32(value_dicts.len(), "value dictionary count")?;
        validate_cold_shapes(&keysets, &value_dicts)?;
        proof {
            lemma_dicts_numbered(dicts, dicts.len());
        }
        let value_codes = value_code_maps(&value_dicts)?;
        let mut rows_by_keyset = empty_rows(&keysets, &counts, Ghost(rows), Ghost(dicts))?;
        let series_rows = pack_rows(
            entries,
            &keyset_ids,
            &value_codes,
            &mut rows_by_keyset,
            Ghost(view),
            Ghost(dicts),
        )?;
        check_rows(&rows_by_keyset, &counts, Ghost(rows), Ghost(view), Ghost(dicts))?;
        let keysets_len: u64 = keysets_section_len(&keysets)?;
        let value_dicts_len: u64 = value_dicts_section_len(&value_dicts)?;
        let keyset_blocks_len: u64 = keyset_blocks_section_len(
            &keysets,
            &rows_by_keyset,
            &value_dicts,
        )?;
        let lengths = SeriesColdV2Lengths {
            keysets: keysets_len,
            value_dicts: value_dicts_len,
            keyset_blocks: keyset_blocks_len,
        };
        lengths.total()?;
        Ok(
            Self {
                series_rows,
                num_series,
                num_keysets,
                num_value_dicts,
                keysets,
                value_dicts,
                rows_by_keyset,
                lengths,
            },
        )
    }
}

/// The label rows, each in the order of its keys.
pub open spec fn sorted_rows(entries: Seq<SeriesEntry>) -> Seq<Seq<(u32, u32)>> {
    Seq::new(entries.len(), |i: int| sorted_labels(entries[i].labels@))
}

} // verus!
