//! Which sections can be written, how long they are, and how their rows are coded.

use std::collections::BTreeMap;

use vstd::prelude::*;

use super::blocks::{
    append_row_result, code_maps_result, dict_values, found_codes, label_code, new_rows_result,
    rows_result, value_codes_result, KeysetRows,
};
use super::encode::{
    dict_counts, dict_texts, dicts_len_result, entries_end_result, keyset_counts, keyset_texts,
    keysets_len_result, offsets_len_result, u32_result, write_dicts_result, write_keysets_result,
    EntryTexts,
};
use super::ids::keyset_ids_result;
use super::reader::{table_minimum_result, usize_result, ColdLengthName, ColdSectionName};
use crate::error::ErrorKind;

verus! {

/// The bytes of entries that are two words and so many more.
pub open spec fn entries_total(counts: Seq<nat>, n: nat) -> nat
    decreases n,
{
    if n == 0 {
        0
    } else {
        entries_total(counts, (n - 1) as nat) + 8 + 4 * counts[n - 1]
    }
}

proof fn lemma_entries_end(cursor: u64, counts: Seq<nat>, n: nat, texts: EntryTexts)
    requires
        n <= counts.len(),
    ensures
        entries_end_result(cursor, counts, n, texts) is Ok <==> cursor + entries_total(counts, n)
            <= u64::MAX,
        entries_end_result(cursor, counts, n, texts) matches Ok(end) ==> end == cursor
            + entries_total(counts, n),
    decreases n,
{
    if n > 0 {
        lemma_entries_end(cursor, counts, (n - 1) as nat, texts);
    }
}

/// The table of a section has one offset more than it has entries, eight bytes each.
pub proof fn table_len_law(entry_count: nat, section_len: u64, count: u32, what: ColdSectionName)
    ensures
        offsets_len_result(entry_count) is Ok <==> entry_count < usize::MAX && 8 * (entry_count + 1)
            <= u64::MAX,
        offsets_len_result(entry_count) matches Ok(len) ==> len == 8 * (entry_count + 1),
        table_minimum_result(section_len, count, what) is Ok <==> section_len >= 8 * (count + 1),
        table_minimum_result(section_len, count, what) matches Err(error) ==> error.kind
            == ErrorKind::InvalidData,
{
}

/// The sections of keysets and of dictionaries are their tables and their entries, and have a
/// length exactly when it can be counted.
pub proof fn section_len_law(keysets: Seq<Seq<u32>>, dicts: Seq<(u32, Seq<u32>)>)
    requires
        keysets.len() < usize::MAX,
        dicts.len() < usize::MAX,
    ensures
        ({
            let len = 8 * (keysets.len() + 1) + entries_total(
                keyset_counts(keysets),
                keysets.len(),
            );
            &&& keysets_len_result(keysets) is Ok <==> len <= u64::MAX
            &&& keysets_len_result(keysets) matches Ok(counted) ==> counted == len
        }),
        ({
            let len = 8 * (dicts.len() + 1) + entries_total(dict_counts(dicts), dicts.len());
            &&& dicts_len_result(dicts) is Ok <==> len <= u64::MAX
            &&& dicts_len_result(dicts) matches Ok(counted) ==> counted == len
        }),
{
    if 8 * (keysets.len() + 1) <= u64::MAX {
        lemma_entries_end(
            (8 * (keysets.len() + 1)) as u64,
            keyset_counts(keysets),
            keysets.len(),
            keyset_texts(),
        );
    }
    if 8 * (dicts.len() + 1) <= u64::MAX {
        lemma_entries_end(
            (8 * (dicts.len() + 1)) as u64,
            dict_counts(dicts),
            dicts.len(),
            dict_texts(),
        );
    }
}

/// The sections of keysets and of dictionaries can be written at an offset exactly when their
/// ends can be counted there and every list fits its own count.
pub proof fn written_section_law(
    section_offset: u64,
    keysets: Seq<Seq<u32>>,
    dicts: Seq<(u32, Seq<u32>)>,
)
    requires
        keysets.len() < usize::MAX,
        dicts.len() < usize::MAX,
    ensures
        write_keysets_result(section_offset, keysets) is Ok <==> {
            &&& section_offset + 8 * (keysets.len() + 1) + entries_total(
                keyset_counts(keysets),
                keysets.len(),
            ) <= u64::MAX
            &&& forall|k: int|
                0 <= k < keysets.len() ==> (#[trigger] keysets[k]).len() <= u32::MAX
        },
        write_dicts_result(section_offset, dicts) is Ok <==> {
            &&& section_offset + 8 * (dicts.len() + 1) + entries_total(
                dict_counts(dicts),
                dicts.len(),
            ) <= u64::MAX
            &&& forall|d: int| 0 <= d < dicts.len() ==> (#[trigger] dicts[d]).1.len() <= u32::MAX
        },
{
    if section_offset + 8 * (keysets.len() + 1) <= u64::MAX {
        lemma_entries_end(
            (section_offset + 8 * (keysets.len() + 1)) as u64,
            keyset_counts(keysets),
            keysets.len(),
            keyset_texts(),
        );
    }
    if section_offset + 8 * (dicts.len() + 1) <= u64::MAX {
        lemma_entries_end(
            (section_offset + 8 * (dicts.len() + 1)) as u64,
            dict_counts(dicts),
            dicts.len(),
            dict_texts(),
        );
    }
    assert forall|k: int| 0 <= k < keysets.len() implies keyset_counts(keysets)[k] == (
    #[trigger] keysets[k]).len() by {}
    assert forall|d: int| 0 <= d < dicts.len() implies dict_counts(dicts)[d] == (
    #[trigger] dicts[d]).1.len() by {}
}

proof fn lemma_value_codes(values: Seq<u32>, n: nat)
    requires
        n <= values.len(),
    ensures
        value_codes_result(values, n) is Ok <==> {
            &&& n <= 0x1_0000_0000
            &&& forall|i: int, j: int| 0 <= i < j < n ==> values[i] != values[j]
        },
    decreases n,
{
    if n > 0 {
        lemma_value_codes(values, (n - 1) as nat);
        let before = values.take(n - 1);
        if before.contains(values[n - 1]) {
            let i = before.index_of(values[n - 1]);
            assert(values[i] == values[n - 1]);
        }
        assert forall|i: int| 0 <= i < n - 1 && #[trigger] values[i]
            == values[n - 1] implies before.contains(values[n - 1]) by {
            assert(before[i] == values[i]);
        }
        if value_codes_result(values, n) is Ok {
            assert forall|i: int, j: int| 0 <= i < j < n implies values[i] != values[j] by {
                if j == n - 1 {
                    assert(before[i] == values[i]);
                }
            }
        }
    }
}

proof fn lemma_dict_present(dicts: Seq<(u32, Seq<u32>)>, n: nat, key: u32)
    requires
        n <= dicts.len(),
    ensures
        dict_values(dicts, n, key) is Some <==> exists|d: int|
            0 <= d < n && (#[trigger] dicts[d]).0 == key,
    decreases n,
{
    if n > 0 {
        lemma_dict_present(dicts, (n - 1) as nat, key);
        if dict_values(dicts, n, key) is Some {
            if dicts[n - 1].0 != key {
                let d = choose|d: int| 0 <= d < n - 1 && (#[trigger] dicts[d]).0 == key;
                assert(dicts[d].0 == key && d < n);
            }
        }
    }
}

proof fn lemma_code_maps(dicts: Seq<(u32, Seq<u32>)>, n: nat)
    requires
        n <= dicts.len(),
    ensures
        code_maps_result(dicts, n) is Ok <==> {
            &&& forall|d: int|
                0 <= d < n ==> value_codes_result(
                    (#[trigger] dicts[d]).1,
                    dicts[d].1.len(),
                ) is Ok
            &&& forall|c: int, d: int| 0 <= c < d < n ==> dicts[c].0 != dicts[d].0
        },
    decreases n,
{
    if n > 0 {
        lemma_code_maps(dicts, (n - 1) as nat);
        lemma_dict_present(dicts, (n - 1) as nat, dicts[n - 1].0);
        if code_maps_result(dicts, n) is Ok {
            assert forall|d: int| 0 <= d < n implies value_codes_result(
                (#[trigger] dicts[d]).1,
                dicts[d].1.len(),
            ) is Ok by {
                if d == n - 1 {
                }
            }
        } else if code_maps_result(dicts, (n - 1) as nat) is Ok {
            if value_codes_result(dicts[n - 1].1, dicts[n - 1].1.len()) is Ok {
                let c = choose|c: int| 0 <= c < n - 1 && (#[trigger] dicts[c]).0 == dicts[n - 1].0;
                assert(dicts[c].0 == dicts[n - 1].0);
            }
        }
    }
}

/// Dictionaries can be numbered exactly when no two have one key and in none a value occurs
/// twice or has a number past 32 bits.
pub proof fn numbered_values_law(dicts: Seq<(u32, Seq<u32>)>)
    ensures
        code_maps_result(dicts, dicts.len()) is Ok <==> {
            &&& forall|c: int, d: int| 0 <= c < d < dicts.len() ==> dicts[c].0 != dicts[d].0
            &&& forall|d: int|
                0 <= d < dicts.len() ==> {
                    let values = (#[trigger] dicts[d]).1;
                    &&& values.len() <= 0x1_0000_0000
                    &&& forall|i: int, j: int| 0 <= i < j < values.len() ==> values[i] != values[j]
                }
        },
{
    lemma_code_maps(dicts, dicts.len());
    assert forall|d: int| 0 <= d < dicts.len() implies (value_codes_result(
        (#[trigger] dicts[d]).1,
        dicts[d].1.len(),
    ) is Ok <==> {
        let values = dicts[d].1;
        &&& values.len() <= 0x1_0000_0000
        &&& forall|i: int, j: int| 0 <= i < j < values.len() ==> values[i] != values[j]
    }) by {
        lemma_value_codes(dicts[d].1, dicts[d].1.len());
    }
}

proof fn lemma_keyset_ids(keysets: Seq<Seq<u32>>, n: nat)
    requires
        n <= keysets.len(),
    ensures
        keyset_ids_result(keysets, n) is Ok <==> {
            &&& n <= 0x1_0000_0000
            &&& forall|i: int, j: int| 0 <= i < j < n ==> keysets[i] != keysets[j]
        },
    decreases n,
{
    if n > 0 {
        lemma_keyset_ids(keysets, (n - 1) as nat);
        let before = keysets.take(n - 1);
        if before.contains(keysets[n - 1]) {
            let i = before.index_of(keysets[n - 1]);
            assert(keysets[i] == keysets[n - 1]);
        }
        assert forall|i: int| 0 <= i < n - 1 && #[trigger] keysets[i]
            == keysets[n - 1] implies before.contains(keysets[n - 1]) by {
            assert(before[i] == keysets[i]);
        }
        if keyset_ids_result(keysets, n) is Ok {
            assert forall|i: int, j: int| 0 <= i < j < n implies keysets[i] != keysets[j] by {
                if j == n - 1 {
                    assert(before[i] == keysets[i]);
                }
            }
        }
    }
}

/// Keysets can be numbered exactly when no two are the same and none has a number past 32 bits.
pub proof fn numbered_keysets_law(keysets: Seq<Seq<u32>>)
    ensures
        keyset_ids_result(keysets, keysets.len()) is Ok <==> {
            &&& keysets.len() <= 0x1_0000_0000
            &&& forall|i: int, j: int| 0 <= i < j < keysets.len() ==> keysets[i] != keysets[j]
        },
{
    lemma_keyset_ids(keysets, keysets.len());
}

proof fn lemma_found(labels: Seq<(u32, u32)>, maps: Map<u32, BTreeMap<u32, u32>>, n: nat)
    requires
        n <= labels.len(),
    ensures
        found_codes(labels, maps, n).len() <= n,
        found_codes(labels, maps, n).len() == n <==> forall|j: int|
            0 <= j < n ==> label_code(maps, (#[trigger] labels[j]).0, labels[j].1) is Some,
        forall|j: int|
            0 <= j < found_codes(labels, maps, n).len() ==> label_code(
                maps,
                (#[trigger] labels[j]).0,
                labels[j].1,
            ) == Some(found_codes(labels, maps, n)[j]),
    decreases n,
{
    if n > 0 {
        lemma_found(labels, maps, (n - 1) as nat);
        let before = found_codes(labels, maps, (n - 1) as nat);
        let codes = found_codes(labels, maps, n);
        if codes.len() == n {
            assert forall|j: int| 0 <= j < n implies label_code(
                maps,
                (#[trigger] labels[j]).0,
                labels[j].1,
            ) is Some by {
                if j < n - 1 {
                    assert(codes[j] == before[j]);
                }
            }
        }
        assert forall|j: int| 0 <= j < codes.len() implies label_code(
            maps,
            (#[trigger] labels[j]).0,
            labels[j].1,
        ) == Some(codes[j]) by {
            if j < before.len() {
                assert(codes[j] == before[j]);
            }
        }
    }
}

/// A row is appended exactly when it is as wide as the rows before it, every label has a code,
/// and the rows can still be counted: its codes, in the order of its labels, come after theirs.
/// A row of another width changes nothing.
pub proof fn appended_row_law(
    rows: KeysetRows,
    labels: Seq<(u32, u32)>,
    maps: Map<u32, BTreeMap<u32, u32>>,
)
    ensures
        ({
            let (after, result) = append_row_result(rows, labels, maps);
            let from = rows.codes.len();
            &&& result is Ok <==> {
                &&& labels.len() == rows.row_width
                &&& rows.row_count < u32::MAX
                &&& forall|j: int|
                    0 <= j < labels.len() ==> label_code(
                        maps,
                        (#[trigger] labels[j]).0,
                        labels[j].1,
                    ) is Some
            }
            &&& result is Ok ==> {
                &&& after.row_count == rows.row_count + 1
                &&& after.codes.len() == from + labels.len()
                &&& forall|i: int| 0 <= i < from ==> after.codes[i] == rows.codes[i]
                &&& forall|j: int|
                    0 <= j < labels.len() ==> label_code(
                        maps,
                        (#[trigger] labels[j]).0,
                        labels[j].1,
                    ) == Some(after.codes[from + j])
            }
            &&& after.row_width == rows.row_width
            &&& labels.len() != rows.row_width ==> after == rows
        }),
{
    lemma_found(labels, maps, labels.len());
}

/// A label has a code exactly when its key has a numbering and that numbers its value, and the
/// code is that number.
pub proof fn label_code_law(maps: Map<u32, BTreeMap<u32, u32>>, key: u32, value: u32)
    ensures
        label_code(maps, key, value) is Some <==> maps.contains_key(key)
            && maps[key]@.contains_key(value),
        label_code(maps, key, value) matches Some(code) ==> code == maps[key]@[value],
{
}

/// Rows are consistent exactly when they hold one code for each column of each row, and no other
/// number of rows was expected; new rows are none, of the width given.
pub proof fn counted_rows_law(
    rows: KeysetRows,
    expected: Option<u32>,
    row_width: usize,
    expected_rows: u32,
)
    ensures
        rows_result(rows, expected) is Ok <==> {
            &&& expected matches Some(count) ==> count == rows.row_count
            &&& rows.codes.len() == rows.row_count * rows.row_width
            &&& rows.codes.len() <= usize::MAX
        },
        new_rows_result(row_width, expected_rows) is Ok <==> row_width * expected_rows <= usize::MAX
            && row_width <= u32::MAX,
        new_rows_result(row_width, expected_rows) matches Ok(new) ==> {
            &&& new.row_count == 0
            &&& new.row_width == row_width
            &&& new.codes.len() == 0
        },
{
}

/// A number is narrowed exactly when it fits, and stays the same.
pub proof fn narrowed_law(value: u64, count: nat, what: ColdLengthName, text: &'static str)
    ensures
        usize_result(value, what) is Ok <==> value <= usize::MAX,
        usize_result(value, what) matches Ok(narrow) ==> narrow == value,
        usize_result(value, what) matches Err(error) ==> error.kind == ErrorKind::OutOfMemory,
        u32_result(count, text) is Ok <==> count <= u32::MAX,
        u32_result(count, text) matches Ok(narrow) ==> narrow == count,
        u32_result(count, text) matches Err(error) ==> error.kind == ErrorKind::InvalidInput,
{
}

} // verus!
