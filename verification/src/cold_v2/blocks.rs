//! Keyset blocks: the packed value codes of every row of a keyset.

use std::collections::BTreeMap;

use vstd::prelude::*;

use super::encode::{
    checked_section_offsets_len, checked_u32, code_bytes, entries_bytes, entry_offset,
    exceeds_error, lemma_assoc, lemma_entries_take, offsets_len_result, section_bytes, table_bytes,
    u32_result, value_code_width, write_code_result, write_value_code,
};
use super::reader::{canonical_width, valid_width};
use super::shapes::{dicts_view, keysets_view};
use crate::bytes::{push_bytes, push_u32, push_u64, u32_bytes, u64_bytes};
use crate::error::{data_error, input_error, invalid_data, invalid_input, Error};

verus! {

broadcast use vstd::std_specs::btree::group_btree_axioms;

/// The values of the last of the first `n` dictionaries with this key.
pub open spec fn dict_values(dicts: Seq<(u32, Seq<u32>)>, n: nat, key: u32) -> Option<Seq<u32>>
    decreases n,
{
    if n == 0 {
        None
    } else if dicts[n - 1].0 == key {
        Some(dicts[n - 1].1)
    } else {
        dict_values(dicts, (n - 1) as nat, key)
    }
}

/// How many values the dictionaries list for a key.
pub open spec fn cardinality(dicts: Seq<(u32, Seq<u32>)>, key: u32) -> nat {
    match dict_values(dicts, dicts.len(), key) {
        Some(values) => values.len(),
        None => 0,
    }
}

/// The packed width of every code of a row with these keys.
pub open spec fn widths_of(keys: Seq<u32>, dicts: Seq<(u32, Seq<u32>)>) -> Seq<u8> {
    Seq::new(keys.len(), |j: int| canonical_width(cardinality(dicts, keys[j]) as int))
}

/// The map sends every key to the values that the dictionaries list for it.
pub open spec fn slices_of<'a>(
    map: Map<u32, &'a [u32]>,
    dicts: Seq<(u32, Seq<u32>)>,
    n: nat,
) -> bool {
    forall|key: u32|
        match #[trigger] dict_values(dicts, n, key) {
            Some(values) => map.contains_key(key) && map[key]@ == values,
            None => !map.contains_key(key),
        }
}

/// The values of every key.
pub fn dictionary_slices<'a>(value_dicts: &'a [(u32, Vec<u32>)]) -> (map: BTreeMap<u32, &'a [u32]>)
    ensures
        slices_of(map@, dicts_view(value_dicts@), value_dicts@.len()),
{
    let ghost dicts = dicts_view(value_dicts@);
    let mut map: BTreeMap<u32, &'a [u32]> = BTreeMap::new();
    let mut d: usize = 0;
    while d < value_dicts.len()
        invariant
            d <= value_dicts@.len(),
            dicts == dicts_view(value_dicts@),
            slices_of(map@, dicts, d as nat),
        decreases value_dicts@.len() - d,
    {
        let ghost before = map@;
        let key: u32 = value_dicts[d].0;
        let values: &'a [u32] = value_dicts[d].1.as_slice();
        map.insert(key, values);
        proof {
            assert(map@ == before.insert(key, values));
            assert forall|other: u32|
                match #[trigger] dict_values(dicts, (d + 1) as nat, other) {
                    Some(listed) => map@.contains_key(other) && map@[other]@ == listed,
                    None => !map@.contains_key(other),
                } by {
                assert(dicts[d as int].0 == key && dicts[d as int].1 == values@);
                let earlier = dict_values(dicts, d as nat, other);
            }
        }
        d += 1;
    }
    map
}

/// The packed width of every code of a row with these keys.
pub fn widths_for_keyset<'a>(keyset: &[u32], dict_by_key: &BTreeMap<u32, &'a [u32]>) -> (widths: Vec<
    u8,
>)
    ensures
        widths@.len() == keyset@.len(),
        forall|j: int|
            0 <= j < keyset@.len() ==> #[trigger] widths@[j] == canonical_width(
                if dict_by_key@.contains_key(keyset@[j]) {
                    dict_by_key@[keyset@[j]]@.len() as int
                } else {
                    0
                },
            ),
{
    let mut widths: Vec<u8> = Vec::new();
    let mut j: usize = 0;
    while j < keyset.len()
        invariant
            j <= keyset@.len(),
            widths@.len() == j,
            forall|i: int|
                0 <= i < j ==> #[trigger] widths@[i] == canonical_width(
                    if dict_by_key@.contains_key(keyset@[i]) {
                        dict_by_key@[keyset@[i]]@.len() as int
                    } else {
                        0
                    },
                ),
        decreases keyset@.len() - j,
    {
        let count: usize = match dict_by_key.get(&keyset[j]) {
            Some(values) => values.len(),
            None => 0,
        };
        widths.push(value_code_width(count));
        j += 1;
    }
    widths
}

/// The map sends every value to its position.
pub open spec fn is_code_map(codes: Map<u32, u32>, values: Seq<u32>) -> bool {
    &&& forall|value: u32| #[trigger] codes.contains_key(value) <==> values.contains(value)
    &&& forall|i: int| 0 <= i < values.len() ==> codes[#[trigger] values[i]] == i
}

/// The first `n` values can be numbered, or the first error.
pub open spec fn value_codes_result(values: Seq<u32>, n: nat) -> Result<(), Error>
    decreases n,
{
    if n == 0 {
        Ok(())
    } else {
        match value_codes_result(values, (n - 1) as nat) {
            Err(error) => Err(error),
            Ok(_) => if n - 1 > u32::MAX {
                Err(exceeds_error("value code", "u32"))
            } else if values.take(n - 1).contains(values[n - 1]) {
                Err(data_error("duplicate value dictionary symbol"))
            } else {
                Ok(())
            },
        }
    }
}

/// The values of the first `n` dictionaries can be numbered, or the first error.
pub open spec fn code_maps_result(dicts: Seq<(u32, Seq<u32>)>, n: nat) -> Result<(), Error>
    decreases n,
{
    if n == 0 {
        Ok(())
    } else {
        match code_maps_result(dicts, (n - 1) as nat) {
            Err(error) => Err(error),
            Ok(_) => match value_codes_result(dicts[n - 1].1, dicts[n - 1].1.len()) {
                Err(error) => Err(error),
                Ok(_) => if dict_values(dicts, (n - 1) as nat, dicts[n - 1].0) is Some {
                    Err(data_error("duplicate value dictionary key"))
                } else {
                    Ok(())
                },
            },
        }
    }
}

/// The maps number the values of every key.
pub open spec fn code_maps_of(
    maps: Map<u32, BTreeMap<u32, u32>>,
    dicts: Seq<(u32, Seq<u32>)>,
    n: nat,
) -> bool {
    forall|key: u32|
        match #[trigger] dict_values(dicts, n, key) {
            Some(values) => maps.contains_key(key) && is_code_map(maps[key]@, values),
            None => !maps.contains_key(key),
        }
}

proof fn lemma_value_codes_error(values: Seq<u32>, n: nat, m: nat)
    requires
        n <= m,
        value_codes_result(values, n) is Err,
    ensures
        value_codes_result(values, m) == value_codes_result(values, n),
    decreases m,
{
    if n < m {
        lemma_value_codes_error(values, n, (m - 1) as nat);
    }
}

proof fn lemma_code_maps_error(dicts: Seq<(u32, Seq<u32>)>, n: nat, m: nat)
    requires
        n <= m,
        code_maps_result(dicts, n) is Err,
    ensures
        code_maps_result(dicts, m) == code_maps_result(dicts, n),
    decreases m,
{
    if n < m {
        lemma_code_maps_error(dicts, n, (m - 1) as nat);
    }
}

/// Numbers the values of one dictionary.
fn number_values(values: &[u32]) -> (result: Result<BTreeMap<u32, u32>, Error>)
    ensures
        match value_codes_result(values@, values@.len()) {
            Err(error) => result == Err::<BTreeMap<u32, u32>, Error>(error),
            Ok(_) => result is Ok && is_code_map(result->Ok_0@, values@),
        },
{
    let mut codes: BTreeMap<u32, u32> = BTreeMap::new();
    let mut i: usize = 0;
    assert(values@.take(0) =~= Seq::empty());
    while i < values.len()
        invariant
            i <= values@.len(),
            value_codes_result(values@, i as nat) is Ok,
            is_code_map(codes@, values@.take(i as int)),
        decreases values@.len() - i,
    {
        let ghost before = codes@;
        let ghost seen = values@.take(i as int);
        let code: u32 = match checked_u32(i, "value code") {
            Ok(code) => code,
            Err(error) => {
                proof {
                    lemma_value_codes_error(values@, (i + 1) as nat, values@.len());
                }
                return Err(error);
            },
        };
        let value: u32 = values[i];
        if codes.insert(value, code).is_some() {
            proof {
                assert(before.contains_key(value));
                lemma_value_codes_error(values@, (i + 1) as nat, values@.len());
            }
            return Err(invalid_data("duplicate value dictionary symbol"));
        }
        proof {
            assert(!seen.contains(value));
            let more = values@.take(i + 1);
            assert(more =~= seen.push(value));
            assert forall|v: u32| #[trigger] codes@.contains_key(v) <==> more.contains(v) by {
                assert(before.contains_key(v) <==> seen.contains(v));
                if seen.contains(v) {
                    let j = choose|j: int| 0 <= j < seen.len() && seen[j] == v;
                    assert(more[j] == v);
                }
                if v == value {
                    assert(more[i as int] == v);
                }
            }
            assert forall|j: int| 0 <= j < more.len() implies codes@[#[trigger] more[j]] == j by {
                if j < i {
                    assert(seen[j] == more[j]);
                    assert(seen.contains(more[j]));
                }
            }
        }
        i += 1;
    }
    assert(values@.take(i as int) =~= values@);
    Ok(codes)
}

/// Numbers the values of every dictionary.
pub fn value_code_maps(value_dicts: &[(u32, Vec<u32>)]) -> (result: Result<
    BTreeMap<u32, BTreeMap<u32, u32>>,
    Error,
>)
    ensures
        match code_maps_result(dicts_view(value_dicts@), value_dicts@.len()) {
            Err(error) => result == Err::<BTreeMap<u32, BTreeMap<u32, u32>>, Error>(error),
            Ok(_) => result is Ok && code_maps_of(
                result->Ok_0@,
                dicts_view(value_dicts@),
                value_dicts@.len(),
            ),
        },
{
    let ghost dicts = dicts_view(value_dicts@);
    let mut by_key: BTreeMap<u32, BTreeMap<u32, u32>> = BTreeMap::new();
    let mut d: usize = 0;
    while d < value_dicts.len()
        invariant
            d <= value_dicts@.len(),
            dicts == dicts_view(value_dicts@),
            code_maps_result(dicts, d as nat) is Ok,
            code_maps_of(by_key@, dicts, d as nat),
        decreases value_dicts@.len() - d,
    {
        let ghost before = by_key@;
        assert(dicts[d as int] == (value_dicts@[d as int].0, value_dicts@[d as int].1@));
        let codes = match number_values(&value_dicts[d].1) {
            Ok(codes) => codes,
            Err(error) => {
                proof {
                    lemma_code_maps_error(dicts, (d + 1) as nat, value_dicts@.len());
                }
                return Err(error);
            },
        };
        let key: u32 = value_dicts[d].0;
        let ghost added = codes;
        if by_key.insert(key, codes).is_some() {
            proof {
                assert(before.contains_key(key));
                assert(dict_values(dicts, d as nat, key) is Some);
                lemma_code_maps_error(dicts, (d + 1) as nat, value_dicts@.len());
            }
            return Err(invalid_data("duplicate value dictionary key"));
        }
        proof {
            assert(dict_values(dicts, d as nat, key) is None);
            assert forall|other: u32|
                match #[trigger] dict_values(dicts, (d + 1) as nat, other) {
                    Some(values) => by_key@.contains_key(other) && is_code_map(
                        by_key@[other]@,
                        values,
                    ),
                    None => !by_key@.contains_key(other),
                } by {
                let earlier = dict_values(dicts, d as nat, other);
            }
        }
        d += 1;
    }
    Ok(by_key)
}

/// The packed rows of one keyset: how many, how wide, and all codes in row
/// order.
#[derive(Debug, Clone, PartialEq, Eq)]
pub struct ColdKeysetRows {
    pub row_count: u32,
    pub row_width: u32,
    pub codes: Vec<u32>,
}

/// Keyset rows with their codes as a sequence.
pub struct KeysetRows {
    pub row_count: u32,
    pub row_width: u32,
    pub codes: Seq<u32>,
}

impl View for ColdKeysetRows {
    type V = KeysetRows;

    open spec fn view(&self) -> KeysetRows {
        KeysetRows { row_count: self.row_count, row_width: self.row_width, codes: self.codes@ }
    }
}

pub open spec fn rows_view(rows: Seq<ColdKeysetRows>) -> Seq<KeysetRows> {
    Seq::new(rows.len(), |k: int| rows[k]@)
}

/// The code of a label.
pub open spec fn label_code(
    maps: Map<u32, BTreeMap<u32, u32>>,
    key: u32,
    value: u32,
) -> Option<u32> {
    if maps.contains_key(key) && maps[key]@.contains_key(value) {
        Some(maps[key]@[value])
    } else {
        None
    }
}

/// The codes of the labels before the first label without a code.
pub open spec fn found_codes(
    labels: Seq<(u32, u32)>,
    maps: Map<u32, BTreeMap<u32, u32>>,
    n: nat,
) -> Seq<u32>
    decreases n,
{
    if n == 0 {
        Seq::empty()
    } else {
        let before = found_codes(labels, maps, (n - 1) as nat);
        match label_code(maps, labels[n - 1].0, labels[n - 1].1) {
            Some(code) => if before.len() == n - 1 {
                before.push(code)
            } else {
                before
            },
            None => before,
        }
    }
}

proof fn lemma_found_codes_stop(
    labels: Seq<(u32, u32)>,
    maps: Map<u32, BTreeMap<u32, u32>>,
    n: nat,
    m: nat,
)
    requires
        n <= m,
        found_codes(labels, maps, n).len() < n,
    ensures
        found_codes(labels, maps, m) == found_codes(labels, maps, n),
    decreases m,
{
    if n < m {
        lemma_found_codes_stop(labels, maps, n, (m - 1) as nat);
    }
}

pub open spec fn new_rows_result(row_width: usize, expected_rows: u32) -> Result<
    KeysetRows,
    Error,
> {
    if row_width * expected_rows > usize::MAX {
        Err(input_error("series keyset code count is too large"))
    } else {
        match u32_result(row_width as nat, "keyset row width") {
            Err(error) => Err(error),
            Ok(row_width) => Ok(KeysetRows { row_count: 0, row_width, codes: Seq::empty() }),
        }
    }
}

pub open spec fn rows_result(rows: KeysetRows, expected_rows: Option<u32>) -> Result<(), Error> {
    if expected_rows is Some && expected_rows->Some_0 != rows.row_count {
        Err(data_error("keyset row count mismatch"))
    } else if rows.row_count * rows.row_width > usize::MAX {
        Err(input_error("series keyset code count is too large"))
    } else if rows.codes.len() != rows.row_count * rows.row_width {
        Err(data_error("keyset row code count mismatch"))
    } else {
        Ok(())
    }
}

/// What appending a row of labels leaves and answers.
pub open spec fn append_row_result(
    rows: KeysetRows,
    labels: Seq<(u32, u32)>,
    maps: Map<u32, BTreeMap<u32, u32>>,
) -> (KeysetRows, Result<(), Error>) {
    let codes = found_codes(labels, maps, labels.len());
    let packed = KeysetRows { codes: rows.codes + codes, ..rows };
    if labels.len() > u32::MAX {
        (rows, Err(exceeds_error("keyset row width", "u32")))
    } else if labels.len() != rows.row_width {
        (rows, Err(data_error("keyset row width count mismatch")))
    } else if codes.len() != labels.len() {
        (packed, Err(data_error("series value code missing")))
    } else if rows.row_count == u32::MAX {
        (packed, Err(input_error("keyset block rows exceed u32")))
    } else {
        (KeysetRows { row_count: (rows.row_count + 1) as u32, ..packed }, Ok(()))
    }
}

impl ColdKeysetRows {
    /// No rows yet, of a width at which the expected rows can be counted.
    pub fn with_exact_capacity(row_width: usize, expected_rows: u32) -> (result: Result<
        Self,
        Error,
    >)
        ensures
            match new_rows_result(row_width, expected_rows) {
                Err(error) => result == Err::<ColdKeysetRows, Error>(error),
                Ok(rows) => result is Ok && result->Ok_0@ == rows,
            },
    {
        match row_width.checked_mul(expected_rows as usize) {
            None => Err(invalid_input("series keyset code count is too large")),
            Some(_) => {
                let row_width: u32 = checked_u32(row_width, "keyset row width")?;
                let codes: Vec<u32> = Vec::new();
                assert(codes@ =~= Seq::empty());
                Ok(Self { row_count: 0, row_width, codes })
            },
        }
    }

    pub fn next_row(&self) -> (row: u32)
        ensures
            row == self.row_count,
    {
        self.row_count
    }

    /// Appends the codes of one row.
    pub fn append_row(
        &mut self,
        labels: &[(u32, u32)],
        value_codes: &BTreeMap<u32, BTreeMap<u32, u32>>,
    ) -> (result: Result<(), Error>)
        ensures
            (final(self)@, result) == append_row_result(old(self)@, labels@, value_codes@),
    {
        let width: u32 = checked_u32(labels.len(), "keyset row width")?;
        if width != self.row_width {
            return Err(invalid_data("keyset row width count mismatch"));
        }
        let ghost start = self@;
        let ghost maps = value_codes@;
        assert(self.codes@ =~= start.codes + found_codes(labels@, maps, 0));
        let mut j: usize = 0;
        while j < labels.len()
            invariant
                j <= labels@.len(),
                labels@.len() <= u32::MAX,
                labels@.len() == start.row_width,
                maps == value_codes@,
                start == old(self)@,
                self.row_count == start.row_count,
                self.row_width == start.row_width,
                found_codes(labels@, maps, j as nat).len() == j,
                self.codes@ == start.codes + found_codes(labels@, maps, j as nat),
            decreases labels@.len() - j,
        {
            let (key, value) = labels[j];
            let mut found: Option<u32> = None;
            if let Some(codes) = value_codes.get(&key) {
                if let Some(code) = codes.get(&value) {
                    found = Some(*code);
                }
            }
            assert(found == label_code(maps, key, value));
            match found {
                None => {
                    proof {
                        lemma_found_codes_stop(labels@, maps, (j + 1) as nat, labels@.len());
                    }
                    return Err(invalid_data("series value code missing"));
                },
                Some(code) => {
                    self.codes.push(code);
                    assert(self.codes@ =~= start.codes + found_codes(
                        labels@,
                        maps,
                        (j + 1) as nat,
                    ));
                },
            }
            j += 1;
        }
        match self.row_count.checked_add(1) {
            None => Err(invalid_input("keyset block rows exceed u32")),
            Some(row_count) => {
                self.row_count = row_count;
                Ok(())
            },
        }
    }

    /// Checks that the codes fill exactly the counted rows.
    pub fn validate(&self, expected_rows: Option<u32>) -> (result: Result<(), Error>)
        ensures
            result == rows_result(self@, expected_rows),
    {
        if let Some(expected) = expected_rows {
            if expected != self.row_count {
                return Err(invalid_data("keyset row count mismatch"));
            }
        }
        match (self.row_count as usize).checked_mul(self.row_width as usize) {
            None => Err(invalid_input("series keyset code count is too large")),
            Some(expected_codes) => if self.codes.len() != expected_codes {
                Err(invalid_data("keyset row code count mismatch"))
            } else {
                Ok(())
            },
        }
    }
}

/// The sum of the first `n` widths.
pub open spec fn width_total(widths: Seq<u8>, n: nat) -> nat
    decreases n,
{
    if n == 0 {
        0
    } else {
        width_total(widths, (n - 1) as nat) + widths[n - 1] as nat
    }
}

/// The packed length of a row with these keys.
pub open spec fn row_len(keys: Seq<u32>, dicts: Seq<(u32, Seq<u32>)>) -> nat {
    width_total(widths_of(keys, dicts), keys.len())
}

pub proof fn lemma_width_total_monotonic(widths: Seq<u8>, n: nat, m: nat)
    requires
        n <= m,
    ensures
        width_total(widths, n) <= width_total(widths, m),
    decreases m,
{
    if n < m {
        lemma_width_total_monotonic(widths, n, (m - 1) as nat);
    }
}

/// Where block `k` ends when it begins at `cursor`.
pub open spec fn block_len_result(
    cursor: u64,
    keysets: Seq<Seq<u32>>,
    rows: Seq<KeysetRows>,
    dicts: Seq<(u32, Seq<u32>)>,
    k: int,
) -> Result<u64, Error> {
    let len = row_len(keysets[k], dicts);
    if len > u64::MAX {
        Err(input_error("series keyset row is too large"))
    } else if k >= rows.len() {
        Err(data_error("keyset rows missing"))
    } else if keysets[k].len() > u32::MAX {
        Err(exceeds_error("keyset row width", "u32"))
    } else if rows[k].row_width != keysets[k].len() {
        Err(data_error("keyset row width count mismatch"))
    } else {
        match rows_result(rows[k], None) {
            Err(error) => Err(error),
            Ok(_) => if len > u32::MAX {
                Err(input_error("keyset row length exceeds u32"))
            } else if len * rows[k].row_count > u32::MAX {
                Err(input_error("keyset block data length exceeds u32"))
            } else if cursor + 16 + keysets[k].len() + len * rows[k].row_count > u64::MAX {
                Err(input_error("series keyset blocks section is too large"))
            } else {
                Ok((cursor + 16 + keysets[k].len() + len * rows[k].row_count) as u64)
            },
        }
    }
}

/// Where the first `n` blocks end, counted from `cursor`.
pub open spec fn blocks_len_result(
    cursor: u64,
    keysets: Seq<Seq<u32>>,
    rows: Seq<KeysetRows>,
    dicts: Seq<(u32, Seq<u32>)>,
    n: nat,
) -> Result<u64, Error>
    decreases n,
{
    if n == 0 {
        Ok(cursor)
    } else {
        match blocks_len_result(cursor, keysets, rows, dicts, (n - 1) as nat) {
            Err(error) => Err(error),
            Ok(end) => block_len_result(end, keysets, rows, dicts, n - 1),
        }
    }
}

proof fn lemma_blocks_len_error(
    cursor: u64,
    keysets: Seq<Seq<u32>>,
    rows: Seq<KeysetRows>,
    dicts: Seq<(u32, Seq<u32>)>,
    n: nat,
    m: nat,
)
    requires
        n <= m,
        blocks_len_result(cursor, keysets, rows, dicts, n) is Err,
    ensures
        blocks_len_result(cursor, keysets, rows, dicts, m) == blocks_len_result(
            cursor,
            keysets,
            rows,
            dicts,
            n,
        ),
    decreases m,
{
    if n < m {
        lemma_blocks_len_error(cursor, keysets, rows, dicts, n, (m - 1) as nat);
    }
}

pub open spec fn blocks_section_len_result(
    keysets: Seq<Seq<u32>>,
    rows: Seq<KeysetRows>,
    dicts: Seq<(u32, Seq<u32>)>,
) -> Result<u64, Error> {
    match offsets_len_result(keysets.len()) {
        Err(error) => Err(error),
        Ok(offsets_len) => blocks_len_result(offsets_len, keysets, rows, dicts, keysets.len()),
    }
}

/// Sums widths as far as they fit.
fn sum_widths(widths: &[u8]) -> (sum: Option<u64>)
    ensures
        match sum {
            Some(sum) => sum == width_total(widths@, widths@.len()),
            None => width_total(widths@, widths@.len()) > u64::MAX,
        },
{
    let mut sum: u64 = 0;
    let mut j: usize = 0;
    while j < widths.len()
        invariant
            j <= widths@.len(),
            sum == width_total(widths@, j as nat),
        decreases widths@.len() - j,
    {
        match sum.checked_add(widths[j] as u64) {
            Some(more) => {
                sum = more;
            },
            None => {
                proof {
                    lemma_width_total_monotonic(widths@, (j + 1) as nat, widths@.len());
                }
                return None;
            },
        }
        j += 1;
    }
    Some(sum)
}

/// The widths that the map gives are those that the dictionaries give.
proof fn lemma_widths<'a>(
    keys: Seq<u32>,
    map: Map<u32, &'a [u32]>,
    dicts: Seq<(u32, Seq<u32>)>,
    widths: Seq<u8>,
)
    requires
        slices_of(map, dicts, dicts.len()),
        widths.len() == keys.len(),
        forall|j: int|
            0 <= j < keys.len() ==> #[trigger] widths[j] == canonical_width(
                if map.contains_key(keys[j]) {
                    map[keys[j]]@.len() as int
                } else {
                    0
                },
            ),
    ensures
        widths == widths_of(keys, dicts),
{
    assert forall|j: int| 0 <= j < keys.len() implies widths[j] == widths_of(keys, dicts)[j] by {
        let values = dict_values(dicts, dicts.len(), keys[j]);
    }
    assert(widths =~= widths_of(keys, dicts));
}

/// The encoded length of one block behind those that end at `cursor`.
fn block_len<'a>(
    cursor: u64,
    keysets: &[Vec<u32>],
    rows_by_keyset: &[ColdKeysetRows],
    dict_by_key: &BTreeMap<u32, &'a [u32]>,
    idx: usize,
    Ghost(dicts): Ghost<Seq<(u32, Seq<u32>)>>,
) -> (result: Result<u64, Error>)
    requires
        idx < keysets@.len(),
        slices_of(dict_by_key@, dicts, dicts.len()),
    ensures
        result == block_len_result(
            cursor,
            keysets_view(keysets@),
            rows_view(rows_by_keyset@),
            dicts,
            idx as int,
        ),
{
    let widths: Vec<u8> = widths_for_keyset(&keysets[idx], dict_by_key);
    proof {
        lemma_widths(keysets@[idx as int]@, dict_by_key@, dicts, widths@);
        assert(keysets_view(keysets@)[idx as int] == keysets@[idx as int]@);
    }
    let row_len: u64 = match sum_widths(&widths) {
        Some(row_len) => row_len,
        None => {
            return Err(invalid_input("series keyset row is too large"));
        },
    };
    if idx >= rows_by_keyset.len() {
        return Err(invalid_data("keyset rows missing"));
    }
    let rows: &ColdKeysetRows = &rows_by_keyset[idx];
    assert(rows_view(rows_by_keyset@)[idx as int] == rows@);
    if rows.row_width != checked_u32(widths.len(), "keyset row width")? {
        return Err(invalid_data("keyset row width count mismatch"));
    }
    rows.validate(None)?;
    if row_len > u32::MAX as u64 {
        return Err(invalid_input("keyset row length exceeds u32"));
    }
    let row_count: u64 = rows.row_count as u64;
    assert(row_len * row_count <= u64::MAX) by (nonlinear_arith)
        requires
            row_len <= u32::MAX,
            row_count <= u32::MAX,
    ;
    let data_len: u64 = row_len * row_count;
    if data_len > u32::MAX as u64 {
        return Err(invalid_input("keyset block data length exceeds u32"));
    }
    let block_len: u64 = 16 + widths.len() as u64 + data_len;
    match cursor.checked_add(block_len) {
        Some(end) => Ok(end),
        None => Err(invalid_input("series keyset blocks section is too large")),
    }
}

/// The encoded length of the keyset blocks section.
pub fn keyset_blocks_section_len(
    keysets: &[Vec<u32>],
    rows_by_keyset: &[ColdKeysetRows],
    value_dicts: &[(u32, Vec<u32>)],
) -> (result: Result<u64, Error>)
    ensures
        result == blocks_section_len_result(
            keysets_view(keysets@),
            rows_view(rows_by_keyset@),
            dicts_view(value_dicts@),
        ),
{
    let ghost view = keysets_view(keysets@);
    let ghost rows = rows_view(rows_by_keyset@);
    let ghost dicts = dicts_view(value_dicts@);
    let offsets_len: u64 = checked_section_offsets_len(keysets.len())?;
    let dict_by_key = dictionary_slices(value_dicts);
    let mut len: u64 = offsets_len;
    let mut idx: usize = 0;
    while idx < keysets.len()
        invariant
            idx <= keysets@.len(),
            view == keysets_view(keysets@),
            rows == rows_view(rows_by_keyset@),
            dicts == dicts_view(value_dicts@),
            slices_of(dict_by_key@, dicts, dicts.len()),
            offsets_len_result(keysets@.len()) == Ok::<u64, Error>(offsets_len),
            blocks_len_result(offsets_len, view, rows, dicts, idx as nat) == Ok::<u64, Error>(len),
        decreases keysets@.len() - idx,
    {
        match block_len(len, keysets, rows_by_keyset, &dict_by_key, idx, Ghost(dicts)) {
            Ok(end) => {
                len = end;
            },
            Err(error) => {
                proof {
                    lemma_blocks_len_error(
                        offsets_len,
                        view,
                        rows,
                        dicts,
                        (idx + 1) as nat,
                        keysets@.len(),
                    );
                }
                return Err(error);
            },
        }
        idx += 1;
    }
    Ok(len)
}

/// The bytes of the first `n` codes of a row.
pub open spec fn row_bytes(codes: Seq<u32>, widths: Seq<u8>, n: nat) -> Seq<u8>
    decreases n,
{
    if n == 0 {
        Seq::empty()
    } else {
        row_bytes(codes, widths, (n - 1) as nat) + code_bytes(codes[n - 1], widths[n - 1])
    }
}

/// Row `r` of packed codes.
pub open spec fn code_row(codes: Seq<u32>, width: nat, r: int) -> Seq<u32> {
    Seq::new(width, |j: int| codes[r * width + j])
}

/// The bytes of the first `n` rows.
pub open spec fn packed_bytes(codes: Seq<u32>, widths: Seq<u8>, n: nat) -> Seq<u8>
    decreases n,
{
    if n == 0 {
        Seq::empty()
    } else {
        packed_bytes(codes, widths, (n - 1) as nat) + row_bytes(
            code_row(codes, widths.len(), n - 1),
            widths,
            widths.len(),
        )
    }
}

/// The first `n` codes of a row can be packed, or the first error.
pub open spec fn row_codes_result(codes: Seq<u32>, widths: Seq<u8>, n: nat) -> Result<(), Error>
    decreases n,
{
    if n == 0 {
        Ok(())
    } else {
        match row_codes_result(codes, widths, (n - 1) as nat) {
            Err(error) => Err(error),
            Ok(_) => write_code_result(codes[n - 1], widths[n - 1]),
        }
    }
}

/// The first `n` rows can be packed, or the first error.
pub open spec fn packed_result(codes: Seq<u32>, widths: Seq<u8>, n: nat) -> Result<(), Error>
    decreases n,
{
    if n == 0 {
        Ok(())
    } else {
        match packed_result(codes, widths, (n - 1) as nat) {
            Err(error) => Err(error),
            Ok(_) => row_codes_result(
                code_row(codes, widths.len(), n - 1),
                widths,
                widths.len(),
            ),
        }
    }
}

proof fn lemma_row_codes_error(codes: Seq<u32>, widths: Seq<u8>, n: nat, m: nat)
    requires
        n <= m,
        row_codes_result(codes, widths, n) is Err,
    ensures
        row_codes_result(codes, widths, m) == row_codes_result(codes, widths, n),
    decreases m,
{
    if n < m {
        lemma_row_codes_error(codes, widths, n, (m - 1) as nat);
    }
}

proof fn lemma_packed_error(codes: Seq<u32>, widths: Seq<u8>, n: nat, m: nat)
    requires
        n <= m,
        packed_result(codes, widths, n) is Err,
    ensures
        packed_result(codes, widths, m) == packed_result(codes, widths, n),
    decreases m,
{
    if n < m {
        lemma_packed_error(codes, widths, n, (m - 1) as nat);
    }
}

/// Every width is one that a code can be packed in.
pub open spec fn packable(widths: Seq<u8>) -> bool {
    forall|j: int| 0 <= j < widths.len() ==> valid_width(#[trigger] widths[j])
}

pub proof fn lemma_row_bytes_len(codes: Seq<u32>, widths: Seq<u8>, n: nat)
    requires
        packable(widths),
        n <= widths.len(),
    ensures
        row_bytes(codes, widths, n).len() == width_total(widths, n),
    decreases n,
{
    if n > 0 {
        lemma_row_bytes_len(codes, widths, (n - 1) as nat);
        assert(valid_width(widths[n - 1]));
    }
}

pub proof fn lemma_packed_len(codes: Seq<u32>, widths: Seq<u8>, n: nat)
    requires
        packable(widths),
    ensures
        packed_bytes(codes, widths, n).len() == n * width_total(widths, widths.len()),
    decreases n,
{
    let total = width_total(widths, widths.len());
    if n > 0 {
        lemma_packed_len(codes, widths, (n - 1) as nat);
        lemma_row_bytes_len(code_row(codes, widths.len(), n - 1), widths, widths.len());
        assert((n - 1) * total + total == n * total) by (nonlinear_arith);
    } else {
        assert(n * total == 0) by (nonlinear_arith)
            requires
                n == 0,
        ;
    }
}

pub proof fn lemma_widths_packable(keys: Seq<u32>, dicts: Seq<(u32, Seq<u32>)>)
    ensures
        packable(widths_of(keys, dicts)),
{
}

/// Appends packed rows.
fn write_rows(writer: &mut Vec<u8>, codes: &[u32], widths: &[u8], row_count: u32) -> (result: Result<
    (),
    Error,
>)
    requires
        codes@.len() == row_count * widths@.len(),
    ensures
        result == packed_result(codes@, widths@, row_count as nat),
        old(writer)@.is_prefix_of(final(writer)@),
        result is Ok ==> final(writer)@ == old(writer)@ + packed_bytes(
            codes@,
            widths@,
            row_count as nat,
        ),
{
    let ghost start = writer@;
    let width: usize = widths.len();
    let len: usize = codes.len();
    let mut r: u32 = 0;
    let mut base: usize = 0;
    assert(writer@ =~= start + packed_bytes(codes@, widths@, 0));
    while r < row_count
        invariant
            r <= row_count,
            width == widths@.len(),
            len == codes@.len(),
            len == row_count * width,
            base == r * width,
            start == old(writer)@,
            packed_result(codes@, widths@, r as nat) is Ok,
            writer@ == start + packed_bytes(codes@, widths@, r as nat),
        decreases row_count - r,
    {
        let ghost before = writer@;
        let ghost row = code_row(codes@, width as nat, r as int);
        assert(base + width <= len) by (nonlinear_arith)
            requires
                base == r * width,
                r < row_count,
                len == row_count * width,
        ;
        assert((r + 1) * width == r * width + width) by (nonlinear_arith);
        let mut j: usize = 0;
        assert(writer@ =~= before + row_bytes(row, widths@, 0));
        while j < width
            invariant
                j <= width,
                r < row_count,
                width == widths@.len(),
                base == r * width,
                len == codes@.len(),
                base + width <= len,
                row == code_row(codes@, width as nat, r as int),
                start == old(writer)@,
                packed_result(codes@, widths@, r as nat) is Ok,
                before == start + packed_bytes(codes@, widths@, r as nat),
                row_codes_result(row, widths@, j as nat) is Ok,
                writer@ == before + row_bytes(row, widths@, j as nat),
            decreases width - j,
        {
            assert(row[j as int] == codes@[base + j]);
            let ghost done = row_bytes(row, widths@, j as nat);
            match write_value_code(writer, codes[base + j], widths[j]) {
                Ok(_) => {},
                Err(error) => {
                    proof {
                        lemma_row_codes_error(row, widths@, (j + 1) as nat, width as nat);
                        lemma_packed_error(codes@, widths@, (r + 1) as nat, row_count as nat);
                    }
                    return Err(error);
                },
            }
            proof {
                lemma_assoc(before, done, code_bytes(codes@[base + j], widths@[j as int]));
            }
            j += 1;
        }
        proof {
            lemma_assoc(
                start,
                packed_bytes(codes@, widths@, r as nat),
                row_bytes(row, widths@, width as nat),
            );
        }
        base += width;
        r += 1;
    }
    Ok(())
}

/// Whether block `k` can be described in the section.
#[verifier::opaque]
pub open spec fn block_shape_result(
    keysets: Seq<Seq<u32>>,
    rows: Seq<KeysetRows>,
    dicts: Seq<(u32, Seq<u32>)>,
    k: int,
) -> Result<(), Error> {
    let len = row_len(keysets[k], dicts);
    if k >= rows.len() {
        Err(data_error("keyset rows missing"))
    } else if len > usize::MAX {
        Err(input_error("series keyset row is too large"))
    } else if len * rows[k].row_count > usize::MAX {
        Err(input_error("series keyset block data is too large"))
    } else if keysets[k].len() > u32::MAX {
        Err(exceeds_error("keyset row width", "u32"))
    } else if rows[k].row_width != keysets[k].len() {
        Err(data_error("keyset row width count mismatch"))
    } else {
        match rows_result(rows[k], None) {
            Err(error) => Err(error),
            Ok(_) => if len > u32::MAX {
                Err(exceeds_error("keyset row length", "u32"))
            } else if len * rows[k].row_count > u32::MAX {
                Err(exceeds_error("keyset data length", "u32"))
            } else {
                Ok(())
            },
        }
    }
}

/// Where the first `n` blocks end when they are written at `cursor`.
pub open spec fn blocks_end_result(
    cursor: u64,
    keysets: Seq<Seq<u32>>,
    rows: Seq<KeysetRows>,
    dicts: Seq<(u32, Seq<u32>)>,
    n: nat,
) -> Result<u64, Error>
    decreases n,
{
    if n == 0 {
        Ok(cursor)
    } else {
        match blocks_end_result(cursor, keysets, rows, dicts, (n - 1) as nat) {
            Err(error) => Err(error),
            Ok(start) => match block_shape_result(keysets, rows, dicts, n - 1) {
                Err(error) => Err(error),
                Ok(_) => {
                    let end = start + 16 + keysets[n - 1].len() + row_len(keysets[n - 1], dicts)
                        * rows[n - 1].row_count;
                    if end > u64::MAX {
                        Err(input_error("series keyset blocks section is too large"))
                    } else {
                        Ok(end as u64)
                    }
                },
            },
        }
    }
}

/// The codes of the first `n` blocks can be packed, or the first error.
pub open spec fn blocks_codes_result(
    keysets: Seq<Seq<u32>>,
    rows: Seq<KeysetRows>,
    dicts: Seq<(u32, Seq<u32>)>,
    n: nat,
) -> Result<(), Error>
    decreases n,
{
    if n == 0 {
        Ok(())
    } else {
        match blocks_codes_result(keysets, rows, dicts, (n - 1) as nat) {
            Err(error) => Err(error),
            Ok(_) => packed_result(
                rows[n - 1].codes,
                widths_of(keysets[n - 1], dicts),
                rows[n - 1].row_count as nat,
            ),
        }
    }
}

pub open spec fn write_blocks_result(
    section_offset: u64,
    keysets: Seq<Seq<u32>>,
    rows: Seq<KeysetRows>,
    dicts: Seq<(u32, Seq<u32>)>,
) -> Result<(), Error> {
    match offsets_len_result(keysets.len()) {
        Err(error) => Err(error),
        Ok(offsets_len) => if section_offset + offsets_len > u64::MAX {
            Err(input_error("series keyset blocks offset overflow"))
        } else {
            match blocks_end_result(
                (section_offset + offsets_len) as u64,
                keysets,
                rows,
                dicts,
                keysets.len(),
            ) {
                Err(error) => Err(error),
                Ok(_) => blocks_codes_result(keysets, rows, dicts, keysets.len()),
            }
        },
    }
}

/// The four counts before the widths of a block: rows, keys, row length, data
/// length.
pub open spec fn block_header(rows: u32, keys: u32, row_len: u32, data_len: u32) -> Seq<u8> {
    u32_bytes(rows) + u32_bytes(keys) + u32_bytes(row_len) + u32_bytes(data_len)
}

/// One keyset block: its counts, its widths, its packed rows.
#[verifier::opaque]
pub open spec fn block_entry(
    keys: Seq<u32>,
    rows: KeysetRows,
    dicts: Seq<(u32, Seq<u32>)>,
) -> Seq<u8> {
    block_header(
        rows.row_count,
        keys.len() as u32,
        row_len(keys, dicts) as u32,
        (row_len(keys, dicts) * rows.row_count) as u32,
    ) + widths_of(keys, dicts) + packed_bytes(
        rows.codes,
        widths_of(keys, dicts),
        rows.row_count as nat,
    )
}

pub open spec fn block_entries(
    keysets: Seq<Seq<u32>>,
    rows: Seq<KeysetRows>,
    dicts: Seq<(u32, Seq<u32>)>,
) -> Seq<Seq<u8>> {
    Seq::new(keysets.len(), |k: int| block_entry(keysets[k], rows[k], dicts))
}

pub proof fn lemma_block_entry_len(
    keys: Seq<u32>,
    rows: KeysetRows,
    dicts: Seq<(u32, Seq<u32>)>,
)
    ensures
        block_entry(keys, rows, dicts).len() == 16 + keys.len() + row_len(keys, dicts)
            * rows.row_count,
{
    reveal(block_entry);
    lemma_widths_packable(keys, dicts);
    lemma_packed_len(rows.codes, widths_of(keys, dicts), rows.row_count as nat);
    assert(rows.row_count * row_len(keys, dicts) == row_len(keys, dicts) * rows.row_count)
        by (nonlinear_arith);
}

proof fn lemma_blocks_end_error(
    cursor: u64,
    keysets: Seq<Seq<u32>>,
    rows: Seq<KeysetRows>,
    dicts: Seq<(u32, Seq<u32>)>,
    n: nat,
    m: nat,
)
    requires
        n <= m,
        blocks_end_result(cursor, keysets, rows, dicts, n) is Err,
    ensures
        blocks_end_result(cursor, keysets, rows, dicts, m) == blocks_end_result(
            cursor,
            keysets,
            rows,
            dicts,
            n,
        ),
    decreases m,
{
    if n < m {
        lemma_blocks_end_error(cursor, keysets, rows, dicts, n, (m - 1) as nat);
    }
}

proof fn lemma_blocks_codes_error(
    keysets: Seq<Seq<u32>>,
    rows: Seq<KeysetRows>,
    dicts: Seq<(u32, Seq<u32>)>,
    n: nat,
    m: nat,
)
    requires
        n <= m,
        blocks_codes_result(keysets, rows, dicts, n) is Err,
    ensures
        blocks_codes_result(keysets, rows, dicts, m) == blocks_codes_result(
            keysets,
            rows,
            dicts,
            n,
        ),
    decreases m,
{
    if n < m {
        lemma_blocks_codes_error(keysets, rows, dicts, n, (m - 1) as nat);
    }
}

/// Blocks end where their bytes end.
pub proof fn lemma_blocks_end(
    start: u64,
    keysets: Seq<Seq<u32>>,
    rows: Seq<KeysetRows>,
    dicts: Seq<(u32, Seq<u32>)>,
    n: nat,
)
    requires
        n <= keysets.len(),
        blocks_end_result(start, keysets, rows, dicts, n) is Ok,
    ensures
        blocks_end_result(start, keysets, rows, dicts, n)->Ok_0 == entry_offset(
            start as int,
            block_entries(keysets, rows, dicts),
            n as int,
        ),
    decreases n,
{
    let entries = block_entries(keysets, rows, dicts);
    if n == 0 {
        assert(entries.take(0) =~= Seq::empty());
    } else {
        lemma_blocks_end(start, keysets, rows, dicts, (n - 1) as nat);
        lemma_entries_take(entries, n - 1);
        lemma_block_entry_len(keysets[n - 1], rows[n - 1], dicts);
    }
}

/// The widths of a block, the packed length of one row and of all rows.
struct BlockShape {
    widths: Vec<u8>,
    row_len: u32,
    data_len: u32,
}

/// The shape of one block.
fn block_shape<'a>(
    keysets: &[Vec<u32>],
    rows_by_keyset: &[ColdKeysetRows],
    dict_by_key: &BTreeMap<u32, &'a [u32]>,
    idx: usize,
    Ghost(dicts): Ghost<Seq<(u32, Seq<u32>)>>,
) -> (result: Result<BlockShape, Error>)
    requires
        idx < keysets@.len(),
        slices_of(dict_by_key@, dicts, dicts.len()),
    ensures
        match block_shape_result(
            keysets_view(keysets@),
            rows_view(rows_by_keyset@),
            dicts,
            idx as int,
        ) {
            Err(error) => result == Err::<BlockShape, Error>(error),
            Ok(_) => {
                &&& result is Ok
                &&& result->Ok_0.widths@ == widths_of(keysets@[idx as int]@, dicts)
                &&& result->Ok_0.row_len == row_len(keysets@[idx as int]@, dicts)
                &&& result->Ok_0.data_len == row_len(keysets@[idx as int]@, dicts)
                    * rows_by_keyset@[idx as int].row_count
            },
        },
{
    proof {
        reveal(block_shape_result);
    }
    if idx >= rows_by_keyset.len() {
        return Err(invalid_data("keyset rows missing"));
    }
    let rows: &ColdKeysetRows = &rows_by_keyset[idx];
    assert(rows_view(rows_by_keyset@)[idx as int] == rows@);
    let widths: Vec<u8> = widths_for_keyset(&keysets[idx], dict_by_key);
    proof {
        lemma_widths(keysets@[idx as int]@, dict_by_key@, dicts, widths@);
        assert(keysets_view(keysets@)[idx as int] == keysets@[idx as int]@);
    }
    let row_len: usize = match sum_widths(&widths) {
        Some(row_len) => match usize::try_from(row_len) {
            Ok(row_len) => row_len,
            Err(_) => {
                return Err(invalid_input("series keyset row is too large"));
            },
        },
        None => {
            return Err(invalid_input("series keyset row is too large"));
        },
    };
    let data_len: usize = match row_len.checked_mul(rows.row_count as usize) {
        Some(data_len) => data_len,
        None => {
            return Err(invalid_input("series keyset block data is too large"));
        },
    };
    if rows.row_width != checked_u32(widths.len(), "keyset row width")? {
        return Err(invalid_data("keyset row width count mismatch"));
    }
    rows.validate(None)?;
    let row_len: u32 = checked_u32(row_len, "keyset row length")?;
    let data_len: u32 = checked_u32(data_len, "keyset data length")?;
    Ok(BlockShape { widths, row_len, data_len })
}

/// Appends one block.
fn write_block(
    writer: &mut Vec<u8>,
    keyset: &Vec<u32>,
    rows: &ColdKeysetRows,
    shape: &BlockShape,
    Ghost(dicts): Ghost<Seq<(u32, Seq<u32>)>>,
) -> (result: Result<(), Error>)
    requires
        keyset@.len() <= u32::MAX,
        rows@.row_width == keyset@.len(),
        rows_result(rows@, None) is Ok,
        shape.widths@ == widths_of(keyset@, dicts),
        shape.row_len == row_len(keyset@, dicts),
        shape.data_len == row_len(keyset@, dicts) * rows.row_count,
    ensures
        result == packed_result(
            rows@.codes,
            widths_of(keyset@, dicts),
            rows.row_count as nat,
        ),
        old(writer)@.is_prefix_of(final(writer)@),
        result is Ok ==> final(writer)@ == old(writer)@ + block_entry(keyset@, rows@, dicts),
{
    proof {
        reveal(block_entry);
    }
    let ghost start = writer@;
    let keys: u32 = checked_u32(keyset.len(), "keyset length")?;
    let ghost b0 = u32_bytes(rows.row_count);
    let ghost b1 = u32_bytes(keys);
    let ghost b2 = u32_bytes(shape.row_len);
    let ghost b3 = u32_bytes(shape.data_len);
    push_u32(writer, rows.row_count);
    push_u32(writer, keys);
    push_u32(writer, shape.row_len);
    push_u32(writer, shape.data_len);
    push_bytes(writer, &shape.widths);
    let ghost packed = packed_bytes(rows@.codes, shape.widths@, rows.row_count as nat);
    proof {
        lemma_assoc(start, b0, b1);
        lemma_assoc(start, b0 + b1, b2);
        lemma_assoc(start, b0 + b1 + b2, b3);
        lemma_assoc(start, b0 + b1 + b2 + b3, shape.widths@);
        lemma_assoc(start, b0 + b1 + b2 + b3 + shape.widths@, packed);
    }
    let result = write_rows(writer, &rows.codes, &shape.widths, rows.row_count);
    result
}

/// The shapes describe the first `n` blocks.
spec fn shapes_match(
    shapes: Seq<BlockShape>,
    keysets: Seq<Seq<u32>>,
    rows: Seq<KeysetRows>,
    dicts: Seq<(u32, Seq<u32>)>,
    n: nat,
) -> bool {
    &&& shapes.len() == n
    &&& forall|k: int|
        0 <= k < n ==> #[trigger] block_shape_result(keysets, rows, dicts, k) is Ok
    &&& forall|k: int|
        0 <= k < n ==> {
            &&& (#[trigger] shapes[k]).widths@ == widths_of(keysets[k], dicts)
            &&& shapes[k].row_len == row_len(keysets[k], dicts)
            &&& shapes[k].data_len == row_len(keysets[k], dicts) * rows[k].row_count
        }
}

/// Appends the offset table of the keyset blocks section.
fn write_block_table(
    writer: &mut Vec<u8>,
    first: u64,
    keysets: &[Vec<u32>],
    rows_by_keyset: &[ColdKeysetRows],
    value_dicts: &[(u32, Vec<u32>)],
) -> (result: Result<Vec<BlockShape>, Error>)
    ensures
        old(writer)@.is_prefix_of(final(writer)@),
        match blocks_end_result(
            first,
            keysets_view(keysets@),
            rows_view(rows_by_keyset@),
            dicts_view(value_dicts@),
            keysets@.len(),
        ) {
            Err(error) => result == Err::<Vec<BlockShape>, Error>(error),
            Ok(_) => {
                &&& result is Ok
                &&& shapes_match(
                    result->Ok_0@,
                    keysets_view(keysets@),
                    rows_view(rows_by_keyset@),
                    dicts_view(value_dicts@),
                    keysets@.len(),
                )
                &&& final(writer)@ == old(writer)@ + table_bytes(
                    first as int,
                    block_entries(
                        keysets_view(keysets@),
                        rows_view(rows_by_keyset@),
                        dicts_view(value_dicts@),
                    ),
                    keysets@.len() + 1,
                )
            },
        },
{
    let ghost start = writer@;
    let ghost view = keysets_view(keysets@);
    let ghost rows = rows_view(rows_by_keyset@);
    let ghost dicts = dicts_view(value_dicts@);
    let ghost entries = block_entries(view, rows, dicts);
    let dict_by_key = dictionary_slices(value_dicts);
    let mut cursor: u64 = first;
    let mut block_shapes: Vec<BlockShape> = Vec::new();
    let mut idx: usize = 0;
    assert(entries.take(0) =~= Seq::empty());
    assert(writer@ =~= start + table_bytes(first as int, entries, 0));
    while idx < keysets.len()
        invariant
            idx <= keysets@.len(),
            start == old(writer)@,
            view == keysets_view(keysets@),
            rows == rows_view(rows_by_keyset@),
            dicts == dicts_view(value_dicts@),
            entries == block_entries(view, rows, dicts),
            slices_of(dict_by_key@, dicts, dicts.len()),
            blocks_end_result(first, view, rows, dicts, idx as nat) == Ok::<u64, Error>(cursor),
            cursor == entry_offset(first as int, entries, idx as int),
            writer@ == start + table_bytes(first as int, entries, idx as nat),
            shapes_match(block_shapes@, view, rows, dicts, idx as nat),
        decreases keysets@.len() - idx,
    {
        let shape: BlockShape = match block_shape(
            keysets,
            rows_by_keyset,
            &dict_by_key,
            idx,
            Ghost(dicts),
        ) {
            Ok(shape) => shape,
            Err(error) => {
                proof {
                    lemma_blocks_end_error(
                        first,
                        view,
                        rows,
                        dicts,
                        (idx + 1) as nat,
                        keysets@.len(),
                    );
                }
                return Err(error);
            },
        };
        proof {
            assert(view[idx as int] == keysets@[idx as int]@);
            lemma_shape_rows(view, rows, dicts, idx as int);
            assert(rows[idx as int] == rows_by_keyset@[idx as int]@);
        }
        push_u64(writer, cursor);
        proof {
            lemma_assoc(
                start,
                table_bytes(first as int, entries, idx as nat),
                u64_bytes(cursor),
            );
        }
        let block_len: u64 = 16 + shape.widths.len() as u64 + shape.data_len as u64;
        cursor = match cursor.checked_add(block_len) {
            Some(end) => end,
            None => {
                proof {
                    lemma_blocks_end_error(
                        first,
                        view,
                        rows,
                        dicts,
                        (idx + 1) as nat,
                        keysets@.len(),
                    );
                }
                return Err(invalid_input("series keyset blocks section is too large"));
            },
        };
        block_shapes.push(shape);
        idx += 1;
        proof {
            lemma_blocks_end(first, view, rows, dicts, idx as nat);
        }
    }
    proof {
        lemma_assoc(
            start,
            table_bytes(first as int, entries, entries.len()),
            u64_bytes(cursor),
        );
    }
    push_u64(writer, cursor);
    Ok(block_shapes)
}

/// What a shape that is there says of its rows.
pub proof fn lemma_shape_rows(
    keysets: Seq<Seq<u32>>,
    rows: Seq<KeysetRows>,
    dicts: Seq<(u32, Seq<u32>)>,
    k: int,
)
    requires
        block_shape_result(keysets, rows, dicts, k) is Ok,
    ensures
        k < rows.len(),
        keysets[k].len() <= u32::MAX,
        rows[k].row_width == keysets[k].len(),
        rows_result(rows[k], None) is Ok,
        row_len(keysets[k], dicts) <= u32::MAX,
        row_len(keysets[k], dicts) * rows[k].row_count <= u32::MAX,
{
    reveal(block_shape_result);
}

/// Appends the blocks of the keyset blocks section.
fn write_block_bodies(
    writer: &mut Vec<u8>,
    keysets: &[Vec<u32>],
    rows_by_keyset: &[ColdKeysetRows],
    block_shapes: &[BlockShape],
    Ghost(dicts): Ghost<Seq<(u32, Seq<u32>)>>,
) -> (result: Result<(), Error>)
    requires
        shapes_match(
            block_shapes@,
            keysets_view(keysets@),
            rows_view(rows_by_keyset@),
            dicts,
            keysets@.len(),
        ),
    ensures
        result == blocks_codes_result(
            keysets_view(keysets@),
            rows_view(rows_by_keyset@),
            dicts,
            keysets@.len(),
        ),
        old(writer)@.is_prefix_of(final(writer)@),
        result is Ok ==> final(writer)@ == old(writer)@ + entries_bytes(
            block_entries(keysets_view(keysets@), rows_view(rows_by_keyset@), dicts),
        ),
{
    let ghost start = writer@;
    let ghost view = keysets_view(keysets@);
    let ghost rows = rows_view(rows_by_keyset@);
    let ghost entries = block_entries(view, rows, dicts);
    let mut idx: usize = 0;
    assert(writer@ =~= start + entries_bytes(entries.take(0)));
    while idx < keysets.len()
        invariant
            idx <= keysets@.len(),
            start == old(writer)@,
            view == keysets_view(keysets@),
            rows == rows_view(rows_by_keyset@),
            entries == block_entries(view, rows, dicts),
            shapes_match(block_shapes@, view, rows, dicts, keysets@.len()),
            blocks_codes_result(view, rows, dicts, idx as nat) is Ok,
            writer@ == start + entries_bytes(entries.take(idx as int)),
        decreases keysets@.len() - idx,
    {
        proof {
            let shape = block_shapes@[idx as int];
            lemma_shape_rows(view, rows, dicts, idx as int);
            assert(view[idx as int] == keysets@[idx as int]@);
            assert(rows[idx as int] == rows_by_keyset@[idx as int]@);
        }
        match write_block(
            writer,
            &keysets[idx],
            &rows_by_keyset[idx],
            &block_shapes[idx],
            Ghost(dicts),
        ) {
            Ok(_) => {},
            Err(error) => {
                proof {
                    lemma_blocks_codes_error(view, rows, dicts, (idx + 1) as nat, keysets@.len());
                }
                return Err(error);
            },
        }
        proof {
            lemma_entries_take(entries, idx as int);
            lemma_assoc(start, entries_bytes(entries.take(idx as int)), entries[idx as int]);
        }
        idx += 1;
    }
    assert(entries.take(idx as int) =~= entries);
    Ok(())
}

/// Appends the keyset blocks section. A section that cannot be written leaves
/// the writer with a part of it.
pub fn write_keyset_blocks_section(
    writer: &mut Vec<u8>,
    section_offset: u64,
    keysets: &[Vec<u32>],
    rows_by_keyset: &[ColdKeysetRows],
    value_dicts: &[(u32, Vec<u32>)],
) -> (result: Result<(), Error>)
    ensures
        result == write_blocks_result(
            section_offset,
            keysets_view(keysets@),
            rows_view(rows_by_keyset@),
            dicts_view(value_dicts@),
        ),
        old(writer)@.is_prefix_of(final(writer)@),
        result is Ok ==> final(writer)@ == old(writer)@ + section_bytes(
            section_offset as int,
            block_entries(
                keysets_view(keysets@),
                rows_view(rows_by_keyset@),
                dicts_view(value_dicts@),
            ),
        ),
{
    let ghost start = writer@;
    let ghost view = keysets_view(keysets@);
    let ghost rows = rows_view(rows_by_keyset@);
    let ghost dicts = dicts_view(value_dicts@);
    let ghost entries = block_entries(view, rows, dicts);
    let offsets_len: u64 = checked_section_offsets_len(keysets.len())?;
    let first: u64 = match section_offset.checked_add(offsets_len) {
        Some(first) => first,
        None => {
            return Err(invalid_input("series keyset blocks offset overflow"));
        },
    };
    let block_shapes = write_block_table(writer, first, keysets, rows_by_keyset, value_dicts)?;
    proof {
        lemma_assoc(
            start,
            table_bytes(first as int, entries, entries.len() + 1),
            entries_bytes(entries),
        );
    }
    let result = write_block_bodies(
        writer,
        keysets,
        rows_by_keyset,
        &block_shapes,
        Ghost(dicts),
    );
    result
}

} // verus!
