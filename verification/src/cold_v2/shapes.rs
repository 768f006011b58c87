//! What a set of label rows looks like in columns: the distinct keysets, how
//! many rows each has, and the distinct values of every key.

use vstd::prelude::*;

use super::reader::strictly_increasing;
use crate::entry::SeriesEntry;
use crate::error::{input_error, invalid_input, Error, ErrorKind, Message};

verus! {

/// The keys of a label row.
pub open spec fn keys_of(row: Seq<(u32, u32)>) -> Seq<u32> {
    Seq::new(row.len(), |j: int| row[j].0)
}

/// The label keys of a row increase strictly.
pub open spec fn row_ordered(row: Seq<(u32, u32)>) -> bool {
    strictly_increasing(keys_of(row))
}

/// `a` and `b` agree before `i`, and there `a` ends or is smaller.
pub open spec fn lex_less_at(a: Seq<u32>, b: Seq<u32>, i: int) -> bool {
    &&& 0 <= i <= a.len()
    &&& i < b.len()
    &&& forall|j: int| 0 <= j < i ==> a[j] == b[j]
    &&& i == a.len() || a[i] < b[i]
}

/// Lexicographic order of key sequences.
pub open spec fn lex_less(a: Seq<u32>, b: Seq<u32>) -> bool {
    exists|i: int| lex_less_at(a, b, i)
}

/// Every keyset is before every later one.
pub open spec fn lex_sorted(keysets: Seq<Seq<u32>>) -> bool {
    forall|i: int, j: int| 0 <= i < j < keysets.len() ==> lex_less(keysets[i], keysets[j])
}

/// Some row has exactly these keys.
pub open spec fn has_keyset(rows: Seq<Seq<(u32, u32)>>, keys: Seq<u32>) -> bool {
    exists|i: int| 0 <= i < rows.len() && keys_of(#[trigger] rows[i]) == keys
}

/// The keysets are the distinct key sequences of the rows, in order.
pub open spec fn keysets_of(rows: Seq<Seq<(u32, u32)>>, keysets: Seq<Seq<u32>>) -> bool {
    &&& lex_sorted(keysets)
    &&& forall|keys: Seq<u32>| #[trigger] keysets.contains(keys) <==> has_keyset(rows, keys)
}

/// How many of the first `n` rows have these keys.
pub open spec fn keyset_rows(rows: Seq<Seq<(u32, u32)>>, n: nat, keys: Seq<u32>) -> nat
    decreases n,
{
    if n == 0 {
        0
    } else if keys_of(rows[n - 1]) == keys {
        keyset_rows(rows, (n - 1) as nat, keys) + 1
    } else {
        keyset_rows(rows, (n - 1) as nat, keys)
    }
}

/// Some row carries this label.
pub open spec fn has_label(rows: Seq<Seq<(u32, u32)>>, key: u32, value: u32) -> bool {
    exists|i: int, j: int|
        0 <= i < rows.len() && 0 <= j < rows[i].len() && #[trigger] rows[i][j] == (key, value)
}

/// The dictionary keys increase strictly.
pub open spec fn dict_keys_sorted(dicts: Seq<(u32, Seq<u32>)>) -> bool {
    forall|i: int, j: int| 0 <= i < j < dicts.len() ==> dicts[i].0 < dicts[j].0
}

/// The dictionaries list this value under this key.
pub open spec fn dict_has(dicts: Seq<(u32, Seq<u32>)>, key: u32, value: u32) -> bool {
    exists|d: int|
        0 <= d < dicts.len() && (#[trigger] dicts[d]).0 == key && dicts[d].1.contains(value)
}

/// The dictionaries are in order, and none is empty.
pub open spec fn dicts_sorted(dicts: Seq<(u32, Seq<u32>)>) -> bool {
    &&& dict_keys_sorted(dicts)
    &&& forall|d: int|
        0 <= d < dicts.len() ==> strictly_increasing((#[trigger] dicts[d]).1) && dicts[d].1.len()
            > 0
}

/// The dictionaries are the distinct values of every key of the rows, in order.
pub open spec fn dicts_of(rows: Seq<Seq<(u32, u32)>>, dicts: Seq<(u32, Seq<u32>)>) -> bool {
    &&& dicts_sorted(dicts)
    &&& forall|key: u32, value: u32| #[trigger]
        dict_has(dicts, key, value) <==> has_label(rows, key, value)
}

pub open spec fn keysets_view(keysets: Seq<Vec<u32>>) -> Seq<Seq<u32>> {
    Seq::new(keysets.len(), |k: int| keysets[k]@)
}

pub open spec fn dicts_view(dicts: Seq<(u32, Vec<u32>)>) -> Seq<(u32, Seq<u32>)> {
    Seq::new(dicts.len(), |d: int| (dicts[d].0, dicts[d].1@))
}

pub proof fn lemma_lex_transitive(a: Seq<u32>, b: Seq<u32>, c: Seq<u32>)
    requires
        lex_less(a, b),
        lex_less(b, c),
    ensures
        lex_less(a, c),
{
    let i = choose|i: int| lex_less_at(a, b, i);
    let j = choose|j: int| lex_less_at(b, c, j);
    let k = if i < j {
        i
    } else {
        j
    };
    assert(lex_less_at(a, c, k));
}

pub proof fn lemma_lex_irreflexive(a: Seq<u32>, b: Seq<u32>)
    requires
        lex_less(a, b),
    ensures
        a != b,
        !lex_less(b, a),
{
    let i = choose|i: int| lex_less_at(a, b, i);
    if lex_less(b, a) {
        let j = choose|j: int| lex_less_at(b, a, j);
        if i < j {
            assert(a[i] == b[i]);
        } else if j < i {
            assert(a[j] == b[j]);
        }
    }
}

/// How two key sequences compare.
#[derive(Debug, Clone, Copy, PartialEq, Eq, Structural)]
pub enum KeyOrder {
    Less,
    Equal,
    Greater,
}

fn order_keys(a: &[u32], b: &[u32]) -> (order: KeyOrder)
    ensures
        match order {
            KeyOrder::Less => lex_less(a@, b@),
            KeyOrder::Equal => a@ == b@,
            KeyOrder::Greater => lex_less(b@, a@),
        },
{
    let mut i: usize = 0;
    while i < a.len() && i < b.len()
        invariant
            i <= a@.len(),
            i <= b@.len(),
            forall|j: int| 0 <= j < i ==> a@[j] == b@[j],
        decreases a@.len() - i,
    {
        if a[i] < b[i] {
            assert(lex_less_at(a@, b@, i as int));
            return KeyOrder::Less;
        }
        if b[i] < a[i] {
            assert(lex_less_at(b@, a@, i as int));
            return KeyOrder::Greater;
        }
        i += 1;
    }
    if i < b.len() {
        assert(lex_less_at(a@, b@, i as int));
        KeyOrder::Less
    } else if i < a.len() {
        assert(lex_less_at(b@, a@, i as int));
        KeyOrder::Greater
    } else {
        assert(a@ =~= b@);
        KeyOrder::Equal
    }
}

/// Where a keyset stands in a sorted list, or where it belongs.
pub enum Slot {
    Found(usize),
    Missing(usize),
}

/// Finds a keyset in a sorted list.
pub fn find_keyset(keysets: &[Vec<u32>], keys: &[u32]) -> (slot: Slot)
    requires
        lex_sorted(keysets_view(keysets@)),
    ensures
        match slot {
            Slot::Found(k) => k < keysets@.len() && keysets@[k as int]@ == keys@,
            Slot::Missing(k) => {
                &&& k <= keysets@.len()
                &&& forall|i: int| 0 <= i < k ==> lex_less(#[trigger] keysets@[i]@, keys@)
                &&& forall|i: int|
                    k <= i < keysets@.len() ==> lex_less(keys@, #[trigger] keysets@[i]@)
            },
        },
{
    let ghost view = keysets_view(keysets@);
    let mut low: usize = 0;
    let mut high: usize = keysets.len();
    while low < high
        invariant
            low <= high <= keysets@.len(),
            view == keysets_view(keysets@),
            lex_sorted(view),
            forall|i: int| 0 <= i < low ==> lex_less(#[trigger] keysets@[i]@, keys@),
            forall|i: int| high <= i < keysets@.len() ==> lex_less(keys@, #[trigger] keysets@[i]@),
        decreases high - low,
    {
        let mid: usize = low + (high - low) / 2;
        match order_keys(&keysets[mid], keys) {
            KeyOrder::Equal => {
                return Slot::Found(mid);
            },
            KeyOrder::Less => {
                assert forall|i: int| 0 <= i < mid + 1 implies lex_less(
                    #[trigger] keysets@[i]@,
                    keys@,
                ) by {
                    if i < mid {
                        assert(lex_less(view[i], view[mid as int]));
                        lemma_lex_transitive(view[i], view[mid as int], keys@);
                    }
                }
                low = mid + 1;
            },
            KeyOrder::Greater => {
                assert forall|i: int| mid <= i < keysets@.len() implies lex_less(
                    keys@,
                    #[trigger] keysets@[i]@,
                ) by {
                    if mid < i {
                        assert(lex_less(view[mid as int], view[i]));
                        lemma_lex_transitive(keys@, view[mid as int], view[i]);
                    }
                }
                high = mid;
            },
        }
    }
    Slot::Missing(low)
}

/// Finds a value in a strictly increasing list.
pub fn find_value(values: &[u32], value: u32) -> (slot: Slot)
    requires
        strictly_increasing(values@),
    ensures
        match slot {
            Slot::Found(c) => c < values@.len() && values@[c as int] == value,
            Slot::Missing(c) => {
                &&& c <= values@.len()
                &&& forall|i: int| 0 <= i < c ==> values@[i] < value
                &&& forall|i: int| c <= i < values@.len() ==> value < values@[i]
            },
        },
{
    let mut low: usize = 0;
    let mut high: usize = values.len();
    while low < high
        invariant
            low <= high <= values@.len(),
            strictly_increasing(values@),
            forall|i: int| 0 <= i < low ==> values@[i] < value,
            forall|i: int| high <= i < values@.len() ==> value < values@[i],
        decreases high - low,
    {
        let mid: usize = low + (high - low) / 2;
        if values[mid] == value {
            return Slot::Found(mid);
        }
        if values[mid] < value {
            low = mid + 1;
        } else {
            high = mid;
        }
    }
    Slot::Missing(low)
}

/// Finds the dictionary of a key in a sorted list.
pub fn find_dict(dicts: &[(u32, Vec<u32>)], key: u32) -> (slot: Slot)
    requires
        dict_keys_sorted(dicts_view(dicts@)),
    ensures
        match slot {
            Slot::Found(d) => d < dicts@.len() && dicts@[d as int].0 == key,
            Slot::Missing(d) => {
                &&& d <= dicts@.len()
                &&& forall|i: int| 0 <= i < d ==> (#[trigger] dicts@[i]).0 < key
                &&& forall|i: int| d <= i < dicts@.len() ==> key < (#[trigger] dicts@[i]).0
            },
        },
{
    let ghost view = dicts_view(dicts@);
    let mut low: usize = 0;
    let mut high: usize = dicts.len();
    while low < high
        invariant
            low <= high <= dicts@.len(),
            view == dicts_view(dicts@),
            dict_keys_sorted(view),
            forall|i: int| 0 <= i < low ==> (#[trigger] dicts@[i]).0 < key,
            forall|i: int| high <= i < dicts@.len() ==> key < (#[trigger] dicts@[i]).0,
        decreases high - low,
    {
        let mid: usize = low + (high - low) / 2;
        let found: u32 = dicts[mid].0;
        if found == key {
            return Slot::Found(mid);
        }
        if found < key {
            assert forall|i: int| 0 <= i < mid + 1 implies (#[trigger] dicts@[i]).0 < key by {
                if i < mid {
                    assert(view[i].0 < view[mid as int].0);
                }
            }
            low = mid + 1;
        } else {
            assert forall|i: int| mid <= i < dicts@.len() implies key < (#[trigger] dicts@[i]).0 by {
                if mid < i {
                    assert(view[mid as int].0 < view[i].0);
                }
            }
            high = mid;
        }
    }
    Slot::Missing(low)
}

/// Adds a value to the dictionary of a key.
fn insert_label(dicts: &mut Vec<(u32, Vec<u32>)>, key: u32, value: u32)
    requires
        dicts_sorted(dicts_view(old(dicts)@)),
    ensures
        dicts_sorted(dicts_view(final(dicts)@)),
        forall|k: u32, v: u32| #[trigger]
            dict_has(dicts_view(final(dicts)@), k, v) <==> dict_has(dicts_view(old(dicts)@), k, v)
                || (k == key && v == value),
{
    let ghost before = dicts_view(dicts@);
    match find_dict(dicts, key) {
        Slot::Missing(d) => {
            let mut values: Vec<u32> = Vec::new();
            values.push(value);
            let ghost added = values@;
            dicts.insert(d, (key, values));
            proof {
                let after = dicts_view(dicts@);
                assert(after =~= before.insert(d as int, (key, added)));
                lemma_dict_added(before, d as int, key, value, added);
            }
        },
        Slot::Found(d) => {
            assert(before[d as int] == (dicts@[d as int].0, dicts@[d as int].1@));
            match find_value(&dicts[d].1, value) {
                Slot::Found(c) => {
                    assert(before[d as int].1[c as int] == value);
                    assert(dict_has(before, key, value));
                },
                Slot::Missing(c) => {
                    dicts[d].1.insert(c, value);
                    proof {
                        let after = dicts_view(dicts@);
                        let values = before[d as int].1.insert(c as int, value);
                        assert(after =~= before.update(d as int, (key, values)));
                        lemma_value_added(before, d as int, key, value, c as int);
                    }
                },
            }
        },
    }
}

proof fn lemma_dict_added(
    before: Seq<(u32, Seq<u32>)>,
    d: int,
    key: u32,
    value: u32,
    added: Seq<u32>,
)
    requires
        dicts_sorted(before),
        0 <= d <= before.len(),
        added == seq![value],
        forall|i: int| 0 <= i < d ==> (#[trigger] before[i]).0 < key,
        forall|i: int| d <= i < before.len() ==> key < (#[trigger] before[i]).0,
    ensures
        dicts_sorted(before.insert(d, (key, added))),
        forall|k: u32, v: u32| #[trigger]
            dict_has(before.insert(d, (key, added)), k, v) <==> dict_has(before, k, v) || (k == key
                && v == value),
{
    let after = before.insert(d, (key, added));
    assert forall|i: int| 0 <= i < after.len() implies strictly_increasing((#[trigger] after[i]).1)
        && after[i].1.len() > 0 by {
        if i < d {
            assert(after[i] == before[i]);
        } else if i > d {
            assert(after[i] == before[i - 1]);
        }
    }
    assert forall|k: u32, v: u32| #[trigger] dict_has(after, k, v) <==> dict_has(before, k, v) || (k
        == key && v == value) by {
        if dict_has(after, k, v) {
            let i = choose|i: int|
                0 <= i < after.len() && (#[trigger] after[i]).0 == k && after[i].1.contains(v);
            if i < d {
                assert(after[i] == before[i]);
            } else if i > d {
                assert(after[i] == before[i - 1]);
            } else {
                assert(added.contains(v));
            }
        }
        if dict_has(before, k, v) {
            let i = choose|i: int|
                0 <= i < before.len() && (#[trigger] before[i]).0 == k && before[i].1.contains(v);
            if i < d {
                assert(after[i] == before[i]);
            } else {
                assert(after[i + 1] == before[i]);
            }
        }
        if k == key && v == value {
            assert(after[d] == (key, added));
            assert(added[0] == value);
        }
    }
}

proof fn lemma_value_added(
    before: Seq<(u32, Seq<u32>)>,
    d: int,
    key: u32,
    value: u32,
    c: int,
)
    requires
        dicts_sorted(before),
        0 <= d < before.len(),
        before[d].0 == key,
        0 <= c <= before[d].1.len(),
        forall|i: int| 0 <= i < c ==> before[d].1[i] < value,
        forall|i: int| c <= i < before[d].1.len() ==> value < before[d].1[i],
    ensures
        dicts_sorted(before.update(d, (key, before[d].1.insert(c, value)))),
        forall|k: u32, v: u32| #[trigger]
            dict_has(before.update(d, (key, before[d].1.insert(c, value))), k, v) <==> dict_has(
                before,
                k,
                v,
            ) || (k == key && v == value),
{
    let values = before[d].1;
    let more = values.insert(c, value);
    let after = before.update(d, (key, more));
    assert forall|x: u32| #[trigger] more.contains(x) <==> values.contains(x) || x == value by {
        if more.contains(x) {
            let i = choose|i: int| 0 <= i < more.len() && more[i] == x;
            if i < c {
                assert(values[i] == x);
            } else if i > c {
                assert(values[i - 1] == x);
            }
        }
        if values.contains(x) {
            let i = choose|i: int| 0 <= i < values.len() && values[i] == x;
            if i < c {
                assert(more[i] == x);
            } else {
                assert(more[i + 1] == x);
            }
        }
        if x == value {
            assert(more[c] == value);
        }
    }
    assert(strictly_increasing(more));
    assert forall|i: int| 0 <= i < after.len() implies strictly_increasing((#[trigger] after[i]).1)
        && after[i].1.len() > 0 by {
        if i != d {
            assert(after[i] == before[i]);
        }
    }
    assert forall|k: u32, v: u32| #[trigger] dict_has(after, k, v) <==> dict_has(before, k, v) || (k
        == key && v == value) by {
        if dict_has(after, k, v) {
            let i = choose|i: int|
                0 <= i < after.len() && (#[trigger] after[i]).0 == k && after[i].1.contains(v);
            if i != d {
                assert(after[i] == before[i]);
            }
        }
        if dict_has(before, k, v) {
            let i = choose|i: int|
                0 <= i < before.len() && (#[trigger] before[i]).0 == k && before[i].1.contains(v);
            if i != d {
                assert(after[i] == before[i]);
            } else {
                assert(after[d].1 == more);
            }
        }
        if k == key && v == value {
            assert(after[d].1 == more);
        }
    }
}

/// A series with its labels in key order.
#[derive(Debug, Clone, PartialEq, Eq)]
pub struct NormalizedSeriesEntry {
    pub series_id: u64,
    pub kind_mask: u8,
    pub labels: Vec<(u32, u32)>,
}

/// What the plan reads of a series.
pub trait ColdPlanSeriesEntry: Sized {
    spec fn id(self) -> u64;

    spec fn kinds(self) -> u8;

    spec fn label_row(self) -> Seq<(u32, u32)>;

    fn series_id(&self) -> (id: u64)
        ensures
            id == self.id(),
    ;

    fn kind_mask(&self) -> (kinds: u8)
        ensures
            kinds == self.kinds(),
    ;

    fn labels(&self) -> (labels: &[(u32, u32)])
        ensures
            labels@ == self.label_row(),
    ;
}

impl ColdPlanSeriesEntry for SeriesEntry {
    open spec fn id(self) -> u64 {
        self.series_id
    }

    open spec fn kinds(self) -> u8 {
        self.kind_mask
    }

    open spec fn label_row(self) -> Seq<(u32, u32)> {
        self.labels@
    }

    fn series_id(&self) -> u64 {
        self.series_id
    }

    fn kind_mask(&self) -> u8 {
        self.kind_mask
    }

    fn labels(&self) -> &[(u32, u32)] {
        &self.labels
    }
}

impl ColdPlanSeriesEntry for NormalizedSeriesEntry {
    open spec fn id(self) -> u64 {
        self.series_id
    }

    open spec fn kinds(self) -> u8 {
        self.kind_mask
    }

    open spec fn label_row(self) -> Seq<(u32, u32)> {
        self.labels@
    }

    fn series_id(&self) -> u64 {
        self.series_id
    }

    fn kind_mask(&self) -> u8 {
        self.kind_mask
    }

    fn labels(&self) -> &[(u32, u32)] {
        &self.labels
    }
}

/// The label rows of a list of series.
pub open spec fn rows_of<E: ColdPlanSeriesEntry>(entries: Seq<E>) -> Seq<Seq<(u32, u32)>> {
    Seq::new(entries.len(), |i: int| entries[i].label_row())
}

/// The first `n` rows can be collected, or the first error.
pub open spec fn collect_result(rows: Seq<Seq<(u32, u32)>>, n: nat) -> Result<(), Error>
    decreases n,
{
    if n == 0 {
        Ok(())
    } else {
        match collect_result(rows, (n - 1) as nat) {
            Err(error) => Err(error),
            Ok(_) => if !row_ordered(rows[n - 1]) {
                Err(
                    Error {
                        kind: ErrorKind::InvalidData,
                        message: Message::LabelOrder { row: (n - 1) as usize },
                    },
                )
            } else if keyset_rows(rows, (n - 1) as nat, keys_of(rows[n - 1])) >= u32::MAX {
                Err(input_error("keyset block rows exceed u32"))
            } else {
                Ok(())
            },
        }
    }
}

proof fn lemma_collect_error(rows: Seq<Seq<(u32, u32)>>, n: nat, m: nat)
    requires
        n <= m,
        collect_result(rows, n) is Err,
    ensures
        collect_result(rows, m) == collect_result(rows, n),
    decreases m,
{
    if n < m {
        lemma_collect_error(rows, n, (m - 1) as nat);
    }
}

/// Counting stops mattering beyond the rows counted.
pub proof fn lemma_keyset_rows_bound(rows: Seq<Seq<(u32, u32)>>, n: nat, keys: Seq<u32>)
    ensures
        keyset_rows(rows, n, keys) <= n,
    decreases n,
{
    if n > 0 {
        lemma_keyset_rows_bound(rows, (n - 1) as nat, keys);
    }
}

/// Rows that are not there have no keyset.
proof fn lemma_no_rows(rows: Seq<Seq<(u32, u32)>>, n: nat, keys: Seq<u32>)
    requires
        n <= rows.len(),
        !has_keyset(rows.take(n as int), keys),
    ensures
        keyset_rows(rows, n, keys) == 0,
    decreases n,
{
    if n > 0 {
        let upto = rows.take(n as int);
        assert(upto[n - 1] == rows[n - 1]);
        assert forall|i: int| 0 <= i < n - 1 implies keys_of(#[trigger] rows.take(n - 1)[i])
            != keys by {
            assert(rows.take(n - 1)[i] == upto[i]);
        }
        lemma_no_rows(rows, (n - 1) as nat, keys);
    }
}

/// Copies the keys of an ordered row and records its labels.
fn collect_row(dicts: &mut Vec<(u32, Vec<u32>)>, labels: &[(u32, u32)], row: usize) -> (result:
    Result<Vec<u32>, Error>)
    requires
        dicts_sorted(dicts_view(old(dicts)@)),
    ensures
        dicts_sorted(dicts_view(final(dicts)@)),
        !row_ordered(labels@) ==> result == Err::<Vec<u32>, Error>(
            Error { kind: ErrorKind::InvalidData, message: Message::LabelOrder { row } },
        ),
        row_ordered(labels@) ==> {
            &&& result is Ok
            &&& result->Ok_0@ == keys_of(labels@)
            &&& forall|k: u32, v: u32| #[trigger]
                dict_has(dicts_view(final(dicts)@), k, v) <==> dict_has(
                    dicts_view(old(dicts)@),
                    k,
                    v,
                ) || labels@.contains((k, v))
        },
{
    let ghost before = dicts_view(dicts@);
    let mut keys: Vec<u32> = Vec::new();
    let mut j: usize = 0;
    while j < labels.len()
        invariant
            j <= labels@.len(),
            dicts_sorted(dicts_view(dicts@)),
            keys@ == keys_of(labels@).take(j as int),
            strictly_increasing(keys@),
            forall|k: u32, v: u32| #[trigger]
                dict_has(dicts_view(dicts@), k, v) <==> dict_has(before, k, v) || labels@.take(
                    j as int,
                ).contains((k, v)),
        decreases labels@.len() - j,
    {
        let (key, value) = labels[j];
        let ghost all = keys_of(labels@);
        assert(all[j as int] == key);
        if j > 0 && keys[j - 1] >= key {
            assert(all[j - 1] >= all[j as int]);
            return Err(
                Error { kind: ErrorKind::InvalidData, message: Message::LabelOrder { row } },
            );
        }
        keys.push(key);
        assert(keys@ =~= all.take(j + 1));
        let ghost mid = dicts_view(dicts@);
        insert_label(dicts, key, value);
        proof {
            let seen = labels@.take(j as int);
            let more = labels@.take(j + 1);
            assert(more =~= seen.push((key, value)));
            assert forall|k: u32, v: u32| #[trigger]
                dict_has(dicts_view(dicts@), k, v) <==> dict_has(before, k, v) || more.contains(
                (k, v),
            ) by {
                if seen.contains((k, v)) {
                    let i = choose|i: int| 0 <= i < seen.len() && seen[i] == (k, v);
                    assert(more[i] == (k, v));
                }
                if k == key && v == value {
                    assert(more[j as int] == (k, v));
                }
                if more.contains((k, v)) {
                    let i = choose|i: int| 0 <= i < more.len() && more[i] == (k, v);
                    if i < j {
                        assert(seen[i] == (k, v));
                    }
                }
                assert(dict_has(dicts_view(dicts@), k, v) <==> dict_has(mid, k, v) || (k == key && v
                    == value));
            }
        }
        j += 1;
    }
    assert(labels@.take(j as int) =~= labels@);
    assert(keys_of(labels@).take(j as int) =~= keys_of(labels@));
    Ok(keys)
}

pub proof fn lemma_keyset_take(rows: Seq<Seq<(u32, u32)>>, n: int, keys: Seq<u32>)
    requires
        0 <= n < rows.len(),
    ensures
        has_keyset(rows.take(n + 1), keys) <==> has_keyset(rows.take(n), keys) || keys_of(rows[n])
            == keys,
{
    let less = rows.take(n);
    let more = rows.take(n + 1);
    if has_keyset(more, keys) {
        let i = choose|i: int| 0 <= i < more.len() && keys_of(#[trigger] more[i]) == keys;
        if i < n {
            assert(less[i] == more[i]);
        }
    }
    if has_keyset(less, keys) {
        let i = choose|i: int| 0 <= i < less.len() && keys_of(#[trigger] less[i]) == keys;
        assert(more[i] == less[i]);
    }
    if keys_of(rows[n]) == keys {
        assert(more[n] == rows[n]);
    }
}

pub proof fn lemma_label_take(rows: Seq<Seq<(u32, u32)>>, n: int, key: u32, value: u32)
    requires
        0 <= n < rows.len(),
    ensures
        has_label(rows.take(n + 1), key, value) <==> has_label(rows.take(n), key, value)
            || rows[n].contains((key, value)),
{
    let less = rows.take(n);
    let more = rows.take(n + 1);
    if has_label(more, key, value) {
        let (i, j) = choose|i: int, j: int|
            0 <= i < more.len() && 0 <= j < more[i].len() && #[trigger] more[i][j] == (key, value);
        if i < n {
            assert(less[i][j] == (key, value));
        } else {
            assert(rows[n][j] == (key, value));
        }
    }
    if has_label(less, key, value) {
        let (i, j) = choose|i: int, j: int|
            0 <= i < less.len() && 0 <= j < less[i].len() && #[trigger] less[i][j] == (key, value);
        assert(more[i][j] == (key, value));
    }
    if rows[n].contains((key, value)) {
        let j = choose|j: int| 0 <= j < rows[n].len() && rows[n][j] == (key, value);
        assert(more[n][j] == (key, value));
    }
}

/// The keysets, row counts and dictionaries of the first `n` rows.
pub open spec fn shapes_of(
    rows: Seq<Seq<(u32, u32)>>,
    n: nat,
    keysets: Seq<Seq<u32>>,
    counts: Seq<u32>,
    dicts: Seq<(u32, Seq<u32>)>,
) -> bool {
    &&& keysets_of(rows.take(n as int), keysets)
    &&& counts.len() == keysets.len()
    &&& forall|k: int|
        0 <= k < keysets.len() ==> #[trigger] counts[k] == keyset_rows(rows, n, keysets[k])
    &&& dicts_of(rows.take(n as int), dicts)
}

/// Inserting a new keyset keeps the list sorted and adds just that keyset.
pub proof fn lemma_keyset_inserted(keysets: Seq<Seq<u32>>, k: int, keys: Seq<u32>)
    requires
        lex_sorted(keysets),
        0 <= k <= keysets.len(),
        forall|i: int| 0 <= i < k ==> lex_less(#[trigger] keysets[i], keys),
        forall|i: int| k <= i < keysets.len() ==> lex_less(keys, #[trigger] keysets[i]),
    ensures
        lex_sorted(keysets.insert(k, keys)),
        forall|x: Seq<u32>| #[trigger]
            keysets.insert(k, keys).contains(x) <==> keysets.contains(x) || x == keys,
        !keysets.contains(keys),
{
    let after = keysets.insert(k, keys);
    assert forall|i: int, j: int| 0 <= i < j < after.len() implies lex_less(after[i], after[j]) by {
        let a = if i < k {
            i
        } else {
            i - 1
        };
        let b = if j < k {
            j
        } else {
            j - 1
        };
        if i != k && j != k {
            assert(after[i] == keysets[a] && after[j] == keysets[b]);
        } else if i == k {
            assert(after[j] == keysets[j - 1]);
        } else {
            assert(after[i] == keysets[i]);
        }
    }
    assert forall|x: Seq<u32>| #[trigger] after.contains(x) <==> keysets.contains(x) || x == keys by {
        if after.contains(x) {
            let i = choose|i: int| 0 <= i < after.len() && after[i] == x;
            if i < k {
                assert(keysets[i] == x);
            } else if i > k {
                assert(keysets[i - 1] == x);
            }
        }
        if keysets.contains(x) {
            let i = choose|i: int| 0 <= i < keysets.len() && keysets[i] == x;
            if i < k {
                assert(after[i] == x);
            } else {
                assert(after[i + 1] == x);
            }
        }
        if x == keys {
            assert(after[k] == keys);
        }
    }
    if keysets.contains(keys) {
        let i = choose|i: int| 0 <= i < keysets.len() && keysets[i] == keys;
        lemma_lex_irreflexive(
            if i < k {
                keysets[i]
            } else {
                keys
            },
            if i < k {
                keys
            } else {
                keysets[i]
            },
        );
    }
}

/// Different positions of a sorted list hold different keysets.
pub proof fn lemma_keysets_distinct(keysets: Seq<Seq<u32>>, i: int, j: int)
    requires
        lex_sorted(keysets),
        0 <= i < keysets.len(),
        0 <= j < keysets.len(),
        keysets[i] == keysets[j],
    ensures
        i == j,
{
    if i < j {
        lemma_lex_irreflexive(keysets[i], keysets[j]);
    } else if j < i {
        lemma_lex_irreflexive(keysets[j], keysets[i]);
    }
}

/// Collects the keysets, their row counts and the value dictionaries.
pub fn collect_cold_shapes<E: ColdPlanSeriesEntry>(entries: &[E]) -> (result: Result<
    (Vec<Vec<u32>>, Vec<u32>, Vec<(u32, Vec<u32>)>),
    Error,
>)
    ensures
        match collect_result(rows_of(entries@), entries@.len()) {
            Err(error) => result == Err::<
                (Vec<Vec<u32>>, Vec<u32>, Vec<(u32, Vec<u32>)>),
                Error,
            >(error),
            Ok(_) => result is Ok && shapes_of(
                rows_of(entries@),
                entries@.len(),
                keysets_view(result->Ok_0.0@),
                result->Ok_0.1@,
                dicts_view(result->Ok_0.2@),
            ),
        },
{
    let ghost rows = rows_of(entries@);
    let mut keysets: Vec<Vec<u32>> = Vec::new();
    let mut counts: Vec<u32> = Vec::new();
    let mut dicts: Vec<(u32, Vec<u32>)> = Vec::new();
    let mut n: usize = 0;
    while n < entries.len()
        invariant
            n <= entries@.len(),
            rows == rows_of(entries@),
            collect_result(rows, n as nat) is Ok,
            shapes_of(rows, n as nat, keysets_view(keysets@), counts@, dicts_view(dicts@)),
        decreases entries@.len() - n,
    {
        let labels = entries[n].labels();
        assert(rows[n as int] == labels@);
        let ghost dicts_before = dicts_view(dicts@);
        let keys = match collect_row(&mut dicts, labels, n) {
            Ok(keys) => keys,
            Err(error) => {
                proof {
                    lemma_collect_error(rows, (n + 1) as nat, entries@.len());
                }
                return Err(error);
            },
        };
        let ghost key_seq = keys@;
        let ghost before = keysets_view(keysets@);
        let ghost counts_before = counts@;
        match find_keyset(&keysets, &keys) {
            Slot::Found(k) => {
                assert(before[k as int] == key_seq);
                assert(counts_before[k as int] == keyset_rows(rows, n as nat, before[k as int]));
                let count: u32 = match counts[k].checked_add(1) {
                    Some(count) => count,
                    None => {
                        proof {
                            lemma_collect_error(rows, (n + 1) as nat, entries@.len());
                        }
                        return Err(invalid_input("keyset block rows exceed u32"));
                    },
                };
                counts.set(k, count);
                proof {
                    assert forall|i: int| 0 <= i < before.len() implies #[trigger] counts@[i]
                        == keyset_rows(rows, (n + 1) as nat, before[i]) by {
                        assert(counts_before[i] == keyset_rows(rows, n as nat, before[i]));
                        if before[i] == key_seq {
                            lemma_keysets_distinct(before, i, k as int);
                        }
                    }
                    assert forall|x: Seq<u32>| #[trigger] before.contains(x) <==> has_keyset(
                        rows.take(n + 1),
                        x,
                    ) by {
                        lemma_keyset_take(rows, n as int, x);
                        if x == key_seq {
                            assert(before[k as int] == x);
                        }
                    }
                }
            },
            Slot::Missing(k) => {
                proof {
                    assert forall|i: int| 0 <= i < k implies lex_less(#[trigger] before[i], key_seq) by {
                        assert(before[i] == keysets@[i]@);
                    }
                    assert forall|i: int| k <= i < before.len() implies lex_less(
                        key_seq,
                        #[trigger] before[i],
                    ) by {
                        assert(before[i] == keysets@[i]@);
                    }
                    lemma_keyset_inserted(before, k as int, key_seq);
                    assert(!before.contains(key_seq));
                    lemma_no_rows(rows, n as nat, key_seq);
                }
                keysets.insert(k, keys);
                counts.insert(k, 1);
                proof {
                    let after = keysets_view(keysets@);
                    assert(after =~= before.insert(k as int, key_seq));
                    assert forall|i: int| 0 <= i < after.len() implies #[trigger] counts@[i]
                        == keyset_rows(rows, (n + 1) as nat, after[i]) by {
                        if i < k {
                            assert(after[i] == before[i] && counts@[i] == counts_before[i]);
                            lemma_lex_irreflexive(before[i], key_seq);
                        } else if i > k {
                            assert(after[i] == before[i - 1] && counts@[i] == counts_before[i - 1]);
                            lemma_lex_irreflexive(key_seq, before[i - 1]);
                        }
                    }
                    assert forall|x: Seq<u32>| #[trigger] after.contains(x) <==> has_keyset(
                        rows.take(n + 1),
                        x,
                    ) by {
                        lemma_keyset_take(rows, n as int, x);
                        assert(before.insert(k as int, key_seq).contains(x) <==> before.contains(x)
                            || x == key_seq);
                        assert(before.contains(x) <==> has_keyset(rows.take(n as int), x));
                    }
                }
            },
        }
        proof {
            assert forall|key: u32, value: u32| #[trigger]
                dict_has(dicts_view(dicts@), key, value) <==> has_label(
                rows.take(n + 1),
                key,
                value,
            ) by {
                lemma_label_take(rows, n as int, key, value);
                assert(dict_has(dicts_before, key, value) <==> has_label(
                    rows.take(n as int),
                    key,
                    value,
                ));
            }
        }
        n += 1;
    }
    Ok((keysets, counts, dicts))
}

} // verus!
