//! The columns of a set of rows are determined by the rows.

use vstd::prelude::*;

use super::reader::strictly_increasing;
use super::shapes::{
    dict_has, dicts_of, dicts_sorted, has_keyset, has_label, keys_of, keysets_of,
    lemma_keyset_inserted, lemma_keyset_take, lemma_keysets_distinct, lemma_label_take,
    lemma_lex_irreflexive, lemma_lex_transitive, lex_less, lex_less_at, lex_sorted,
};

verus! {

/// The keysets of the rows.
pub open spec fn keysets_for(rows: Seq<Seq<(u32, u32)>>) -> Seq<Seq<u32>> {
    choose|keysets: Seq<Seq<u32>>| keysets_of(rows, keysets)
}

/// The value dictionaries of the rows.
pub open spec fn dicts_for(rows: Seq<Seq<(u32, u32)>>) -> Seq<(u32, Seq<u32>)> {
    choose|dicts: Seq<(u32, Seq<u32>)>| dicts_of(rows, dicts)
}

proof fn lemma_lex_position(a: Seq<Seq<u32>>, b: Seq<Seq<u32>>, i: int)
    requires
        lex_sorted(a),
        lex_sorted(b),
        forall|keys: Seq<u32>| #[trigger] a.contains(keys) <==> b.contains(keys),
        0 <= i < a.len(),
    ensures
        i < b.len(),
        a[i] == b[i],
    decreases i,
{
    assert forall|j: int| 0 <= j < i implies j < b.len() && a[j] == #[trigger] b[j] by {
        lemma_lex_position(a, b, j);
    }
    assert(a.contains(a[i]));
    let m = choose|m: int| 0 <= m < b.len() && b[m] == a[i];
    if m < i {
        lemma_keysets_distinct(a, m, i);
    }
    if i < m {
        assert(b.contains(b[i]));
        assert(a.contains(b[i]));
        let p = choose|p: int| 0 <= p < a.len() && a[p] == b[i];
        if p < i {
            lemma_keysets_distinct(b, p, i);
        }
        assert(lex_less(b[i], b[m]));
        lemma_lex_irreflexive(b[i], b[m]);
        if i < p {
            assert(lex_less(a[i], a[p]));
        }
    }
}

/// Rows have one list of keysets.
pub proof fn keysets_law(rows: Seq<Seq<(u32, u32)>>, keysets: Seq<Seq<u32>>)
    requires
        keysets_of(rows, keysets),
    ensures
        keysets == keysets_for(rows),
{
    let other = keysets_for(rows);
    assert(keysets_of(rows, other));
    assert forall|keys: Seq<u32>| #[trigger] keysets.contains(keys) <==> other.contains(keys) by {
        assert(other.contains(keys) <==> has_keyset(rows, keys));
    }
    assert forall|i: int| 0 <= i < keysets.len() implies i < other.len() && keysets[i]
        == #[trigger] other[i] by {
        lemma_lex_position(keysets, other, i);
    }
    if other.len() > keysets.len() {
        lemma_lex_position(other, keysets, keysets.len() as int);
    }
    if keysets.len() > other.len() {
        lemma_lex_position(keysets, other, other.len() as int);
    }
    assert(keysets =~= other);
}

proof fn lemma_value_position(a: Seq<u32>, b: Seq<u32>, i: int)
    requires
        strictly_increasing(a),
        strictly_increasing(b),
        forall|value: u32| #[trigger] a.contains(value) <==> b.contains(value),
        0 <= i < a.len(),
    ensures
        i < b.len(),
        a[i] == b[i],
    decreases i,
{
    assert forall|j: int| 0 <= j < i implies j < b.len() && a[j] == #[trigger] b[j] by {
        lemma_value_position(a, b, j);
    }
    assert(a.contains(a[i]));
    let m = choose|m: int| 0 <= m < b.len() && b[m] == a[i];
    if m < i {
        assert(a[m] < a[i]);
    }
    if i < m {
        assert(b.contains(b[i]));
        assert(a.contains(b[i]));
        let p = choose|p: int| 0 <= p < a.len() && a[p] == b[i];
        if p < i {
            assert(b[p] < b[i]);
        }
        assert(b[i] < b[m]);
    }
}

/// Increasing values are determined by which values they are.
pub proof fn lemma_values_equal(a: Seq<u32>, b: Seq<u32>)
    requires
        strictly_increasing(a),
        strictly_increasing(b),
        forall|value: u32| #[trigger] a.contains(value) <==> b.contains(value),
    ensures
        a == b,
{
    assert forall|i: int| 0 <= i < a.len() implies i < b.len() && a[i] == #[trigger] b[i] by {
        lemma_value_position(a, b, i);
    }
    if b.len() > a.len() {
        lemma_value_position(b, a, a.len() as int);
    }
    if a.len() > b.len() {
        lemma_value_position(a, b, b.len() as int);
    }
    assert(a =~= b);
}

/// The keys of dictionaries.
pub open spec fn dict_keys(dicts: Seq<(u32, Seq<u32>)>) -> Seq<u32> {
    Seq::new(dicts.len(), |d: int| dicts[d].0)
}

proof fn lemma_dict_key(dicts: Seq<(u32, Seq<u32>)>, key: u32)
    requires
        dicts_sorted(dicts),
    ensures
        dict_keys(dicts).contains(key) <==> exists|value: u32| dict_has(dicts, key, value),
{
    let keys = dict_keys(dicts);
    if keys.contains(key) {
        let d = choose|d: int| 0 <= d < keys.len() && keys[d] == key;
        assert(dicts[d].1.contains(dicts[d].1[0]));
        assert(dict_has(dicts, key, dicts[d].1[0]));
    }
    if exists|value: u32| dict_has(dicts, key, value) {
        let value = choose|value: u32| dict_has(dicts, key, value);
        let d = choose|d: int|
            0 <= d < dicts.len() && (#[trigger] dicts[d]).0 == key && dicts[d].1.contains(value);
        assert(keys[d] == key);
    }
}

proof fn lemma_dict_value(dicts: Seq<(u32, Seq<u32>)>, d: int, value: u32)
    requires
        dicts_sorted(dicts),
        0 <= d < dicts.len(),
    ensures
        dicts[d].1.contains(value) <==> dict_has(dicts, dicts[d].0, value),
{
    if dict_has(dicts, dicts[d].0, value) {
        let e = choose|e: int|
            0 <= e < dicts.len() && (#[trigger] dicts[e]).0 == dicts[d].0 && dicts[e].1.contains(
                value,
            );
        assert(e == d);
    }
}

/// Rows have one list of value dictionaries.
pub proof fn dicts_law(rows: Seq<Seq<(u32, u32)>>, dicts: Seq<(u32, Seq<u32>)>)
    requires
        dicts_of(rows, dicts),
    ensures
        dicts == dicts_for(rows),
{
    let other = dicts_for(rows);
    assert(dicts_of(rows, other));
    assert forall|key: u32, value: u32| #[trigger]
        dict_has(dicts, key, value) <==> dict_has(other, key, value) by {
        assert(dict_has(other, key, value) <==> has_label(rows, key, value));
    }
    assert forall|key: u32| #[trigger]
        dict_keys(dicts).contains(key) <==> dict_keys(other).contains(key) by {
        lemma_dict_key(dicts, key);
        lemma_dict_key(other, key);
        if dict_keys(dicts).contains(key) {
            let value = choose|value: u32| dict_has(dicts, key, value);
            assert(dict_has(other, key, value));
        }
        if dict_keys(other).contains(key) {
            let value = choose|value: u32| dict_has(other, key, value);
            assert(dict_has(dicts, key, value));
        }
    }
    lemma_values_equal(dict_keys(dicts), dict_keys(other));
    assert(dict_keys(dicts).len() == dict_keys(other).len());
    assert forall|d: int| 0 <= d < dicts.len() implies dicts[d] == #[trigger] other[d] by {
        assert(dict_keys(dicts)[d] == dict_keys(other)[d]);
        assert forall|value: u32| #[trigger]
            dicts[d].1.contains(value) <==> other[d].1.contains(value) by {
            lemma_dict_value(dicts, d, value);
            lemma_dict_value(other, d, value);
        }
        lemma_values_equal(dicts[d].1, other[d].1);
    }
    assert(dicts =~= other);
}

/// Every label after the first has a key that is not smaller.
pub open spec fn key_ordered(labels: Seq<(u32, u32)>) -> bool {
    forall|i: int, j: int| 0 <= i <= j < labels.len() ==> labels[i].0 <= labels[j].0
}

/// Those of the first `n` labels that have this key, in order.
pub open spec fn with_key(labels: Seq<(u32, u32)>, n: nat, key: u32) -> Seq<(u32, u32)>
    decreases n,
{
    if n == 0 {
        Seq::empty()
    } else if labels[n - 1].0 == key {
        with_key(labels, (n - 1) as nat, key).push(labels[n - 1])
    } else {
        with_key(labels, (n - 1) as nat, key)
    }
}

/// The same labels ordered by key, those of one key in the order they had.
pub open spec fn stable_sorted(labels: Seq<(u32, u32)>, sorted: Seq<(u32, u32)>) -> bool {
    &&& key_ordered(sorted)
    &&& forall|key: u32| #[trigger]
        with_key(sorted, sorted.len(), key) == with_key(labels, labels.len(), key)
}

/// The labels in the order of their keys.
pub open spec fn sorted_labels(labels: Seq<(u32, u32)>) -> Seq<(u32, u32)> {
    choose|sorted: Seq<(u32, u32)>| stable_sorted(labels, sorted)
}

pub proof fn lemma_with_key_empty(labels: Seq<(u32, u32)>, n: nat, key: u32)
    requires
        n <= labels.len(),
        forall|i: int| 0 <= i < n ==> (#[trigger] labels[i]).0 != key,
    ensures
        with_key(labels, n, key) == Seq::<(u32, u32)>::empty(),
    decreases n,
{
    if n > 0 {
        lemma_with_key_empty(labels, (n - 1) as nat, key);
    }
}

pub proof fn lemma_with_key_prefix(
    a: Seq<(u32, u32)>,
    b: Seq<(u32, u32)>,
    n: nat,
    key: u32,
)
    requires
        n <= a.len(),
        n <= b.len(),
        forall|i: int| 0 <= i < n ==> a[i] == b[i],
    ensures
        with_key(a, n, key) == with_key(b, n, key),
    decreases n,
{
    if n > 0 {
        lemma_with_key_prefix(a, b, (n - 1) as nat, key);
    }
}

proof fn lemma_sorted_equal(a: Seq<(u32, u32)>, b: Seq<(u32, u32)>)
    requires
        key_ordered(a),
        key_ordered(b),
        forall|key: u32| #[trigger] with_key(a, a.len(), key) == with_key(b, b.len(), key),
    ensures
        a == b,
    decreases a.len() + b.len(),
{
    if a.len() == 0 || b.len() == 0 {
        if a.len() > 0 {
            assert(with_key(a, a.len(), a.last().0) == with_key(b, b.len(), a.last().0));
        }
        if b.len() > 0 {
            assert(with_key(a, a.len(), b.last().0) == with_key(b, b.len(), b.last().0));
        }
        assert(a =~= b);
    } else {
        let i = (a.len() - 1) as nat;
        let j = (b.len() - 1) as nat;
        let largest = a[i as int].0;
        let other = b[j as int].0;
        assert(with_key(a, a.len(), largest) == with_key(b, b.len(), largest));
        assert(with_key(a, a.len(), other) == with_key(b, b.len(), other));
        if other < largest {
            lemma_with_key_empty(b, b.len(), largest);
        }
        if largest < other {
            lemma_with_key_empty(a, a.len(), other);
        }
        assert(with_key(a, a.len(), largest).last() == a[i as int]);
        assert(with_key(b, b.len(), largest).last() == b[j as int]);
        let a1 = a.drop_last();
        let b1 = b.drop_last();
        assert forall|key: u32| #[trigger]
            with_key(a1, a1.len(), key) == with_key(b1, b1.len(), key) by {
            lemma_with_key_prefix(a, a1, i, key);
            lemma_with_key_prefix(b, b1, j, key);
            assert(with_key(a, a.len(), key) == with_key(b, b.len(), key));
            if key == largest {
                assert(with_key(a, a.len(), key).drop_last() =~= with_key(a, i, key));
                assert(with_key(b, b.len(), key).drop_last() =~= with_key(b, j, key));
            }
        }
        lemma_sorted_equal(a1, b1);
        assert(a =~= a1.push(a[i as int]));
        assert(b =~= b1.push(b[j as int]));
    }
}

/// Labels have one order by key.
pub proof fn sorted_labels_law(labels: Seq<(u32, u32)>, sorted: Seq<(u32, u32)>)
    requires
        stable_sorted(labels, sorted),
    ensures
        sorted == sorted_labels(labels),
{
    let other = sorted_labels(labels);
    assert(stable_sorted(labels, other));
    assert forall|key: u32| #[trigger]
        with_key(sorted, sorted.len(), key) == with_key(other, other.len(), key) by {
        assert(with_key(other, other.len(), key) == with_key(labels, labels.len(), key));
    }
    lemma_sorted_equal(sorted, other);
}

/// Labels whose keys are in order already stay as they are.
pub proof fn sorted_labels_keep_law(labels: Seq<(u32, u32)>)
    requires
        key_ordered(labels),
    ensures
        sorted_labels(labels) == labels,
{
    assert(stable_sorted(labels, labels));
    sorted_labels_law(labels, labels);
}

/// Two key sequences are equal, or one is before the other.
pub proof fn lemma_lex_total(a: Seq<u32>, b: Seq<u32>, i: int)
    requires
        0 <= i <= a.len(),
        i <= b.len(),
        forall|j: int| 0 <= j < i ==> a[j] == b[j],
    ensures
        a == b || lex_less(a, b) || lex_less(b, a),
    decreases a.len() - i,
{
    if i == a.len() || i == b.len() {
        if a.len() == b.len() {
            assert(a =~= b);
        } else if i == a.len() {
            assert(lex_less_at(a, b, i));
        } else {
            assert(lex_less_at(b, a, i));
        }
    } else if a[i] < b[i] {
        assert(lex_less_at(a, b, i));
    } else if b[i] < a[i] {
        assert(lex_less_at(b, a, i));
    } else {
        lemma_lex_total(a, b, i + 1);
    }
}

/// How many of the first `n` keysets are before `keys`, when they are in order.
spec fn keyset_slot(keysets: Seq<Seq<u32>>, n: nat, keys: Seq<u32>) -> nat
    decreases n,
{
    if n == 0 || lex_less(keysets[n - 1], keys) {
        n
    } else {
        keyset_slot(keysets, (n - 1) as nat, keys)
    }
}

proof fn lemma_keyset_slot(keysets: Seq<Seq<u32>>, n: nat, keys: Seq<u32>)
    requires
        lex_sorted(keysets),
        n <= keysets.len(),
        !keysets.contains(keys),
    ensures
        keyset_slot(keysets, n, keys) <= n,
        forall|i: int|
            0 <= i < keyset_slot(keysets, n, keys) ==> lex_less(#[trigger] keysets[i], keys),
        forall|i: int|
            keyset_slot(keysets, n, keys) <= i < n ==> lex_less(keys, #[trigger] keysets[i]),
    decreases n,
{
    if n > 0 {
        let last = keysets[n - 1];
        assert(keysets.contains(last));
        lemma_lex_total(last, keys, 0);
        if lex_less(last, keys) {
            assert forall|i: int| 0 <= i < n implies lex_less(#[trigger] keysets[i], keys) by {
                if i < n - 1 {
                    lemma_lex_transitive(keysets[i], last, keys);
                }
            }
        } else {
            lemma_keyset_slot(keysets, (n - 1) as nat, keys);
        }
    }
}

proof fn lemma_keysets_built(rows: Seq<Seq<(u32, u32)>>, n: nat) -> (keysets: Seq<Seq<u32>>)
    requires
        n <= rows.len(),
    ensures
        keysets_of(rows.take(n as int), keysets),
    decreases n,
{
    if n == 0 {
        let keysets = Seq::<Seq<u32>>::empty();
        assert forall|keys: Seq<u32>| #[trigger] keysets.contains(keys) <==> has_keyset(
            rows.take(0),
            keys,
        ) by {}
        keysets
    } else {
        let before = lemma_keysets_built(rows, (n - 1) as nat);
        let keys = keys_of(rows[n - 1]);
        if before.contains(keys) {
            assert forall|x: Seq<u32>| #[trigger] before.contains(x) <==> has_keyset(
                rows.take(n as int),
                x,
            ) by {
                lemma_keyset_take(rows, n - 1, x);
            }
            before
        } else {
            let k = keyset_slot(before, before.len(), keys) as int;
            lemma_keyset_slot(before, before.len(), keys);
            lemma_keyset_inserted(before, k, keys);
            let after = before.insert(k, keys);
            assert forall|x: Seq<u32>| #[trigger] after.contains(x) <==> has_keyset(
                rows.take(n as int),
                x,
            ) by {
                lemma_keyset_take(rows, n - 1, x);
                assert(before.contains(x) <==> has_keyset(rows.take(n - 1), x));
            }
            after
        }
    }
}

/// Every set of rows has its keysets.
pub proof fn lemma_keysets_exist(rows: Seq<Seq<(u32, u32)>>)
    ensures
        keysets_of(rows, keysets_for(rows)),
{
    let keysets = lemma_keysets_built(rows, rows.len());
    assert(rows.take(rows.len() as int) =~= rows);
}

/// How many of the first `n` values are smaller, when they increase.
spec fn value_slot(values: Seq<u32>, n: nat, value: u32) -> nat
    decreases n,
{
    if n == 0 || values[n - 1] < value {
        n
    } else {
        value_slot(values, (n - 1) as nat, value)
    }
}

proof fn lemma_value_slot(values: Seq<u32>, n: nat, value: u32)
    requires
        strictly_increasing(values),
        n <= values.len(),
        !values.contains(value),
    ensures
        value_slot(values, n, value) <= n,
        forall|i: int| 0 <= i < value_slot(values, n, value) ==> values[i] < value,
        forall|i: int| value_slot(values, n, value) <= i < n ==> value < values[i],
    decreases n,
{
    if n > 0 {
        assert(values.contains(values[n - 1]));
        if values[n - 1] > value {
            lemma_value_slot(values, (n - 1) as nat, value);
        }
    }
}

/// The distinct values of the first `n`, in order.
proof fn lemma_values_built(values: Seq<u32>, n: nat) -> (sorted: Seq<u32>)
    requires
        n <= values.len(),
    ensures
        strictly_increasing(sorted),
        forall|value: u32| #[trigger]
            sorted.contains(value) <==> values.take(n as int).contains(value),
    decreases n,
{
    if n == 0 {
        Seq::empty()
    } else {
        let before = lemma_values_built(values, (n - 1) as nat);
        let value = values[n - 1];
        let less = values.take(n - 1);
        let more = values.take(n as int);
        assert(more =~= less.push(value));
        assert forall|x: u32| #[trigger] more.contains(x) <==> less.contains(x) || x == value by {
            if less.contains(x) {
                assert(more[less.index_of(x)] == x);
            }
            if x == value {
                assert(more[n - 1] == x);
            }
        }
        if before.contains(value) {
            before
        } else {
            let at = value_slot(before, before.len(), value) as int;
            lemma_value_slot(before, before.len(), value);
            let after = before.insert(at, value);
            assert forall|x: u32| #[trigger] after.contains(x) <==> before.contains(x) || x
                == value by {
                if before.contains(x) {
                    let i = before.index_of(x);
                    if i < at {
                        assert(after[i] == x);
                    } else {
                        assert(after[i + 1] == x);
                    }
                }
                if x == value {
                    assert(after[at] == x);
                }
                if after.contains(x) {
                    let i = after.index_of(x);
                    if i < at {
                        assert(before[i] == x);
                    } else if i > at {
                        assert(before[i - 1] == x);
                    }
                }
            }
            after
        }
    }
}

/// The distinct values, in order.
spec fn distinct(values: Seq<u32>) -> Seq<u32> {
    choose|sorted: Seq<u32>|
        strictly_increasing(sorted) && forall|value: u32| #[trigger]
            sorted.contains(value) <==> values.contains(value)
}

proof fn lemma_distinct(values: Seq<u32>)
    ensures
        strictly_increasing(distinct(values)),
        forall|value: u32| #[trigger] distinct(values).contains(value) <==> values.contains(value),
{
    let sorted = lemma_values_built(values, values.len());
    assert(values.take(values.len() as int) =~= values);
    assert(strictly_increasing(sorted) && forall|value: u32| #[trigger]
        sorted.contains(value) <==> values.contains(value));
}

/// All labels of the first `n` rows.
spec fn all_labels(rows: Seq<Seq<(u32, u32)>>, n: nat) -> Seq<(u32, u32)>
    decreases n,
{
    if n == 0 {
        Seq::empty()
    } else {
        all_labels(rows, (n - 1) as nat) + rows[n - 1]
    }
}

proof fn lemma_all_labels(rows: Seq<Seq<(u32, u32)>>, n: nat, key: u32, value: u32)
    requires
        n <= rows.len(),
    ensures
        all_labels(rows, n).contains((key, value)) <==> has_label(rows.take(n as int), key, value),
    decreases n,
{
    if n > 0 {
        lemma_all_labels(rows, (n - 1) as nat, key, value);
        lemma_label_take(rows, n - 1, key, value);
        let before = all_labels(rows, (n - 1) as nat);
        let row = rows[n - 1];
        let all = before + row;
        let label = (key, value);
        if all.contains(label) {
            let i = all.index_of(label);
            if i < before.len() {
                assert(before[i] == label);
            } else {
                assert(row[i - before.len()] == label);
            }
        }
        if before.contains(label) {
            assert(all[before.index_of(label)] == label);
        }
        if row.contains(label) {
            assert(all[before.len() + row.index_of(label)] == label);
        }
    }
}

spec fn label_keys(labels: Seq<(u32, u32)>) -> Seq<u32> {
    Seq::new(labels.len(), |i: int| labels[i].0)
}

spec fn label_values(labels: Seq<(u32, u32)>) -> Seq<u32> {
    Seq::new(labels.len(), |i: int| labels[i].1)
}

proof fn lemma_with_key_contains(labels: Seq<(u32, u32)>, n: nat, key: u32, value: u32)
    requires
        n <= labels.len(),
    ensures
        label_values(with_key(labels, n, key)).contains(value) <==> labels.take(n as int).contains(
            (key, value),
        ),
    decreases n,
{
    let label = (key, value);
    if n > 0 {
        lemma_with_key_contains(labels, (n - 1) as nat, key, value);
        let before = with_key(labels, (n - 1) as nat, key);
        let after = with_key(labels, n, key);
        let less = labels.take(n - 1);
        let more = labels.take(n as int);
        assert(more =~= less.push(labels[n - 1]));
        if less.contains(label) {
            assert(more[less.index_of(label)] == label);
        }
        if more.contains(label) {
            let i = more.index_of(label);
            if i < n - 1 {
                assert(less[i] == label);
            }
        }
        if labels[n - 1] == label {
            assert(more[n - 1] == label);
            assert(label_values(after)[after.len() - 1] == value);
        }
        if label_values(before).contains(value) {
            let i = label_values(before).index_of(value);
            assert(label_values(after)[i] == value);
        }
        if label_values(after).contains(value) {
            let i = label_values(after).index_of(value);
            if i < before.len() {
                assert(label_values(before)[i] == value);
            }
        }
    } else {
        assert(with_key(labels, n, key) =~= Seq::empty());
    }
}

/// Every set of rows has its value dictionaries.
pub proof fn lemma_dicts_exist(rows: Seq<Seq<(u32, u32)>>)
    ensures
        dicts_of(rows, dicts_for(rows)),
{
    let labels = all_labels(rows, rows.len());
    let n = labels.len();
    let keys = distinct(label_keys(labels));
    lemma_distinct(label_keys(labels));
    let dicts = Seq::new(
        keys.len(),
        |d: int| (keys[d], distinct(label_values(with_key(labels, n, keys[d])))),
    );
    assert(rows.take(rows.len() as int) =~= rows);
    assert(labels.take(n as int) =~= labels);
    assert forall|key: u32, value: u32| #[trigger]
        dict_has(dicts, key, value) <==> has_label(rows, key, value) by {
        lemma_all_labels(rows, rows.len(), key, value);
        lemma_with_key_contains(labels, n, key, value);
        lemma_distinct(label_values(with_key(labels, n, key)));
        if dict_has(dicts, key, value) {
            let d = choose|d: int|
                0 <= d < dicts.len() && (#[trigger] dicts[d]).0 == key && dicts[d].1.contains(
                    value,
                );
            assert(keys[d] == key);
            let values = label_values(with_key(labels, n, key));
            assert(distinct(values).contains(value));
            assert(values.contains(value));
        }
        if has_label(rows, key, value) {
            let i = labels.index_of((key, value));
            assert(label_keys(labels)[i] == key);
            assert(label_keys(labels).contains(key));
            assert(keys.contains(key));
            let d = keys.index_of(key);
            assert(0 <= d < keys.len() && keys[d] == key);
            let values = label_values(with_key(labels, n, key));
            assert(values.contains(value));
            assert(distinct(values).contains(value));
            assert(dicts[d].0 == key && dicts[d].1.contains(value));
        }
    }
    assert forall|d: int| 0 <= d < dicts.len() implies strictly_increasing(
        (#[trigger] dicts[d]).1,
    ) && dicts[d].1.len() > 0 by {
        let key = keys[d];
        let values = label_values(with_key(labels, n, key));
        lemma_distinct(values);
        assert(keys.contains(key));
        let i = label_keys(labels).index_of(key);
        assert(labels[i] == (key, labels[i].1));
        assert(labels.contains((key, labels[i].1)));
        lemma_with_key_contains(labels, n, key, labels[i].1);
        assert(values.contains(labels[i].1));
        assert(distinct(values).contains(labels[i].1));
    }
    assert(dicts_of(rows, dicts));
}

} // verus!
