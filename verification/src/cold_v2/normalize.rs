//! Label rows brought into the order of their keys.

use vstd::prelude::*;

use super::canonical::{
    key_ordered, lemma_with_key_prefix, sorted_labels, sorted_labels_law, with_key,
};
use super::shapes::NormalizedSeriesEntry;
use crate::entry::SeriesEntry;

verus! {

/// Inserting a label behind those with the same key appends it to them.
pub proof fn lemma_with_key_inserted(
    labels: Seq<(u32, u32)>,
    n: nat,
    at: int,
    label: (u32, u32),
    key: u32,
)
    requires
        0 <= at <= n <= labels.len(),
        forall|i: int| at <= i < n ==> (#[trigger] labels[i]).0 != label.0,
    ensures
        with_key(labels.insert(at, label), n + 1, key) == (if key == label.0 {
            with_key(labels, n, key).push(label)
        } else {
            with_key(labels, n, key)
        }),
    decreases n,
{
    let after = labels.insert(at, label);
    if at == n {
        assert(after[n as int] == label);
        lemma_with_key_prefix(after, labels, n, key);
    } else {
        assert(after[n as int] == labels[n - 1]);
        lemma_with_key_inserted(labels, (n - 1) as nat, at, label, key);
    }
}

/// Orders labels by key; labels of one key keep their order.
fn sort_labels(labels: &[(u32, u32)]) -> (sorted: Vec<(u32, u32)>)
    ensures
        sorted@ == sorted_labels(labels@),
{
    let mut sorted: Vec<(u32, u32)> = Vec::new();
    let mut n: usize = 0;
    while n < labels.len()
        invariant
            n <= labels@.len(),
            sorted@.len() == n,
            key_ordered(sorted@),
            forall|key: u32| #[trigger]
                with_key(sorted@, n as nat, key) == with_key(labels@, n as nat, key),
        decreases labels@.len() - n,
    {
        let label: (u32, u32) = labels[n];
        let mut at: usize = n;
        while at > 0 && sorted[at - 1].0 > label.0
            invariant
                at <= n,
                sorted@.len() == n,
                key_ordered(sorted@),
                forall|i: int| at <= i < n ==> (#[trigger] sorted@[i]).0 > label.0,
            decreases at,
        {
            at -= 1;
        }
        let ghost before = sorted@;
        sorted.insert(at, label);
        proof {
            assert(sorted@ == before.insert(at as int, label));
            assert forall|i: int, j: int| 0 <= i <= j < sorted@.len() implies sorted@[i].0
                <= sorted@[j].0 by {
                let a = if i < at {
                    i
                } else {
                    i - 1
                };
                let b = if j < at {
                    j
                } else {
                    j - 1
                };
                if i < at {
                    assert(sorted@[i] == before[i]);
                    assert(before[i].0 <= before[at - 1].0);
                } else if i > at {
                    assert(sorted@[i] == before[a]);
                }
                if j < at {
                    assert(sorted@[j] == before[j]);
                } else if j > at {
                    assert(sorted@[j] == before[b]);
                }
            }
            assert forall|key: u32| #[trigger]
                with_key(sorted@, (n + 1) as nat, key) == with_key(labels@, (n + 1) as nat, key) by {
                lemma_with_key_inserted(before, n as nat, at as int, label, key);
                assert(with_key(before, n as nat, key) == with_key(labels@, n as nat, key));
            }
        }
        n += 1;
    }
    proof {
        sorted_labels_law(labels@, sorted@);
    }
    sorted
}

/// The entries with their labels in the order of their keys.
pub open spec fn normalizes(entry: SeriesEntry, normalized: NormalizedSeriesEntry) -> bool {
    &&& normalized.series_id == entry.series_id
    &&& normalized.kind_mask == entry.kind_mask
    &&& normalized.labels@ == sorted_labels(entry.labels@)
}

pub fn normalize_series_entries(entries: &[SeriesEntry]) -> (normalized: Vec<NormalizedSeriesEntry>)
    ensures
        normalized@.len() == entries@.len(),
        forall|i: int|
            0 <= i < entries@.len() ==> normalizes(entries@[i], #[trigger] normalized@[i]),
{
    let mut normalized: Vec<NormalizedSeriesEntry> = Vec::new();
    let mut i: usize = 0;
    while i < entries.len()
        invariant
            i <= entries@.len(),
            normalized@.len() == i,
            forall|k: int| 0 <= k < i ==> normalizes(entries@[k], #[trigger] normalized@[k]),
        decreases entries@.len() - i,
    {
        let labels: Vec<(u32, u32)> = sort_labels(&entries[i].labels);
        normalized.push(
            NormalizedSeriesEntry {
                series_id: entries[i].series_id,
                kind_mask: entries[i].kind_mask,
                labels,
            },
        );
        i += 1;
    }
    normalized
}

} // verus!
