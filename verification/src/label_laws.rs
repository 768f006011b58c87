//! What canonical bytes and selections of labels are, label by label.

use vstd::prelude::*;
use vstd::utf8::encode_utf8;

use crate::symbols::{
    canonical_bytes, identity_of, resolve_labels_result, resolved_labels, texts,
    without_metric_name, CanonicalComponent, LabelText, Symbols,
};
use crate::v3::runtime_reader::labels::CanonicalLabelSelection;

verus! {

/// The canonical bytes of labels are those of each label, one after the other: the
/// name, a zero, the value, and a byte of ones.
pub proof fn canonical_bytes_law(labels: Seq<LabelText>, label: LabelText)
    ensures
        canonical_bytes(Seq::empty()) == Seq::<u8>::empty(),
        canonical_bytes(labels.push(label)) == canonical_bytes(labels) + encode_utf8(label.0) + seq![
            0u8,
        ] + encode_utf8(label.1) + seq![255u8],
{
    assert(labels.push(label).drop_last() =~= labels);
    assert(labels.push(label).last() == label);
    assert(canonical_bytes(labels.push(label)) =~= canonical_bytes(labels) + encode_utf8(label.0)
        + seq![0u8] + encode_utf8(label.1) + seq![255u8]);
}

/// The identity bytes of a row grow by a name and then by its value exactly as its
/// canonical bytes do, with the metric name and without.
pub proof fn identity_growth_law(labels: Seq<LabelText>, label: LabelText, derives: bool)
    ensures
        ({
            let before = identity_of(labels, derives);
            let after = identity_of(labels.push(label), derives);
            let grown = before.with(CanonicalComponent::Name, label.0).with(
                CanonicalComponent::Value,
                label.1,
            );
            &&& grown.bytes == after.bytes
            &&& after.bytes == canonical_bytes(labels.push(label))
            &&& grown.dropped == after.dropped
            &&& after.dropped is Some <==> derives
            &&& after.dropped matches Some(dropped) ==> dropped == canonical_bytes(
                without_metric_name(labels.push(label)),
            )
        }),
{
    canonical_bytes_law(labels, label);
    metric_name_law(labels, label);
    canonical_bytes_law(without_metric_name(labels), label);
    let before = identity_of(labels, derives);
    let grown = before.with(CanonicalComponent::Name, label.0).with(
        CanonicalComponent::Value,
        label.1,
    );
    assert(grown.bytes =~= canonical_bytes(labels.push(label)));
    if derives {
        assert(grown.dropped->Some_0 =~= identity_of(
            labels.push(label),
            derives,
        ).dropped->Some_0);
    }
}

/// Dropping the metric name leaves out the labels named `__name__`, and keeps the
/// others in their order.
pub proof fn metric_name_law(labels: Seq<LabelText>, label: LabelText)
    ensures
        without_metric_name(Seq::empty()) == Seq::<LabelText>::empty(),
        without_metric_name(labels.push(label)) == (if label.0 == "__name__"@ {
            without_metric_name(labels)
        } else {
            without_metric_name(labels).push(label)
        }),
{
    reveal(Seq::filter);
    assert(labels.push(label).drop_last() =~= labels);
    assert(labels.push(label).last() == label);
    assert(without_metric_name(Seq::empty()) =~= Seq::<LabelText>::empty());
}

/// A selection keeps the labels whose names were asked for, in their order, and
/// everything where nothing was asked for in particular.
pub proof fn selection_law(
    selection: CanonicalLabelSelection,
    labels: Seq<LabelText>,
    label: LabelText,
)
    ensures
        selection.selected(Seq::empty()) == Seq::<LabelText>::empty(),
        selection.selected(labels.push(label)) == (if asked_for(selection, label.0) {
            selection.selected(labels).push(label)
        } else {
            selection.selected(labels)
        }),
{
    reveal(Seq::filter);
    assert(labels.push(label).drop_last() =~= labels);
    assert(labels.push(label).last() == label);
    assert(selection.selected(Seq::empty()) =~= Seq::<LabelText>::empty());
    lemma_asked_for(selection, label.0);
}

/// A name is asked for: there is no list, or the list has it.
pub open spec fn asked_for(selection: CanonicalLabelSelection, name: Seq<char>) -> bool {
    match selection {
        CanonicalLabelSelection::All => true,
        CanonicalLabelSelection::Requested { names, .. } => exists|k: int|
            0 <= k < names@.len() && #[trigger] names@[k]@ == name,
    }
}

proof fn lemma_asked_for(selection: CanonicalLabelSelection, name: Seq<char>)
    ensures
        selection.selects(name) <==> asked_for(selection, name),
{
    if let CanonicalLabelSelection::Requested { names, .. } = selection {
        let list = texts(names@);
        if list.contains(name) {
            let k = list.index_of(name);
            assert(list[k] == name);
            assert(names@[k]@ == name);
        }
        if exists|k: int| 0 <= k < names@.len() && #[trigger] names@[k]@ == name {
            let k = choose|k: int| 0 <= k < names@.len() && #[trigger] names@[k]@ == name;
            assert(list[k] == name);
        }
    }
}

/// A selection of symbols keeps the labels whose names were asked for, in their
/// order.
pub proof fn symbol_selection_law(
    selection: CanonicalLabelSelection,
    symbols: Symbols,
    labels: Seq<(u32, u32)>,
    label: (u32, u32),
)
    ensures
        selection.selected_ids(symbols, Seq::empty()) == Seq::<(u32, u32)>::empty(),
        selection.selected_ids(symbols, labels.push(label)) == (if asked_for(
            selection,
            symbols.values[label.0 as int],
        ) {
            selection.selected_ids(symbols, labels).push(label)
        } else {
            selection.selected_ids(symbols, labels)
        }),
{
    reveal(Seq::filter);
    assert(labels.push(label).drop_last() =~= labels);
    assert(labels.push(label).last() == label);
    assert(selection.selected_ids(symbols, Seq::empty()) =~= Seq::<(u32, u32)>::empty());
    lemma_asked_for(selection, symbols.values[label.0 as int]);
}

/// The identity without the metric name is derived exactly where it was asked
/// for, and never for a complete row.
pub proof fn derived_identity_law(selection: CanonicalLabelSelection)
    ensures
        selection.derives() <==> match selection {
            CanonicalLabelSelection::All => false,
            CanonicalLabelSelection::Requested {
                derive_metric_name_dropped_identity,
                ..
            } => derive_metric_name_dropped_identity,
        },
{
}

/// A row is resolved exactly where all its symbols exist, to the texts of its
/// symbols.
pub proof fn resolved_row_law(symbols: Symbols, row: Seq<(u32, u32)>, n: nat)
    requires
        n <= row.len(),
    ensures
        resolve_labels_result(symbols, row, n) is Ok <==> forall|k: int|
            0 <= k < n ==> (#[trigger] row[k]).0 < symbols.values.len() && row[k].1
                < symbols.values.len(),
        resolved_labels(symbols, row).len() == row.len(),
        forall|k: int|
            0 <= k < row.len() ==> (#[trigger] resolved_labels(symbols, row)[k]).0
                == symbols.values[row[k].0 as int] && resolved_labels(symbols, row)[k].1
                == symbols.values[row[k].1 as int],
    decreases n,
{
    if n > 0 {
        resolved_row_law(symbols, row, (n - 1) as nat);
    }
}

} // verus!
