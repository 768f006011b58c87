//! Symbols of one segment generation, and the canonical bytes of label rows.
//!
//! A label row is identified by a hash over its canonical bytes: every name
//! ends in a zero byte and every value in `0xff`. The hash function belongs to
//! the caller.

use vstd::prelude::*;
use vstd::utf8::encode_utf8;

use crate::bytes::push_bytes;
use crate::error::{data_error, invalid_data, Error};

verus! {

/// The name of the label that holds the metric name.
pub const METRIC_NAME_LABEL: &'static str = "__name__";

/// Failures of symbol resolution.
#[derive(Debug, Clone, Copy, PartialEq, Eq)]
pub enum GovernedSymbolReaderError {
    /// A required symbol does not exist.
    Cache(Error),
    /// The symbols belong to another segment generation.
    ForeignSegmentGeneration,
}

/// The symbols of one segment generation.
#[derive(Debug)]
pub struct GovernedSymbolSession {
    generation: u64,
    values: Vec<String>,
}

/// The symbols as text.
pub struct Symbols {
    pub generation: u64,
    pub values: Seq<Seq<char>>,
}

pub open spec fn texts(values: Seq<String>) -> Seq<Seq<char>> {
    Seq::new(values.len(), |i: int| values[i]@)
}

impl View for GovernedSymbolSession {
    type V = Symbols;

    closed spec fn view(&self) -> Symbols {
        Symbols { generation: self.generation, values: texts(self.values@) }
    }
}

pub open spec fn resolve_result(symbols: Symbols, symbol_id: u32) -> Result<
    Seq<char>,
    GovernedSymbolReaderError,
> {
    if symbol_id < symbols.values.len() {
        Ok(symbols.values[symbol_id as int])
    } else {
        Err(GovernedSymbolReaderError::Cache(data_error("required symbol is out of range")))
    }
}

pub open spec fn symbol_generation_result(symbols: Symbols, generation: u64) -> Result<
    (),
    GovernedSymbolReaderError,
> {
    if symbols.generation == generation {
        Ok(())
    } else {
        Err(GovernedSymbolReaderError::ForeignSegmentGeneration)
    }
}

impl GovernedSymbolSession {
    pub fn new(generation: u64, values: Vec<String>) -> (symbols: Self)
        ensures
            symbols@ == (Symbols { generation, values: texts(values@) }),
    {
        Self { generation, values }
    }

    pub fn len(&self) -> (len: usize)
        ensures
            len == self@.values.len(),
    {
        self.values.len()
    }

    /// The text of a symbol.
    pub fn resolve(&self, symbol_id: u32) -> (result: Result<&String, GovernedSymbolReaderError>)
        ensures
            match resolve_result(self@, symbol_id) {
                Ok(text) => result is Ok && result->Ok_0@ == text,
                Err(error) => result == Err::<&String, GovernedSymbolReaderError>(error),
            },
    {
        if (symbol_id as usize) < self.values.len() {
            Ok(&self.values[symbol_id as usize])
        } else {
            Err(GovernedSymbolReaderError::Cache(invalid_data("required symbol is out of range")))
        }
    }

    /// Checks that the symbols belong to a generation.
    pub fn ensure_same_generation(&self, generation: u64) -> (result: Result<
        (),
        GovernedSymbolReaderError,
    >)
        ensures
            result == symbol_generation_result(self@, generation),
    {
        if self.generation == generation {
            Ok(())
        } else {
            Err(GovernedSymbolReaderError::ForeignSegmentGeneration)
        }
    }
}

/// A label as text.
pub type LabelText = (Seq<char>, Seq<char>);

/// The canonical bytes of one label.
pub open spec fn label_bytes(label: LabelText) -> Seq<u8> {
    encode_utf8(label.0).push(0u8) + encode_utf8(label.1).push(0xffu8)
}

/// The canonical bytes of a label row.
pub open spec fn canonical_bytes(labels: Seq<LabelText>) -> Seq<u8>
    decreases labels.len(),
{
    if labels.len() == 0 {
        Seq::empty()
    } else {
        canonical_bytes(labels.drop_last()) + label_bytes(labels.last())
    }
}

/// The labels other than the metric name.
pub open spec fn without_metric_name(labels: Seq<LabelText>) -> Seq<LabelText> {
    labels.filter(|label: LabelText| label.0 != METRIC_NAME_LABEL@)
}

/// Owned labels as text.
pub open spec fn label_texts(labels: Seq<(String, String)>) -> Seq<LabelText> {
    Seq::new(labels.len(), |i: int| (labels[i].0@, labels[i].1@))
}

/// The labels of symbol pairs as text.
pub open spec fn resolved_labels(symbols: Symbols, labels: Seq<(u32, u32)>) -> Seq<LabelText> {
    Seq::new(
        labels.len(),
        |i: int| (symbols.values[labels[i].0 as int], symbols.values[labels[i].1 as int]),
    )
}

/// The first symbol of the first `n` labels that cannot be resolved.
pub open spec fn resolve_labels_result(symbols: Symbols, labels: Seq<(u32, u32)>, n: nat) -> Result<
    (),
    GovernedSymbolReaderError,
>
    decreases n,
{
    if n == 0 {
        Ok(())
    } else {
        match resolve_labels_result(symbols, labels, (n - 1) as nat) {
            Err(error) => Err(error),
            Ok(_) => match resolve_result(symbols, labels[n - 1].0) {
                Err(error) => Err(error),
                Ok(_) => match resolve_result(symbols, labels[n - 1].1) {
                    Err(error) => Err(error),
                    Ok(_) => Ok(()),
                },
            },
        }
    }
}

pub proof fn lemma_resolve_error(symbols: Symbols, labels: Seq<(u32, u32)>, n: nat, m: nat)
    requires
        n <= m,
        resolve_labels_result(symbols, labels, n) is Err,
    ensures
        resolve_labels_result(symbols, labels, m) == resolve_labels_result(symbols, labels, n),
    decreases m,
{
    if n < m {
        lemma_resolve_error(symbols, labels, n, (m - 1) as nat);
    }
}

/// Appends the canonical bytes of a label.
pub fn push_label(bytes: &mut Vec<u8>, name: &String, value: &String)
    ensures
        final(bytes)@ == old(bytes)@ + label_bytes((name@, value@)),
{
    push_bytes(bytes, name.as_str().as_bytes());
    bytes.push(0);
    push_bytes(bytes, value.as_str().as_bytes());
    bytes.push(0xff);
    assert(bytes@ =~= old(bytes)@ + label_bytes((name@, value@)));
}

pub proof fn lemma_canonical_push(labels: Seq<LabelText>, label: LabelText)
    ensures
        canonical_bytes(labels.push(label)) == canonical_bytes(labels) + label_bytes(label),
{
    assert(labels.push(label).drop_last() =~= labels);
}

/// Whether a hash function can give this identity for these bytes.
pub open spec fn hashes_to<H: Fn(&[u8]) -> u64>(hash: H, bytes: Seq<u8>, id: u64) -> bool {
    exists|slice: &[u8]| slice@ == bytes && #[trigger] call_ensures(hash, (slice,), id)
}

/// A hash function that takes every input.
pub open spec fn hashes_all<H: Fn(&[u8]) -> u64>(hash: H) -> bool {
    forall|slice: &[u8]| call_requires(hash, (slice,))
}

/// Hashes canonical bytes.
pub fn hash_bytes<H: Fn(&[u8]) -> u64>(hash: &H, bytes: &[u8]) -> (id: u64)
    requires
        hashes_all(*hash),
    ensures
        hashes_to(*hash, bytes@, id),
{
    let id: u64 = hash(bytes);
    id
}

/// The name or the value of a label.
#[derive(Debug, Clone, Copy, PartialEq, Eq, Structural)]
pub enum CanonicalComponent {
    Name,
    Value,
}

/// The canonical bytes of a label component.
pub open spec fn component_bytes(component: CanonicalComponent, text: Seq<char>) -> Seq<u8> {
    encode_utf8(text).push(
        match component {
            CanonicalComponent::Name => 0u8,
            CanonicalComponent::Value => 0xffu8,
        },
    )
}

/// The canonical bytes of a row so far, and, where it is wanted, of the row
/// without its metric name.
#[derive(Debug)]
pub struct CanonicalIdentity {
    bytes: Vec<u8>,
    dropped: Option<Vec<u8>>,
    keeps_label: bool,
    metric_name: String,
}

/// Canonical bytes as sequences.
pub struct IdentityBytes {
    pub bytes: Seq<u8>,
    pub dropped: Option<Seq<u8>>,
    /// The label whose name came last also belongs to the row without its
    /// metric name.
    pub keeps_label: bool,
}

impl IdentityBytes {
    /// The bytes with one component more.
    pub open spec fn with(self, component: CanonicalComponent, text: Seq<char>) -> IdentityBytes {
        let added = component_bytes(component, text);
        let keeps = match component {
            CanonicalComponent::Name => text != METRIC_NAME_LABEL@,
            CanonicalComponent::Value => self.keeps_label,
        };
        IdentityBytes {
            bytes: self.bytes + added,
            dropped: match self.dropped {
                None => None,
                Some(dropped) => Some(
                    if keeps {
                        dropped + added
                    } else {
                        dropped
                    },
                ),
            },
            keeps_label: component is Value || keeps,
        }
    }
}

/// The canonical bytes of a complete row.
pub open spec fn identity_of(labels: Seq<LabelText>, derives: bool) -> IdentityBytes {
    IdentityBytes {
        bytes: canonical_bytes(labels),
        dropped: if derives {
            Some(canonical_bytes(without_metric_name(labels)))
        } else {
            None
        },
        keeps_label: true,
    }
}

impl View for CanonicalIdentity {
    type V = IdentityBytes;

    closed spec fn view(&self) -> IdentityBytes {
        IdentityBytes {
            bytes: self.bytes@,
            dropped: match self.dropped {
                None => None,
                Some(dropped) => Some(dropped@),
            },
            keeps_label: self.keeps_label,
        }
    }
}

impl CanonicalIdentity {
    pub closed spec fn wf(self) -> bool {
        self.metric_name@ == METRIC_NAME_LABEL@
    }

    /// The bytes of a row without labels.
    pub fn new(derives_metric_name_dropped_identity: bool) -> (identity: Self)
        ensures
            identity.wf(),
            identity@ == identity_of(Seq::empty(), derives_metric_name_dropped_identity),
    {
        proof {
            reveal(Seq::filter);
            assert(without_metric_name(Seq::empty()) =~= Seq::empty());
        }
        Self {
            bytes: Vec::new(),
            dropped: if derives_metric_name_dropped_identity {
                Some(Vec::new())
            } else {
                None
            },
            keeps_label: true,
            metric_name: METRIC_NAME_LABEL.to_owned(),
        }
    }

    /// Appends a label component.
    pub fn push(&mut self, component: CanonicalComponent, text: &String)
        requires
            old(self).wf(),
        ensures
            final(self).wf(),
            final(self)@ == old(self)@.with(component, text@),
    {
        let delimiter: u8 = match component {
            CanonicalComponent::Name => {
                self.keeps_label = *text != self.metric_name;
                0
            },
            CanonicalComponent::Value => 0xff,
        };
        push_component(&mut self.bytes, text, delimiter);
        if self.keeps_label {
            match &mut self.dropped {
                Some(dropped) => {
                    push_component(dropped, text, delimiter);
                },
                None => {},
            }
        }
        match component {
            CanonicalComponent::Name => {},
            CanonicalComponent::Value => {
                self.keeps_label = true;
            },
        }
    }

    /// The identity of the row.
    pub fn finish<H: Fn(&[u8]) -> u64>(&self, hash: &H) -> (id: u64)
        requires
            hashes_all(*hash),
        ensures
            hashes_to(*hash, self@.bytes, id),
    {
        hash_bytes(hash, &self.bytes)
    }

    /// The identity of the row without its metric name, where it is wanted.
    pub fn finish_metric_name_dropped<H: Fn(&[u8]) -> u64>(&self, hash: &H) -> (id: Option<u64>)
        requires
            hashes_all(*hash),
        ensures
            id is Some <==> self@.dropped is Some,
            id matches Some(id) ==> hashes_to(*hash, self@.dropped->Some_0, id),
    {
        match &self.dropped {
            Some(dropped) => Some(hash_bytes(hash, dropped)),
            None => None,
        }
    }
}

fn push_component(bytes: &mut Vec<u8>, text: &String, delimiter: u8)
    ensures
        final(bytes)@ == old(bytes)@ + encode_utf8(text@).push(delimiter),
{
    push_bytes(bytes, text.as_str().as_bytes());
    bytes.push(delimiter);
    assert(bytes@ =~= old(bytes)@ + encode_utf8(text@).push(delimiter));
}

/// Appending the name and the value of a label gives the row with that label.
pub proof fn lemma_identity_push(labels: Seq<LabelText>, label: LabelText, derives: bool)
    ensures
        identity_of(labels, derives).with(CanonicalComponent::Name, label.0).with(
            CanonicalComponent::Value,
            label.1,
        ) == identity_of(labels.push(label), derives),
{
    let keep = |label: LabelText| label.0 != METRIC_NAME_LABEL@;
    let name = component_bytes(CanonicalComponent::Name, label.0);
    let value = component_bytes(CanonicalComponent::Value, label.1);
    assert(label_bytes(label) == name + value);
    lemma_canonical_push(labels, label);
    assert(canonical_bytes(labels) + name + value =~= canonical_bytes(labels) + (name + value));
    lemma_filter_push(labels, label, keep);
    let kept = without_metric_name(labels);
    if keep(label) {
        lemma_canonical_push(kept, label);
        assert(canonical_bytes(kept) + name + value =~= canonical_bytes(kept) + (name + value));
    }
}

/// The bytes that an allocator gave to the two texts of a label are enough for
/// them.
pub open spec fn text_fits(label: LabelText, capacity: (usize, usize)) -> bool {
    &&& encode_utf8(label.0).len() <= capacity.0 <= isize::MAX
    &&& encode_utf8(label.1).len() <= capacity.1 <= isize::MAX
}

/// The bytes that an allocator gave to the texts of labels are enough for them.
pub open spec fn texts_fit(labels: Seq<LabelText>, capacities: Seq<(usize, usize)>) -> bool {
    &&& capacities.len() == labels.len()
    &&& forall|k: int| 0 <= k < labels.len() ==> text_fits(#[trigger] labels[k], capacities[k])
}

/// The sum of the capacities of texts.
pub open spec fn capacity_bytes(capacities: Seq<(usize, usize)>) -> nat
    decreases capacities.len(),
{
    if capacities.len() == 0 {
        0
    } else {
        capacity_bytes(capacities.drop_last()) + capacities.last().0 as nat
            + capacities.last().1 as nat
    }
}

/// The bytes of owned labels: a list with room for so many labels, and texts of
/// these capacities.
pub open spec fn label_charge(list: usize, capacities: Seq<(usize, usize)>) -> nat {
    list as nat * vstd::layout::size_of::<(String, String)>() + capacity_bytes(capacities)
}

pub proof fn lemma_capacity_push(capacities: Seq<(usize, usize)>, capacity: (usize, usize))
    ensures
        capacity_bytes(capacities.push(capacity)) == capacity_bytes(capacities) + capacity.0
            + capacity.1,
{
    assert(capacities.push(capacity).drop_last() =~= capacities);
}

/// Filtering after appending a value.
pub proof fn lemma_filter_push<A>(values: Seq<A>, value: A, keep: spec_fn(A) -> bool)
    ensures
        values.push(value).filter(keep) == (if keep(value) {
            values.filter(keep).push(value)
        } else {
            values.filter(keep)
        }),
{
    reveal(Seq::filter);
    assert(values.push(value).drop_last() =~= values);
}

/// Dropping the metric name from a row without one changes nothing.
pub proof fn no_metric_name_law(labels: Seq<LabelText>)
    requires
        forall|i: int| 0 <= i < labels.len() ==> (#[trigger] labels[i]).0 != METRIC_NAME_LABEL@,
    ensures
        without_metric_name(labels) == labels,
{
    let keep = |label: LabelText| label.0 != METRIC_NAME_LABEL@;
    assert forall|i: int| 0 <= i < labels.len() implies #[trigger] keep(labels[i]) by {
        assert(labels[i].0 != METRIC_NAME_LABEL@);
    }
    lemma_filter_all(labels, keep);
}

proof fn lemma_filter_all(labels: Seq<LabelText>, keep: spec_fn(LabelText) -> bool)
    requires
        forall|i: int| 0 <= i < labels.len() ==> #[trigger] keep(labels[i]),
    ensures
        labels.filter(keep) == labels,
    decreases labels.len(),
{
    reveal(Seq::filter);
    if labels.len() > 0 {
        assert forall|i: int| 0 <= i < labels.drop_last().len() implies #[trigger] keep(
            labels.drop_last()[i],
        ) by {
            assert(keep(labels[i]));
        }
        lemma_filter_all(labels.drop_last(), keep);
        assert(keep(labels[labels.len() - 1]));
        assert(labels.drop_last().push(labels.last()) =~= labels);
    }
}

/// A symbol resolves exactly when the segment has it, to the text that stands at its place; the
/// symbols belong to one generation of the segment and no other.
pub proof fn resolved_symbol_law(symbols: Symbols, symbol_id: u32, generation: u64)
    ensures
        resolve_result(symbols, symbol_id) is Ok <==> symbol_id < symbols.values.len(),
        resolve_result(symbols, symbol_id) matches Ok(text) ==> text
            == symbols.values[symbol_id as int],
        resolve_result(symbols, symbol_id) matches Err(error) ==> {
            &&& error matches GovernedSymbolReaderError::Cache(error)
            &&& error.kind is InvalidData
        },
        symbol_generation_result(symbols, generation) is Ok <==> symbols.generation == generation,
{
}

} // verus!
