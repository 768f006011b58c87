//! Resolving label rows, verifying their identity, and selecting labels.

use vstd::prelude::*;
use vstd::utf8::encode_utf8;

use super::profile::{
    advances, detailed_stage_started, finish_construction_stage, finish_identity_stage,
    finish_resolution_stage, CanonicalLabelMaterializationProfile,
};
use super::scratch::{ran_out, reserve_series_scratch};
use super::{
    checked_vec_bytes, fault_in, record, vec_bytes_result, Schema7MetadataReaderError,
    Schema7MetadataSession,
};
use crate::budget::answers;
use crate::capacity::{string_capacity, vec_capacity};
use crate::error::{memory_error, resource_error, Error, ErrorKind, Message};
use crate::health::FaultyFiles;
use crate::symbols::{
    canonical_bytes, hashes_all, hashes_to, identity_of, label_charge, label_texts,
    lemma_capacity_push, lemma_filter_push, lemma_identity_push, lemma_resolve_error,
    resolve_labels_result, resolve_result, resolved_labels, text_fits, texts, texts_fit,
    without_metric_name, CanonicalComponent, CanonicalIdentity, GovernedSymbolReaderError,
    GovernedSymbolSession, LabelText, Symbols,
};

verus! {

/// Which labels of a verified row are handed out.
#[derive(Debug, Clone, Copy)]
pub enum CanonicalLabelSelection<'a> {
    All,
    Requested { names: &'a [String], derive_metric_name_dropped_identity: bool },
}

impl<'a> CanonicalLabelSelection<'a> {
    /// Whether a label of this name is handed out.
    pub open spec fn selects(self, name: Seq<char>) -> bool {
        match self {
            CanonicalLabelSelection::All => true,
            CanonicalLabelSelection::Requested { names, .. } => texts(names@).contains(name),
        }
    }

    /// Whether the identity without the metric name is wanted.
    pub open spec fn derives(self) -> bool {
        self matches CanonicalLabelSelection::Requested {
            derive_metric_name_dropped_identity: true,
            ..
        }
    }

    /// The selected labels of a row, in order.
    pub open spec fn selected(self, labels: Seq<LabelText>) -> Seq<LabelText> {
        labels.filter(|label: LabelText| self.selects(label.0))
    }

    /// The selected labels of a row of symbols, in order.
    pub open spec fn selected_ids(self, symbols: Symbols, labels: Seq<(u32, u32)>) -> Seq<
        (u32, u32),
    > {
        labels.filter(|label: (u32, u32)| self.selects(symbols.values[label.0 as int]))
    }

    /// Whether a label of this name is handed out.
    pub fn includes(self, label_name: &String) -> (included: bool)
        ensures
            included == self.selects(label_name@),
    {
        match self {
            CanonicalLabelSelection::All => true,
            CanonicalLabelSelection::Requested { names, .. } => {
                let mut i: usize = 0;
                while i < names.len()
                    invariant
                        i <= names@.len(),
                        self.selects(label_name@) == texts(names@).contains(label_name@),
                        forall|j: int| 0 <= j < i ==> (#[trigger] names@[j])@ != label_name@,
                    decreases names@.len() - i,
                {
                    if names[i] == *label_name {
                        assert(texts(names@)[i as int] == label_name@);
                        return true;
                    }
                    i += 1;
                }
                assert forall|j: int| 0 <= j < texts(names@).len() implies #[trigger] texts(
                    names@,
                )[j] != label_name@ by {
                    assert(names@[j]@ != label_name@);
                }
                false
            },
        }
    }

    /// How many of a number of labels can be handed out at most, where every
    /// name is requested and occurs once.
    pub fn output_capacity(self, label_count: usize) -> (capacity: usize)
        ensures
            capacity == capacity_of(self, label_count as nat),
    {
        match self {
            CanonicalLabelSelection::All => label_count,
            CanonicalLabelSelection::Requested { names, .. } => {
                if names.len() < label_count {
                    names.len()
                } else {
                    label_count
                }
            },
        }
    }

    /// Whether every label is handed out.
    pub fn labels_complete(self) -> (complete: bool)
        ensures
            complete == (self is All),
    {
        match self {
            CanonicalLabelSelection::All => true,
            CanonicalLabelSelection::Requested { .. } => false,
        }
    }

    /// Whether the identity without the metric name is wanted.
    pub fn derives_metric_name_dropped_identity(self) -> (derives: bool)
        ensures
            derives == self.derives(),
    {
        match self {
            CanonicalLabelSelection::All => false,
            CanonicalLabelSelection::Requested {
                derive_metric_name_dropped_identity,
                ..
            } => derive_metric_name_dropped_identity,
        }
    }
}

/// The error of a row that has another identity than its hot record stores.
pub open spec fn identity_mismatch(expected: u64, actual: u64) -> Error {
    Error {
        kind: ErrorKind::InvalidData,
        message: Message::Mismatch {
            what: "schema-7 series identity mismatch",
            expected,
            actual,
        },
    }
}

/// Checks that a row has the identity that its hot record stores.
pub fn verify_identity(expected_series_id: u64, actual_series_id: u64) -> (result: Result<
    (),
    Schema7MetadataReaderError,
>)
    ensures
        result == (if actual_series_id != expected_series_id {
            Err(
                fault_in(
                    FaultyFiles::Series,
                    identity_mismatch(expected_series_id, actual_series_id),
                ),
            )
        } else {
            Ok(())
        }),
{
    if actual_series_id != expected_series_id {
        return record(
            Err(
                Error {
                    kind: ErrorKind::InvalidData,
                    message: Message::Mismatch {
                        what: "schema-7 series identity mismatch",
                        expected: expected_series_id,
                        actual: actual_series_id,
                    },
                },
            ),
        );
    }
    Ok(())
}

/// What verifying a row gives: nothing is handed out unless the hash of the
/// complete row is the stored identity.
pub open spec fn verified_outcome<H: Fn(&[u8]) -> u64, T>(
    hash: H,
    labels: Seq<LabelText>,
    expected_series_id: u64,
    derives: bool,
    selected: T,
    result: Result<(T, Option<u64>), Schema7MetadataReaderError>,
) -> bool {
    exists|actual: u64| #[trigger]
        hashes_to(hash, canonical_bytes(labels), actual) && if actual != expected_series_id {
            result == Err::<(T, Option<u64>), Schema7MetadataReaderError>(
                fault_in(
                    FaultyFiles::Series,
                    identity_mismatch(expected_series_id, actual),
                ),
            )
        } else {
            &&& result is Ok
            &&& result->Ok_0.0 == selected
            &&& result->Ok_0.1 is Some <==> derives
            &&& derives ==> hashes_to(
                hash,
                canonical_bytes(without_metric_name(labels)),
                result->Ok_0.1->Some_0,
            )
        }
}

/// Owned labels, the bytes that they are charged with, and the identity without
/// the metric name.
pub type MaterializedCanonicalLabels = (Vec<(String, String)>, u64, Option<u64>);

/// A result whose labels are seen as text.
pub open spec fn texts_result(
    result: Result<MaterializedCanonicalLabels, Schema7MetadataReaderError>,
) -> Result<(Seq<LabelText>, Option<u64>), Schema7MetadataReaderError> {
    match result {
        Ok((labels, _, dropped)) => Ok((label_texts(labels@), dropped)),
        Err(error) => Err(error),
    }
}

/// The most labels that a selection hands out of a row of this many.
pub open spec fn capacity_of(selection: CanonicalLabelSelection, label_count: nat) -> nat {
    match selection {
        CanonicalLabelSelection::All => label_count,
        CanonicalLabelSelection::Requested { names, .. } => if names@.len() < label_count {
            names@.len()
        } else {
            label_count
        },
    }
}

/// The bytes that are declared for the labels that a selection hands out.
pub open spec fn declared_labels_result(
    selection: CanonicalLabelSelection,
    label_count: nat,
) -> Result<u64, Schema7MetadataReaderError> {
    vec_bytes_result(
        vstd::layout::size_of::<(String, String)>(),
        capacity_of(selection, label_count),
        "schema-7 canonical-label vector charge overflows",
    )
}

/// The error of a row whose texts add up to more bytes than can be charged.
pub open spec fn label_overflow() -> Schema7MetadataReaderError {
    Schema7MetadataReaderError::Symbols(
        GovernedSymbolReaderError::Cache(memory_error("schema-7 canonical-label charge overflows")),
    )
}

/// The bytes charged for a row once a text of some capacity is charged too.
pub open spec fn text_charge_result(charged: u64, capacity: usize) -> Result<
    u64,
    Schema7MetadataReaderError,
> {
    if charged + capacity > u64::MAX {
        Err(label_overflow())
    } else {
        Ok((charged + capacity) as u64)
    }
}

/// Charges a text of some capacity.
pub fn charge_text(charged: u64, capacity: usize) -> (result: Result<
    u64,
    Schema7MetadataReaderError,
>)
    ensures
        result == text_charge_result(charged, capacity),
{
    match charged.checked_add(capacity as u64) {
        Some(total) => Ok(total),
        None => Err(
            Schema7MetadataReaderError::Symbols(
                GovernedSymbolReaderError::Cache(
                    resource_error("schema-7 canonical-label charge overflows"),
                ),
            ),
        ),
    }
}

/// What owning a text gives whose allocation has this capacity.
pub open spec fn owned_component(
    text: Seq<char>,
    capacity: usize,
    before: u64,
    after: u64,
    result: Result<Option<String>, Schema7MetadataReaderError>,
) -> bool {
    &&& encode_utf8(text).len() <= capacity <= isize::MAX
    &&& match text_charge_result(before, capacity) {
        Err(error) => {
            &&& result == Err::<Option<String>, Schema7MetadataReaderError>(error)
            &&& after == before
        },
        Ok(total) => {
            &&& result matches Ok(Some(owned)) && owned@ == text
            &&& after == total
        },
    }
}

/// Owned labels are charged with the capacities of their list, which was
/// reserved for as many labels as the selection may hand out, and of their texts.
pub open spec fn labels_charged(
    selection: CanonicalLabelSelection,
    label_count: nat,
    labels: Seq<LabelText>,
    charge: u64,
) -> bool {
    exists|list: usize, capacities: Seq<(usize, usize)>|
        {
            &&& list >= capacity_of(selection, label_count)
            &&& texts_fit(labels, capacities)
            &&& charge == #[trigger] label_charge(list, capacities)
        }
}

/// The charge of a row overflows at its label `n`: all before it is resolved, and
/// the texts owned so far have capacities that add up to too much. The value of
/// the label is charged only when its name was.
pub open spec fn overflows_at(
    symbols: Symbols,
    labels: Seq<(u32, u32)>,
    selection: CanonicalLabelSelection,
    n: int,
    list: usize,
    capacities: Seq<(usize, usize)>,
) -> bool {
    let texts = selection.selected(resolved_labels(symbols, labels.take(n + 1)));
    let last = capacities.len() - 1;
    &&& 0 <= n < labels.len()
    &&& resolve_labels_result(symbols, labels, n as nat) is Ok
    &&& resolve_result(symbols, labels[n].0) is Ok
    &&& list >= capacity_of(selection, labels.len())
    &&& list * vstd::layout::size_of::<(String, String)>() <= isize::MAX
    &&& 0 < capacities.len() == texts.len()
    &&& texts_fit(texts.take(last), capacities.take(last))
    &&& encode_utf8(texts[last].0).len() <= capacities[last].0 <= isize::MAX
    &&& capacities[last].1 == 0 || resolve_result(symbols, labels[n].1) is Ok && text_fits(
        texts[last],
        capacities[last],
    )
    &&& label_charge(list, capacities) > u64::MAX
}

/// The capacities of the texts that are owned add up to more than can be charged.
pub open spec fn charge_overflows(
    symbols: Symbols,
    labels: Seq<(u32, u32)>,
    selection: CanonicalLabelSelection,
) -> bool {
    exists|n: int, list: usize, capacities: Seq<(usize, usize)>| #[trigger]
        overflows_at(symbols, labels, selection, n, list, capacities)
}

/// What materializing a row of symbols gives, whatever capacities its texts are
/// given.
pub open spec fn materialized_outcome<H: Fn(&[u8]) -> u64>(
    hash: H,
    symbols: Symbols,
    expected_series_id: u64,
    labels: Seq<(u32, u32)>,
    selection: CanonicalLabelSelection,
    result: Result<(Seq<LabelText>, Option<u64>), Schema7MetadataReaderError>,
) -> bool {
    let declared = declared_labels_result(selection, labels.len());
    let named = resolved_labels(symbols, labels);
    if declared is Err {
        result == Err::<(Seq<LabelText>, Option<u64>), Schema7MetadataReaderError>(
            declared->Err_0,
        )
    } else {
        ||| match resolve_labels_result(symbols, labels, labels.len()) {
            Err(error) => result == Err::<
                (Seq<LabelText>, Option<u64>),
                Schema7MetadataReaderError,
            >(Schema7MetadataReaderError::Symbols(error)),
            Ok(_) => verified_outcome(
                hash,
                named,
                expected_series_id,
                selection.derives(),
                selection.selected(named),
                result,
            ),
        }
        ||| {
            &&& result == Err::<(Seq<LabelText>, Option<u64>), Schema7MetadataReaderError>(
                label_overflow(),
            )
            &&& charge_overflows(symbols, labels, selection)
        }
    }
}

/// What verifying and compacting a row of symbols gives.
pub open spec fn encoded_outcome<H: Fn(&[u8]) -> u64>(
    hash: H,
    symbols: Symbols,
    expected_series_id: u64,
    labels: Seq<(u32, u32)>,
    selection: CanonicalLabelSelection,
    result: Result<(Seq<(u32, u32)>, Option<u64>), Schema7MetadataReaderError>,
) -> bool {
    match resolve_labels_result(symbols, labels, labels.len()) {
        Err(error) => result == Err::<
            (Seq<(u32, u32)>, Option<u64>),
            Schema7MetadataReaderError,
        >(Schema7MetadataReaderError::Symbols(error)),
        Ok(_) => verified_outcome(
            hash,
            resolved_labels(symbols, labels),
            expected_series_id,
            selection.derives(),
            selection.selected_ids(symbols, labels),
            result,
        ),
    }
}

pub open spec fn symbolic<T>(result: Result<T, GovernedSymbolReaderError>) -> Result<
    T,
    Schema7MetadataReaderError,
> {
    match result {
        Ok(value) => Ok(value),
        Err(error) => Err(Schema7MetadataReaderError::Symbols(error)),
    }
}

pub fn symbol_result<T>(result: Result<T, GovernedSymbolReaderError>) -> (mapped: Result<
    T,
    Schema7MetadataReaderError,
>)
    ensures
        mapped == symbolic(result),
{
    match result {
        Ok(value) => Ok(value),
        Err(error) => Err(Schema7MetadataReaderError::Symbols(error)),
    }
}

/// The labels of a row up to one label more.
proof fn lemma_resolved_step(symbols: Symbols, labels: Seq<(u32, u32)>, n: int)
    requires
        0 <= n < labels.len(),
    ensures
        ({
            let named = resolved_labels(symbols, labels);
            named.take(n + 1) == named.take(n).push(named[n])
        }),
        labels.take(n + 1) == labels.take(n).push(labels[n]),
{
    let named = resolved_labels(symbols, labels);
    assert(named.take(n + 1) =~= named.take(n).push(named[n]));
    assert(labels.take(n + 1) =~= labels.take(n).push(labels[n]));
}

/// The charge of a row overflows where the next label takes more than is left.
proof fn lemma_overflow(
    symbols: Symbols,
    labels: Seq<(u32, u32)>,
    selection: CanonicalLabelSelection,
    n: int,
    list: usize,
    capacities: Seq<(usize, usize)>,
    capacity: (usize, usize),
)
    requires
        0 <= n < labels.len(),
        resolve_labels_result(symbols, labels, n as nat) is Ok,
        resolve_result(symbols, labels[n].0) is Ok,
        list >= capacity_of(selection, labels.len()),
        list * vstd::layout::size_of::<(String, String)>() <= isize::MAX,
        selection.selects(symbols.values[labels[n].0 as int]),
        texts_fit(selection.selected(resolved_labels(symbols, labels).take(n)), capacities),
        encode_utf8(symbols.values[labels[n].0 as int]).len() <= capacity.0 <= isize::MAX,
        capacity.1 == 0 || resolve_result(symbols, labels[n].1) is Ok && encode_utf8(
            symbols.values[labels[n].1 as int],
        ).len() <= capacity.1 <= isize::MAX,
        label_charge(list, capacities) + capacity.0 + capacity.1 > u64::MAX,
    ensures
        charge_overflows(symbols, labels, selection),
{
    let named = resolved_labels(symbols, labels);
    let keep = |label: LabelText| selection.selects(label.0);
    let all = capacities.push(capacity);
    let before = selection.selected(named.take(n));
    assert(resolved_labels(symbols, labels.take(n + 1)) =~= named.take(n).push(named[n]));
    lemma_filter_push(named.take(n), named[n], keep);
    lemma_capacity_push(capacities, capacity);
    assert(before.push(named[n]).take(before.len() as int) =~= before);
    assert(all.take(capacities.len() as int) =~= capacities);
    assert(overflows_at(symbols, labels, selection, n, list, all));
}

/// An empty list with room for `count` labels, and how many it has room for. The
/// capacity is read while the list is full, and emptying a list keeps it.
fn reserve_labels(count: usize) -> (reserved: (Vec<(String, String)>, usize))
    ensures
        reserved.0@ == Seq::<(String, String)>::empty(),
        reserved.1 >= count,
        reserved.1 * vstd::layout::size_of::<(String, String)>() <= isize::MAX,
{
    let mut labels: Vec<(String, String)> = Vec::with_capacity(count);
    while labels.len() < count
        invariant
            labels@.len() <= count,
        decreases count - labels@.len(),
    {
        labels.push((String::new(), String::new()));
    }
    let capacity: usize = vec_capacity(&labels);
    labels.clear();
    (labels, capacity)
}

impl<'a> Schema7MetadataSession<'a> {
    /// Resolves a label component and appends it to the canonical bytes.
    pub fn visit_encoded_canonical_component<'s, const DETAILED: bool>(
        &self,
        symbols: &'s GovernedSymbolSession,
        symbol_id: u32,
        component: CanonicalComponent,
        identity: &mut CanonicalIdentity,
        profile: &mut CanonicalLabelMaterializationProfile,
    ) -> (result: Result<&'s String, Schema7MetadataReaderError>)
        requires
            old(identity).wf(),
        ensures
            final(identity).wf(),
            advances(*old(profile), *final(profile), DETAILED),
            match resolve_result(symbols@, symbol_id) {
                Err(error) => result == Err::<&'s String, Schema7MetadataReaderError>(
                    Schema7MetadataReaderError::Symbols(error),
                ) && final(identity)@ == old(identity)@,
                Ok(text) => result is Ok && result->Ok_0@ == text && final(identity)@ == old(
                    identity,
                )@.with(component, text),
            },
    {
        let resolution_started = detailed_stage_started::<DETAILED>();
        let before = *profile;
        let visit = symbol_result(symbols.resolve(symbol_id));
        if let Ok(resolved) = visit {
            let identity_started = detailed_stage_started::<DETAILED>();
            identity.push(component, resolved);
            finish_identity_stage(profile, &identity_started);
        }
        finish_resolution_stage(profile, before, &resolution_started);
        visit
    }

    /// Resolves a label component, appends it to the canonical bytes, and owns
    /// its text where it is wanted. The bytes of an owned text are asked for,
    /// and its capacity is charged.
    pub fn resolve_canonical_component<const DETAILED: bool>(
        &self,
        symbols: &GovernedSymbolSession,
        symbol_id: u32,
        component: CanonicalComponent,
        identity: &mut CanonicalIdentity,
        charged_bytes: &mut u64,
        profile: &mut CanonicalLabelMaterializationProfile,
        should_own: impl Fn(&String) -> bool,
        reserve: &impl Fn(u64) -> bool,
    ) -> (result: Result<Option<String>, Schema7MetadataReaderError>)
        requires
            old(identity).wf(),
            forall|text: &String| call_requires(should_own, (text,)),
            answers(*reserve),
        ensures
            final(identity).wf(),
            advances(*old(profile), *final(profile), DETAILED),
            match resolve_result(symbols@, symbol_id) {
                Err(error) => {
                    &&& result == Err::<Option<String>, Schema7MetadataReaderError>(
                        Schema7MetadataReaderError::Symbols(error),
                    )
                    &&& final(identity)@ == old(identity)@
                    &&& *final(charged_bytes) == *old(charged_bytes)
                },
                Ok(text) => {
                    &&& final(identity)@ == old(identity)@.with(component, text)
                    &&& exists|resolved: &String, owns: bool|
                        {
                            &&& resolved@ == text
                            &&& #[trigger] call_ensures(should_own, (resolved,), owns)
                            &&& if owns {
                                ||| ran_out(*reserve, result) && *final(charged_bytes) == *old(
                                    charged_bytes,
                                )
                                ||| exists|capacity: usize| #[trigger]
                                    owned_component(
                                        text,
                                        capacity,
                                        *old(charged_bytes),
                                        *final(charged_bytes),
                                        result,
                                    )
                            } else {
                                &&& result == Ok::<Option<String>, Schema7MetadataReaderError>(
                                    None,
                                )
                                &&& *final(charged_bytes) == *old(charged_bytes)
                            }
                        }
                },
            },
    {
        let resolution_started = detailed_stage_started::<DETAILED>();
        let before = *profile;
        let visit = symbol_result(symbols.resolve(symbol_id));
        let mut component_result: Result<Option<String>, Schema7MetadataReaderError> = Ok(None);
        if let Ok(resolved) = visit {
            let identity_started = detailed_stage_started::<DETAILED>();
            identity.push(component, resolved);
            let owns: bool = should_own(resolved);
            finish_identity_stage(profile, &identity_started);
            let construction_started = detailed_stage_started::<DETAILED>();
            if owns {
                let value = resolved.clone();
                let capacity: usize = string_capacity(&value);
                component_result = match charge_text(*charged_bytes, capacity) {
                    Ok(total) => match reserve_series_scratch(
                        reserve,
                        resolved.as_str().as_bytes().len() as u64,
                    ) {
                        Ok(_) => {
                            *charged_bytes = total;
                            Ok(Some(value))
                        },
                        Err(error) => Err(error),
                    },
                    Err(error) => Err(error),
                };
                assert(ran_out(*reserve, component_result) || owned_component(
                    resolved@,
                    capacity,
                    *old(charged_bytes),
                    *charged_bytes,
                    component_result,
                ));
            }
            finish_construction_stage(profile, &construction_started);
            assert(call_ensures(should_own, (resolved,), owns));
        }
        finish_resolution_stage(profile, before, &resolution_started);
        match visit {
            Ok(_) => component_result,
            Err(error) => Err(error),
        }
    }

    /// Resolves a complete row, verifies its identity, and owns the selected
    /// labels.
    pub fn materialize_and_verify_canonical_labels<H: Fn(&[u8]) -> u64, const DETAILED: bool>(
        &self,
        symbols: &GovernedSymbolSession,
        hash: &H,
        expected_series_id: u64,
        encoded_labels: &[(u32, u32)],
        selection: CanonicalLabelSelection<'_>,
        profile: &mut CanonicalLabelMaterializationProfile,
        reserve: &impl Fn(u64) -> bool,
    ) -> (result: Result<MaterializedCanonicalLabels, Schema7MetadataReaderError>)
        requires
            hashes_all(*hash),
            answers(*reserve),
        ensures
            ran_out(*reserve, result) || materialized_outcome(
                *hash,
                symbols@,
                expected_series_id,
                encoded_labels@,
                selection,
                texts_result(result),
            ),
            result matches Ok((labels, charge, _)) ==> labels_charged(
                selection,
                encoded_labels@.len(),
                label_texts(labels@),
                charge,
            ),
            advances(*old(profile), *final(profile), DETAILED),
    {
        let ghost ids = encoded_labels@;
        let ghost named = resolved_labels(symbols@, ids);
        let ghost keep = |label: LabelText| selection.selects(label.0);
        let construction_started = detailed_stage_started::<DETAILED>();
        let output_capacity: usize = selection.output_capacity(encoded_labels.len());
        let declared: u64 = checked_vec_bytes::<(String, String)>(
            output_capacity,
            "schema-7 canonical-label vector charge overflows",
        )?;
        reserve_series_scratch(reserve, declared)?;
        let (mut labels, list_capacity) = reserve_labels(output_capacity);
        let mut charged_bytes: u64 = checked_vec_bytes::<(String, String)>(
            list_capacity,
            "schema-7 canonical-label vector charge overflows",
        )?;
        let ghost mut capacities: Seq<(usize, usize)> = Seq::empty();
        finish_construction_stage(profile, &construction_started);
        let derives: bool = selection.derives_metric_name_dropped_identity();
        let mut identity = CanonicalIdentity::new(derives);
        let mut i: usize = 0;
        proof {
            reveal(Seq::filter);
            assert(named.take(0) =~= Seq::empty());
            assert(label_texts(labels@) =~= named.take(0).filter(keep));
        }
        while i < encoded_labels.len()
            invariant
                i <= ids.len(),
                answers(*reserve),
                ids == encoded_labels@,
                named == resolved_labels(symbols@, ids),
                keep == (|label: LabelText| selection.selects(label.0)),
                declared_labels_result(selection, ids.len()) is Ok,
                resolve_labels_result(symbols@, ids, i as nat) is Ok,
                identity.wf(),
                identity@ == identity_of(named.take(i as int), derives),
                label_texts(labels@) == named.take(i as int).filter(keep),
                list_capacity >= capacity_of(selection, ids.len()),
                list_capacity * vstd::layout::size_of::<(String, String)>() <= isize::MAX,
                texts_fit(label_texts(labels@), capacities),
                charged_bytes == label_charge(list_capacity, capacities),
                advances(*old(profile), *profile, DETAILED),
            decreases ids.len() - i,
        {
            let (key_sym, value_sym) = encoded_labels[i];
            proof {
                if resolve_labels_result(symbols@, ids, (i + 1) as nat) is Err {
                    lemma_resolve_error(symbols@, ids, (i + 1) as nat, ids.len());
                }
                lemma_resolved_step(symbols@, ids, i as int);
                lemma_identity_push(named.take(i as int), named[i as int], derives);
                lemma_filter_push(named.take(i as int), named[i as int], keep);
            }
            let should_own_name = |resolved: &String| -> (own: bool)
                ensures
                    own == selection.selects(resolved@),
            {
                selection.includes(resolved)
            };
            let ghost row_bytes = charged_bytes;
            let ghost owned_texts = label_texts(labels@);
            let key_result = self.resolve_canonical_component::<DETAILED>(
                symbols,
                key_sym,
                CanonicalComponent::Name,
                &mut identity,
                &mut charged_bytes,
                profile,
                should_own_name,
                reserve,
            );
            let ghost name_capacity = choose|capacity: usize| #[trigger]
                owned_component(
                    named[i as int].0,
                    capacity,
                    row_bytes,
                    charged_bytes,
                    key_result,
                );
            proof {
                if key_result == Err::<Option<String>, Schema7MetadataReaderError>(
                    label_overflow(),
                ) && resolve_result(symbols@, key_sym) is Ok {
                    lemma_overflow(
                        symbols@,
                        ids,
                        selection,
                        i as int,
                        list_capacity,
                        capacities,
                        (name_capacity, 0),
                    );
                }
            }
            let key = key_result?;
            let selected: bool = key.is_some();
            let should_own_value = |_resolved: &String| -> (own: bool)
                ensures
                    own == selected,
            {
                selected
            };
            let ghost name_bytes = charged_bytes;
            let value_result = self.resolve_canonical_component::<DETAILED>(
                symbols,
                value_sym,
                CanonicalComponent::Value,
                &mut identity,
                &mut charged_bytes,
                profile,
                should_own_value,
                reserve,
            );
            let ghost value_capacity = choose|capacity: usize| #[trigger]
                owned_component(
                    named[i as int].1,
                    capacity,
                    name_bytes,
                    charged_bytes,
                    value_result,
                );
            proof {
                if value_result == Err::<Option<String>, Schema7MetadataReaderError>(
                    label_overflow(),
                ) && resolve_result(symbols@, value_sym) is Ok {
                    lemma_overflow(
                        symbols@,
                        ids,
                        selection,
                        i as int,
                        list_capacity,
                        capacities,
                        (name_capacity, value_capacity),
                    );
                }
            }
            let value = value_result?;
            let push_started = detailed_stage_started::<DETAILED>();
            let ghost before = label_texts(labels@);
            if let (Some(key), Some(value)) = (key, value) {
                labels.push((key, value));
                proof {
                    assert(label_texts(labels@) =~= before.push(named[i as int]));
                    lemma_capacity_push(capacities, (name_capacity, value_capacity));
                    capacities = capacities.push((name_capacity, value_capacity));
                }
            }
            finish_construction_stage(profile, &push_started);
            i += 1;
        }
        assert(named.take(ids.len() as int) =~= named);
        let identity_started = detailed_stage_started::<DETAILED>();
        let actual_series_id: u64 = identity.finish(hash);
        finish_identity_stage(profile, &identity_started);
        assert(hashes_to(*hash, canonical_bytes(named), actual_series_id));
        verify_identity(expected_series_id, actual_series_id)?;
        let dropped_started = detailed_stage_started::<DETAILED>();
        let dropped: Option<u64> = identity.finish_metric_name_dropped(hash);
        finish_identity_stage(profile, &dropped_started);
        Ok((labels, charged_bytes, dropped))
    }

    /// Verifies the complete row without owning its text, then keeps the
    /// selected symbols in place. Entries that were verified may be overwritten
    /// along the way, but the row is shortened only when all symbols and the
    /// identity have been verified.
    pub fn verify_and_select_encoded_labels<H: Fn(&[u8]) -> u64, const DETAILED: bool>(
        &self,
        symbols: &GovernedSymbolSession,
        hash: &H,
        expected_series_id: u64,
        encoded_labels: &mut Vec<(u32, u32)>,
        selection: CanonicalLabelSelection<'_>,
        profile: &mut CanonicalLabelMaterializationProfile,
    ) -> (result: Result<Option<u64>, Schema7MetadataReaderError>)
        requires
            hashes_all(*hash),
        ensures
            encoded_outcome(
                *hash,
                symbols@,
                expected_series_id,
                old(encoded_labels)@,
                selection,
                match result {
                    Ok(dropped) => Ok((final(encoded_labels)@, dropped)),
                    Err(error) => Err(error),
                },
            ),
            result is Err ==> final(encoded_labels)@.len() == old(encoded_labels)@.len(),
            advances(*old(profile), *final(profile), DETAILED),
    {
        let ghost ids = encoded_labels@;
        let ghost named = resolved_labels(symbols@, ids);
        let ghost keep = |label: (u32, u32)| selection.selects(symbols@.values[label.0 as int]);
        let derives: bool = selection.derives_metric_name_dropped_identity();
        let mut identity = CanonicalIdentity::new(derives);
        let mut output_len: usize = 0;
        let mut i: usize = 0;
        proof {
            reveal(Seq::filter);
            assert(named.take(0) =~= Seq::empty());
            assert(encoded_labels@.take(0) =~= ids.take(0).filter(keep));
        }
        while i < encoded_labels.len()
            invariant
                output_len <= i <= ids.len(),
                ids == old(encoded_labels)@,
                encoded_labels@.len() == ids.len(),
                named == resolved_labels(symbols@, ids),
                keep == (|label: (u32, u32)|
                    selection.selects(symbols@.values[label.0 as int])),
                resolve_labels_result(symbols@, ids, i as nat) is Ok,
                identity.wf(),
                identity@ == identity_of(named.take(i as int), derives),
                encoded_labels@.take(output_len as int) == ids.take(i as int).filter(keep),
                forall|j: int| i <= j < ids.len() ==> #[trigger] encoded_labels@[j] == ids[j],
                advances(*old(profile), *profile, DETAILED),
            decreases ids.len() - i,
        {
            let (key_sym, value_sym) = encoded_labels[i];
            assert(ids[i as int] == (key_sym, value_sym));
            proof {
                if resolve_labels_result(symbols@, ids, (i + 1) as nat) is Err {
                    lemma_resolve_error(symbols@, ids, (i + 1) as nat, ids.len());
                }
                lemma_resolved_step(symbols@, ids, i as int);
                lemma_identity_push(named.take(i as int), named[i as int], derives);
                lemma_filter_push(ids.take(i as int), ids[i as int], keep);
            }
            let key = self.visit_encoded_canonical_component::<DETAILED>(
                symbols,
                key_sym,
                CanonicalComponent::Name,
                &mut identity,
                profile,
            )?;
            let selected: bool = selection.includes(key);
            self.visit_encoded_canonical_component::<DETAILED>(
                symbols,
                value_sym,
                CanonicalComponent::Value,
                &mut identity,
                profile,
            )?;
            if selected {
                let construction_started = detailed_stage_started::<DETAILED>();
                let ghost before = encoded_labels@;
                encoded_labels.set(output_len, (key_sym, value_sym));
                assert(encoded_labels@.take(output_len + 1) =~= before.take(
                    output_len as int,
                ).push((key_sym, value_sym)));
                output_len += 1;
                finish_construction_stage(profile, &construction_started);
            }
            i += 1;
        }
        assert(named.take(ids.len() as int) =~= named);
        assert(ids.take(ids.len() as int) =~= ids);
        let identity_started = detailed_stage_started::<DETAILED>();
        let actual_series_id: u64 = identity.finish(hash);
        finish_identity_stage(profile, &identity_started);
        assert(hashes_to(*hash, canonical_bytes(named), actual_series_id));
        verify_identity(expected_series_id, actual_series_id)?;
        let dropped_started = detailed_stage_started::<DETAILED>();
        let dropped: Option<u64> = identity.finish_metric_name_dropped(hash);
        finish_identity_stage(profile, &dropped_started);
        encoded_labels.truncate(output_len);
        Ok(dropped)
    }
}

/// Selecting labels commutes with resolving them: the text of the selected
/// symbols is the selected text.
pub proof fn selected_text_law(
    selection: CanonicalLabelSelection,
    symbols: Symbols,
    labels: Seq<(u32, u32)>,
)
    ensures
        resolved_labels(symbols, selection.selected_ids(symbols, labels)) == selection.selected(
            resolved_labels(symbols, labels),
        ),
    decreases labels.len(),
{
    let keep_ids = |label: (u32, u32)| selection.selects(symbols.values[label.0 as int]);
    let keep = |label: LabelText| selection.selects(label.0);
    reveal(Seq::filter);
    if labels.len() == 0 {
        assert(resolved_labels(symbols, labels) =~= Seq::empty());
        assert(resolved_labels(symbols, selection.selected_ids(symbols, labels)) =~= Seq::empty());
    } else {
        let front = labels.drop_last();
        let last = labels.last();
        selected_text_law(selection, symbols, front);
        assert(labels =~= front.push(last));
        lemma_filter_push(front, last, keep_ids);
        let named = resolved_labels(symbols, front);
        let text = (symbols.values[last.0 as int], symbols.values[last.1 as int]);
        assert(resolved_labels(symbols, labels) =~= named.push(text));
        lemma_filter_push(named, text, keep);
        if keep_ids(last) {
            assert(resolved_labels(symbols, selection.selected_ids(symbols, labels))
                =~= resolved_labels(symbols, selection.selected_ids(symbols, front)).push(text));
        }
    }
}

/// A hash function that gives the same bytes the same hash.
pub open spec fn hashes_alike<H: Fn(&[u8]) -> u64>(hash: H) -> bool {
    forall|bytes: Seq<u8>, first: u64, second: u64| #[trigger]
        hashes_to(hash, bytes, first) && #[trigger] hashes_to(hash, bytes, second) ==> first
            == second
}

/// Verifying a row in its symbols and materializing it agree, unless its texts
/// add up to more bytes than can be charged: both succeed or both fail with the
/// same error, what is handed out is the same labels, and the identity without
/// the metric name is the same.
pub proof fn encoded_agrees_law<H: Fn(&[u8]) -> u64>(
    hash: H,
    symbols: Symbols,
    expected_series_id: u64,
    labels: Seq<(u32, u32)>,
    selection: CanonicalLabelSelection,
    encoded: Result<(Seq<(u32, u32)>, Option<u64>), Schema7MetadataReaderError>,
    materialized: Result<(Seq<LabelText>, Option<u64>), Schema7MetadataReaderError>,
)
    requires
        hashes_alike(hash),
        declared_labels_result(selection, labels.len()) is Ok,
        encoded_outcome(hash, symbols, expected_series_id, labels, selection, encoded),
        materialized_outcome(hash, symbols, expected_series_id, labels, selection, materialized),
        materialized != Err::<(Seq<LabelText>, Option<u64>), Schema7MetadataReaderError>(
            label_overflow(),
        ),
    ensures
        materialized == (match encoded {
            Err(error) => Err(error),
            Ok((ids, dropped)) => Ok((resolved_labels(symbols, ids), dropped)),
        }),
{
    selected_text_law(selection, symbols, labels);
}

} // verus!
