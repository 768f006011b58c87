//! Which label components of a batch need which symbol, so that every symbol is
//! resolved once.

use vstd::prelude::*;

use crate::cold_v2::reader::strictly_increasing;
use crate::cold_v2::shapes::{find_value, Slot};
use crate::symbols::CanonicalComponent;

verus! {

/// One label component of a batch and the symbol that it needs.
#[derive(Debug, Clone, Copy, PartialEq, Eq, Structural)]
pub struct SymbolOccurrence {
    pub symbol_id: u32,
    pub series_index: usize,
    pub label_index: usize,
    pub component: CanonicalComponent,
}

/// Where a component stands: the series, the label, and which of the two.
pub type Position = (int, int, CanonicalComponent);

impl SymbolOccurrence {
    pub open spec fn position(self) -> Position {
        (self.series_index as int, self.label_index as int, self.component)
    }
}

/// The batch has a component at this position.
pub open spec fn has_position(rows: Seq<Seq<(u32, u32)>>, position: Position) -> bool {
    0 <= position.0 < rows.len() && 0 <= position.1 < rows[position.0].len()
}

/// The symbol of a component.
pub open spec fn symbol_at(rows: Seq<Seq<(u32, u32)>>, position: Position) -> u32 {
    match position.2 {
        CanonicalComponent::Name => rows[position.0][position.1].0,
        CanonicalComponent::Value => rows[position.0][position.1].1,
    }
}

/// The occurrences stand for these positions, each once, in the order of their
/// symbols; and these are their symbols, each once, in order.
#[verifier::opaque]
pub open spec fn lists_positions(
    rows: Seq<Seq<(u32, u32)>>,
    positions: Set<Position>,
    symbols: Seq<u32>,
    occurrences: Seq<SymbolOccurrence>,
) -> bool {
    &&& forall|p: int|
        0 <= p < occurrences.len() ==> {
            &&& has_position(rows, (#[trigger] occurrences[p]).position())
            &&& occurrences[p].symbol_id == symbol_at(rows, occurrences[p].position())
            &&& positions.contains(occurrences[p].position())
            &&& symbols.contains(occurrences[p].symbol_id)
        }
    &&& forall|p: int, q: int|
        0 <= p < q < occurrences.len() ==> {
            &&& (#[trigger] occurrences[p]).symbol_id <= (#[trigger] occurrences[q]).symbol_id
            &&& occurrences[p].position() != occurrences[q].position()
        }
    &&& forall|position: Position| #[trigger]
        positions.contains(position) ==> exists|p: int|
            0 <= p < occurrences.len() && (#[trigger] occurrences[p]).position() == position
    &&& strictly_increasing(symbols)
    &&& forall|s: int|
        0 <= s < symbols.len() ==> exists|p: int|
            0 <= p < occurrences.len() && (#[trigger] occurrences[p]).symbol_id
                == #[trigger] symbols[s]
}

/// The positions of the first `i` series and the first `j` labels of the next.
pub open spec fn positions_before(rows: Seq<Seq<(u32, u32)>>, i: int, j: int) -> Set<Position> {
    Set::new(
        |position: Position|
            has_position(rows, position) && (position.0 < i || (position.0 == i && position.1 < j)),
    )
}

/// Where the occurrences of symbols above this one begin.
pub fn occurrences_end(occurrences: &Vec<SymbolOccurrence>, symbol_id: u32) -> (end: usize)
    requires
        forall|p: int, q: int|
            0 <= p < q < occurrences@.len() ==> (#[trigger] occurrences@[p]).symbol_id <= (
            #[trigger] occurrences@[q]).symbol_id,
    ensures
        end <= occurrences@.len(),
        forall|p: int| 0 <= p < end ==> (#[trigger] occurrences@[p]).symbol_id <= symbol_id,
        forall|p: int|
            end <= p < occurrences@.len() ==> symbol_id < (#[trigger] occurrences@[p]).symbol_id,
{
    let mut low: usize = 0;
    let mut high: usize = occurrences.len();
    while low < high
        invariant
            low <= high <= occurrences@.len(),
            forall|p: int, q: int|
                0 <= p < q < occurrences@.len() ==> (#[trigger] occurrences@[p]).symbol_id <= (
                #[trigger] occurrences@[q]).symbol_id,
            forall|p: int| 0 <= p < low ==> (#[trigger] occurrences@[p]).symbol_id <= symbol_id,
            forall|p: int|
                high <= p < occurrences@.len() ==> symbol_id < (
                #[trigger] occurrences@[p]).symbol_id,
        decreases high - low,
    {
        let mid: usize = low + (high - low) / 2;
        let found: u32 = occurrences[mid].symbol_id;
        if found <= symbol_id {
            low = mid + 1;
        } else {
            high = mid;
        }
    }
    low
}

/// Where the occurrences of a symbol begin.
pub fn occurrences_start(occurrences: &Vec<SymbolOccurrence>, symbol_id: u32) -> (start: usize)
    requires
        forall|p: int, q: int|
            0 <= p < q < occurrences@.len() ==> (#[trigger] occurrences@[p]).symbol_id <= (
            #[trigger] occurrences@[q]).symbol_id,
    ensures
        start <= occurrences@.len(),
        forall|p: int| 0 <= p < start ==> (#[trigger] occurrences@[p]).symbol_id < symbol_id,
        forall|p: int|
            start <= p < occurrences@.len() ==> symbol_id <= (
            #[trigger] occurrences@[p]).symbol_id,
{
    if symbol_id == 0 {
        return 0;
    }
    occurrences_end(occurrences, symbol_id - 1)
}

/// Inserting an occurrence behind those of its symbol keeps the list.
proof fn lemma_inserted(
    rows: Seq<Seq<(u32, u32)>>,
    positions: Set<Position>,
    symbols: Seq<u32>,
    occurrences: Seq<SymbolOccurrence>,
    at: int,
    occurrence: SymbolOccurrence,
    after: Seq<u32>,
)
    requires
        lists_positions(rows, positions, symbols, occurrences),
        has_position(rows, occurrence.position()),
        occurrence.symbol_id == symbol_at(rows, occurrence.position()),
        !positions.contains(occurrence.position()),
        0 <= at <= occurrences.len(),
        forall|p: int| 0 <= p < at ==> (#[trigger] occurrences[p]).symbol_id
            <= occurrence.symbol_id,
        forall|p: int|
            at <= p < occurrences.len() ==> occurrence.symbol_id < (
            #[trigger] occurrences[p]).symbol_id,
        strictly_increasing(after),
        forall|value: u32| #[trigger]
            after.contains(value) <==> symbols.contains(value) || value == occurrence.symbol_id,
    ensures
        lists_positions(
            rows,
            positions.insert(occurrence.position()),
            after,
            occurrences.insert(at, occurrence),
        ),
{
    reveal(lists_positions);
    let now = occurrences.insert(at, occurrence);
    let all = positions.insert(occurrence.position());
    assert(now[at] == occurrence);
    assert forall|p: int| 0 <= p < now.len() implies {
        &&& has_position(rows, (#[trigger] now[p]).position())
        &&& now[p].symbol_id == symbol_at(rows, now[p].position())
        &&& all.contains(now[p].position())
        &&& after.contains(now[p].symbol_id)
    } by {
        if p != at {
            let from = if p < at { p } else { p - 1 };
            assert(now[p] == occurrences[from]);
        }
    }
    assert forall|p: int, q: int| 0 <= p < q < now.len() implies {
        &&& (#[trigger] now[p]).symbol_id <= (#[trigger] now[q]).symbol_id
        &&& now[p].position() != now[q].position()
    } by {
        let a = if p < at { p } else { p - 1 };
        let b = if q < at { q } else { q - 1 };
        if p != at && q != at {
            assert(now[p] == occurrences[a]);
            assert(now[q] == occurrences[b]);
        } else if p == at {
            assert(now[q] == occurrences[b]);
        } else {
            assert(now[p] == occurrences[a]);
        }
    }
    assert forall|position: Position| #[trigger] all.contains(position) implies exists|p: int|
        0 <= p < now.len() && (#[trigger] now[p]).position() == position by {
        if position == occurrence.position() {
            assert(now[at].position() == position);
        } else {
            assert(positions.contains(position));
            let p = choose|p: int|
                0 <= p < occurrences.len() && (#[trigger] occurrences[p]).position() == position;
            let to = if p < at { p } else { p + 1 };
            assert(now[to] == occurrences[p]);
        }
    }
    assert forall|s: int| 0 <= s < after.len() implies exists|p: int|
        0 <= p < now.len() && (#[trigger] now[p]).symbol_id == #[trigger] after[s] by {
        let value = after[s];
        assert(after.contains(value));
        if symbols.contains(value) {
            let k = symbols.index_of(value);
            assert(symbols[k] == value);
            let p = choose|p: int|
                0 <= p < occurrences.len() && (#[trigger] occurrences[p]).symbol_id == symbols[k];
            let to = if p < at { p } else { p + 1 };
            assert(now[to] == occurrences[p]);
        } else {
            assert(now[at].symbol_id == value);
        }
    }
}

/// Adds a number to a sorted list that may hold it.
fn insert_symbol(symbols: &mut Vec<u32>, symbol_id: u32)
    requires
        strictly_increasing(old(symbols)@),
    ensures
        strictly_increasing(final(symbols)@),
        forall|value: u32| #[trigger]
            final(symbols)@.contains(value) <==> old(symbols)@.contains(value) || value
                == symbol_id,
{
    let ghost before = symbols@;
    match find_value(symbols, symbol_id) {
        Slot::Found(at) => {
            assert(before[at as int] == symbol_id);
        },
        Slot::Missing(at) => {
            symbols.insert(at, symbol_id);
            proof {
                let after = symbols@;
                assert(after[at as int] == symbol_id);
                assert forall|a: int, b: int| 0 <= a < b < after.len() implies after[a]
                    < after[b] by {
                    let from_a = if a < at { a } else { a - 1 };
                    let from_b = if b < at { b } else { b - 1 };
                    if a != at && b != at {
                        assert(before[from_a] < before[from_b]);
                    }
                }
                assert forall|value: u32| #[trigger]
                    after.contains(value) <==> before.contains(value) || value == symbol_id by {
                    if before.contains(value) {
                        let k = before.index_of(value);
                        let to = if k < at { k } else { k + 1 };
                        assert(after[to] == value);
                    }
                    if after.contains(value) && value != symbol_id {
                        let k = after.index_of(value);
                        let from = if k < at { k } else { k - 1 };
                        assert(before[from] == value);
                    }
                }
            }
        },
    }
}

/// Adds one component to the plan.
pub fn add_occurrence(
    symbols: &mut Vec<u32>,
    occurrences: &mut Vec<SymbolOccurrence>,
    occurrence: SymbolOccurrence,
    Ghost(rows): Ghost<Seq<Seq<(u32, u32)>>>,
    Ghost(positions): Ghost<Set<Position>>,
)
    requires
        lists_positions(rows, positions, old(symbols)@, old(occurrences)@),
        has_position(rows, occurrence.position()),
        occurrence.symbol_id == symbol_at(rows, occurrence.position()),
        !positions.contains(occurrence.position()),
    ensures
        lists_positions(
            rows,
            positions.insert(occurrence.position()),
            final(symbols)@,
            final(occurrences)@,
        ),
{
    let ghost before = occurrences@;
    let ghost before_symbols = symbols@;
    proof {
        reveal(lists_positions);
    }
    let at: usize = occurrences_end(occurrences, occurrence.symbol_id);
    occurrences.insert(at, occurrence);
    insert_symbol(symbols, occurrence.symbol_id);
    proof {
        lemma_inserted(
            rows,
            positions,
            before_symbols,
            before,
            at as int,
            occurrence,
            symbols@,
        );
    }
}

/// A component of the batch needs this symbol.
pub open spec fn needs_symbol(rows: Seq<Seq<(u32, u32)>>, symbol_id: u32) -> bool {
    exists|position: Position| #[trigger]
        has_position(rows, position) && symbol_at(rows, position) == symbol_id
}

/// The symbols that a batch resolves are exactly those of its components, each
/// once.
pub proof fn planned_symbols_law(
    rows: Seq<Seq<(u32, u32)>>,
    symbols: Seq<u32>,
    occurrences: Seq<SymbolOccurrence>,
)
    requires
        lists_positions(rows, positions_before(rows, rows.len() as int, 0), symbols, occurrences),
    ensures
        strictly_increasing(symbols),
        forall|position: Position| #[trigger]
            has_position(rows, position) ==> symbols.contains(symbol_at(rows, position)),
        forall|s: int| 0 <= s < symbols.len() ==> needs_symbol(rows, #[trigger] symbols[s]),
{
    reveal(lists_positions);
    let all = positions_before(rows, rows.len() as int, 0);
    assert forall|position: Position| #[trigger] has_position(
        rows,
        position,
    ) implies symbols.contains(symbol_at(rows, position)) by {
        assert(all.contains(position));
    }
    assert forall|s: int| 0 <= s < symbols.len() implies needs_symbol(
        rows,
        #[trigger] symbols[s],
    ) by {
        let p = choose|p: int|
            0 <= p < occurrences.len() && (#[trigger] occurrences[p]).symbol_id == symbols[s];
        assert(has_position(rows, occurrences[p].position()));
    }
}

} // verus!
