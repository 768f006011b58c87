//! How the bytes of a request and of what it returns add up.

use vstd::prelude::*;

use super::entries::{entry_list_bytes, list_bytes};
use super::table::{
    list_bytes_result, owned_bytes_result, work_bytes_result, work_upper_result, LoadedTableSpan,
    TableSpanPlan,
};
use super::verified::{batch_charge, labels_charge, sum_result, LabelCapacities};
use crate::entry::SeriesEntry;
use crate::error::ErrorKind;
use crate::symbols::capacity_bytes;

verus! {

/// A list is charged with the size of an element as often as it has room for one, as long as
/// that can be counted; a list that lies in a fixed part is charged on top of it.
pub proof fn list_charge_law(fixed: nat, size: nat, capacity: nat, message: &'static str)
    ensures
        list_bytes_result(size, capacity, message) is Ok <==> size * capacity <= usize::MAX,
        list_bytes_result(size, capacity, message) matches Ok(bytes) ==> bytes == size * capacity,
        list_bytes_result(size, capacity, message) matches Err(error) ==> error.kind
            == ErrorKind::InvalidInput,
        owned_bytes_result(fixed, size, capacity) is Ok <==> {
            &&& size * capacity <= usize::MAX
            &&& fixed + size * capacity <= u64::MAX
        },
        owned_bytes_result(fixed, size, capacity) matches Ok(bytes) ==> bytes - fixed == size
            * capacity,
{
    assert(capacity * size == size * capacity) by (nonlinear_arith);
}

/// What a request works with is charged as three lists, and what it returns as a fourth.
pub proof fn work_charge_law(refs: nat, plans: nat, spans: nat, output: nat, count: nat)
    ensures
        ({
            let a = refs * vstd::layout::size_of::<u32>();
            let b = plans * vstd::layout::size_of::<TableSpanPlan>();
            let c = spans * vstd::layout::size_of::<LoadedTableSpan>();
            let work = work_bytes_result(refs, plans, spans);
            &&& work is Ok <==> a <= usize::MAX && b <= usize::MAX && c <= usize::MAX && a + b + c
                <= u64::MAX
            &&& work matches Ok(bytes) ==> bytes == a + b + c
        }),
        ({
            let work = work_bytes_result(count, count, count);
            let upper = work_upper_result(output, count);
            &&& upper is Ok <==> work is Ok && count * output <= usize::MAX && work->Ok_0 + count
                * output <= u64::MAX
            &&& upper matches Ok(bytes) ==> bytes - work->Ok_0 == count * output
        }),
{
}

/// The label lists of entries are charged one by one.
pub proof fn entry_charge_law(capacities: Seq<usize>, capacity: usize)
    ensures
        list_bytes(Seq::empty()) == 0,
        list_bytes(capacities.push(capacity)) - list_bytes(capacities) == capacity
            * vstd::layout::size_of::<(u32, u32)>(),
        entry_list_bytes(capacity) == capacity * vstd::layout::size_of::<(u32, SeriesEntry)>(),
{
    assert(capacities.push(capacity).drop_last() =~= capacities);
}

/// A verified series adds, to the charge of those before it, the room of its list of labels and
/// the capacities of both texts of each; no series has none.
pub proof fn series_charge_law(
    list: usize,
    series: Seq<LabelCapacities>,
    room: usize,
    texts: Seq<(usize, usize)>,
    text: (usize, usize),
)
    ensures
        labels_charge(Seq::empty()) == 0,
        batch_charge(list, series.push((room, texts))) - batch_charge(list, series) == room
            * vstd::layout::size_of::<(String, String)>() + capacity_bytes(texts),
        capacity_bytes(Seq::empty()) == 0,
        capacity_bytes(texts.push(text)) - capacity_bytes(texts) == text.0 + text.1,
{
    assert(series.push((room, texts)).drop_last() =~= series);
    assert(texts.push(text).drop_last() =~= texts);
}

/// A charge is returned as it adds up, or refused where it cannot be counted.
pub proof fn counted_charge_law(bytes: nat)
    ensures
        sum_result(bytes) is Ok <==> bytes <= u64::MAX,
        sum_result(bytes) matches Ok(total) ==> total == bytes,
        sum_result(bytes) matches Err(error) ==> error.kind == ErrorKind::InvalidInput,
{
}

} // verus!
