//! How the bytes of what a session holds and hands out add up.

use vstd::prelude::*;

use super::cached::cache_bytes_result;
use super::cold::DecodedKeysetPlan;
use super::labels::{
    capacity_of, declared_labels_result, text_charge_result, CanonicalLabelSelection,
};
use super::{batch_bytes_result, vec_bytes_result};
use crate::chunk::IndexedChunkLocator;
use crate::error::ErrorKind;
use crate::v3::cold_reader::{cold_charge_result, ValidatedSeriesColdPage};
use crate::v3::reader::{raw_charge_result, SeriesChunkSpan};
use crate::v3::root::{
    root_charge_result, SeriesColdPageDescriptorV1, SeriesHotPageDescriptorV1,
};

verus! {

/// A list is charged with the size of an element as often as it has elements, as long as that
/// can be counted.
pub proof fn vec_charge_law(size: nat, len: nat, message: &'static str)
    ensures
        vec_bytes_result(size, len, message) is Ok <==> size * len <= usize::MAX,
        vec_bytes_result(size, len, message) matches Ok(bytes) ==> bytes == size * len,
        vec_bytes_result(size, len, message) is Err ==> vec_bytes_result(
            size,
            len,
            message,
        )->Err_0 is Planning,
{
    assert(len * size == size * len) by (nonlinear_arith);
}

/// A batch of locators is charged as its two lists, and a cache of decoded plans and
/// dictionaries as its two.
pub proof fn pair_charge_law(first: nat, second: nat)
    ensures
        ({
            let a = first * vstd::layout::size_of::<IndexedChunkLocator>();
            let b = second * vstd::layout::size_of::<SeriesChunkSpan>();
            let batch = batch_bytes_result(first, second);
            &&& batch is Ok <==> a <= usize::MAX && b <= usize::MAX && a + b <= u64::MAX
            &&& batch matches Ok(bytes) ==> bytes == a + b
        }),
        ({
            let a = first * vstd::layout::size_of::<(u32, DecodedKeysetPlan)>();
            let b = second * vstd::layout::size_of::<(u32, Vec<u32>)>();
            let cache = cache_bytes_result(first, second);
            &&& cache is Ok <==> a <= usize::MAX && b <= usize::MAX && a + b <= u64::MAX
            &&& cache matches Ok(bytes) ==> bytes == a + b
        }),
{
}

/// A page or a blob is charged with its bytes on top of its fixed part, and a root with the room
/// of its two directories.
pub proof fn page_charge_law(
    fixed: nat,
    length: nat,
    hot: usize,
    cold: usize,
    message: &'static str,
)
    ensures
        raw_charge_result(fixed, length, message) is Ok <==> fixed + length <= usize::MAX,
        raw_charge_result(fixed, length, message) matches Ok(charge) ==> charge - fixed == length,
        raw_charge_result(fixed, length, message) matches Err(error) ==> error.kind
            == ErrorKind::OutOfMemory,
        ({
            let own = vstd::layout::size_of::<ValidatedSeriesColdPage>();
            &&& cold_charge_result(length) is Ok <==> own + length <= u64::MAX
            &&& cold_charge_result(length) matches Ok(charge) ==> charge - own == length
            &&& cold_charge_result(length) matches Err(error) ==> error.kind
                == ErrorKind::OutOfMemory
        }),
        ({
            let a = hot * vstd::layout::size_of::<SeriesHotPageDescriptorV1>();
            let b = cold * vstd::layout::size_of::<SeriesColdPageDescriptorV1>();
            let root = root_charge_result(fixed, hot, cold, message);
            &&& root is Ok <==> fixed + a + b <= usize::MAX
            &&& root matches Ok(charge) ==> charge - a - b == fixed
            &&& root matches Err(error) ==> error.kind == ErrorKind::OutOfMemory
        }),
{
}

/// The list of selected labels has room for no more labels than the row has and, where names are
/// asked for, no more than there are names; a text that is charged adds its capacity.
pub proof fn label_charge_law(
    selection: CanonicalLabelSelection,
    label_count: nat,
    charged: u64,
    capacity: usize,
)
    ensures
        ({
            let room = capacity_of(selection, label_count);
            let declared = declared_labels_result(selection, label_count);
            let size = vstd::layout::size_of::<(String, String)>();
            &&& selection is All ==> room == label_count
            &&& room <= label_count
            &&& selection matches CanonicalLabelSelection::Requested { names, .. } ==> room
                <= names@.len() && (room == names@.len() || room == label_count)
            &&& declared is Ok <==> room * size <= usize::MAX
            &&& declared matches Ok(bytes) ==> bytes == room * size
        }),
        text_charge_result(charged, capacity) is Ok <==> charged + capacity <= u64::MAX,
        text_charge_result(charged, capacity) matches Ok(total) ==> total - charged == capacity,
{
}

} // verus!
