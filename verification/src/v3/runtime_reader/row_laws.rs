//! Which label rows a session reads, and what it reads from them.

use vstd::prelude::*;

use super::cold::{
    cold_range_result, cold_stream, corrupt, dictionary_result, key_symbols_result,
    keyset_plan_result, page_of, pages_result, row_labels_result, row_prefix_result,
    value_symbols_result,
};
use super::open_laws::loaded_cold_page_law;
use super::roots::load_cold_page_result;
use super::{BoundRoots, MetadataSession, Schema7MetadataReaderError};
use crate::bytes::u32_at;
use crate::cold_v2::blocks::width_total;
use crate::cold_v2::reader::{code_result, code_width_result, KeySetBlock, ValueDictMeta};
use crate::cold_v2::search_laws::{lemma_found, reads_file};
use crate::v3::header_laws::sound_header_law;

verus! {

proof fn lemma_pages_load(session: MetadataSession, roots: BoundRoots, first: int, n: nat)
    ensures
        pages_result(session, roots, first, n) is Ok <==> forall|k: int|
            first <= k < first + n ==> load_cold_page_result(
                session,
                roots,
                #[trigger] (k as u32),
            ) is Ok,
    decreases n,
{
    if n > 0 {
        lemma_pages_load(session, roots, first, (n - 1) as nat);
        let last = first + n - 1;
        if pages_result(session, roots, first, n) is Ok {
            assert forall|k: int| first <= k < first + n implies load_cold_page_result(
                session,
                roots,
                #[trigger] (k as u32),
            ) is Ok by {
                if k < last {
                }
            }
        } else if pages_result(session, roots, first, (n - 1) as nat) is Ok {
            assert(load_cold_page_result(session, roots, (last as u32)) is Err);
        }
    }
}

/// The page of the cold stream with this number holds bytes of a range.
pub open spec fn page_meets(roots: BoundRoots, page_index: u32, start: u64, end: u64) -> bool {
    let from = roots.series.header.keysets_offset + 16_384 * page_index;
    start < end && from < end && start < from + 16_384
}

/// A session reads a range of its cold stream exactly when the range lies in the stream and
/// every page with bytes of it is authentic; it reads the bytes of the series file there.
pub proof fn read_range_law(session: MetadataSession, roots: BoundRoots, start: u64, end: u64)
    requires
        roots.wf(),
        session.series.len() <= usize::MAX,
        roots.series.header.file_len <= usize::MAX,
    ensures
        cold_range_result(session, roots, start, end) is Ok <==> {
            &&& session.generation == roots.generation
            &&& roots.series.header.keysets_offset <= start <= end <= roots.series.header.file_len
            &&& forall|page_index: u32| #[trigger]
                page_meets(roots, page_index, start, end) ==> load_cold_page_result(
                    session,
                    roots,
                    page_index,
                ) is Ok
        },
        cold_range_result(session, roots, start, end) matches Ok(bytes) ==> {
            &&& start == end ==> bytes.len() == 0
            &&& start < end ==> bytes == session.series.subrange(start as int, end as int)
        },
{
    let header = roots.series.header;
    let first = page_of(header, start as int);
    let last = page_of(header, end - 1);
    sound_header_law(header);
    if header.keysets_offset <= start < end <= header.file_len {
        assert(0 <= first <= last < header.cold_page_count);
        assert forall|page_index: u32| #[trigger]
            page_meets(roots, page_index, start, end) <==> first <= page_index <= last by {}
        lemma_pages_load(session, roots, first, (last - first + 1) as nat);
        let meeting = forall|page_index: u32| #[trigger]
            page_meets(roots, page_index, start, end) ==> load_cold_page_result(
                session,
                roots,
                page_index,
            ) is Ok;
        if meeting {
            assert forall|k: int| first <= k < first + (last - first + 1) implies
                load_cold_page_result(session, roots, #[trigger] (k as u32)) is Ok by {
                assert(page_meets(roots, k as u32, start, end));
            }
        }
        if pages_result(session, roots, first, (last - first + 1) as nat) is Ok {
            assert forall|page_index: u32| #[trigger]
                page_meets(roots, page_index, start, end) implies load_cold_page_result(
                session,
                roots,
                page_index,
            ) is Ok by {
                let k = page_index as int;
                assert((k as u32) == page_index);
            }
        }
    }
}

/// What a session reads of its cold stream stands in the series file, in the three sections
/// that the header bounds.
pub proof fn stream_bytes_law(session: MetadataSession, roots: BoundRoots)
    requires
        roots.wf(),
        session.series.len() <= usize::MAX,
        roots.series.header.file_len <= usize::MAX,
    ensures
        ({
            let header = roots.series.header;
            let stream = cold_stream(session, roots);
            &&& reads_file(stream, session.series)
            &&& stream.keysets.offset == header.keysets_offset
            &&& stream.keysets.end == header.value_dicts_offset
            &&& stream.keysets.count == header.num_keysets
            &&& stream.value_dicts.offset == header.value_dicts_offset
            &&& stream.value_dicts.end == header.keyset_blocks_offset
            &&& stream.value_dicts.count == header.num_value_dicts
            &&& stream.keyset_blocks.offset == header.keyset_blocks_offset
            &&& stream.keyset_blocks.end == header.file_len
            &&& stream.keyset_blocks.count == header.num_keysets
        }),
{
    let header = roots.series.header;
    let stream = cold_stream(session, roots);
    sound_header_law(header);
    assert forall|start: u64, end: u64|
        start < end && #[trigger] (stream.read)(start, end) is Ok implies end
        <= session.series.len() && (stream.read)(start, end)->Ok_0 == session.series.subrange(
        start as int,
        end as int,
    ) by {
        let page_index = page_of(header, end - 1) as u32;
        read_range_law(session, roots, start, end);
        assert(0 <= page_of(header, end - 1) < header.cold_page_count);
        assert(page_meets(roots, page_index, start, end));
        loaded_cold_page_law(session, roots, page_index);
    }
}

/// Key symbols are taken exactly when the segment has every one of them.
pub proof fn key_symbols_law(symbol_count: nat, keys: Seq<u32>)
    ensures
        key_symbols_result(symbol_count, keys) is Ok <==> forall|i: int|
            0 <= i < keys.len() ==> #[trigger] keys[i] < symbol_count,
{
}

proof fn lemma_value_symbols(symbol_count: nat, values: Seq<u32>, n: nat)
    requires
        n <= values.len(),
    ensures
        value_symbols_result(symbol_count, values, n) is Ok <==> {
            &&& forall|i: int, j: int| 0 <= i < j < n ==> values[i] < values[j]
            &&& forall|i: int| 0 <= i < n ==> values[i] < symbol_count
        },
    decreases n,
{
    if n > 0 {
        lemma_value_symbols(symbol_count, values, (n - 1) as nat);
        if value_symbols_result(symbol_count, values, n) is Ok {
            assert forall|i: int, j: int| 0 <= i < j < n implies values[i] < values[j] by {
                if j == n - 1 && i < n - 2 {
                    assert(values[i] < values[n - 2]);
                }
            }
        }
    }
}

/// The values of a dictionary are taken exactly when they rise and the segment has the symbol
/// of every one of them.
pub proof fn value_symbols_law(symbol_count: nat, values: Seq<u32>)
    ensures
        value_symbols_result(symbol_count, values, values.len()) is Ok <==> {
            &&& forall|i: int, j: int| 0 <= i < j < values.len() ==> values[i] < values[j]
            &&& forall|i: int| 0 <= i < values.len() ==> values[i] < symbol_count
        },
{
    lemma_value_symbols(symbol_count, values, values.len());
}

/// The dictionary of a key has values that rise and that are symbols of the segment, and they
/// are the words that the stream stores for a dictionary with that key.
pub proof fn read_dictionary_law(
    session: MetadataSession,
    roots: BoundRoots,
    symbol_count: nat,
    key: u32,
    values: Seq<u32>,
)
    requires
        dictionary_result(session, roots, symbol_count, key) == Ok::<
            Seq<u32>,
            Schema7MetadataReaderError,
        >(values),
    ensures
        forall|i: int, j: int| 0 <= i < j < values.len() ==> values[i] < values[j],
        forall|i: int| 0 <= i < values.len() ==> values[i] < symbol_count,
        exists|d: u32|
            d < roots.series.header.num_value_dicts && stores_values(
                session,
                roots,
                #[trigger] cold_stream(session, roots).dict_meta(d),
                key,
                values,
            ),
{
    reveal(dictionary_result);
    let stream = cold_stream(session, roots);
    let count = roots.series.header.num_value_dicts;
    let missing = corrupt("schema-7 value dictionary is missing");
    value_symbols_law(symbol_count, values);
    let d = lemma_found(stream, key, 0, count, missing);
    assert(stores_values(session, roots, stream.dict_meta(d), key, values));
}

/// The entry is that of the key, and its bytes are these values, four each.
pub open spec fn stores_values(
    session: MetadataSession,
    roots: BoundRoots,
    entry: Result<(ValueDictMeta, u64), Schema7MetadataReaderError>,
    key: u32,
    values: Seq<u32>,
) -> bool {
    &&& entry matches Ok((meta, end))
    &&& meta.key_sym == key
    &&& meta.cardinality == values.len()
    &&& cold_range_result(session, roots, meta.values_offset, end) matches Ok(bytes)
    &&& bytes.len() == 4 * values.len()
    &&& forall|i: int| 0 <= i < values.len() ==> #[trigger] values[i] == u32_at(bytes, 4 * i)
}

/// The code at a place of a row names this label of the key: it has the one width that the
/// dictionary of the key calls for, and the value is the one that it counts to in the dictionary.
pub open spec fn names_label(
    session: MetadataSession,
    roots: BoundRoots,
    symbol_count: nat,
    key: u32,
    row: Seq<u8>,
    at: nat,
    width: u8,
    label: (u32, u32),
) -> bool {
    &&& dictionary_result(session, roots, symbol_count, key) matches Ok(values)
    &&& values.len() <= u32::MAX
    &&& code_width_result(width, values.len() as u32) is Ok
    &&& code_result(row, at as usize, width) matches Ok(code)
    &&& code < values.len()
    &&& label.0 == key
    &&& label.1 == values[code as int]
}

proof fn lemma_row_read(
    session: MetadataSession,
    roots: BoundRoots,
    symbol_count: nat,
    keys: Seq<u32>,
    widths: Seq<u8>,
    row: Seq<u8>,
    labels: Seq<(u32, u32)>,
    n: nat,
)
    requires
        n <= keys.len(),
        row.len() <= usize::MAX,
    ensures
        ({
            let result = row_prefix_result(session, roots, symbol_count, keys, widths, row, n);
            &&& result is Ok && result->Ok_0.0 == labels <==> {
                &&& labels.len() == n <= widths.len()
                &&& forall|j: int|
                    0 <= j < n ==> names_label(
                        session,
                        roots,
                        symbol_count,
                        keys[j],
                        row,
                        width_total(widths, j as nat),
                        widths[j],
                        #[trigger] labels[j],
                    )
                &&& width_total(widths, n) <= row.len()
            }
            &&& result matches Ok((_, cursor)) ==> cursor == width_total(widths, n) && cursor
                <= row.len() && n <= widths.len()
        }),
    decreases n,
{
    let result = row_prefix_result(session, roots, symbol_count, keys, widths, row, n);
    if n == 0 {
        assert(labels.len() == 0 ==> labels =~= Seq::empty());
    } else {
        let m = (n - 1) as nat;
        lemma_row_read(session, roots, symbol_count, keys, widths, row, labels.take(m as int), m);
        let before = row_prefix_result(session, roots, symbol_count, keys, widths, row, m);
        if before is Ok {
            lemma_row_read(
                session,
                roots,
                symbol_count,
                keys,
                widths,
                row,
                before->Ok_0.0,
                m,
            );
        }
        assert(width_total(widths, n) == width_total(widths, m) + widths[m as int]);
        if result is Ok && result->Ok_0.0 == labels {
            assert(labels.take(m as int) =~= before->Ok_0.0);
            assert forall|j: int| 0 <= j < n implies names_label(
                session,
                roots,
                symbol_count,
                keys[j],
                row,
                width_total(widths, j as nat),
                widths[j],
                #[trigger] labels[j],
            ) by {
                if j < m {
                    assert(labels.take(m as int)[j] == labels[j]);
                }
            }
        }
        if labels.len() == n && n <= widths.len() && width_total(widths, n) <= row.len()
            && forall|j: int|
            0 <= j < n ==> names_label(
                session,
                roots,
                symbol_count,
                keys[j],
                row,
                width_total(widths, j as nat),
                widths[j],
                #[trigger] labels[j],
            ) {
            assert forall|j: int| 0 <= j < m implies names_label(
                session,
                roots,
                symbol_count,
                keys[j],
                row,
                width_total(widths, j as nat),
                widths[j],
                #[trigger] labels.take(m as int)[j],
            ) by {
                assert(labels.take(m as int)[j] == labels[j]);
            }
            assert(names_label(
                session,
                roots,
                symbol_count,
                keys[m as int],
                row,
                width_total(widths, m),
                widths[m as int],
                labels[m as int],
            ));
            assert(labels =~= labels.take(m as int).push(labels[m as int]));
        }
    }
}

/// A row is read exactly when the block has it and its codes, one for each key and one after
/// the other, fill it and name labels; the labels are those that the codes name.
pub proof fn read_row_law(
    session: MetadataSession,
    roots: BoundRoots,
    symbol_count: nat,
    keys: Seq<u32>,
    block: KeySetBlock,
    row_index: u32,
    row: Seq<u8>,
    labels: Seq<(u32, u32)>,
)
    requires
        cold_stream(session, roots).row(
            block,
            row_index,
            corrupt("schema-7 series cold row is out of bounds"),
        ) == Ok::<Seq<u8>, Schema7MetadataReaderError>(row),
        row.len() <= usize::MAX,
    ensures
        row_labels_result(session, roots, symbol_count, keys, block, row_index) == Ok::<
            Seq<(u32, u32)>,
            Schema7MetadataReaderError,
        >(labels) <==> {
            &&& labels.len() == keys.len() <= block.widths.len()
            &&& width_total(block.widths, keys.len()) == row.len()
            &&& forall|j: int|
                0 <= j < keys.len() ==> names_label(
                    session,
                    roots,
                    symbol_count,
                    keys[j],
                    row,
                    width_total(block.widths, j as nat),
                    block.widths[j],
                    #[trigger] labels[j],
                )
        },
{
    lemma_row_read(
        session,
        roots,
        symbol_count,
        keys,
        block.widths,
        row,
        labels,
        keys.len(),
    );
    let result = row_prefix_result(
        session,
        roots,
        symbol_count,
        keys,
        block.widths,
        row,
        keys.len(),
    );
    if result is Ok {
        lemma_row_read(
            session,
            roots,
            symbol_count,
            keys,
            block.widths,
            row,
            result->Ok_0.0,
            keys.len(),
        );
    }
}

/// The keys of a keyset plan are symbols of the segment and rise, and its block has a width for
/// each of them.
pub proof fn keyset_plan_law(
    session: MetadataSession,
    roots: BoundRoots,
    symbol_count: nat,
    keyset_id: u32,
)
    ensures
        ({
            let stream = cold_stream(session, roots);
            let plan = keyset_plan_result(session, roots, symbol_count, keyset_id);
            &&& plan is Ok <==> {
                &&& stream.keyset(keyset_id) matches Ok(keys)
                &&& stream.block(keyset_id) matches Ok(block)
                &&& block.widths.len() == keys.len()
                &&& forall|i: int| 0 <= i < keys.len() ==> #[trigger] keys[i] < symbol_count
            }
            &&& plan matches Ok((keys, block)) ==> {
                &&& stream.keyset(keyset_id) == Ok::<Seq<u32>, Schema7MetadataReaderError>(keys)
                &&& stream.block(keyset_id) == Ok::<KeySetBlock, Schema7MetadataReaderError>(block)
                &&& forall|i: int, j: int| 0 <= i < j < keys.len() ==> keys[i] < keys[j]
            }
        }),
{
    reveal(keyset_plan_result);
}

} // verus!
