//! Which label rows a session of schema 6 reads, and what it reads from them.

use vstd::prelude::*;

use super::cold::{cold_stream6, dict_result, label_ids_result, label_prefix_result};
use super::root::Schema6SeriesRootV2;
use super::{corrupt6, series_range_result, Schema6SeriesReaderError, SeriesSession6};
use crate::bytes::u32_at;
use crate::cold_v2::blocks::width_total;
use crate::cold_v2::reader::{code_result, code_width_result, ValueDictMeta};
use crate::cold_v2::search_laws::{found_dict_law, reads_file};

verus! {

/// A range of the series file is read exactly when the file has it.
pub proof fn file_range_law(series: Seq<u8>, start: u64, end: u64)
    ensures
        series_range_result(series, start, end) is Ok <==> start <= end <= series.len(),
        series_range_result(series, start, end) matches Ok(bytes) ==> bytes == series.subrange(
            start as int,
            end as int,
        ),
{
}

/// What a session reads of its cold stream stands in the series file, in the three sections
/// that the header bounds.
pub proof fn stream_bytes6_law(session: SeriesSession6, root: Schema6SeriesRootV2)
    ensures
        ({
            let header = root.header;
            let stream = cold_stream6(session, root);
            &&& reads_file(stream, session.series)
            &&& stream.keysets.offset == header.keysets_offset
            &&& stream.keysets.end == header.value_dicts_offset
            &&& stream.keysets.count == header.num_keysets
            &&& stream.value_dicts.offset == header.value_dicts_offset
            &&& stream.value_dicts.end == header.keyset_blocks_offset
            &&& stream.value_dicts.count == header.num_value_dicts
            &&& stream.keyset_blocks.offset == header.keyset_blocks_offset
            &&& stream.keyset_blocks.end == header.meta_offset
            &&& stream.keyset_blocks.count == header.num_keysets
        }),
{
}

/// The dictionary of a key is one that the stream has under that key.
pub proof fn read_dictionary6_law(
    session: SeriesSession6,
    root: Schema6SeriesRootV2,
    key: u32,
    meta: ValueDictMeta,
)
    requires
        dict_result(session, root, key) == Ok::<ValueDictMeta, Schema6SeriesReaderError>(meta),
    ensures
        meta.key_sym == key,
        exists|d: u32|
            {
                let entry = #[trigger] cold_stream6(session, root).dict_meta(d);
                d < root.header.num_value_dicts && entry is Ok && entry->Ok_0.0 == meta
            },
{
    reveal(dict_result);
    let stream = cold_stream6(session, root);
    found_dict_law(
        stream,
        key,
        root.header.num_value_dicts,
        corrupt6("schema-6 value dictionary is missing"),
    );
}

/// The code at a place of a row names this label of the key: it has the one width that the
/// dictionary of the key calls for, and the value is the word that it counts to in the dictionary.
pub open spec fn names_label6(
    session: SeriesSession6,
    root: Schema6SeriesRootV2,
    key: u32,
    row: Seq<u8>,
    at: nat,
    width: u8,
    label: (u32, u32),
) -> bool {
    &&& dict_result(session, root, key) matches Ok(meta)
    &&& code_width_result(width, meta.cardinality) is Ok
    &&& code_result(row, at as usize, width) matches Ok(code)
    &&& code < meta.cardinality
    &&& meta.values_offset + 4 * code + 4 <= session.series.len()
    &&& label.0 == key
    &&& label.1 == u32_at(session.series, meta.values_offset + 4 * code)
}

proof fn lemma_row_read6(
    session: SeriesSession6,
    root: Schema6SeriesRootV2,
    keys: Seq<u32>,
    widths: Seq<u8>,
    row: Seq<u8>,
    labels: Seq<(u32, u32)>,
    n: nat,
)
    requires
        n <= keys.len(),
        row.len() <= usize::MAX,
        session.series.len() <= u64::MAX,
    ensures
        ({
            let result = label_prefix_result(session, root, keys, widths, row, n);
            &&& result is Ok && result->Ok_0.0 == labels <==> {
                &&& labels.len() == n <= widths.len()
                &&& forall|j: int|
                    0 <= j < n ==> names_label6(
                        session,
                        root,
                        keys[j],
                        row,
                        width_total(widths, j as nat),
                        widths[j],
                        #[trigger] labels[j],
                    )
                &&& width_total(widths, n) <= row.len()
            }
            &&& result matches Ok((_, cursor)) ==> cursor == width_total(widths, n) && cursor
                <= row.len() && n <= widths.len()
        }),
    decreases n,
{
    let result = label_prefix_result(session, root, keys, widths, row, n);
    if n == 0 {
        assert(labels.len() == 0 ==> labels =~= Seq::empty());
    } else {
        let m = (n - 1) as nat;
        lemma_row_read6(session, root, keys, widths, row, labels.take(m as int), m);
        let before = label_prefix_result(session, root, keys, widths, row, m);
        if before is Ok {
            lemma_row_read6(session, root, keys, widths, row, before->Ok_0.0, m);
        }
        assert(width_total(widths, n) == width_total(widths, m) + widths[m as int]);
        if result is Ok && result->Ok_0.0 == labels {
            assert(labels.take(m as int) =~= before->Ok_0.0);
            assert forall|j: int| 0 <= j < n implies names_label6(
                session,
                root,
                keys[j],
                row,
                width_total(widths, j as nat),
                widths[j],
                #[trigger] labels[j],
            ) by {
                if j < m {
                    assert(labels.take(m as int)[j] == labels[j]);
                }
            }
        }
        if labels.len() == n && n <= widths.len() && width_total(widths, n) <= row.len()
            && forall|j: int|
            0 <= j < n ==> names_label6(
                session,
                root,
                keys[j],
                row,
                width_total(widths, j as nat),
                widths[j],
                #[trigger] labels[j],
            ) {
            assert forall|j: int| 0 <= j < m implies names_label6(
                session,
                root,
                keys[j],
                row,
                width_total(widths, j as nat),
                widths[j],
                #[trigger] labels.take(m as int)[j],
            ) by {
                assert(labels.take(m as int)[j] == labels[j]);
            }
            assert(names_label6(
                session,
                root,
                keys[m as int],
                row,
                width_total(widths, m),
                widths[m as int],
                labels[m as int],
            ));
            assert(labels =~= labels.take(m as int).push(labels[m as int]));
        }
    }
}

/// A row of a keyset is read exactly when the keyset and its block can be read and have as many
/// keys as widths, the block has the row, and the codes of the row, one for each key and one
/// after the other, fill it and name labels; the labels are those that the codes name.
pub proof fn read_row6_law(
    session: SeriesSession6,
    root: Schema6SeriesRootV2,
    keyset_id: u32,
    row_index: u32,
    labels: Seq<(u32, u32)>,
)
    requires
        session.series.len() <= usize::MAX,
    ensures
        label_ids_result(session, root, keyset_id, row_index) == Ok::<
            Seq<(u32, u32)>,
            Schema6SeriesReaderError,
        >(labels) <==> {
            let stream = cold_stream6(session, root);
            &&& stream.keyset(keyset_id) matches Ok(keys)
            &&& stream.block(keyset_id) matches Ok(block)
            &&& stream.row(
                block,
                row_index,
                corrupt6("schema-6 series row is out of bounds"),
            ) matches Ok(row)
            &&& labels.len() == keys.len()
            &&& keys.len() == block.widths.len()
            &&& width_total(block.widths, keys.len()) == row.len()
            &&& forall|j: int|
                0 <= j < keys.len() ==> names_label6(
                    session,
                    root,
                    keys[j],
                    row,
                    width_total(block.widths, j as nat),
                    block.widths[j],
                    #[trigger] labels[j],
                )
        },
{
    reveal(label_ids_result);
    let stream = cold_stream6(session, root);
    if stream.keyset(keyset_id) is Ok && stream.block(keyset_id) is Ok {
        let keys = stream.keyset(keyset_id)->Ok_0;
        let block = stream.block(keyset_id)->Ok_0;
        let row = stream.row(
            block,
            row_index,
            corrupt6("schema-6 series row is out of bounds"),
        );
        if row is Ok {
            let row = row->Ok_0;
            lemma_row_read6(session, root, keys, block.widths, row, labels, keys.len());
            let result = label_prefix_result(session, root, keys, block.widths, row, keys.len());
            if result is Ok {
                lemma_row_read6(
                    session,
                    root,
                    keys,
                    block.widths,
                    row,
                    result->Ok_0.0,
                    keys.len(),
                );
            }
        }
    }
}

} // verus!
