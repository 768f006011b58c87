//! Which bytes of the cold stream the reader takes, and what they say.

use vstd::prelude::*;

use super::blocks::width_total;
use super::encode::{code_bytes, write_code_result};
use super::plan::{
    offsets_result, section_offsets_result, total_result, SeriesColdV2Lengths,
    SeriesColdV2SectionOffsets,
};
use super::reader::{
    block_result, block_rows_law, canonical_width_result, code_result, code_width_result,
    entry_range_result, keyset_keys, keyset_result, offset_table_law, pair_range_result,
    prefix_range_result, row_range_result, strictly_increasing, table_prefix_result,
    table_range_result, table_result, value_dict_meta_result, value_dict_values_result,
    value_range_result, value_result, width_sum_result, widths_range_result, ValueDictMeta,
};
use crate::bytes::{lemma_u64_at_window, u32_at, u64_at};
use crate::error::{Error, ErrorKind};

verus! {

/// How many codes a code of this many bytes can tell apart; zero when no code has this width.
pub open spec fn code_room(width: u8) -> nat {
    if width == 0 {
        1
    } else if width == 1 {
        0x100
    } else if width == 2 {
        0x1_0000
    } else if width == 4 {
        0x1_0000_0000
    } else {
        0
    }
}

/// A code width belongs to a dictionary exactly when it is the narrowest that tells all the
/// dictionary's values apart; an empty dictionary has none.
pub proof fn code_width_law(width: u8, cardinality: u32)
    ensures
        code_width_result(width, cardinality) is Ok <==> {
            &&& 1 <= cardinality <= code_room(width)
            &&& forall|narrower: u8|
                narrower < width ==> #[trigger] code_room(narrower) < cardinality
        },
        canonical_width_result(cardinality) is Ok <==> cardinality >= 1,
        canonical_width_result(cardinality) is Ok ==> code_width_result(
            canonical_width_result(cardinality)->Ok_0,
            cardinality,
        ) is Ok,
        code_width_result(width, cardinality) is Err ==> code_width_result(
            width,
            cardinality,
        )->Err_0.kind == ErrorKind::InvalidData,
{
    assert(code_room(0) == 1 && code_room(1) == 0x100 && code_room(2) == 0x1_0000 && code_room(3)
        == 0);
}

/// A code can be written exactly when its width has room for it; it takes that many bytes, the
/// low byte first, and reading them gives the code back.
pub proof fn written_code_law(code: u32, width: u8)
    ensures
        write_code_result(code, width) is Ok <==> code < code_room(width),
        code < code_room(width) ==> {
            let bytes = code_bytes(code, width);
            &&& bytes.len() == width
            &&& width >= 1 ==> bytes[0] == code % 0x100
            &&& width >= 2 ==> bytes[1] == code / 0x100 % 0x100
            &&& width >= 3 ==> bytes[2] == code / 0x1_0000 % 0x100 && bytes[3] == code / 0x100_0000
            &&& code_result(bytes, 0, width) == Ok::<u32, Error>(code)
        },
{
}

/// A code is read exactly when its width is one that codes have and the row holds all its bytes;
/// the bytes are its digits to the base 256, the lowest first.
pub proof fn read_code_law(row: Seq<u8>, cursor: usize, width: u8)
    requires
        row.len() <= usize::MAX,
    ensures
        code_result(row, cursor, width) is Ok <==> {
            &&& code_room(width) > 0
            &&& width == 0 || cursor + width <= row.len()
        },
        code_result(row, cursor, width) matches Ok(code) ==> {
            &&& width == 0 ==> code == 0
            &&& width == 1 ==> code == row[cursor as int]
            &&& width == 2 ==> code == row[cursor as int] + 0x100 * row[cursor + 1]
            &&& width == 4 ==> code == row[cursor as int] + 0x100 * row[cursor + 1] + 0x1_0000
                * row[cursor + 2] + 0x100_0000 * row[cursor + 3]
        },
{
}

/// The offset table lies at the start of its section, and the pair of an entry in the table.
pub proof fn table_place_law(section_offset: u64, section_end: u64, entry_count: u32, index: u32)
    ensures
        table_range_result(section_offset, section_end, entry_count) is Ok <==> section_offset + 8
            * (entry_count + 1) <= section_end,
        table_range_result(section_offset, section_end, entry_count) matches Ok(range) ==> {
            &&& range.start == section_offset
            &&& range.end - range.start == 8 * (entry_count + 1)
        },
        pair_range_result(section_offset, section_end, entry_count, index) is Ok <==> {
            &&& section_offset + 8 * (entry_count + 1) <= section_end
            &&& index < entry_count
        },
        pair_range_result(section_offset, section_end, entry_count, index) matches Ok(range) ==> {
            &&& range.start - section_offset == 8 * index
            &&& range.end - range.start == 16
        },
{
}

/// The offsets from `start` to `end` are those of an entry of the section: they lie after the
/// table, the first entry follows it at once and the last one ends the section.
pub open spec fn sound_pair(
    start: u64,
    end: u64,
    section_offset: u64,
    section_end: u64,
    entry_count: u32,
    index: u32,
) -> bool {
    let first = section_offset + 8 * (entry_count + 1);
    &&& index < entry_count
    &&& first <= start < end <= section_end
    &&& index == 0 ==> start == first
    &&& index == entry_count - 1 ==> end == section_end
}

/// Two stored offsets are taken exactly when they are sound for their entry, and they bound it.
pub proof fn stored_pair_law(
    bytes: Seq<u8>,
    section_offset: u64,
    section_end: u64,
    entry_count: u32,
    index: u32,
)
    ensures
        entry_range_result(bytes, section_offset, section_end, entry_count, index) is Ok <==> {
            &&& bytes.len() == 16
            &&& sound_pair(
                u64_at(bytes, 0),
                u64_at(bytes, 8),
                section_offset,
                section_end,
                entry_count,
                index,
            )
        },
        entry_range_result(bytes, section_offset, section_end, entry_count, index) matches Ok(
            range,
        ) ==> range.start == u64_at(bytes, 0) && range.end == u64_at(bytes, 8),
        entry_range_result(bytes, section_offset, section_end, entry_count, index) matches Err(
            error,
        ) ==> error.kind == ErrorKind::InvalidData,
{
}

/// The stored table bounds `entry_count` entries, one after the other, that fill the rest of the
/// section.
pub open spec fn sound_offsets(
    bytes: Seq<u8>,
    section_offset: u64,
    section_end: u64,
    entry_count: u32,
) -> bool {
    &&& bytes.len() == 8 * (entry_count + 1)
    &&& u64_at(bytes, 0) == section_offset + bytes.len()
    &&& u64_at(bytes, 8 * entry_count as int) == section_end
    &&& forall|i: int|
        0 <= i < entry_count ==> #[trigger] u64_at(bytes, 8 * i) < u64_at(bytes, 8 * (i + 1))
}

proof fn lemma_offsets_rise(bytes: Seq<u8>, count: int, i: int, j: int)
    requires
        0 <= i <= j <= count,
        forall|i: int|
            0 <= i < count ==> #[trigger] u64_at(bytes, 8 * i) < u64_at(bytes, 8 * (i + 1)),
    ensures
        i < j ==> u64_at(bytes, 8 * i) < u64_at(bytes, 8 * j),
    decreases j,
{
    if i < j {
        lemma_offsets_rise(bytes, count, i, j - 1);
        assert(u64_at(bytes, 8 * (j - 1)) < u64_at(bytes, 8 * ((j - 1) + 1)));
    }
}

proof fn lemma_pair_word(bytes: Seq<u8>, from: int, at: int)
    requires
        0 <= from,
        from + 16 <= bytes.len(),
        0 <= at <= 8,
    ensures
        u64_at(bytes.subrange(from, from + 16), at) == u64_at(bytes, from + at),
{
    let pair = bytes.subrange(from, from + 16);
    assert(pair.subrange(at, at + 8) =~= bytes.subrange(from + at, from + at + 8));
    lemma_u64_at_window(pair, at, bytes, from + at);
}

proof fn lemma_sound_prefix(
    bytes: Seq<u8>,
    section_offset: u64,
    section_end: u64,
    entry_count: u32,
    n: nat,
)
    requires
        sound_offsets(bytes, section_offset, section_end, entry_count),
        n <= entry_count,
    ensures
        table_prefix_result(bytes, section_offset, section_end, entry_count, n) is Ok,
    decreases n,
{
    if n > 0 {
        let index = (n - 1) as u32;
        lemma_sound_prefix(bytes, section_offset, section_end, entry_count, (n - 1) as nat);
        lemma_offsets_rise(bytes, entry_count as int, 0, n - 1);
        lemma_offsets_rise(bytes, entry_count as int, n - 1, n as int);
        lemma_offsets_rise(bytes, entry_count as int, n as int, entry_count as int);
        let pair = bytes.subrange(8 * (n - 1), 8 * (n - 1) + 16);
        lemma_pair_word(bytes, 8 * (n - 1), 0);
        lemma_pair_word(bytes, 8 * (n - 1), 8);
        assert(8 * (n - 1) + 8 == 8 * n);
        stored_pair_law(pair, section_offset, section_end, entry_count, index);
    }
}

/// An offset table that fits in memory is taken exactly when its entries follow one another from
/// the end of the table to the end of the section.
pub proof fn sound_offsets_law(
    bytes: Seq<u8>,
    section_offset: u64,
    section_end: u64,
    entry_count: u32,
)
    requires
        8 * (entry_count + 1) <= usize::MAX,
    ensures
        table_result(bytes, section_offset, section_end, entry_count) is Ok <==> sound_offsets(
            bytes,
            section_offset,
            section_end,
            entry_count,
        ),
        table_result(bytes, section_offset, section_end, entry_count) matches Err(error)
            ==> error.kind == ErrorKind::InvalidData,
{
    let result = table_result(bytes, section_offset, section_end, entry_count);
    if result is Ok {
        offset_table_law(bytes, section_offset, section_end, entry_count);
        let offsets = result->Ok_0;
        assert forall|i: int| 0 <= i < entry_count implies #[trigger] u64_at(bytes, 8 * i) < u64_at(
            bytes,
            8 * (i + 1),
        ) by {
            assert(offsets[i] < offsets[i + 1]);
        }
    }
    if sound_offsets(bytes, section_offset, section_end, entry_count) {
        lemma_offsets_rise(bytes, entry_count as int, 0, entry_count as int);
        lemma_sound_prefix(bytes, section_offset, section_end, entry_count, entry_count as nat);
    }
    lemma_prefix_kind(bytes, section_offset, section_end, entry_count, entry_count as nat);
}

proof fn lemma_prefix_kind(
    bytes: Seq<u8>,
    section_offset: u64,
    section_end: u64,
    entry_count: u32,
    n: nat,
)
    ensures
        table_prefix_result(bytes, section_offset, section_end, entry_count, n) matches Err(error)
            ==> error.kind == ErrorKind::InvalidData,
    decreases n,
{
    if n > 0 {
        lemma_prefix_kind(bytes, section_offset, section_end, entry_count, (n - 1) as nat);
    }
}

/// The key with this number in the entry of a keyset.
pub open spec fn key_at(bytes: Seq<u8>, i: int) -> u32 {
    u32_at(bytes, 8 + 4 * i)
}

/// A keyset is taken exactly when its entry is a count, a zero and that many keys in strict
/// order, and nothing else; the keys are read as they stand.
pub proof fn stored_keyset_law(bytes: Seq<u8>, entry_start: u64, entry_end: u64)
    ensures
        keyset_result(bytes, entry_start, entry_end) is Ok <==> {
            &&& entry_end - entry_start == bytes.len()
            &&& bytes.len() >= 8
            &&& bytes.len() - 8 == 4 * u32_at(bytes, 0)
            &&& u32_at(bytes, 4) == 0
            &&& forall|i: int, j: int|
                0 <= i < j < u32_at(bytes, 0) ==> #[trigger] key_at(bytes, i) < #[trigger] key_at(
                    bytes,
                    j,
                )
        },
        keyset_result(bytes, entry_start, entry_end) matches Ok(keys) ==> {
            &&& keys.len() == u32_at(bytes, 0)
            &&& forall|i: int| 0 <= i < keys.len() ==> #[trigger] keys[i] == key_at(bytes, i)
        },
{
    let keys = keyset_keys(bytes);
    assert(keys.len() == u32_at(bytes, 0));
    assert forall|i: int| 0 <= i < keys.len() implies #[trigger] keys[i] == key_at(bytes, i) by {}
    if strictly_increasing(keys) {
        assert forall|i: int, j: int| 0 <= i < j < keys.len() implies #[trigger] key_at(bytes, i)
            < #[trigger] key_at(bytes, j) by {
            assert(keys[i] < keys[j]);
        }
    } else {
        let (i, j) = choose|i: int, j: int| 0 <= i < j < keys.len() && keys[i] >= keys[j];
        assert(key_at(bytes, i) >= key_at(bytes, j));
    }
}

/// A dictionary header is taken exactly when it counts at least one value and the values it
/// counts, four bytes each, fill the rest of the entry.
pub proof fn stored_dict_law(header: Seq<u8>, entry_start: u64, entry_end: u64)
    ensures
        value_dict_meta_result(header, entry_start, entry_end) is Ok <==> {
            &&& header.len() == 8
            &&& u32_at(header, 4) >= 1
            &&& entry_end - entry_start == 8 + 4 * u32_at(header, 4)
        },
        value_dict_meta_result(header, entry_start, entry_end) matches Ok(meta) ==> {
            &&& meta.key_sym == u32_at(header, 0)
            &&& meta.cardinality == u32_at(header, 4)
            &&& meta.values_offset - entry_start == 8
            &&& entry_end - meta.values_offset == 4 * meta.cardinality
        },
        value_dict_meta_result(header, entry_start, entry_end) matches Err(error) ==> error.kind
            == ErrorKind::InvalidData,
{
}

/// A code of a dictionary names the four bytes of its value, which lie in the entry after those
/// of the codes before it; a code that is not below the number of values names nothing.
pub proof fn dict_value_law(header: Seq<u8>, entry_start: u64, entry_end: u64, code: u32)
    requires
        value_dict_meta_result(header, entry_start, entry_end) is Ok,
    ensures
        ({
            let meta = value_dict_meta_result(header, entry_start, entry_end)->Ok_0;
            let range = value_range_result(meta, code);
            &&& range is Ok <==> code < u32_at(header, 4)
            &&& range matches Ok(range) ==> {
                &&& range.start == entry_start + 8 + 4 * code
                &&& range.end - range.start == 4
                &&& range.end <= entry_end
            }
            &&& range matches Err(error) ==> error.kind == ErrorKind::InvalidData
            &&& forall|bytes: Seq<u8>|
                {
                    let value = #[trigger] value_result(bytes, meta, code);
                    &&& value is Ok <==> code < u32_at(header, 4) && bytes.len() == 4
                    &&& value is Ok ==> value == Ok::<u32, Error>(u32_at(bytes, 0))
                }
        }),
{
}

/// The values of a dictionary are taken all together exactly when there are four bytes for each,
/// and the value of a code is then the one that reading the code alone gives.
pub proof fn dict_values_law(bytes: Seq<u8>, meta: ValueDictMeta, code: u32)
    requires
        4 * meta.cardinality <= usize::MAX,
    ensures
        value_dict_values_result(bytes, meta) is Ok <==> bytes.len() == 4 * meta.cardinality,
        value_dict_values_result(bytes, meta) matches Ok(values) ==> {
            &&& values.len() == meta.cardinality
            &&& value_range_result(meta, code) matches Ok(range) ==> {
                let from = range.start - meta.values_offset;
                value_result(bytes.subrange(from, from + 4), meta, code) == Ok::<u32, Error>(
                    values[code as int],
                )
            }
        },
{
}

proof fn lemma_width_sum(widths: Seq<u8>, n: nat)
    requires
        n <= widths.len(),
    ensures
        width_sum_result(widths, n) is Ok <==> {
            &&& width_total(widths, n) <= u32::MAX
            &&& forall|j: int| 0 <= j < n ==> code_room(#[trigger] widths[j]) > 0
        },
        width_sum_result(widths, n) matches Ok(sum) ==> sum == width_total(widths, n),
        width_sum_result(widths, n) matches Err(error) ==> error.kind == ErrorKind::InvalidData,
    decreases n,
{
    if n > 0 {
        lemma_width_sum(widths, (n - 1) as nat);
        assert(width_total(widths, n) == width_total(widths, (n - 1) as nat) + widths[n - 1]);
        if code_room(widths[n - 1]) == 0 {
            assert(width_sum_result(widths, n) is Err);
        }
    }
}

/// The widths of a keyset block lie after its fixed header and inside its entry, one byte for
/// each key.
pub proof fn block_widths_law(header: Seq<u8>, entry_start: u64, entry_end: u64)
    ensures
        widths_range_result(header, entry_start, entry_end) is Ok <==> {
            &&& header.len() == 16
            &&& entry_start + 16 + u32_at(header, 4) <= entry_end
        },
        widths_range_result(header, entry_start, entry_end) matches Ok(range) ==> {
            &&& range.start - entry_start == 16
            &&& range.end - range.start == u32_at(header, 4)
        },
        widths_range_result(header, entry_start, entry_end) matches Err(error) ==> error.kind
            == ErrorKind::InvalidData,
{
}

/// A keyset block is taken exactly when it has rows, a width that codes have for each key, rows
/// as long as their codes together, and nothing in its entry besides the header, the widths and
/// the rows.
pub proof fn stored_block_law(header: Seq<u8>, widths: Seq<u8>, entry_start: u64, entry_end: u64)
    ensures
        block_result(header, widths, entry_start, entry_end) is Ok <==> {
            &&& header.len() == 16
            &&& u32_at(header, 0) >= 1
            &&& widths.len() == u32_at(header, 4)
            &&& forall|j: int| 0 <= j < widths.len() ==> code_room(#[trigger] widths[j]) > 0
            &&& u32_at(header, 8) == width_total(widths, widths.len())
            &&& u32_at(header, 12) == u32_at(header, 0) * u32_at(header, 8)
            &&& entry_end - entry_start == 16 + widths.len() + u32_at(header, 12)
        },
        block_result(header, widths, entry_start, entry_end) matches Ok(block) ==> {
            &&& block.rows == u32_at(header, 0)
            &&& block.key_count == widths.len()
            &&& block.widths == widths
            &&& block.row_len_bytes == u32_at(header, 8)
            &&& block.data_len == u32_at(header, 12)
            &&& block.data_offset - entry_start == 16 + widths.len()
        },
        block_result(header, widths, entry_start, entry_end) matches Err(error) ==> error.kind
            == ErrorKind::InvalidData,
{
    lemma_width_sum(widths, widths.len());
}

/// A row of a keyset block has a place exactly when the block has the row, and the rows follow
/// one another, the first right after the widths.
pub proof fn block_row_law(
    header: Seq<u8>,
    widths: Seq<u8>,
    entry_start: u64,
    entry_end: u64,
    row: u32,
)
    requires
        block_result(header, widths, entry_start, entry_end) is Ok,
    ensures
        ({
            let block = block_result(header, widths, entry_start, entry_end)->Ok_0;
            let range = row_range_result(block, row);
            &&& range is Ok <==> row < u32_at(header, 0)
            &&& range matches Ok(range) ==> {
                &&& range.end - range.start == u32_at(header, 8)
                &&& row == 0 ==> range.start - entry_start == 16 + widths.len()
                &&& range.end <= entry_end
                &&& row > 0 ==> row_range_result(block, (row - 1) as u32) is Ok
                    && row_range_result(block, (row - 1) as u32)->Ok_0.end == range.start
            }
            &&& range matches Err(error) ==> error.kind == ErrorKind::InvalidData
        }),
{
    let block = block_result(header, widths, entry_start, entry_end)->Ok_0;
    stored_block_law(header, widths, entry_start, entry_end);
    if row < block.rows {
        block_rows_law(header, widths, entry_start, entry_end, row);
        let len = block.row_len_bytes as int;
        assert((row + 1) * len <= block.rows * len) by (nonlinear_arith)
            requires
                row + 1 <= block.rows,
                0 <= len,
        ;
        if row > 0 {
            block_rows_law(header, widths, entry_start, entry_end, (row - 1) as u32);
        }
    }
}

/// A prefix of an entry has a place exactly when the entry is long enough, and starts with it.
pub proof fn entry_prefix_law(entry_start: u64, entry_end: u64, len: u64, text: &'static str)
    ensures
        prefix_range_result(entry_start, entry_end, len, text) is Ok <==> entry_start + len
            <= entry_end,
        prefix_range_result(entry_start, entry_end, len, text) matches Ok(range) ==> range.start
            == entry_start && range.end - range.start == len,
{
}

/// The three sections stand one after the other, in their order, each as long as planned; there
/// are such offsets exactly when the end can be counted, and no other offsets are taken.
pub proof fn section_order_law(
    lengths: SeriesColdV2Lengths,
    keysets_offset: u64,
    offsets: SeriesColdV2SectionOffsets,
)
    ensures
        section_offsets_result(lengths, keysets_offset) is Ok <==> keysets_offset + lengths.keysets
            + lengths.value_dicts + lengths.keyset_blocks <= u64::MAX,
        section_offsets_result(lengths, keysets_offset) matches Ok(at) ==> {
            &&& at.keysets == keysets_offset
            &&& at.value_dicts - at.keysets == lengths.keysets
            &&& at.keyset_blocks - at.value_dicts == lengths.value_dicts
            &&& at.end - at.keyset_blocks == lengths.keyset_blocks
        },
        offsets_result(lengths, offsets) is Ok <==> {
            &&& offsets.value_dicts - offsets.keysets == lengths.keysets
            &&& offsets.keyset_blocks - offsets.value_dicts == lengths.value_dicts
            &&& offsets.end - offsets.keyset_blocks == lengths.keyset_blocks
        },
        total_result(lengths) is Ok <==> lengths.keysets + lengths.value_dicts
            + lengths.keyset_blocks <= u64::MAX,
        total_result(lengths) matches Ok(total) ==> total - lengths.keysets - lengths.value_dicts
            == lengths.keyset_blocks,
        section_offsets_result(lengths, keysets_offset) matches Err(error) ==> error.kind
            == ErrorKind::InvalidInput,
        offsets_result(lengths, offsets) matches Err(error) ==> error.kind
            == ErrorKind::InvalidInput,
{
}

} // verus!
