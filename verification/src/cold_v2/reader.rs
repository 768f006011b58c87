//! Pure readers and range planners for the cold label stream of `series.bin`.
//!
//! The stream has three sections: keysets, value dictionaries and keyset
//! blocks. Each begins with a table of absolute offsets, one per entry and a
//! terminal one, and the entries follow without gaps. This module performs no
//! I/O: callers hand in the exact byte ranges that the planners name.

use core::ops::Range;
use vstd::prelude::*;

use crate::bytes::{read_u32, read_u64, u16_at, u32_at, u64_at};
use crate::error::{
    data_error, eof_error, invalid_data, memory_error, resource_error, unexpected_eof, vec_result,
    Error,
};

verus! {

pub const OFFSET_LEN: u64 = 8;

pub const OFFSET_PAIR_LEN: usize = 16;

pub const KEYSET_HEADER_LEN: u64 = 8;

pub const VALUE_DICT_HEADER_LEN: u64 = 8;

pub const KEYSET_BLOCK_HEADER_LEN: u64 = 16;

/// The section an offset table belongs to, for its error message.
#[derive(Debug, Clone, Copy, PartialEq, Eq, Structural)]
pub enum ColdSectionName {
    Keysets,
    ValueDictionaries,
    KeysetBlocks,
    Section,
}

/// The byte range whose length is checked, for its error message.
#[derive(Debug, Clone, Copy, PartialEq, Eq, Structural)]
pub enum ColdRangeName {
    OffsetPair,
    OffsetTable,
    ValueDictHeader,
    ValueDictValues,
    ValueDictValue,
    KeysetBlockHeader,
    KeysetEntry,
    Entry,
}

/// The length that is converted to `usize`, for its error message.
#[derive(Debug, Clone, Copy, PartialEq, Eq, Structural)]
pub enum ColdLengthName {
    OffsetTable,
    ValueDictionary,
    Length,
}

/// The decoded header of one value dictionary.
#[derive(Debug, Clone, Copy, PartialEq, Eq, Structural)]
pub struct ValueDictMeta {
    pub key_sym: u32,
    pub values_offset: u64,
    pub cardinality: u32,
}

/// The decoded header and widths of one keyset block.
#[derive(Debug, Clone, PartialEq, Eq)]
pub struct KeySetBlockMeta {
    pub rows: u32,
    pub key_count: u32,
    pub row_len_bytes: u32,
    pub data_len: u32,
    pub widths: Vec<u8>,
    pub data_offset: u64,
}

/// A keyset block with its widths as a sequence.
pub struct KeySetBlock {
    pub rows: u32,
    pub key_count: u32,
    pub row_len_bytes: u32,
    pub data_len: u32,
    pub widths: Seq<u8>,
    pub data_offset: u64,
}

impl View for KeySetBlockMeta {
    type V = KeySetBlock;

    open spec fn view(&self) -> KeySetBlock {
        KeySetBlock {
            rows: self.rows,
            key_count: self.key_count,
            row_len_bytes: self.row_len_bytes,
            data_len: self.data_len,
            widths: self.widths@,
            data_offset: self.data_offset,
        }
    }
}

/// Every element is less than every later one.
pub open spec fn strictly_increasing(values: Seq<u32>) -> bool {
    forall|i: int, j: int| 0 <= i < j < values.len() ==> values[i] < values[j]
}

/// The length of an offset table: one offset per entry and a terminal one.
pub open spec fn table_len(entry_count: u32) -> int {
    8 * (entry_count + 1)
}

pub open spec fn table_minimum_result(
    section_len: u64,
    entry_count: u32,
    what: ColdSectionName,
) -> Result<(), Error> {
    if section_len < table_len(entry_count) {
        Err(
            data_error(
                match what {
                    ColdSectionName::Keysets =>
                        "series cold keysets section is shorter than its offset table",
                    ColdSectionName::ValueDictionaries =>
                        "series cold value dictionaries section is shorter than its offset table",
                    ColdSectionName::KeysetBlocks =>
                        "series cold keyset blocks section is shorter than its offset table",
                    ColdSectionName::Section =>
                        "series cold section is shorter than its offset table",
                },
            ),
        )
    } else {
        Ok(())
    }
}

pub open spec fn table_range_result(
    section_offset: u64,
    section_end: u64,
    entry_count: u32,
) -> Result<Range<u64>, Error> {
    if section_end < section_offset {
        Err(data_error("series cold section bounds are reversed"))
    } else if section_end - section_offset < table_len(entry_count) {
        Err(data_error("series cold section is shorter than its offset table"))
    } else {
        Ok(
            Range {
                start: section_offset,
                end: (section_offset + table_len(entry_count)) as u64,
            },
        )
    }
}

pub open spec fn pair_range_result(
    section_offset: u64,
    section_end: u64,
    entry_count: u32,
    entry_index: u32,
) -> Result<Range<u64>, Error> {
    match table_range_result(section_offset, section_end, entry_count) {
        Err(error) => Err(error),
        Ok(_) => if entry_index >= entry_count {
            Err(data_error("series cold entry index is out of bounds"))
        } else {
            Ok(
                Range {
                    start: (section_offset + 8 * entry_index) as u64,
                    end: (section_offset + 8 * entry_index + 16) as u64,
                },
            )
        },
    }
}

/// The entry range that an offset pair holds.
pub open spec fn entry_range_result(
    bytes: Seq<u8>,
    section_offset: u64,
    section_end: u64,
    entry_count: u32,
    entry_index: u32,
) -> Result<Range<u64>, Error> {
    let start = u64_at(bytes, 0);
    let end = u64_at(bytes, 8);
    let entries_offset = section_offset + table_len(entry_count);
    match pair_range_result(section_offset, section_end, entry_count, entry_index) {
        Err(error) => Err(error),
        Ok(_) => if bytes.len() != 16 {
            Err(data_error("series cold offset pair length is not exact"))
        } else if start >= end {
            Err(data_error("series cold entry offsets are not strictly increasing"))
        } else if start < entries_offset || end > section_end {
            Err(data_error("series cold entry bounds are invalid"))
        } else if entry_index == 0 && start != entries_offset {
            Err(data_error("series cold first entry does not follow its offset table"))
        } else if entry_index + 1 == entry_count && end != section_end {
            Err(data_error("series cold final entry does not end at its section boundary"))
        } else {
            Ok(Range { start, end })
        },
    }
}

/// The first `n` entries of a nonempty offset table: their offsets, or the
/// error of the first entry that is malformed.
pub open spec fn table_prefix_result(
    bytes: Seq<u8>,
    section_offset: u64,
    section_end: u64,
    entry_count: u32,
    n: nat,
) -> Result<Seq<u64>, Error>
    decreases n,
{
    if n == 0 {
        Ok(Seq::empty())
    } else {
        match table_prefix_result(bytes, section_offset, section_end, entry_count, (n - 1) as nat) {
            Err(error) => Err(error),
            Ok(offsets) => match entry_range_result(
                bytes.subrange(8 * (n - 1), 8 * (n - 1) + 16),
                section_offset,
                section_end,
                entry_count,
                (n - 1) as u32,
            ) {
                Err(error) => Err(error),
                Ok(range) => if n == 1 {
                    Ok(seq![range.start, range.end])
                } else {
                    Ok(offsets.push(range.end))
                },
            },
        }
    }
}

/// The offsets of a complete table.
pub open spec fn table_result(
    bytes: Seq<u8>,
    section_offset: u64,
    section_end: u64,
    entry_count: u32,
) -> Result<Seq<u64>, Error> {
    match table_range_result(section_offset, section_end, entry_count) {
        Err(error) => Err(error),
        Ok(range) => if table_len(entry_count) > usize::MAX {
            Err(memory_error("series cold offset table length exceeds usize"))
        } else if bytes.len() != table_len(entry_count) {
            Err(data_error("series cold offset table length is not exact"))
        } else if entry_count == 0 {
            let terminal = u64_at(bytes, 0);
            if terminal != range.end || terminal != section_end {
                Err(
                    data_error(
                        "series cold empty offset table does not end at its section boundary",
                    ),
                )
            } else {
                Ok(seq![terminal])
            }
        } else {
            table_prefix_result(
                bytes,
                section_offset,
                section_end,
                entry_count,
                entry_count as nat,
            )
        },
    }
}

/// The keys that follow a keyset header.
pub open spec fn keyset_keys(bytes: Seq<u8>) -> Seq<u32> {
    Seq::new(u32_at(bytes, 0) as nat, |i: int| u32_at(bytes, 8 + 4 * i))
}

pub open spec fn keyset_result(bytes: Seq<u8>, entry_start: u64, entry_end: u64) -> Result<
    Seq<u32>,
    Error,
> {
    if entry_end < entry_start {
        Err(data_error("series cold entry bounds are reversed"))
    } else if entry_end - entry_start != bytes.len() {
        Err(data_error("series cold keyset entry length is not exact"))
    } else if bytes.len() < 8 {
        Err(eof_error("series cold keyset header is truncated"))
    } else if u32_at(bytes, 4) != 0 {
        Err(data_error("series cold keyset reserved field is nonzero"))
    } else if 8 + 4 * u32_at(bytes, 0) != bytes.len() {
        Err(data_error("series cold keyset entry length mismatch"))
    } else if !strictly_increasing(keyset_keys(bytes)) {
        Err(data_error("series cold keyset keys are not strictly increasing"))
    } else {
        Ok(keyset_keys(bytes))
    }
}

pub open spec fn prefix_range_result(
    entry_start: u64,
    entry_end: u64,
    prefix_len: u64,
    overflow_message: &'static str,
) -> Result<Range<u64>, Error> {
    if entry_start + prefix_len > entry_end {
        Err(data_error(overflow_message))
    } else {
        Ok(Range { start: entry_start, end: (entry_start + prefix_len) as u64 })
    }
}

pub open spec fn value_dict_meta_result(bytes: Seq<u8>, entry_start: u64, entry_end: u64) -> Result<
    ValueDictMeta,
    Error,
> {
    let cardinality = u32_at(bytes, 4);
    if bytes.len() != 8 {
        Err(data_error("series cold value dictionary header length is not exact"))
    } else if cardinality == 0 {
        Err(data_error("series cold value dictionary cardinality is zero"))
    } else if entry_start + 8 + 4 * cardinality > u64::MAX {
        Err(data_error("series cold value dictionary range overflows"))
    } else if entry_start + 8 + 4 * cardinality != entry_end {
        Err(data_error("series cold value dictionary entry length mismatch"))
    } else {
        Ok(
            ValueDictMeta {
                key_sym: u32_at(bytes, 0),
                values_offset: (entry_start + 8) as u64,
                cardinality,
            },
        )
    }
}

pub open spec fn value_dict_values_result(bytes: Seq<u8>, meta: ValueDictMeta) -> Result<
    Seq<u32>,
    Error,
> {
    if 4 * meta.cardinality > usize::MAX {
        Err(memory_error("series cold value dictionary length exceeds usize"))
    } else if bytes.len() != 4 * meta.cardinality {
        Err(data_error("series cold value dictionary values length is not exact"))
    } else {
        Ok(Seq::new(meta.cardinality as nat, |i: int| u32_at(bytes, 4 * i)))
    }
}

pub open spec fn value_range_result(meta: ValueDictMeta, code: u32) -> Result<Range<u64>, Error> {
    if code >= meta.cardinality {
        Err(data_error("series cold value code is out of bounds"))
    } else if meta.values_offset + 4 * code > u64::MAX {
        Err(data_error("series cold value dictionary offset overflows"))
    } else if meta.values_offset + 4 * code + 4 > u64::MAX {
        Err(data_error("series cold value dictionary range overflows"))
    } else {
        Ok(
            Range {
                start: (meta.values_offset + 4 * code) as u64,
                end: (meta.values_offset + 4 * code + 4) as u64,
            },
        )
    }
}

pub open spec fn value_result(bytes: Seq<u8>, meta: ValueDictMeta, code: u32) -> Result<
    u32,
    Error,
> {
    match value_range_result(meta, code) {
        Err(error) => Err(error),
        Ok(_) => if bytes.len() != 4 {
            Err(data_error("series cold value dictionary value length is not exact"))
        } else {
            Ok(u32_at(bytes, 0))
        },
    }
}

pub open spec fn widths_range_result(fixed_header: Seq<u8>, entry_start: u64, entry_end: u64) -> Result<
    Range<u64>,
    Error,
> {
    let end = entry_start + 16 + u32_at(fixed_header, 4);
    if fixed_header.len() != 16 {
        Err(data_error("series cold keyset block header length is not exact"))
    } else if entry_start + 16 > entry_end {
        Err(data_error("series cold keyset block header exceeds its entry"))
    } else if end > u64::MAX {
        Err(data_error("series cold keyset block widths range overflows"))
    } else if end > entry_end {
        Err(data_error("series cold keyset block widths exceed its entry"))
    } else {
        Ok(Range { start: (entry_start + 16) as u64, end: end as u64 })
    }
}

/// The widths a value code can be packed in.
pub open spec fn valid_width(width: u8) -> bool {
    width == 0 || width == 1 || width == 2 || width == 4
}

/// The packed length of a row whose codes have the first `n` widths, or the
/// error of the first width that cannot be added.
pub open spec fn width_sum_result(widths: Seq<u8>, n: nat) -> Result<u32, Error>
    decreases n,
{
    if n == 0 {
        Ok(0u32)
    } else {
        match width_sum_result(widths, (n - 1) as nat) {
            Err(error) => Err(error),
            Ok(sum) => if !valid_width(widths[n - 1]) {
                Err(data_error("series cold value-code width is invalid"))
            } else if sum + widths[n - 1] > u32::MAX {
                Err(data_error("series cold keyset row width overflows"))
            } else {
                Ok((sum + widths[n - 1]) as u32)
            },
        }
    }
}

pub open spec fn block_result(
    fixed_header: Seq<u8>,
    widths: Seq<u8>,
    entry_start: u64,
    entry_end: u64,
) -> Result<KeySetBlock, Error> {
    let rows = u32_at(fixed_header, 0);
    let key_count = u32_at(fixed_header, 4);
    let row_len_bytes = u32_at(fixed_header, 8);
    let data_len = u32_at(fixed_header, 12);
    if fixed_header.len() != 16 {
        Err(data_error("series cold keyset block header length is not exact"))
    } else if rows == 0 {
        Err(data_error("series cold keyset block has no rows"))
    } else if widths.len() != key_count {
        Err(data_error("series cold keyset block width count mismatch"))
    } else {
        match width_sum_result(widths, widths.len()) {
            Err(error) => Err(error),
            Ok(width_sum) => if width_sum != row_len_bytes {
                Err(data_error("series cold keyset row length does not match its widths"))
            } else if rows * row_len_bytes > u32::MAX {
                Err(data_error("series cold keyset block data length overflows"))
            } else if rows * row_len_bytes != data_len {
                Err(data_error("series cold keyset block data length mismatch"))
            } else if entry_start + 16 + key_count > u64::MAX {
                Err(data_error("series cold keyset block data offset overflows"))
            } else if entry_start + 16 + key_count + data_len > u64::MAX {
                Err(data_error("series cold keyset block range overflows"))
            } else if entry_start + 16 + key_count + data_len != entry_end {
                Err(data_error("series cold keyset block entry length mismatch"))
            } else {
                Ok(
                    KeySetBlock {
                        rows,
                        key_count,
                        row_len_bytes,
                        data_len,
                        widths,
                        data_offset: (entry_start + 16 + key_count) as u64,
                    },
                )
            },
        }
    }
}

pub open spec fn row_range_result(block: KeySetBlock, row: u32) -> Result<Range<u64>, Error> {
    let start = block.data_offset + row * block.row_len_bytes;
    let end = start + block.row_len_bytes;
    let data_end = block.data_offset + block.data_len;
    if row >= block.rows {
        Err(data_error("series cold keyset block row is out of bounds"))
    } else if start > u64::MAX {
        Err(data_error("series cold keyset block row offset overflows"))
    } else if end > u64::MAX {
        Err(data_error("series cold keyset block row range overflows"))
    } else if data_end > u64::MAX {
        Err(data_error("series cold keyset block data range overflows"))
    } else if end > data_end {
        Err(data_error("series cold keyset block row exceeds its data range"))
    } else {
        Ok(Range { start: start as u64, end: end as u64 })
    }
}

/// The width in which a code of a dictionary with this many values is packed.
pub open spec fn canonical_width(cardinality: int) -> u8 {
    if cardinality <= 1 {
        0
    } else if cardinality <= 256 {
        1
    } else if cardinality <= 65_536 {
        2
    } else {
        4
    }
}

pub open spec fn canonical_width_result(cardinality: u32) -> Result<u8, Error> {
    if cardinality == 0 {
        Err(data_error("series cold value dictionary cardinality is zero"))
    } else {
        Ok(canonical_width(cardinality as int))
    }
}

pub open spec fn code_width_result(width: u8, cardinality: u32) -> Result<(), Error> {
    match canonical_width_result(cardinality) {
        Err(error) => Err(error),
        Ok(expected) => if width != expected {
            Err(data_error("series cold value-code width is noncanonical for its dictionary"))
        } else {
            Ok(())
        },
    }
}

/// The value code of the given width at `cursor`.
pub open spec fn code_at(row: Seq<u8>, cursor: int, width: u8) -> u32 {
    if width == 0 {
        0
    } else if width == 1 {
        row[cursor] as u32
    } else if width == 2 {
        u16_at(row, cursor) as u32
    } else {
        u32_at(row, cursor)
    }
}

pub open spec fn code_result(row: Seq<u8>, cursor: usize, width: u8) -> Result<u32, Error> {
    if !valid_width(width) {
        Err(data_error("series cold value-code width is invalid"))
    } else if width != 0 && cursor + width > usize::MAX {
        Err(eof_error("series cold row cursor overflows"))
    } else if width != 0 && cursor + width > row.len() {
        Err(eof_error("series cold packed row is truncated"))
    } else {
        Ok(code_at(row, cursor as int, width))
    }
}

/// Exact byte length of one absolute-offset table with its terminal offset.
pub fn checked_offset_table_len(entry_count: u32) -> (result: Result<u64, Error>)
    ensures
        result == Ok::<u64, Error>(table_len(entry_count) as u64),
{
    Ok((entry_count as u64 + 1) * OFFSET_LEN)
}

/// Validates that a cold section can contain the offset table implied by its count.
pub fn validate_offset_table_minimum(
    section_len: u64,
    entry_count: u32,
    what: ColdSectionName,
) -> (result: Result<(), Error>)
    ensures
        result == table_minimum_result(section_len, entry_count, what),
{
    let minimum: u64 = checked_offset_table_len(entry_count)?;
    if section_len < minimum {
        return Err(
            invalid_data(
                match what {
                    ColdSectionName::Keysets =>
                        "series cold keysets section is shorter than its offset table",
                    ColdSectionName::ValueDictionaries =>
                        "series cold value dictionaries section is shorter than its offset table",
                    ColdSectionName::KeysetBlocks =>
                        "series cold keyset blocks section is shorter than its offset table",
                    ColdSectionName::Section =>
                        "series cold section is shorter than its offset table",
                },
            ),
        );
    }
    Ok(())
}

/// Returns the exact complete offset-table range for one cold section.
pub fn offset_table_range(section_offset: u64, section_end: u64, entry_count: u32) -> (result:
    Result<Range<u64>, Error>)
    ensures
        result == table_range_result(section_offset, section_end, entry_count),
{
    if section_end < section_offset {
        return Err(invalid_data("series cold section bounds are reversed"));
    }
    let section_len: u64 = section_end - section_offset;
    validate_offset_table_minimum(section_len, entry_count, ColdSectionName::Section)?;
    let end: u64 = section_offset + checked_offset_table_len(entry_count)?;
    Ok(section_offset..end)
}

/// Returns the exact 16-byte offset-pair range needed to locate one entry.
pub fn offset_pair_range(
    section_offset: u64,
    section_end: u64,
    entry_count: u32,
    entry_index: u32,
) -> (result: Result<Range<u64>, Error>)
    ensures
        result == pair_range_result(section_offset, section_end, entry_count, entry_index),
{
    offset_table_range(section_offset, section_end, entry_count)?;
    if entry_index >= entry_count {
        return Err(invalid_data("series cold entry index is out of bounds"));
    }
    let start: u64 = section_offset + entry_index as u64 * OFFSET_LEN;
    Ok(start..start + OFFSET_PAIR_LEN as u64)
}

/// Decodes one offset pair into an exact entry range.
pub fn decode_entry_range(
    bytes: &[u8],
    section_offset: u64,
    section_end: u64,
    entry_count: u32,
    entry_index: u32,
) -> (result: Result<Range<u64>, Error>)
    ensures
        result == entry_range_result(
            bytes@,
            section_offset,
            section_end,
            entry_count,
            entry_index,
        ),
{
    offset_pair_range(section_offset, section_end, entry_count, entry_index)?;
    require_len(bytes, OFFSET_PAIR_LEN, ColdRangeName::OffsetPair)?;
    let start: u64 = read_u64_at(bytes, 0)?;
    let end: u64 = read_u64_at(bytes, 8)?;
    let entries_offset: u64 = section_offset + checked_offset_table_len(entry_count)?;
    if start >= end {
        return Err(invalid_data("series cold entry offsets are not strictly increasing"));
    }
    if start < entries_offset || end > section_end {
        return Err(invalid_data("series cold entry bounds are invalid"));
    }
    if entry_index == 0 && start != entries_offset {
        return Err(invalid_data("series cold first entry does not follow its offset table"));
    }
    if entry_index + 1 == entry_count && end != section_end {
        return Err(invalid_data("series cold final entry does not end at its section boundary"));
    }
    Ok(start..end)
}

/// Decodes and validates a complete absolute-offset table.
pub fn decode_offset_table(
    bytes: &[u8],
    section_offset: u64,
    section_end: u64,
    entry_count: u32,
) -> (result: Result<Vec<u64>, Error>)
    ensures
        vec_result(result) == table_result(bytes@, section_offset, section_end, entry_count),
{
    let table = offset_table_range(section_offset, section_end, entry_count)?;
    let expected_len: usize = usize_from_u64(
        checked_offset_table_len(entry_count)?,
        ColdLengthName::OffsetTable,
    )?;
    require_len(bytes, expected_len, ColdRangeName::OffsetTable)?;

    let mut offsets: Vec<u64> = Vec::with_capacity(expected_len / 8);
    if entry_count == 0 {
        let terminal: u64 = read_u64_at(bytes, 0)?;
        if terminal != table.end || terminal != section_end {
            return Err(
                invalid_data("series cold empty offset table does not end at its section boundary"),
            );
        }
        offsets.push(terminal);
        assert(offsets@ =~= seq![terminal]);
        return Ok(offsets);
    }
    let ghost expected = table_prefix_result(
        bytes@,
        section_offset,
        section_end,
        entry_count,
        entry_count as nat,
    );
    assert(table_result(bytes@, section_offset, section_end, entry_count) == expected);
    let mut entry_index: u32 = 0;
    while entry_index < entry_count
        invariant
            entry_index <= entry_count,
            bytes@.len() == table_len(entry_count),
            table_result(bytes@, section_offset, section_end, entry_count) == expected,
            expected == table_prefix_result(
                bytes@,
                section_offset,
                section_end,
                entry_count,
                entry_count as nat,
            ),
            table_prefix_result(
                bytes@,
                section_offset,
                section_end,
                entry_count,
                entry_index as nat,
            ) == Ok::<Seq<u64>, Error>(offsets@),
        decreases entry_count - entry_index,
    {
        assert(bytes@.len() == bytes.len());
        assert(8 * entry_index + 16 <= bytes.len());
        let pair_start: usize = entry_index as usize * OFFSET_LEN as usize;
        let pair_end: usize = pair_start + OFFSET_PAIR_LEN;
        let pair = &bytes[pair_start..pair_end];
        let range = match decode_entry_range(
            pair,
            section_offset,
            section_end,
            entry_count,
            entry_index,
        ) {
            Ok(range) => range,
            Err(error) => {
                proof {
                    lemma_table_error(
                        bytes@,
                        section_offset,
                        section_end,
                        entry_count,
                        (entry_index + 1) as nat,
                        entry_count as nat,
                    );
                }
                return Err(error);
            },
        };
        if entry_index == 0 {
            offsets.push(range.start);
        }
        offsets.push(range.end);
        assert(entry_index == 0 ==> offsets@ =~= seq![range.start, range.end]);
        entry_index += 1;
    }
    Ok(offsets)
}

/// A malformed entry makes the whole table malformed.
proof fn lemma_table_error(
    bytes: Seq<u8>,
    section_offset: u64,
    section_end: u64,
    entry_count: u32,
    n: nat,
    m: nat,
)
    requires
        n <= m,
        table_prefix_result(bytes, section_offset, section_end, entry_count, n) is Err,
    ensures
        table_prefix_result(bytes, section_offset, section_end, entry_count, m)
            == table_prefix_result(bytes, section_offset, section_end, entry_count, n),
    decreases m,
{
    if n < m {
        lemma_table_error(bytes, section_offset, section_end, entry_count, n, (m - 1) as nat);
    }
}

/// Decodes one exact keyset entry and enforces canonical key order.
pub fn decode_keyset_entry(bytes: &[u8], entry_start: u64, entry_end: u64) -> (result: Result<
    Vec<u32>,
    Error,
>)
    ensures
        vec_result(result) == keyset_result(bytes@, entry_start, entry_end),
{
    require_range_len(bytes, entry_start, entry_end, ColdRangeName::KeysetEntry)?;
    if bytes.len() < KEYSET_HEADER_LEN as usize {
        return Err(unexpected_eof("series cold keyset header is truncated"));
    }
    let key_count: u32 = read_u32_at(bytes, 0)?;
    if read_u32_at(bytes, 4)? != 0 {
        return Err(invalid_data("series cold keyset reserved field is nonzero"));
    }
    let expected_len: u64 = KEYSET_HEADER_LEN + key_count as u64 * 4;
    if expected_len != bytes.len() as u64 {
        return Err(invalid_data("series cold keyset entry length mismatch"));
    }
    let count: usize = key_count as usize;
    let mut keys: Vec<u32> = Vec::with_capacity(count);
    let ghost all = keyset_keys(bytes@);
    let mut index: usize = 0;
    while index < count
        invariant
            index <= count,
            count == u32_at(bytes@, 0),
            bytes@.len() == 8 + 4 * count,
            all == keyset_keys(bytes@),
            keys@ == all.take(index as int),
            strictly_increasing(keys@),
            keyset_result(bytes@, entry_start, entry_end) == (if strictly_increasing(all) {
                Ok::<Seq<u32>, Error>(all)
            } else {
                Err(data_error("series cold keyset keys are not strictly increasing"))
            }),
        decreases count - index,
    {
        assert(bytes@.len() == bytes.len());
        let key: u32 = read_u32_at(bytes, KEYSET_HEADER_LEN as usize + index * 4)?;
        assert(key == all[index as int]);
        if index > 0 && keys[index - 1] >= key {
            assert(all[index - 1] >= all[index as int]);
            return Err(invalid_data("series cold keyset keys are not strictly increasing"));
        }
        keys.push(key);
        index += 1;
        assert(keys@ =~= all.take(index as int));
    }
    assert(all.take(count as int) =~= all);
    Ok(keys)
}

/// Returns the exact fixed header range for one value dictionary entry.
pub fn value_dict_header_range(entry_start: u64, entry_end: u64) -> (result: Result<
    Range<u64>,
    Error,
>)
    ensures
        result == prefix_range_result(
            entry_start,
            entry_end,
            8,
            "series cold value dictionary header exceeds its entry",
        ),
{
    fixed_prefix_range(
        entry_start,
        entry_end,
        VALUE_DICT_HEADER_LEN,
        "series cold value dictionary header exceeds its entry",
    )
}

/// Decodes an exact value-dictionary header and validates its full entry range.
pub fn decode_value_dict_meta(header_bytes: &[u8], entry_start: u64, entry_end: u64) -> (result:
    Result<ValueDictMeta, Error>)
    ensures
        result == value_dict_meta_result(header_bytes@, entry_start, entry_end),
{
    require_len(header_bytes, VALUE_DICT_HEADER_LEN as usize, ColdRangeName::ValueDictHeader)?;
    let key_sym: u32 = read_u32_at(header_bytes, 0)?;
    let cardinality: u32 = read_u32_at(header_bytes, 4)?;
    if cardinality == 0 {
        return Err(invalid_data("series cold value dictionary cardinality is zero"));
    }
    let entry_len: u64 = VALUE_DICT_HEADER_LEN + cardinality as u64 * 4;
    let expected_end: u64 = match entry_start.checked_add(entry_len) {
        Some(end) => end,
        None => {
            return Err(invalid_data("series cold value dictionary range overflows"));
        },
    };
    if expected_end != entry_end {
        return Err(invalid_data("series cold value dictionary entry length mismatch"));
    }
    Ok(
        ValueDictMeta {
            key_sym,
            values_offset: entry_start + VALUE_DICT_HEADER_LEN,
            cardinality,
        },
    )
}

/// Decodes one exact complete value dictionary.
pub fn decode_value_dict_values(bytes: &[u8], meta: ValueDictMeta) -> (result: Result<
    Vec<u32>,
    Error,
>)
    ensures
        vec_result(result) == value_dict_values_result(bytes@, meta),
{
    let expected_len: usize = usize_from_u64(
        meta.cardinality as u64 * 4,
        ColdLengthName::ValueDictionary,
    )?;
    require_len(bytes, expected_len, ColdRangeName::ValueDictValues)?;
    let count: usize = meta.cardinality as usize;
    let mut values: Vec<u32> = Vec::with_capacity(count);
    let mut index: usize = 0;
    while index < count
        invariant
            index <= count,
            count == meta.cardinality,
            bytes@.len() == 4 * count,
            values@ == Seq::new(index as nat, |i: int| u32_at(bytes@, 4 * i)),
            value_dict_values_result(bytes@, meta) == Ok::<Seq<u32>, Error>(
                Seq::new(count as nat, |i: int| u32_at(bytes@, 4 * i)),
            ),
        decreases count - index,
    {
        assert(bytes@.len() == bytes.len());
        let value: u32 = read_u32_at(bytes, index * 4)?;
        values.push(value);
        index += 1;
        assert(values@ =~= Seq::new(index as nat, |i: int| u32_at(bytes@, 4 * i)));
    }
    Ok(values)
}

/// Decodes one exact sparse dictionary value after checking its code bound.
pub fn decode_value_dict_value(bytes: &[u8], meta: ValueDictMeta, code: u32) -> (result: Result<
    u32,
    Error,
>)
    ensures
        result == value_result(bytes@, meta, code),
{
    value_dict_value_range(meta, code)?;
    require_len(bytes, 4, ColdRangeName::ValueDictValue)?;
    read_u32_at(bytes, 0)
}

/// Returns the exact four-byte range for one sparse dictionary value.
pub fn value_dict_value_range(meta: ValueDictMeta, code: u32) -> (result: Result<
    Range<u64>,
    Error,
>)
    ensures
        result == value_range_result(meta, code),
{
    if code >= meta.cardinality {
        return Err(invalid_data("series cold value code is out of bounds"));
    }
    let start: u64 = match meta.values_offset.checked_add(code as u64 * 4) {
        Some(start) => start,
        None => {
            return Err(invalid_data("series cold value dictionary offset overflows"));
        },
    };
    match start.checked_add(4) {
        Some(end) => Ok(start..end),
        None => Err(invalid_data("series cold value dictionary range overflows")),
    }
}

/// Returns the exact fixed header range for one keyset block.
pub fn keyset_block_header_range(entry_start: u64, entry_end: u64) -> (result: Result<
    Range<u64>,
    Error,
>)
    ensures
        result == prefix_range_result(
            entry_start,
            entry_end,
            16,
            "series cold keyset block header exceeds its entry",
        ),
{
    fixed_prefix_range(
        entry_start,
        entry_end,
        KEYSET_BLOCK_HEADER_LEN,
        "series cold keyset block header exceeds its entry",
    )
}

/// Returns the exact width-array range after decoding a fixed block header.
pub fn keyset_block_widths_range(fixed_header: &[u8], entry_start: u64, entry_end: u64) -> (result:
    Result<Range<u64>, Error>)
    ensures
        result == widths_range_result(fixed_header@, entry_start, entry_end),
{
    require_len(fixed_header, KEYSET_BLOCK_HEADER_LEN as usize, ColdRangeName::KeysetBlockHeader)?;
    let key_count: u32 = read_u32_at(fixed_header, 4)?;
    let start: u64 = keyset_block_header_range(entry_start, entry_end)?.end;
    let end: u64 = match start.checked_add(key_count as u64) {
        Some(end) => end,
        None => {
            return Err(invalid_data("series cold keyset block widths range overflows"));
        },
    };
    if end > entry_end {
        return Err(invalid_data("series cold keyset block widths exceed its entry"));
    }
    Ok(start..end)
}

/// Sums the widths of one packed row.
fn packed_row_len(widths: &[u8]) -> (result: Result<u32, Error>)
    ensures
        result == width_sum_result(widths@, widths@.len()),
{
    let mut width_sum: u32 = 0;
    let mut index: usize = 0;
    while index < widths.len()
        invariant
            index <= widths@.len(),
            width_sum_result(widths@, index as nat) == Ok::<u32, Error>(width_sum),
        decreases widths@.len() - index,
    {
        let width: u8 = widths[index];
        if width != 0 && width != 1 && width != 2 && width != 4 {
            proof {
                lemma_width_error(widths@, (index + 1) as nat, widths@.len());
            }
            return Err(invalid_data("series cold value-code width is invalid"));
        }
        width_sum = match width_sum.checked_add(width as u32) {
            Some(sum) => sum,
            None => {
                proof {
                    lemma_width_error(widths@, (index + 1) as nat, widths@.len());
                }
                return Err(invalid_data("series cold keyset row width overflows"));
            },
        };
        index += 1;
    }
    Ok(width_sum)
}

/// A width that cannot be added makes the whole row malformed.
proof fn lemma_width_error(widths: Seq<u8>, n: nat, m: nat)
    requires
        n <= m,
        width_sum_result(widths, n) is Err,
    ensures
        width_sum_result(widths, m) == width_sum_result(widths, n),
    decreases m,
{
    if n < m {
        lemma_width_error(widths, n, (m - 1) as nat);
    }
}

/// A block's result over its view.
pub open spec fn block_view(result: Result<KeySetBlockMeta, Error>) -> Result<KeySetBlock, Error> {
    match result {
        Ok(block) => Ok(block@),
        Err(error) => Err(error),
    }
}

/// Decodes one exact block header plus width array.
pub fn decode_keyset_block_meta(
    fixed_header: &[u8],
    widths: &[u8],
    entry_start: u64,
    entry_end: u64,
) -> (result: Result<KeySetBlockMeta, Error>)
    ensures
        block_view(result) == block_result(fixed_header@, widths@, entry_start, entry_end),
{
    require_len(fixed_header, KEYSET_BLOCK_HEADER_LEN as usize, ColdRangeName::KeysetBlockHeader)?;
    let rows: u32 = read_u32_at(fixed_header, 0)?;
    let key_count: u32 = read_u32_at(fixed_header, 4)?;
    let row_len_bytes: u32 = read_u32_at(fixed_header, 8)?;
    let data_len: u32 = read_u32_at(fixed_header, 12)?;
    if rows == 0 {
        return Err(invalid_data("series cold keyset block has no rows"));
    }
    if widths.len() != key_count as usize {
        return Err(invalid_data("series cold keyset block width count mismatch"));
    }
    let width_sum: u32 = packed_row_len(widths)?;
    if width_sum != row_len_bytes {
        return Err(invalid_data("series cold keyset row length does not match its widths"));
    }
    let expected_data_len: u32 = match rows.checked_mul(row_len_bytes) {
        Some(len) => len,
        None => {
            return Err(invalid_data("series cold keyset block data length overflows"));
        },
    };
    if expected_data_len != data_len {
        return Err(invalid_data("series cold keyset block data length mismatch"));
    }
    let prefix_len: u64 = KEYSET_BLOCK_HEADER_LEN + key_count as u64;
    let data_offset: u64 = match entry_start.checked_add(prefix_len) {
        Some(offset) => offset,
        None => {
            return Err(invalid_data("series cold keyset block data offset overflows"));
        },
    };
    let expected_end: u64 = match data_offset.checked_add(data_len as u64) {
        Some(end) => end,
        None => {
            return Err(invalid_data("series cold keyset block range overflows"));
        },
    };
    if expected_end != entry_end {
        return Err(invalid_data("series cold keyset block entry length mismatch"));
    }
    let mut owned_widths: Vec<u8> = Vec::with_capacity(widths.len());
    owned_widths.extend_from_slice(widths);
    assert(owned_widths@ =~= widths@);
    Ok(
        KeySetBlockMeta {
            rows,
            key_count,
            row_len_bytes,
            data_len,
            widths: owned_widths,
            data_offset,
        },
    )
}

/// Returns the exact packed byte range for one validated block row.
pub fn keyset_block_row_range(block: &KeySetBlockMeta, row: u32) -> (result: Result<
    Range<u64>,
    Error,
>)
    ensures
        result == row_range_result(block@, row),
{
    if row >= block.rows {
        return Err(invalid_data("series cold keyset block row is out of bounds"));
    }
    let row_len: u32 = block.row_len_bytes;
    assert(0 <= row * row_len <= u64::MAX) by (nonlinear_arith)
        requires
            row <= u32::MAX,
            row_len <= u32::MAX,
    ;
    let row_offset: u64 = row as u64 * row_len as u64;
    let start: u64 = match block.data_offset.checked_add(row_offset) {
        Some(start) => start,
        None => {
            return Err(invalid_data("series cold keyset block row offset overflows"));
        },
    };
    let end: u64 = match start.checked_add(row_len as u64) {
        Some(end) => end,
        None => {
            return Err(invalid_data("series cold keyset block row range overflows"));
        },
    };
    let data_end: u64 = match block.data_offset.checked_add(block.data_len as u64) {
        Some(end) => end,
        None => {
            return Err(invalid_data("series cold keyset block data range overflows"));
        },
    };
    if end > data_end {
        return Err(invalid_data("series cold keyset block row exceeds its data range"));
    }
    Ok(start..end)
}

pub fn validate_keyset_block_key_count(block: &KeySetBlockMeta, key_count: usize) -> (result:
    Result<(), Error>)
    ensures
        result == (if block.key_count != key_count {
            Err(data_error("series cold keyset and block key counts differ"))
        } else {
            Ok::<(), Error>(())
        }),
{
    if block.key_count as usize != key_count {
        return Err(invalid_data("series cold keyset and block key counts differ"));
    }
    Ok(())
}

pub fn canonical_value_code_width(cardinality: u32) -> (result: Result<u8, Error>)
    ensures
        result == canonical_width_result(cardinality),
{
    if cardinality == 0 {
        Err(invalid_data("series cold value dictionary cardinality is zero"))
    } else if cardinality == 1 {
        Ok(0)
    } else if cardinality <= 256 {
        Ok(1)
    } else if cardinality <= 65_536 {
        Ok(2)
    } else {
        Ok(4)
    }
}

pub fn validate_value_code_width(width: u8, cardinality: u32) -> (result: Result<(), Error>)
    ensures
        result == code_width_result(width, cardinality),
{
    let expected: u8 = canonical_value_code_width(cardinality)?;
    if width != expected {
        return Err(invalid_data("series cold value-code width is noncanonical for its dictionary"));
    }
    Ok(())
}

/// Reads one value code of a packed row and moves the cursor behind it.
pub fn read_value_code(row: &[u8], cursor: &mut usize, width: u8) -> (result: Result<u32, Error>)
    ensures
        result == code_result(row@, *old(cursor), width),
        *final(cursor) == (if result is Ok {
            (*old(cursor) + width) as usize
        } else {
            *old(cursor)
        }),
{
    match width {
        0 => Ok(0),
        1 => {
            let encoded = read_exact_array(row, cursor, 1)?;
            Ok(encoded[0] as u32)
        },
        2 => {
            let encoded = read_exact_array(row, cursor, 2)?;
            Ok(encoded[0] as u32 + 0x100 * encoded[1] as u32)
        },
        4 => {
            let encoded = read_exact_array(row, cursor, 4)?;
            Ok(read_u32(encoded, 0))
        },
        _ => Err(invalid_data("series cold value-code width is invalid")),
    }
}

/// Returns the first `prefix_len` bytes of an entry as a range.
pub fn fixed_prefix_range(
    entry_start: u64,
    entry_end: u64,
    prefix_len: u64,
    overflow_message: &'static str,
) -> (result: Result<Range<u64>, Error>)
    ensures
        result == prefix_range_result(entry_start, entry_end, prefix_len, overflow_message),
{
    match entry_start.checked_add(prefix_len) {
        Some(end) => if end > entry_end {
            Err(invalid_data(overflow_message))
        } else {
            Ok(entry_start..end)
        },
        None => Err(invalid_data(overflow_message)),
    }
}

pub fn require_range_len(bytes: &[u8], start: u64, end: u64, what: ColdRangeName) -> (result:
    Result<(), Error>)
    ensures
        result == (if end < start {
            Err(data_error("series cold entry bounds are reversed"))
        } else if end - start != bytes@.len() {
            Err(
                data_error(
                    match what {
                        ColdRangeName::KeysetEntry =>
                            "series cold keyset entry length is not exact",
                        _ => "series cold entry length is not exact",
                    },
                ),
            )
        } else {
            Ok::<(), Error>(())
        }),
{
    if end < start {
        return Err(invalid_data("series cold entry bounds are reversed"));
    }
    if end - start != bytes.len() as u64 {
        return Err(
            invalid_data(
                match what {
                    ColdRangeName::KeysetEntry => "series cold keyset entry length is not exact",
                    _ => "series cold entry length is not exact",
                },
            ),
        );
    }
    Ok(())
}

pub open spec fn inexact_text(what: ColdRangeName) -> &'static str {
    match what {
        ColdRangeName::OffsetPair => "series cold offset pair length is not exact",
        ColdRangeName::OffsetTable => "series cold offset table length is not exact",
        ColdRangeName::ValueDictHeader => "series cold value dictionary header length is not exact",
        ColdRangeName::ValueDictValues => "series cold value dictionary values length is not exact",
        ColdRangeName::ValueDictValue => "series cold value dictionary value length is not exact",
        ColdRangeName::KeysetBlockHeader => "series cold keyset block header length is not exact",
        _ => "series cold range length is not exact",
    }
}

pub fn require_len(bytes: &[u8], expected: usize, what: ColdRangeName) -> (result: Result<
    (),
    Error,
>)
    ensures
        result == (if bytes@.len() != expected {
            Err(data_error(inexact_text(what)))
        } else {
            Ok::<(), Error>(())
        }),
{
    if bytes.len() != expected {
        return Err(
            invalid_data(
                match what {
                    ColdRangeName::OffsetPair => "series cold offset pair length is not exact",
                    ColdRangeName::OffsetTable => "series cold offset table length is not exact",
                    ColdRangeName::ValueDictHeader =>
                        "series cold value dictionary header length is not exact",
                    ColdRangeName::ValueDictValues =>
                        "series cold value dictionary values length is not exact",
                    ColdRangeName::ValueDictValue =>
                        "series cold value dictionary value length is not exact",
                    ColdRangeName::KeysetBlockHeader =>
                        "series cold keyset block header length is not exact",
                    _ => "series cold range length is not exact",
                },
            ),
        );
    }
    Ok(())
}

pub fn read_u32_at(bytes: &[u8], offset: usize) -> (result: Result<u32, Error>)
    ensures
        result == (if offset + 4 > usize::MAX {
            Err(eof_error("series cold u32 offset overflows"))
        } else if offset + 4 > bytes@.len() {
            Err(eof_error("series cold u32 is truncated"))
        } else {
            Ok::<u32, Error>(u32_at(bytes@, offset as int))
        }),
{
    match offset.checked_add(4) {
        None => Err(unexpected_eof("series cold u32 offset overflows")),
        Some(end) => if end > bytes.len() {
            Err(unexpected_eof("series cold u32 is truncated"))
        } else {
            Ok(read_u32(bytes, offset))
        },
    }
}

pub fn read_u64_at(bytes: &[u8], offset: usize) -> (result: Result<u64, Error>)
    ensures
        result == (if offset + 8 > usize::MAX {
            Err(eof_error("series cold u64 offset overflows"))
        } else if offset + 8 > bytes@.len() {
            Err(eof_error("series cold u64 is truncated"))
        } else {
            Ok::<u64, Error>(u64_at(bytes@, offset as int))
        }),
{
    match offset.checked_add(8) {
        None => Err(unexpected_eof("series cold u64 offset overflows")),
        Some(end) => if end > bytes.len() {
            Err(unexpected_eof("series cold u64 is truncated"))
        } else {
            Ok(read_u64(bytes, offset))
        },
    }
}

/// Borrows the next `len` bytes and moves the cursor behind them.
pub fn read_exact_array<'a>(bytes: &'a [u8], cursor: &mut usize, len: usize) -> (result: Result<
    &'a [u8],
    Error,
>)
    ensures
        *old(cursor) + len > usize::MAX ==> result == Err::<&'a [u8], Error>(
            eof_error("series cold row cursor overflows"),
        ),
        bytes@.len() < *old(cursor) + len <= usize::MAX ==> result == Err::<&'a [u8], Error>(
            eof_error("series cold packed row is truncated"),
        ),
        *old(cursor) + len <= bytes@.len() ==> {
            &&& result is Ok
            &&& result->Ok_0@ == bytes@.subrange(*old(cursor) as int, *old(cursor) + len)
        },
        *final(cursor) == (if result is Ok {
            (*old(cursor) + len) as usize
        } else {
            *old(cursor)
        }),
{
    assert(bytes@.len() == bytes.len());
    let end: usize = match cursor.checked_add(len) {
        Some(end) => end,
        None => {
            return Err(unexpected_eof("series cold row cursor overflows"));
        },
    };
    if end > bytes.len() {
        return Err(unexpected_eof("series cold packed row is truncated"));
    }
    let encoded = &bytes[*cursor..end];
    *cursor = end;
    Ok(encoded)
}

pub open spec fn usize_result(value: u64, what: ColdLengthName) -> Result<usize, Error> {
    if value > usize::MAX {
        Err(
            memory_error(
                match what {
                    ColdLengthName::OffsetTable => "series cold offset table length exceeds usize",
                    ColdLengthName::ValueDictionary =>
                        "series cold value dictionary length exceeds usize",
                    ColdLengthName::Length => "series cold length exceeds usize",
                },
            ),
        )
    } else {
        Ok(value as usize)
    }
}

pub fn usize_from_u64(value: u64, what: ColdLengthName) -> (result: Result<usize, Error>)
    ensures
        result == usize_result(value, what),
{
    match usize::try_from(value) {
        Ok(value) => Ok(value),
        Err(_) => Err(
            resource_error(
                match what {
                    ColdLengthName::OffsetTable => "series cold offset table length exceeds usize",
                    ColdLengthName::ValueDictionary =>
                        "series cold value dictionary length exceeds usize",
                    ColdLengthName::Length => "series cold length exceeds usize",
                },
            ),
        ),
    }
}

/// The offsets of a decoded table are the stored ones, increase strictly,
/// begin right behind the table and end at the section's end.
pub proof fn offset_table_law(
    bytes: Seq<u8>,
    section_offset: u64,
    section_end: u64,
    entry_count: u32,
)
    requires
        table_result(bytes, section_offset, section_end, entry_count) is Ok,
    ensures
        ({
            let offsets = table_result(bytes, section_offset, section_end, entry_count)->Ok_0;
            &&& offsets.len() == entry_count + 1
            &&& offsets[0] == section_offset + table_len(entry_count)
            &&& offsets[entry_count as int] == section_end
            &&& forall|i: int, j: int| 0 <= i < j <= entry_count ==> offsets[i] < offsets[j]
            &&& forall|i: int| 0 <= i <= entry_count ==> #[trigger] offsets[i] == u64_at(bytes, 8 * i)
        }),
{
    if entry_count > 0 {
        lemma_table_prefix(bytes, section_offset, section_end, entry_count, entry_count as nat);
    }
}

proof fn lemma_table_prefix(
    bytes: Seq<u8>,
    section_offset: u64,
    section_end: u64,
    entry_count: u32,
    n: nat,
)
    requires
        1 <= n <= entry_count,
        bytes.len() == table_len(entry_count),
        table_prefix_result(bytes, section_offset, section_end, entry_count, n) is Ok,
    ensures
        ({
            let offsets = table_prefix_result(
                bytes,
                section_offset,
                section_end,
                entry_count,
                n,
            )->Ok_0;
            &&& offsets.len() == n + 1
            &&& offsets[0] == section_offset + table_len(entry_count)
            &&& n == entry_count ==> offsets[n as int] == section_end
            &&& forall|i: int, j: int| 0 <= i < j <= n ==> offsets[i] < offsets[j]
            &&& forall|i: int| 0 <= i <= n ==> #[trigger] offsets[i] == u64_at(bytes, 8 * i)
        }),
    decreases n,
{
    let pair = bytes.subrange(8 * (n - 1), 8 * (n - 1) + 16);
    assert(pair.subrange(0, 8) =~= bytes.subrange(8 * (n - 1), 8 * (n - 1) + 8));
    assert(pair.subrange(8, 16) =~= bytes.subrange(8 * (n as int), 8 * (n as int) + 8));
    crate::bytes::lemma_u64_at_window(pair, 0, bytes, 8 * (n - 1));
    crate::bytes::lemma_u64_at_window(pair, 8, bytes, 8 * (n as int));
    let offsets = table_prefix_result(bytes, section_offset, section_end, entry_count, n)->Ok_0;
    if n > 1 {
        let before = table_prefix_result(
            bytes,
            section_offset,
            section_end,
            entry_count,
            (n - 1) as nat,
        )->Ok_0;
        lemma_table_prefix(bytes, section_offset, section_end, entry_count, (n - 1) as nat);
        assert(offsets == before.push(u64_at(pair, 8)));
        assert forall|i: int, j: int| 0 <= i < j <= n implies offsets[i] < offsets[j] by {
            if j == n {
                assert(before[n - 1] == u64_at(bytes, 8 * (n - 1)));
                assert(i < n - 1 ==> before[i] < before[n - 1]);
            } else {
                assert(before[i] < before[j]);
            }
        }
    } else {
        assert(offsets == seq![u64_at(pair, 0), u64_at(pair, 8)]);
    }
}

/// The rows of a decoded block tile its data: row `i` ends where row `i + 1`
/// begins, the first row begins the data and the last row ends the entry.
pub proof fn block_rows_law(
    fixed_header: Seq<u8>,
    widths: Seq<u8>,
    entry_start: u64,
    entry_end: u64,
    row: u32,
)
    requires
        block_result(fixed_header, widths, entry_start, entry_end) is Ok,
        row < block_result(fixed_header, widths, entry_start, entry_end)->Ok_0.rows,
    ensures
        ({
            let block = block_result(fixed_header, widths, entry_start, entry_end)->Ok_0;
            let range = row_range_result(block, row);
            &&& range is Ok
            &&& range->Ok_0.start == block.data_offset + row * block.row_len_bytes
            &&& range->Ok_0.end == block.data_offset + (row + 1) * block.row_len_bytes
            &&& row + 1 == block.rows ==> range->Ok_0.end == entry_end
        }),
{
    let block = block_result(fixed_header, widths, entry_start, entry_end)->Ok_0;
    let len = block.row_len_bytes as int;
    assert((row + 1) * len == row * len + len) by (nonlinear_arith);
    assert((row + 1) * len <= block.rows * len) by (nonlinear_arith)
        requires
            row + 1 <= block.rows,
            0 <= len,
    ;
    assert(row * len >= 0) by (nonlinear_arith)
        requires
            0 <= len,
    ;
}

} // verus!
