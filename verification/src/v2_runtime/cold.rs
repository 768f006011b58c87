//! Reading label rows of the cold stream.

use core::mem::size_of;
use core::ops::Range;

use vstd::prelude::*;

use super::root::{Schema6SeriesRootV2, SeriesTableEntryV2};
use super::scratch::{ran_out6, reserve6, reserve_both6};
use super::table::{checked_struct_and_vec_bytes, checked_vec_bytes, owned_bytes_result};
use super::{
    corrupt6, recorded6, series_range_result, GovernedSchema6SeriesRoot,
    GovernedSchema6SeriesSession, Schema6SeriesReaderError, SeriesSession6,
};
use crate::budget::answers;
use crate::bytes::copy_bytes;
use crate::capacity::vec_capacity;
use crate::cold_v2::lookup::{ColdSection, ColdStream};
use crate::cold_v2::reader::{
    code_result, code_width_result, decode_entry_range, decode_keyset_block_meta,
    decode_keyset_entry, decode_value_dict_meta, decode_value_dict_value,
    keyset_block_header_range, keyset_block_row_range, keyset_block_widths_range,
    offset_pair_range, read_value_code, row_range_result, validate_keyset_block_key_count,
    validate_value_code_width, value_dict_header_range, value_dict_value_range,
    value_range_result, value_result, KeySetBlock, KeySetBlockMeta, ValueDictMeta,
    KEYSET_BLOCK_HEADER_LEN,
};
use crate::error::{invalid_data, Error};

verus! {

/// The cold stream of a segment.
pub open spec fn cold_stream6(session: SeriesSession6, root: Schema6SeriesRootV2) -> ColdStream<
    Schema6SeriesReaderError,
> {
    let header = root.header;
    ColdStream {
        read: |start: u64, end: u64| series_range_result(session.series, start, end),
        fail: |error: Error| Schema6SeriesReaderError::Cache(error),
        keysets: ColdSection {
            offset: header.keysets_offset,
            end: header.value_dicts_offset,
            count: header.num_keysets,
        },
        value_dicts: ColdSection {
            offset: header.value_dicts_offset,
            end: header.keyset_blocks_offset,
            count: header.num_value_dicts,
        },
        keyset_blocks: ColdSection {
            offset: header.keyset_blocks_offset,
            end: header.meta_offset,
            count: header.num_keysets,
        },
    }
}

/// The value of a code of a dictionary.
pub open spec fn value_sym_result(session: SeriesSession6, meta: ValueDictMeta, code: u32) -> Result<
    u32,
    Schema6SeriesReaderError,
> {
    match recorded6(value_range_result(meta, code)) {
        Err(error) => Err(error),
        Ok(range) => match series_range_result(session.series, range.start, range.end) {
            Err(error) => Err(error),
            Ok(bytes) => recorded6(value_result(bytes, meta, code)),
        },
    }
}

/// The header of the dictionary of a key.
#[verifier::opaque]
pub open spec fn dict_result(session: SeriesSession6, root: Schema6SeriesRootV2, key_sym: u32) -> Result<
    ValueDictMeta,
    Schema6SeriesReaderError,
> {
    match cold_stream6(session, root).find(
        key_sym,
        0,
        root.header.num_value_dicts,
        corrupt6("schema-6 value dictionary is missing"),
    ) {
        Err(error) => Err(error),
        Ok((meta, _)) => Ok(meta),
    }
}

/// The first `n` labels of a packed row, and where the next code begins.
pub open spec fn label_prefix_result(
    session: SeriesSession6,
    root: Schema6SeriesRootV2,
    keys: Seq<u32>,
    widths: Seq<u8>,
    row: Seq<u8>,
    n: nat,
) -> Result<(Seq<(u32, u32)>, usize), Schema6SeriesReaderError>
    decreases n,
{
    if n == 0 {
        Ok((Seq::empty(), 0usize))
    } else {
        match label_prefix_result(session, root, keys, widths, row, (n - 1) as nat) {
            Err(error) => Err(error),
            Ok((labels, cursor)) => match dict_result(session, root, keys[n - 1]) {
                Err(error) => Err(error),
                Ok(meta) => if n - 1 >= widths.len() {
                    Err(corrupt6("schema-6 keyset block width is missing"))
                } else {
                    match recorded6(code_width_result(widths[n - 1], meta.cardinality)) {
                        Err(error) => Err(error),
                        Ok(_) => match recorded6(code_result(row, cursor, widths[n - 1])) {
                            Err(error) => Err(error),
                            Ok(code) => match value_sym_result(session, meta, code) {
                                Err(error) => Err(error),
                                Ok(value) => Ok(
                                    (
                                        labels.push((keys[n - 1], value)),
                                        (cursor + widths[n - 1]) as usize,
                                    ),
                                ),
                            },
                        },
                    }
                },
            },
        }
    }
}

/// The labels of a row of a keyset, as symbols.
#[verifier::opaque]
pub open spec fn label_ids_result(
    session: SeriesSession6,
    root: Schema6SeriesRootV2,
    keyset_id: u32,
    row_index: u32,
) -> Result<Seq<(u32, u32)>, Schema6SeriesReaderError> {
    let stream = cold_stream6(session, root);
    match stream.keyset(keyset_id) {
        Err(error) => Err(error),
        Ok(keys) => match stream.block(keyset_id) {
            Err(error) => Err(error),
            Ok(block) => if block.key_count != keys.len() {
                Err(corrupt6("series cold keyset and block key counts differ"))
            } else {
                match stream.row(
                    block,
                    row_index,
                    corrupt6("schema-6 series row is out of bounds"),
                ) {
                    Err(error) => Err(error),
                    Ok(row) => match label_prefix_result(
                        session,
                        root,
                        keys,
                        block.widths,
                        row,
                        keys.len(),
                    ) {
                        Err(error) => Err(error),
                        Ok((labels, cursor)) => if cursor != row.len() {
                            Err(corrupt6("schema-6 series row has trailing bytes"))
                        } else {
                            Ok(labels)
                        },
                    },
                }
            },
        },
    }
}

/// The range of an entry of a section.
#[derive(Debug, Clone, Copy, PartialEq, Eq, Structural)]
pub struct ValidatedColdEntryRange {
    pub start: u64,
    pub end: u64,
}

impl ValidatedColdEntryRange {
    pub fn as_range(&self) -> (range: Range<u64>)
        ensures
            range == (Range { start: self.start, end: self.end }),
    {
        self.start..self.end
    }
}

/// The keys of a keyset.
#[derive(Debug)]
pub struct ValidatedKeyset {
    pub keys: Vec<u32>,
}

impl ValidatedKeyset {
    /// The logical bytes of the keyset, at the capacity of its list.
    pub fn charged_bytes(&self) -> (result: Result<u64, Error>)
        ensures
            exists|capacity: usize|
                capacity >= self.keys@.len() && result == #[trigger] owned_bytes_result(
                    vstd::layout::size_of::<ValidatedKeyset>(),
                    vstd::layout::size_of::<u32>(),
                    capacity as nat,
                ),
    {
        checked_struct_and_vec_bytes::<Self, u32>(vec_capacity(&self.keys))
    }
}

/// A keyset block.
#[derive(Debug)]
pub struct ValidatedBlockMeta {
    pub value: KeySetBlockMeta,
}

impl ValidatedBlockMeta {
    /// The logical bytes of the block, at the capacity of its widths.
    pub fn charged_bytes(&self) -> (result: Result<u64, Error>)
        ensures
            exists|capacity: usize|
                capacity >= self.value.widths@.len() && result == #[trigger] owned_bytes_result(
                    vstd::layout::size_of::<ValidatedBlockMeta>(),
                    vstd::layout::size_of::<u8>(),
                    capacity as nat,
                ),
    {
        checked_struct_and_vec_bytes::<Self, u8>(vec_capacity(&self.value.widths))
    }
}

/// Where a block comes from: one without widths needs no second read.
#[derive(Debug)]
pub enum LoadedBlockMeta {
    EmptyWidths(KeySetBlockMeta),
    Cached(ValidatedBlockMeta),
}

impl View for LoadedBlockMeta {
    type V = KeySetBlock;

    open spec fn view(&self) -> KeySetBlock {
        match self {
            LoadedBlockMeta::EmptyWidths(value) => value@,
            LoadedBlockMeta::Cached(block) => block.value@,
        }
    }
}

impl LoadedBlockMeta {
    pub fn value(&self) -> (value: &KeySetBlockMeta)
        ensures
            value@ == self@,
    {
        match self {
            LoadedBlockMeta::EmptyWidths(value) => value,
            LoadedBlockMeta::Cached(block) => &block.value,
        }
    }
}

/// The packed codes of a row.
#[derive(Debug)]
pub struct ValidatedRow {
    pub bytes: Vec<u8>,
}

impl ValidatedRow {
    /// The logical bytes of the row, at the capacity of its list.
    pub fn charged_bytes(&self) -> (result: Result<u64, Error>)
        ensures
            exists|capacity: usize|
                capacity >= self.bytes@.len() && result == #[trigger] owned_bytes_result(
                    vstd::layout::size_of::<ValidatedRow>(),
                    vstd::layout::size_of::<u8>(),
                    capacity as nat,
                ),
    {
        checked_struct_and_vec_bytes::<Self, u8>(vec_capacity(&self.bytes))
    }
}

proof fn lemma_label_prefix_error(
    session: SeriesSession6,
    root: Schema6SeriesRootV2,
    keys: Seq<u32>,
    widths: Seq<u8>,
    row: Seq<u8>,
    n: nat,
    m: nat,
)
    requires
        n <= m,
        label_prefix_result(session, root, keys, widths, row, n) is Err,
    ensures
        label_prefix_result(session, root, keys, widths, row, m) == label_prefix_result(
            session,
            root,
            keys,
            widths,
            row,
            n,
        ),
    decreases m,
{
    if n < m {
        lemma_label_prefix_error(session, root, keys, widths, row, n, (m - 1) as nat);
    }
}

impl<'a> GovernedSchema6SeriesSession<'a> {
    fn corruption(&self, message: &'static str) -> (error: Schema6SeriesReaderError)
        ensures
            error == corrupt6(message),
    {
        self.record_series_error(invalid_data(message))
    }

    /// The range of an entry of a section.
    pub fn load_cold_entry_range<R: Fn(u64) -> bool>(
        &self,
        root: &GovernedSchema6SeriesRoot,
        section: ColdSection,
        entry_index: u32,
        reserve: &R,
    ) -> (result: Result<ValidatedColdEntryRange, Schema6SeriesReaderError>)
        requires
            answers(*reserve),
        ensures
            ran_out6(*reserve, result) || match cold_stream6(self@, root.value).entry_range(
                section,
                entry_index,
            ) {
                Err(error) => result == Err::<
                    ValidatedColdEntryRange,
                    Schema6SeriesReaderError,
                >(error),
                Ok(range) => result == Ok::<ValidatedColdEntryRange, Schema6SeriesReaderError>(
                    ValidatedColdEntryRange { start: range.start, end: range.end },
                ),
            },
    {
        let pair_range = self.record_series_result(
            offset_pair_range(section.offset, section.end, section.count, entry_index),
        )?;
        reserve6(reserve, size_of::<ValidatedColdEntryRange>() as u64)?;
        let bytes = self.read_series_range(pair_range.start, pair_range.end)?;
        let range = self.record_series_result(
            decode_entry_range(bytes, section.offset, section.end, section.count, entry_index),
        )?;
        Ok(ValidatedColdEntryRange { start: range.start, end: range.end })
    }

    /// The keys of a keyset.
    pub fn load_keyset<R: Fn(u64) -> bool>(
        &self,
        root: &GovernedSchema6SeriesRoot,
        keyset_id: u32,
        reserve: &R,
    ) -> (result: Result<ValidatedKeyset, Schema6SeriesReaderError>)
        requires
            answers(*reserve),
        ensures
            ran_out6(*reserve, result) || match cold_stream6(self@, root.value).keyset(keyset_id) {
                Err(error) => result == Err::<ValidatedKeyset, Schema6SeriesReaderError>(error),
                Ok(keys) => result is Ok && result->Ok_0.keys@ == keys,
            },
    {
        let section = ColdSection {
            offset: root.value.header.keysets_offset,
            end: root.value.header.value_dicts_offset,
            count: root.value.header.num_keysets,
        };
        let range = self.load_cold_entry_range(root, section, keyset_id, reserve)?.as_range();
        reserve_both6(
            reserve,
            size_of::<ValidatedKeyset>() as u64,
            range.end.saturating_sub(range.start),
        )?;
        let bytes = self.read_series_range(range.start, range.end)?;
        let keys = self.record_series_result(decode_keyset_entry(bytes, range.start, range.end))?;
        Ok(ValidatedKeyset { keys })
    }

    /// The block of a keyset.
    pub fn load_keyset_block<R: Fn(u64) -> bool>(
        &self,
        root: &GovernedSchema6SeriesRoot,
        keyset_id: u32,
        reserve: &R,
    ) -> (result: Result<LoadedBlockMeta, Schema6SeriesReaderError>)
        requires
            answers(*reserve),
        ensures
            ran_out6(*reserve, result) || match cold_stream6(self@, root.value).block(keyset_id) {
                Err(error) => result == Err::<LoadedBlockMeta, Schema6SeriesReaderError>(error),
                Ok(block) => result is Ok && result->Ok_0@ == block,
            },
    {
        let section = ColdSection {
            offset: root.value.header.keyset_blocks_offset,
            end: root.value.header.meta_offset,
            count: root.value.header.num_keysets,
        };
        let range = self.load_cold_entry_range(root, section, keyset_id, reserve)?.as_range();
        let fixed_range = self.record_series_result(
            keyset_block_header_range(range.start, range.end),
        )?;
        reserve6(reserve, KEYSET_BLOCK_HEADER_LEN)?;
        let fixed = self.read_series_range(fixed_range.start, fixed_range.end)?;
        let widths_range = self.record_series_result(
            keyset_block_widths_range(fixed, range.start, range.end),
        )?;
        if widths_range.start == widths_range.end {
            let widths = self.read_series_range(widths_range.start, widths_range.end)?;
            let value = self.record_series_result(
                decode_keyset_block_meta(fixed, widths, range.start, range.end),
            )?;
            return Ok(LoadedBlockMeta::EmptyWidths(value));
        }
        reserve_both6(
            reserve,
            size_of::<ValidatedBlockMeta>() as u64,
            widths_range.end.saturating_sub(widths_range.start),
        )?;
        let widths = self.read_series_range(widths_range.start, widths_range.end)?;
        let value = self.record_series_result(
            decode_keyset_block_meta(fixed, widths, range.start, range.end),
        )?;
        Ok(LoadedBlockMeta::Cached(ValidatedBlockMeta { value }))
    }

    /// The packed codes of a row.
    pub fn load_row<R: Fn(u64) -> bool>(&self, row: u32, block: &KeySetBlockMeta, reserve: &R) -> (
    result: Result<ValidatedRow, Schema6SeriesReaderError>)
        requires
            answers(*reserve),
        ensures
            ran_out6(*reserve, result) || match recorded6(row_range_result(block@, row)) {
                Err(error) => result == Err::<ValidatedRow, Schema6SeriesReaderError>(error),
                Ok(range) => match series_range_result(self@.series, range.start, range.end) {
                    Err(error) => result == Err::<ValidatedRow, Schema6SeriesReaderError>(error),
                    Ok(bytes) => result is Ok && result->Ok_0.bytes@ == bytes,
                },
            },
    {
        let range = self.record_series_result(keyset_block_row_range(block, row))?;
        reserve_both6(
            reserve,
            size_of::<ValidatedRow>() as u64,
            range.end.saturating_sub(range.start),
        )?;
        let bytes = self.read_series_range(range.start, range.end)?;
        Ok(ValidatedRow { bytes: copy_bytes(bytes) })
    }

    /// The header of a value dictionary, and where its entry ends.
    pub fn load_value_dict_meta<R: Fn(u64) -> bool>(
        &self,
        root: &GovernedSchema6SeriesRoot,
        dict_id: u32,
        reserve: &R,
    ) -> (result: Result<(ValueDictMeta, u64), Schema6SeriesReaderError>)
        requires
            answers(*reserve),
        ensures
            ran_out6(*reserve, result) || result == cold_stream6(self@, root.value).dict_meta(
                dict_id,
            ),
    {
        proof {
            reveal(ColdStream::dict_meta);
        }
        let section = ColdSection {
            offset: root.value.header.value_dicts_offset,
            end: root.value.header.keyset_blocks_offset,
            count: root.value.header.num_value_dicts,
        };
        let range = self.load_cold_entry_range(root, section, dict_id, reserve)?.as_range();
        let header_range = self.record_series_result(
            value_dict_header_range(range.start, range.end),
        )?;
        reserve6(reserve, size_of::<ValueDictMeta>() as u64)?;
        let bytes = self.read_series_range(header_range.start, header_range.end)?;
        let value = self.record_series_result(
            decode_value_dict_meta(bytes, range.start, range.end),
        )?;
        Ok((value, range.end))
    }

    /// The header of the dictionary of a key, by halving.
    pub fn find_value_dict<R: Fn(u64) -> bool>(
        &self,
        root: &GovernedSchema6SeriesRoot,
        key_sym: u32,
        reserve: &R,
    ) -> (result: Result<ValueDictMeta, Schema6SeriesReaderError>)
        requires
            answers(*reserve),
        ensures
            ran_out6(*reserve, result) || result == dict_result(self@, root.value, key_sym),
    {
        proof {
            reveal(dict_result);
        }
        let ghost stream = cold_stream6(self@, root.value);
        let ghost count = root.value.header.num_value_dicts;
        let ghost missing = corrupt6("schema-6 value dictionary is missing");
        let ghost found = stream.find(key_sym, 0, count, missing);
        let mut low: u32 = 0;
        let mut high: u32 = root.value.header.num_value_dicts;
        while low < high
            invariant
                answers(*reserve),
                stream == cold_stream6(self@, root.value),
                found == stream.find(key_sym, low, high, missing),
                dict_result(self@, root.value, key_sym) == (match found {
                    Err(error) => Err(error),
                    Ok((meta, _)) => Ok::<ValueDictMeta, Schema6SeriesReaderError>(meta),
                }),
            decreases high - low,
        {
            let mid: u32 = low + (high - low) / 2;
            let (meta, _) = self.load_value_dict_meta(root, mid, reserve)?;
            if meta.key_sym < key_sym {
                low = mid + 1;
            } else if meta.key_sym > key_sym {
                high = mid;
            } else {
                return Ok(meta);
            }
        }
        Err(self.corruption("schema-6 value dictionary is missing"))
    }

    /// The value of a code of a dictionary.
    pub fn load_value_sym<R: Fn(u64) -> bool>(
        &self,
        meta: ValueDictMeta,
        code: u32,
        reserve: &R,
    ) -> (result: Result<u32, Schema6SeriesReaderError>)
        requires
            answers(*reserve),
        ensures
            ran_out6(*reserve, result) || result == value_sym_result(self@, meta, code),
    {
        let range = self.record_series_result(value_dict_value_range(meta, code))?;
        reserve6(reserve, size_of::<u32>() as u64)?;
        let bytes = self.read_series_range(range.start, range.end)?;
        self.record_series_result(decode_value_dict_value(bytes, meta, code))
    }

    /// The labels of a series, as symbols.
    pub fn decode_label_ids<R: Fn(u64) -> bool>(
        &self,
        root: &GovernedSchema6SeriesRoot,
        table_entry: SeriesTableEntryV2,
        reserve: &R,
    ) -> (result: Result<Vec<(u32, u32)>, Schema6SeriesReaderError>)
        requires
            answers(*reserve),
        ensures
            ran_out6(*reserve, result) || match label_ids_result(
                self@,
                root.value,
                table_entry.keyset_id,
                table_entry.row,
            ) {
                Err(error) => result == Err::<Vec<(u32, u32)>, Schema6SeriesReaderError>(error),
                Ok(labels) => result is Ok && result->Ok_0@ == labels,
            },
    {
        proof {
            reveal(label_ids_result);
        }
        let keyset = self.load_keyset(root, table_entry.keyset_id, reserve)?;
        let declared: u64 = match checked_vec_bytes::<(u32, u32)>(
            keyset.keys.len(),
            "schema-6 label allocation charge overflows",
        ) {
            Ok(declared) => declared,
            Err(_) => u64::MAX,
        };
        reserve6(reserve, declared)?;
        let block = self.load_keyset_block(root, table_entry.keyset_id, reserve)?;
        self.record_series_result(
            validate_keyset_block_key_count(block.value(), keyset.keys.len()),
        )?;
        let row_bytes: Vec<u8> = if block.value().row_len_bytes == 0 {
            if table_entry.row >= block.value().rows {
                return Err(self.corruption("schema-6 series row is out of bounds"));
            }
            Vec::new()
        } else {
            self.load_row(table_entry.row, block.value(), reserve)?.bytes
        };
        assert(row_bytes@ =~= cold_stream6(self@, root.value).row(
            block@,
            table_entry.row,
            corrupt6("schema-6 series row is out of bounds"),
        )->Ok_0);
        self.decode_row_labels(root, &keyset.keys, &block.value().widths, &row_bytes, reserve)
    }

    /// The labels of a packed row.
    fn decode_row_labels<R: Fn(u64) -> bool>(
        &self,
        root: &GovernedSchema6SeriesRoot,
        keys: &[u32],
        widths: &[u8],
        row: &[u8],
        reserve: &R,
    ) -> (result: Result<Vec<(u32, u32)>, Schema6SeriesReaderError>)
        requires
            answers(*reserve),
        ensures
            ran_out6(*reserve, result) || match label_prefix_result(
                self@,
                root.value,
                keys@,
                widths@,
                row@,
                keys@.len(),
            ) {
                Err(error) => result == Err::<Vec<(u32, u32)>, Schema6SeriesReaderError>(error),
                Ok((labels, cursor)) => if cursor != row@.len() {
                    result == Err::<Vec<(u32, u32)>, Schema6SeriesReaderError>(
                        corrupt6("schema-6 series row has trailing bytes"),
                    )
                } else {
                    result is Ok && result->Ok_0@ == labels
                },
            },
    {
        let mut labels: Vec<(u32, u32)> = Vec::with_capacity(keys.len());
        let mut cursor: usize = 0;
        let mut index: usize = 0;
        assert(labels@ =~= Seq::empty());
        while index < keys.len()
            invariant
                index <= keys@.len(),
                answers(*reserve),
                label_prefix_result(
                    self@,
                    root.value,
                    keys@,
                    widths@,
                    row@,
                    index as nat,
                ) == Ok::<(Seq<(u32, u32)>, usize), Schema6SeriesReaderError>((labels@, cursor)),
            decreases keys@.len() - index,
        {
            proof {
                let next = (index + 1) as nat;
                if label_prefix_result(self@, root.value, keys@, widths@, row@, next) is Err {
                    lemma_label_prefix_error(
                        self@,
                        root.value,
                        keys@,
                        widths@,
                        row@,
                        next,
                        keys@.len(),
                    );
                }
            }
            let key_sym: u32 = keys[index];
            let dict = self.find_value_dict(root, key_sym, reserve)?;
            if index >= widths.len() {
                return Err(self.corruption("schema-6 keyset block width is missing"));
            }
            let width: u8 = widths[index];
            self.record_series_result(validate_value_code_width(width, dict.cardinality))?;
            let code: u32 = self.record_series_result(read_value_code(row, &mut cursor, width))?;
            let value_sym: u32 = self.load_value_sym(dict, code, reserve)?;
            labels.push((key_sym, value_sym));
            index += 1;
        }
        if cursor != row.len() {
            return Err(self.corruption("schema-6 series row has trailing bytes"));
        }
        Ok(labels)
    }
}

} // verus!
