//! Reading label rows through authenticated cold pages.

use core::ops::Range;

use vstd::prelude::*;

use super::roots::load_cold_page_result;
use super::scratch::{list_bytes, ran_out, reserve_series_scratch};
use super::{
    fault_in, planning, planning_error, provenance_result, record, recorded, BoundRoots,
    BoundSchema7Roots, MetadataSession, Schema7MetadataReaderError, Schema7MetadataSession,
};
use crate::budget::answers;
use crate::bytes::push_bytes;
use crate::cold_v2::lookup::{ColdSection, ColdStream};
use crate::cold_v2::reader::{
    code_result, code_width_result, decode_entry_range, decode_keyset_block_meta,
    decode_keyset_entry, decode_value_dict_meta, decode_value_dict_values,
    keyset_block_header_range, keyset_block_row_range, keyset_block_widths_range,
    offset_pair_range, read_value_code, validate_keyset_block_key_count,
    validate_value_code_width, value_dict_header_range, value_dict_values_result, KeySetBlock,
    KeySetBlockMeta, ValueDictMeta,
};
use crate::cold_v2::shapes::{dict_keys_sorted, dicts_view, find_dict, Slot};
use crate::error::{data_error, invalid_data, Error};
use crate::health::{ArtifactFault, FaultyFiles};
use crate::symbols::GovernedSymbolSession;
use crate::v3::cold_reader::{ColdPage, ValidatedSeriesColdPage};
use crate::v3::header::{
    cold_page_cover_law, section_layout_law, SeriesHeaderV3, SERIES_COLD_PAGE_LEN_V1,
};
use crate::v3::root::SeriesColdPageDescriptorV1;

verus! {

/// The bytes of a cold stream behind its error: an artifact error.
pub open spec fn corrupt(text: &'static str) -> Schema7MetadataReaderError {
    fault_in(FaultyFiles::Series, data_error(text))
}

pub fn corruption(message: &'static str) -> (error: Schema7MetadataReaderError)
    ensures
        error == corrupt(message),
{
    Schema7MetadataReaderError::Cache(
        ArtifactFault { files: FaultyFiles::Series, error: invalid_data(message) },
    )
}

/// Every one of `n` pages from `first` can be loaded, or the first error.
pub open spec fn pages_result(session: MetadataSession, roots: BoundRoots, first: int, n: nat) -> Result<
    (),
    Schema7MetadataReaderError,
>
    decreases n,
{
    if n == 0 {
        Ok(())
    } else {
        match pages_result(session, roots, first, (n - 1) as nat) {
            Err(error) => Err(error),
            Ok(_) => match load_cold_page_result(session, roots, (first + n - 1) as u32) {
                Err(error) => Err(error),
                Ok(_) => Ok(()),
            },
        }
    }
}

/// The page of the cold stream that holds an offset.
pub open spec fn page_of(header: SeriesHeaderV3, offset: int) -> int {
    (offset - header.keysets_offset) / 16_384
}

/// A logical range of the cold stream. It is returned only when every page
/// that it touches is authentic.
pub open spec fn cold_range_result(
    session: MetadataSession,
    roots: BoundRoots,
    start: u64,
    end: u64,
) -> Result<Seq<u8>, Schema7MetadataReaderError> {
    let header = roots.series.header;
    let first = page_of(header, start as int);
    let last = page_of(header, end - 1);
    if provenance_result(session, roots.generation) is Err {
        Err(provenance_result(session, roots.generation)->Err_0)
    } else if start > end || start < header.keysets_offset || end > header.file_len {
        Err(corrupt("schema-7 cold logical range is outside the cold stream"))
    } else if end - start > usize::MAX {
        Err(planning("schema-7 cold logical range length exceeds usize"))
    } else if start == end {
        Ok(Seq::empty())
    } else {
        match pages_result(session, roots, first, (last - first + 1) as nat) {
            Err(error) => Err(error),
            Ok(_) => Ok(session.series.subrange(start as int, end as int)),
        }
    }
}

/// The cold stream of a segment.
pub open spec fn cold_stream(session: MetadataSession, roots: BoundRoots) -> ColdStream<
    Schema7MetadataReaderError,
> {
    let header = roots.series.header;
    ColdStream {
        read: |start: u64, end: u64| cold_range_result(session, roots, start, end),
        fail: |error: Error| fault_in(FaultyFiles::Series, error),
        keysets: ColdSection {
            offset: header.keysets_offset,
            end: header.value_dicts_offset,
            count: header.num_keysets,
        },
        value_dicts: ColdSection {
            offset: header.value_dicts_offset,
            end: header.keyset_blocks_offset,
            count: header.num_value_dicts,
        },
        keyset_blocks: ColdSection {
            offset: header.keyset_blocks_offset,
            end: header.file_len,
            count: header.num_keysets,
        },
    }
}

/// Where the bytes of a logical range stand. A range inside one page borrows
/// that page.
#[derive(Debug)]
pub enum GovernedColdRange {
    Empty,
    Borrowed {
        page: ValidatedSeriesColdPage,
        header: SeriesHeaderV3,
        page_index: u32,
        descriptor: SeriesColdPageDescriptorV1,
        start: usize,
        end: usize,
    },
    Owned(Vec<u8>),
}

impl View for GovernedColdRange {
    type V = Seq<u8>;

    open spec fn view(&self) -> Seq<u8> {
        match *self {
            GovernedColdRange::Empty => Seq::empty(),
            GovernedColdRange::Borrowed { page, start, end, .. } => page@.bytes.subrange(
                start as int,
                end as int,
            ),
            GovernedColdRange::Owned(bytes) => bytes@,
        }
    }
}

impl GovernedColdRange {
    /// A borrowed range is one of the page that it names.
    pub open spec fn wf(self) -> bool {
        match self {
            GovernedColdRange::Borrowed { page, header, page_index, descriptor, start, end } => {
                &&& page@.header == header
                &&& page@.page_index == page_index
                &&& page@.descriptor == descriptor
                &&& start <= end <= page@.bytes.len()
            },
            _ => true,
        }
    }

    pub fn as_slice(&self) -> (result: Result<&[u8], Error>)
        requires
            self.wf(),
        ensures
            result is Ok,
            result->Ok_0@ == self@,
    {
        match self {
            GovernedColdRange::Empty => Ok(&[]),
            GovernedColdRange::Borrowed { page, header, page_index, descriptor, start, end } => {
                let bytes = page.bytes_for(*header, *page_index, *descriptor)?;
                Ok(&bytes[*start..*end])
            },
            GovernedColdRange::Owned(bytes) => Ok(bytes.as_slice()),
        }
    }
}

/// What a loaded page holds.
proof fn lemma_loaded_page(session: MetadataSession, roots: BoundRoots, page_index: u32)
    requires
        roots.wf(),
        load_cold_page_result(session, roots, page_index) is Ok,
    ensures
        ({
            let header = roots.series.header;
            let page = load_cold_page_result(session, roots, page_index)->Ok_0;
            let start = header.keysets_offset + page_index * 16_384;
            &&& page_index < header.cold_page_count
            &&& page.header == header
            &&& page.page_index == page_index
            &&& page.descriptor == roots.series.cold[page_index as int]
            &&& start < header.file_len
            &&& page.bytes.len() <= 16_384
            &&& start + page.bytes.len() <= header.file_len
            &&& page.bytes.len() < 16_384 ==> start + page.bytes.len() == header.file_len
            &&& start + page.bytes.len() <= session.series.len()
            &&& page.bytes == session.series.subrange(start, start + page.bytes.len())
        }),
{
    section_layout_law(roots.series.header);
    cold_page_cover_law(roots.series.header, page_index);
}

/// The pages of a range that is not empty exist.
proof fn lemma_range_pages(header: SeriesHeaderV3, start: u64, end: u64)
    requires
        crate::v3::header::header_result(header) is Ok,
        header.keysets_offset <= start < end <= header.file_len,
    ensures
        0 <= page_of(header, start as int) <= page_of(header, end - 1) < header.cold_page_count,
        header.keysets_offset + page_of(header, start as int) * 16_384 <= start,
        start < header.keysets_offset + (page_of(header, start as int) + 1) * 16_384,
        header.keysets_offset + page_of(header, end - 1) * 16_384 < end,
        end <= header.keysets_offset + (page_of(header, end - 1) + 1) * 16_384,
{
    section_layout_law(header);
    cold_page_cover_law(header, (header.cold_page_count - 1) as u32);
}

proof fn lemma_pages_error(session: MetadataSession, roots: BoundRoots, first: int, n: nat, m: nat)
    requires
        n <= m,
        pages_result(session, roots, first, n) is Err,
    ensures
        pages_result(session, roots, first, m) == pages_result(session, roots, first, n),
    decreases m,
{
    if n < m {
        lemma_pages_error(session, roots, first, n, (m - 1) as nat);
    }
}

/// The end of a range as far as its first pages reach.
spec fn reached(header: SeriesHeaderV3, start: u64, end: u64, first: int, n: int) -> int {
    let page_end = header.keysets_offset + (first + n) * 16_384;
    if n == 0 {
        start as int
    } else if page_end < end {
        page_end
    } else {
        end as int
    }
}

impl<'a> Schema7MetadataSession<'a> {
    /// Asks for the memory of a page, and loads it.
    fn load_page_within<R: Fn(u64) -> bool>(
        &self,
        roots: &BoundSchema7Roots,
        page_index: u32,
        reserve: &R,
    ) -> (result: Result<ValidatedSeriesColdPage, Schema7MetadataReaderError>)
        requires
            roots@.wf(),
            provenance_result(self@, roots@.generation) is Ok,
            answers(*reserve),
        ensures
            ran_out(*reserve, result) || match load_cold_page_result(self@, roots@, page_index) {
                Err(error) => result == Err::<ValidatedSeriesColdPage, Schema7MetadataReaderError>(
                    error,
                ),
                Ok(page) => result is Ok && result->Ok_0@ == page,
            },
    {
        let descriptor = roots.cold_descriptor(page_index)?;
        if let Ok(declared) = ValidatedSeriesColdPage::declared_max_bytes(descriptor) {
            reserve_series_scratch(reserve, declared)?;
        }
        self.load_cold_page(roots, page_index)
    }

    /// Loads consecutive pages.
    fn load_cold_pages<R: Fn(u64) -> bool>(
        &self,
        roots: &BoundSchema7Roots,
        first: u32,
        count: u32,
        reserve: &R,
    ) -> (result: Result<Vec<ValidatedSeriesColdPage>, Schema7MetadataReaderError>)
        requires
            roots@.wf(),
            provenance_result(self@, roots@.generation) is Ok,
            first + count <= u32::MAX,
            answers(*reserve),
        ensures
            ran_out(*reserve, result) || match pages_result(
                self@,
                roots@,
                first as int,
                count as nat,
            ) {
                Err(error) => result == Err::<
                    Vec<ValidatedSeriesColdPage>,
                    Schema7MetadataReaderError,
                >(error),
                Ok(_) => result is Ok && result->Ok_0@.len() == count && forall|k: int|
                    0 <= k < count ==> load_cold_page_result(
                        self@,
                        roots@,
                        (first + k) as u32,
                    ) == Ok::<ColdPage, Schema7MetadataReaderError>(
                        (#[trigger] result->Ok_0@[k])@,
                    ),
            },
    {
        let mut pages: Vec<ValidatedSeriesColdPage> = Vec::new();
        let mut k: u32 = 0;
        while k < count
            invariant
                k <= count,
                first + count <= u32::MAX,
                roots@.wf(),
                provenance_result(self@, roots@.generation) is Ok,
                answers(*reserve),
                pages@.len() == k,
                pages_result(self@, roots@, first as int, k as nat) is Ok,
                forall|i: int|
                    0 <= i < k ==> load_cold_page_result(
                        self@,
                        roots@,
                        (first + i) as u32,
                    ) == Ok::<ColdPage, Schema7MetadataReaderError>((#[trigger] pages@[i])@),
            decreases count - k,
        {
            match self.load_page_within(roots, first + k, reserve) {
                Ok(page) => {
                    pages.push(page);
                },
                Err(error) => {
                    proof {
                        if pages_result(self@, roots@, first as int, (k + 1) as nat) is Err {
                            lemma_pages_error(
                                self@,
                                roots@,
                                first as int,
                                (k + 1) as nat,
                                count as nat,
                            );
                        }
                    }
                    return Err(error);
                },
            }
            k = k + 1;
        }
        Ok(pages)
    }

    /// Returns one logical cold range only after every intersecting physical
    /// page has been loaded, authenticated, and rebound to this root. A
    /// single-page range keeps its page; only cross-page ranges need an owned
    /// assembly buffer.
    pub fn read_authenticated_cold_range<R: Fn(u64) -> bool>(
        &self,
        roots: &BoundSchema7Roots,
        range: Range<u64>,
        reserve: &R,
    ) -> (result: Result<GovernedColdRange, Schema7MetadataReaderError>)
        requires
            roots@.wf(),
            answers(*reserve),
        ensures
            ran_out(*reserve, result) || match cold_range_result(
                self@,
                roots@,
                range.start,
                range.end,
            ) {
                Err(error) => result == Err::<GovernedColdRange, Schema7MetadataReaderError>(error),
                Ok(bytes) => result is Ok && result->Ok_0.wf() && result->Ok_0@ == bytes,
            },
    {
        self.ensure_bound_roots(roots)?;
        let header = roots.roots.series.header;
        if range.start > range.end || range.start < header.keysets_offset || range.end
            > header.file_len {
            return Err(corruption("schema-7 cold logical range is outside the cold stream"));
        }
        let byte_len_u64: u64 = range.end - range.start;
        if byte_len_u64 > usize::MAX as u64 {
            return Err(planning_error("schema-7 cold logical range length exceeds usize"));
        }
        if range.start == range.end {
            reserve_series_scratch(reserve, 0)?;
            return Ok(GovernedColdRange::Empty);
        }
        proof {
            lemma_range_pages(header, range.start, range.end);
        }
        let first_page: u64 = (range.start - header.keysets_offset) / SERIES_COLD_PAGE_LEN_V1;
        let final_page: u64 = (range.end - 1 - header.keysets_offset) / SERIES_COLD_PAGE_LEN_V1;
        let first: u32 = first_page as u32;
        let count: u32 = (final_page - first_page + 1) as u32;
        if count == 1 {
            let descriptor = roots.cold_descriptor(first)?;
            assert(pages_result(self@, roots@, first as int, 0) is Ok);
            assert(pages_result(self@, roots@, first as int, 1) == (match load_cold_page_result(
                self@,
                roots@,
                first,
            ) {
                Err(error) => Err(error),
                Ok(_) => Ok::<(), Schema7MetadataReaderError>(()),
            }));
            let page = self.load_page_within(roots, first, reserve)?;
            proof {
                lemma_loaded_page(self@, roots@, first);
            }
            let page_start: u64 = header.keysets_offset + first_page * SERIES_COLD_PAGE_LEN_V1;
            let start: usize = (range.start - page_start) as usize;
            let end: usize = (range.end - page_start) as usize;
            let borrowed = GovernedColdRange::Borrowed {
                page,
                header,
                page_index: first,
                descriptor,
                start,
                end,
            };
            assert(borrowed@ =~= self@.series.subrange(range.start as int, range.end as int));
            reserve_series_scratch(reserve, 0)?;
            return Ok(borrowed);
        }
        let pins: u64 = list_bytes::<ValidatedSeriesColdPage>(count as usize);
        let scratch: u64 = match pins.checked_add(byte_len_u64) {
            Some(scratch) => scratch,
            None => u64::MAX,
        };
        reserve_series_scratch(reserve, scratch)?;
        let pages = self.load_cold_pages(roots, first, count, reserve)?;
        // Every page is authentic before any byte of the range is copied.
        let bytes = self.assemble_cold_pages(roots, &pages, first, range)?;
        Ok(GovernedColdRange::Owned(bytes))
    }

    /// Copies the stretch of a range that each of its pages holds.
    fn assemble_cold_pages(
        &self,
        roots: &BoundSchema7Roots,
        pages: &Vec<ValidatedSeriesColdPage>,
        first: u32,
        range: Range<u64>,
    ) -> (result: Result<Vec<u8>, Schema7MetadataReaderError>)
        requires
            roots@.wf(),
            roots@.series.header.keysets_offset <= range.start < range.end
                <= roots@.series.header.file_len,
            first == page_of(roots@.series.header, range.start as int),
            first + pages@.len() - 1 == page_of(roots@.series.header, range.end - 1),
            forall|k: int|
                0 <= k < pages@.len() ==> load_cold_page_result(
                    self@,
                    roots@,
                    (first + k) as u32,
                ) == Ok::<ColdPage, Schema7MetadataReaderError>((#[trigger] pages@[k])@),
        ensures
            result is Ok,
            result->Ok_0@ == self@.series.subrange(range.start as int, range.end as int),
    {
        let header = roots.roots.series.header;
        let ghost series = self@.series;
        let mut bytes: Vec<u8> = Vec::with_capacity((range.end - range.start) as usize);
        let mut k: usize = 0;
        proof {
            section_layout_law(header);
            lemma_range_pages(header, range.start, range.end);
        }
        while k < pages.len()
            invariant
                k <= pages@.len(),
                roots@.wf(),
                header == roots@.series.header,
                series == self@.series,
                header.keysets_offset <= range.start < range.end <= header.file_len,
                first == page_of(header, range.start as int),
                first + pages@.len() - 1 == page_of(header, range.end - 1),
                page_of(header, range.end - 1) < header.cold_page_count,
                header.keysets_offset + first * 16_384 <= range.start,
                range.start < header.keysets_offset + (first + 1) * 16_384,
                header.keysets_offset + (first + pages@.len() - 1) * 16_384 < range.end,
                range.end <= header.keysets_offset + (first + pages@.len()) * 16_384,
                k > 0 ==> reached(header, range.start, range.end, first as int, k as int)
                    <= series.len(),
                bytes@ == (if k == 0 {
                    Seq::empty()
                } else {
                    series.subrange(
                        range.start as int,
                        reached(header, range.start, range.end, first as int, k as int),
                    )
                }),
                forall|i: int|
                    0 <= i < pages@.len() ==> load_cold_page_result(
                        self@,
                        roots@,
                        (first + i) as u32,
                    ) == Ok::<ColdPage, Schema7MetadataReaderError>((#[trigger] pages@[i])@),
            decreases pages@.len() - k,
        {
            let page_index: u32 = first + k as u32;
            assert(load_cold_page_result(self@, roots@, page_index) == Ok::<
                ColdPage,
                Schema7MetadataReaderError,
            >(pages@[k as int]@));
            proof {
                lemma_loaded_page(self@, roots@, page_index);
            }
            let descriptor = roots.cold_descriptor(page_index)?;
            let page_bytes = record(pages[k].bytes_for(header, page_index, descriptor))?;
            let page_start: u64 = header.keysets_offset + page_index as u64
                * SERIES_COLD_PAGE_LEN_V1;
            let page_end: u64 = page_start + page_bytes.len() as u64;
            let copy_start: u64 = if range.start > page_start {
                range.start
            } else {
                page_start
            };
            let copy_end: u64 = if range.end < page_end {
                range.end
            } else {
                page_end
            };
            let ghost before = bytes@;
            let local_start: usize = (copy_start - page_start) as usize;
            let local_end: usize = (copy_end - page_start) as usize;
            push_bytes(&mut bytes, &page_bytes[local_start..local_end]);
            assert(copy_end == reached(header, range.start, range.end, first as int, k + 1));
            assert(bytes@ =~= series.subrange(range.start as int, copy_end as int));
            k += 1;
        }
        Ok(bytes)
    }

    /// Returns owned bytes, so that no page is kept while nested metadata is
    /// read.
    pub fn read_authenticated_cold_range_owned<R: Fn(u64) -> bool>(
        &self,
        roots: &BoundSchema7Roots,
        range: Range<u64>,
        reserve: &R,
    ) -> (result: Result<Vec<u8>, Schema7MetadataReaderError>)
        requires
            roots@.wf(),
            answers(*reserve),
        ensures
            ran_out(*reserve, result) || match cold_range_result(
                self@,
                roots@,
                range.start,
                range.end,
            ) {
                Err(error) => result == Err::<Vec<u8>, Schema7MetadataReaderError>(error),
                Ok(bytes) => result is Ok && result->Ok_0@ == bytes,
            },
    {
        let governed = self.read_authenticated_cold_range(roots, range, reserve)?;
        match governed {
            GovernedColdRange::Owned(bytes) => Ok(bytes),
            GovernedColdRange::Empty => Ok(Vec::new()),
            borrowed => {
                let source = record(borrowed.as_slice())?;
                reserve_series_scratch(reserve, list_bytes::<u8>(source.len()))?;
                Ok(crate::bytes::copy_bytes(source))
            },
        }
    }
}

/// Every key is a symbol.
pub open spec fn key_symbols_result(symbol_count: nat, keys: Seq<u32>) -> Result<
    (),
    Schema7MetadataReaderError,
> {
    if exists|i: int| 0 <= i < keys.len() && #[trigger] keys[i] >= symbol_count {
        Err(corrupt("schema-7 key symbol exceeds the bound symbol count"))
    } else {
        Ok(())
    }
}

/// The first `n` values are symbols in strictly increasing order, or the first
/// error.
pub open spec fn value_symbols_result(symbol_count: nat, values: Seq<u32>, n: nat) -> Result<
    (),
    Schema7MetadataReaderError,
>
    decreases n,
{
    if n == 0 {
        Ok(())
    } else {
        match value_symbols_result(symbol_count, values, (n - 1) as nat) {
            Err(error) => Err(error),
            Ok(_) => if n >= 2 && values[n - 2] >= values[n - 1] {
                Err(corrupt("schema-7 value dictionary symbols are not strictly increasing"))
            } else if values[n - 1] >= symbol_count {
                Err(corrupt("schema-7 value dictionary symbol exceeds the bound symbol count"))
            } else {
                Ok(())
            },
        }
    }
}

/// The values that the stream lists for a key.
#[verifier::opaque]
pub open spec fn dictionary_result(
    session: MetadataSession,
    roots: BoundRoots,
    symbol_count: nat,
    key_sym: u32,
) -> Result<Seq<u32>, Schema7MetadataReaderError> {
    let stream = cold_stream(session, roots);
    match stream.find(
        key_sym,
        0,
        roots.series.header.num_value_dicts,
        corrupt("schema-7 value dictionary is missing"),
    ) {
        Err(error) => Err(error),
        Ok((meta, end)) => match cold_range_result(session, roots, meta.values_offset, end) {
            Err(error) => Err(error),
            Ok(bytes) => match recorded(value_dict_values_result(bytes, meta)) {
                Err(error) => Err(error),
                Ok(values) => match value_symbols_result(symbol_count, values, values.len()) {
                    Err(error) => Err(error),
                    Ok(_) => Ok(values),
                },
            },
        },
    }
}

/// A keyset and its block.
#[verifier::opaque]
pub open spec fn keyset_plan_result(
    session: MetadataSession,
    roots: BoundRoots,
    symbol_count: nat,
    keyset_id: u32,
) -> Result<(Seq<u32>, KeySetBlock), Schema7MetadataReaderError> {
    let stream = cold_stream(session, roots);
    match stream.keyset(keyset_id) {
        Err(error) => Err(error),
        Ok(keys) => match key_symbols_result(symbol_count, keys) {
            Err(error) => Err(error),
            Ok(_) => match stream.block(keyset_id) {
                Err(error) => Err(error),
                Ok(block) => if block.key_count != keys.len() {
                    Err(corrupt("series cold keyset and block key counts differ"))
                } else {
                    Ok((keys, block))
                },
            },
        },
    }
}

/// The first `n` labels of a packed row, and where the next code begins.
pub open spec fn row_prefix_result(
    session: MetadataSession,
    roots: BoundRoots,
    symbol_count: nat,
    keys: Seq<u32>,
    widths: Seq<u8>,
    row: Seq<u8>,
    n: nat,
) -> Result<(Seq<(u32, u32)>, usize), Schema7MetadataReaderError>
    decreases n,
{
    if n == 0 {
        Ok((Seq::empty(), 0usize))
    } else {
        match row_prefix_result(
            session,
            roots,
            symbol_count,
            keys,
            widths,
            row,
            (n - 1) as nat,
        ) {
            Err(error) => Err(error),
            Ok((labels, cursor)) => match dictionary_result(
                session,
                roots,
                symbol_count,
                keys[n - 1],
            ) {
                Err(error) => Err(error),
                Ok(values) => if n - 1 >= widths.len() {
                    Err(corrupt("schema-7 keyset block width is missing"))
                } else if values.len() > u32::MAX {
                    Err(corrupt("schema-7 value dictionary length exceeds u32"))
                } else {
                    match recorded(code_width_result(widths[n - 1], values.len() as u32)) {
                        Err(error) => Err(error),
                        Ok(_) => match recorded(code_result(row, cursor, widths[n - 1])) {
                            Err(error) => Err(error),
                            Ok(code) => if code >= values.len() {
                                Err(corrupt("schema-7 value code is out of bounds"))
                            } else {
                                Ok(
                                    (
                                        labels.push((keys[n - 1], values[code as int])),
                                        (cursor + widths[n - 1]) as usize,
                                    ),
                                )
                            },
                        },
                    }
                },
            },
        }
    }
}

/// The labels of a row of a keyset, as symbols.
pub open spec fn row_labels_result(
    session: MetadataSession,
    roots: BoundRoots,
    symbol_count: nat,
    keys: Seq<u32>,
    block: KeySetBlock,
    row_index: u32,
) -> Result<Seq<(u32, u32)>, Schema7MetadataReaderError> {
    match cold_stream(session, roots).row(
        block,
        row_index,
        corrupt("schema-7 series cold row is out of bounds"),
    ) {
        Err(error) => Err(error),
        Ok(row) => match row_prefix_result(
            session,
            roots,
            symbol_count,
            keys,
            block.widths,
            row,
            keys.len(),
        ) {
            Err(error) => Err(error),
            Ok((labels, cursor)) => if cursor != row.len() {
                Err(corrupt("schema-7 series cold row has trailing bytes"))
            } else {
                Ok(labels)
            },
        },
    }
}

/// A decoded keyset and its block.
#[derive(Debug)]
pub struct DecodedKeysetPlan {
    pub keyset: Vec<u32>,
    pub block: KeySetBlockMeta,
}

/// Dictionaries that were decoded before: sorted by key, and each what the
/// stream lists for its key.
pub open spec fn cached_dictionaries(
    session: MetadataSession,
    roots: BoundRoots,
    symbol_count: nat,
    dictionaries: Seq<(u32, Vec<u32>)>,
) -> bool {
    &&& dict_keys_sorted(dicts_view(dictionaries))
    &&& forall|d: int|
        0 <= d < dictionaries.len() ==> dictionary_result(
            session,
            roots,
            symbol_count,
            (#[trigger] dictionaries[d]).0,
        ) == Ok::<Seq<u32>, Schema7MetadataReaderError>(dictionaries[d].1@)
}

proof fn lemma_value_symbols_error(symbol_count: nat, values: Seq<u32>, n: nat, m: nat)
    requires
        n <= m,
        value_symbols_result(symbol_count, values, n) is Err,
    ensures
        value_symbols_result(symbol_count, values, m) == value_symbols_result(
            symbol_count,
            values,
            n,
        ),
    decreases m,
{
    if n < m {
        lemma_value_symbols_error(symbol_count, values, n, (m - 1) as nat);
    }
}

proof fn lemma_row_prefix_error(
    session: MetadataSession,
    roots: BoundRoots,
    symbol_count: nat,
    keys: Seq<u32>,
    widths: Seq<u8>,
    row: Seq<u8>,
    n: nat,
    m: nat,
)
    requires
        n <= m,
        row_prefix_result(session, roots, symbol_count, keys, widths, row, n) is Err,
    ensures
        row_prefix_result(session, roots, symbol_count, keys, widths, row, m)
            == row_prefix_result(session, roots, symbol_count, keys, widths, row, n),
    decreases m,
{
    if n < m {
        lemma_row_prefix_error(
            session,
            roots,
            symbol_count,
            keys,
            widths,
            row,
            n,
            (m - 1) as nat,
        );
    }
}

impl<'a> Schema7MetadataSession<'a> {
    /// The range of an entry of a section.
    pub fn load_cold_entry_range<R: Fn(u64) -> bool>(
        &self,
        roots: &BoundSchema7Roots,
        section: ColdSection,
        entry_index: u32,
        reserve: &R,
    ) -> (result: Result<Range<u64>, Schema7MetadataReaderError>)
        requires
            roots@.wf(),
            answers(*reserve),
        ensures
            ran_out(*reserve, result) || result == cold_stream(self@, roots@).entry_range(
                section,
                entry_index,
            ),
    {
        let pair_range = record(
            offset_pair_range(section.offset, section.end, section.count, entry_index),
        )?;
        let bytes = self.read_authenticated_cold_range(roots, pair_range, reserve)?;
        let slice = record(bytes.as_slice())?;
        record(
            decode_entry_range(slice, section.offset, section.end, section.count, entry_index),
        )
    }

    /// The keys of a keyset.
    pub fn load_keyset<R: Fn(u64) -> bool>(
        &self,
        roots: &BoundSchema7Roots,
        keyset_id: u32,
        reserve: &R,
    ) -> (result: Result<Vec<u32>, Schema7MetadataReaderError>)
        requires
            roots@.wf(),
            answers(*reserve),
        ensures
            ran_out(*reserve, result) || match cold_stream(self@, roots@).keyset(keyset_id) {
                Err(error) => result == Err::<Vec<u32>, Schema7MetadataReaderError>(error),
                Ok(keys) => result is Ok && result->Ok_0@ == keys,
            },
    {
        let header = roots.roots.series.header;
        let range = self.load_cold_entry_range(
            roots,
            ColdSection {
                offset: header.keysets_offset,
                end: header.value_dicts_offset,
                count: header.num_keysets,
            },
            keyset_id,
            reserve,
        )?;
        let start: u64 = range.start;
        let end: u64 = range.end;
        let bytes = self.read_authenticated_cold_range_owned(roots, range, reserve)?;
        reserve_series_scratch(reserve, list_bytes::<u32>(bytes.len() / 4))?;
        record(decode_keyset_entry(&bytes, start, end))
    }

    /// The block of a keyset.
    pub fn load_keyset_block<R: Fn(u64) -> bool>(
        &self,
        roots: &BoundSchema7Roots,
        keyset_id: u32,
        reserve: &R,
    ) -> (result: Result<KeySetBlockMeta, Schema7MetadataReaderError>)
        requires
            roots@.wf(),
            answers(*reserve),
        ensures
            ran_out(*reserve, result) || match cold_stream(self@, roots@).block(keyset_id) {
                Err(error) => result == Err::<KeySetBlockMeta, Schema7MetadataReaderError>(error),
                Ok(block) => result is Ok && result->Ok_0@ == block,
            },
    {
        let header = roots.roots.series.header;
        let range = self.load_cold_entry_range(
            roots,
            ColdSection {
                offset: header.keyset_blocks_offset,
                end: header.file_len,
                count: header.num_keysets,
            },
            keyset_id,
            reserve,
        )?;
        let fixed_range = record(keyset_block_header_range(range.start, range.end))?;
        let fixed = self.read_authenticated_cold_range_owned(roots, fixed_range, reserve)?;
        let widths_range = record(keyset_block_widths_range(&fixed, range.start, range.end))?;
        let widths = self.read_authenticated_cold_range_owned(roots, widths_range, reserve)?;
        reserve_series_scratch(reserve, list_bytes::<u8>(widths.len()))?;
        record(decode_keyset_block_meta(&fixed, &widths, range.start, range.end))
    }

    /// The header of a value dictionary, and where its entry ends.
    pub fn load_value_dictionary_meta<R: Fn(u64) -> bool>(
        &self,
        roots: &BoundSchema7Roots,
        section: ColdSection,
        dict_id: u32,
        reserve: &R,
    ) -> (result: Result<(ValueDictMeta, u64), Schema7MetadataReaderError>)
        requires
            roots@.wf(),
            section == cold_stream(self@, roots@).value_dicts,
            answers(*reserve),
        ensures
            ran_out(*reserve, result) || result == cold_stream(self@, roots@).dict_meta(dict_id),
    {
        proof {
            reveal(ColdStream::dict_meta);
        }
        let range = self.load_cold_entry_range(roots, section, dict_id, reserve)?;
        let header_range = record(value_dict_header_range(range.start, range.end))?;
        let bytes = self.read_authenticated_cold_range(roots, header_range, reserve)?;
        let slice = record(bytes.as_slice())?;
        let value = record(decode_value_dict_meta(slice, range.start, range.end))?;
        Ok((value, range.end))
    }

    /// The header of the dictionary of a key, by halving.
    fn find_value_dictionary_meta<R: Fn(u64) -> bool>(
        &self,
        roots: &BoundSchema7Roots,
        key_sym: u32,
        reserve: &R,
    ) -> (result: Result<(ValueDictMeta, u64), Schema7MetadataReaderError>)
        requires
            roots@.wf(),
            answers(*reserve),
        ensures
            ran_out(*reserve, result) || result == cold_stream(self@, roots@).find(
                key_sym,
                0,
                roots@.series.header.num_value_dicts,
                corrupt("schema-7 value dictionary is missing"),
            ),
    {
        let header = roots.roots.series.header;
        let section = ColdSection {
            offset: header.value_dicts_offset,
            end: header.keyset_blocks_offset,
            count: header.num_value_dicts,
        };
        let ghost stream = cold_stream(self@, roots@);
        let ghost missing = corrupt("schema-7 value dictionary is missing");
        let mut low: u32 = 0;
        let mut high: u32 = section.count;
        while low < high
            invariant
                roots@.wf(),
                answers(*reserve),
                stream == cold_stream(self@, roots@),
                section == stream.value_dicts,
                section.count == roots@.series.header.num_value_dicts,
                missing == corrupt("schema-7 value dictionary is missing"),
                stream.find(key_sym, 0, section.count, missing) == stream.find(
                    key_sym,
                    low,
                    high,
                    missing,
                ),
            decreases high - low,
        {
            let mid: u32 = low + (high - low) / 2;
            let (meta, entry_end) = self.load_value_dictionary_meta(
                roots,
                section,
                mid,
                reserve,
            )?;
            if meta.key_sym < key_sym {
                low = mid + 1;
            } else if meta.key_sym > key_sym {
                high = mid;
            } else {
                return Ok((meta, entry_end));
            }
        }
        Err(corruption("schema-7 value dictionary is missing"))
    }

    /// The values that the stream lists for a key.
    pub fn find_value_dictionary<R: Fn(u64) -> bool>(
        &self,
        roots: &BoundSchema7Roots,
        symbols: &GovernedSymbolSession,
        key_sym: u32,
        reserve: &R,
    ) -> (result: Result<Vec<u32>, Schema7MetadataReaderError>)
        requires
            roots@.wf(),
            answers(*reserve),
        ensures
            ran_out(*reserve, result) || match dictionary_result(
                self@,
                roots@,
                symbols@.values.len(),
                key_sym,
            ) {
                Err(error) => result == Err::<Vec<u32>, Schema7MetadataReaderError>(error),
                Ok(values) => result is Ok && result->Ok_0@ == values,
            },
    {
        proof {
            reveal(dictionary_result);
        }
        let (meta, entry_end) = self.find_value_dictionary_meta(roots, key_sym, reserve)?;
        let bytes = self.read_authenticated_cold_range_owned(
            roots,
            meta.values_offset..entry_end,
            reserve,
        )?;
        reserve_series_scratch(reserve, list_bytes::<u32>(meta.cardinality as usize))?;
        let values = record(decode_value_dict_values(&bytes, meta))?;
        self.validate_value_dictionary(symbols, &values)?;
        Ok(values)
    }

    /// Checks that the values are symbols in strictly increasing order.
    pub fn validate_value_dictionary(&self, symbols: &GovernedSymbolSession, values: &[u32]) -> (result:
        Result<(), Schema7MetadataReaderError>)
        ensures
            result == value_symbols_result(symbols@.values.len(), values@, values@.len()),
    {
        let mut i: usize = 0;
        while i < values.len()
            invariant
                i <= values@.len(),
                value_symbols_result(symbols@.values.len(), values@, i as nat) is Ok,
            decreases values@.len() - i,
        {
            let value: u32 = values[i];
            if i > 0 && values[i - 1] >= value {
                proof {
                    lemma_value_symbols_error(
                        symbols@.values.len(),
                        values@,
                        (i + 1) as nat,
                        values@.len(),
                    );
                }
                return Err(
                    corruption("schema-7 value dictionary symbols are not strictly increasing"),
                );
            }
            if value as usize >= symbols.len() {
                proof {
                    lemma_value_symbols_error(
                        symbols@.values.len(),
                        values@,
                        (i + 1) as nat,
                        values@.len(),
                    );
                }
                return Err(
                    corruption("schema-7 value dictionary symbol exceeds the bound symbol count"),
                );
            }
            i += 1;
        }
        Ok(())
    }

    /// Checks that every key is a symbol.
    pub fn validate_key_symbols(&self, symbols: &GovernedSymbolSession, key_symbols: &[u32]) -> (result:
        Result<(), Schema7MetadataReaderError>)
        ensures
            result == key_symbols_result(symbols@.values.len(), key_symbols@),
    {
        let mut i: usize = 0;
        while i < key_symbols.len()
            invariant
                i <= key_symbols@.len(),
                forall|j: int| 0 <= j < i ==> #[trigger] key_symbols@[j] < symbols@.values.len(),
            decreases key_symbols@.len() - i,
        {
            if key_symbols[i] as usize >= symbols.len() {
                return Err(corruption("schema-7 key symbol exceeds the bound symbol count"));
            }
            i += 1;
        }
        Ok(())
    }

    /// Loads a keyset and its block.
    pub fn load_decoded_keyset_plan<R: Fn(u64) -> bool>(
        &self,
        roots: &BoundSchema7Roots,
        symbols: &GovernedSymbolSession,
        keyset_id: u32,
        reserve: &R,
    ) -> (result: Result<DecodedKeysetPlan, Schema7MetadataReaderError>)
        requires
            roots@.wf(),
            answers(*reserve),
        ensures
            ran_out(*reserve, result) || match keyset_plan_result(
                self@,
                roots@,
                symbols@.values.len(),
                keyset_id,
            ) {
                Err(error) => result == Err::<DecodedKeysetPlan, Schema7MetadataReaderError>(error),
                Ok((keys, block)) => result is Ok && result->Ok_0.keyset@ == keys
                    && result->Ok_0.block@ == block,
            },
    {
        proof {
            reveal(keyset_plan_result);
        }
        let keyset = self.load_keyset(roots, keyset_id, reserve)?;
        self.validate_key_symbols(symbols, &keyset)?;
        let block = self.load_keyset_block(roots, keyset_id, reserve)?;
        record(validate_keyset_block_key_count(&block, keyset.len()))?;
        Ok(DecodedKeysetPlan { keyset, block })
    }

    /// The dictionary of a key, from those that were decoded before where it
    /// is among them.
    fn cached_dictionary<R: Fn(u64) -> bool>(
        &self,
        roots: &BoundSchema7Roots,
        symbols: &GovernedSymbolSession,
        dictionaries: &mut Vec<(u32, Vec<u32>)>,
        key_sym: u32,
        reserve: &R,
    ) -> (result: Result<usize, Schema7MetadataReaderError>)
        requires
            roots@.wf(),
            cached_dictionaries(self@, roots@, symbols@.values.len(), old(dictionaries)@),
            answers(*reserve),
        ensures
            cached_dictionaries(self@, roots@, symbols@.values.len(), final(dictionaries)@),
            ran_out(*reserve, result) || match dictionary_result(
                self@,
                roots@,
                symbols@.values.len(),
                key_sym,
            ) {
                Err(error) => result == Err::<usize, Schema7MetadataReaderError>(error),
                Ok(values) => result is Ok && result->Ok_0 < final(dictionaries)@.len()
                    && final(dictionaries)@[result->Ok_0 as int].1@ == values,
            },
    {
        let ghost count = symbols@.values.len();
        match find_dict(dictionaries, key_sym) {
            Slot::Found(index) => Ok(index),
            Slot::Missing(index) => {
                let dictionary = self.find_value_dictionary(roots, symbols, key_sym, reserve)?;
                let ghost before = dictionaries@;
                dictionaries.insert(index, (key_sym, dictionary));
                proof {
                    let after = dictionaries@;
                    let view = dicts_view(after);
                    let old_view = dicts_view(before);
                    assert forall|i: int, j: int| 0 <= i < j < view.len() implies view[i].0
                        < view[j].0 by {
                        let a = if i < index { i } else { i - 1 };
                        let b = if j < index { j } else { j - 1 };
                        if i != index && j != index {
                            assert(old_view[a].0 < old_view[b].0);
                        } else if i == index {
                            assert(key_sym < before[b].0);
                        } else {
                            assert(before[a].0 < key_sym);
                        }
                    }
                    assert forall|d: int| 0 <= d < after.len() implies dictionary_result(
                        self@,
                        roots@,
                        count,
                        (#[trigger] after[d]).0,
                    ) == Ok::<Seq<u32>, Schema7MetadataReaderError>(after[d].1@) by {
                        if d != index {
                            let from = if d < index { d } else { d - 1 };
                            assert(after[d] == before[from]);
                        }
                    }
                }
                Ok(index)
            },
        }
    }

    /// Appends the labels of a row, as symbols.
    pub fn decode_encoded_labels<R: Fn(u64) -> bool>(
        &self,
        roots: &BoundSchema7Roots,
        symbols: &GovernedSymbolSession,
        plan: &DecodedKeysetPlan,
        dictionaries: &mut Vec<(u32, Vec<u32>)>,
        row_index: u32,
        encoded_labels: &mut Vec<(u32, u32)>,
        reserve: &R,
    ) -> (result: Result<(), Schema7MetadataReaderError>)
        requires
            roots@.wf(),
            cached_dictionaries(self@, roots@, symbols@.values.len(), old(dictionaries)@),
            answers(*reserve),
        ensures
            cached_dictionaries(self@, roots@, symbols@.values.len(), final(dictionaries)@),
            ran_out(*reserve, result) || match row_labels_result(
                self@,
                roots@,
                symbols@.values.len(),
                plan.keyset@,
                plan.block@,
                row_index,
            ) {
                Err(error) => result == Err::<(), Schema7MetadataReaderError>(error),
                Ok(labels) => result is Ok && final(encoded_labels)@ == old(encoded_labels)@
                    + labels,
            },
    {
        let ghost count = symbols@.values.len();
        let row_bytes: Vec<u8> = if plan.block.row_len_bytes == 0 {
            if row_index >= plan.block.rows {
                return Err(corruption("schema-7 series cold row is out of bounds"));
            }
            Vec::new()
        } else {
            let range = record(keyset_block_row_range(&plan.block, row_index))?;
            self.read_authenticated_cold_range_owned(roots, range, reserve)?
        };
        let ghost keys = plan.keyset@;
        let ghost widths = plan.block.widths@;
        let ghost row = row_bytes@;
        let mut cursor: usize = 0;
        let mut index: usize = 0;
        let ghost start = encoded_labels@;
        let ghost mut decoded: Seq<(u32, u32)> = Seq::empty();
        assert(encoded_labels@ =~= start + decoded);
        while index < plan.keyset.len()
            invariant
                index <= keys.len(),
                keys == plan.keyset@,
                widths == plan.block.widths@,
                row == row_bytes@,
                count == symbols@.values.len(),
                roots@.wf(),
                answers(*reserve),
                cached_dictionaries(self@, roots@, count, dictionaries@),
                row_prefix_result(self@, roots@, count, keys, widths, row, index as nat) == Ok::<
                    (Seq<(u32, u32)>, usize),
                    Schema7MetadataReaderError,
                >((decoded, cursor)),
                start == old(encoded_labels)@,
                encoded_labels@ == start + decoded,
                cold_stream(self@, roots@).row(
                    plan.block@,
                    row_index,
                    corrupt("schema-7 series cold row is out of bounds"),
                ) == Ok::<Seq<u8>, Schema7MetadataReaderError>(row),
            decreases keys.len() - index,
        {
            let key_sym: u32 = plan.keyset[index];
            let ghost next = (index + 1) as nat;
            proof {
                if row_prefix_result(self@, roots@, count, keys, widths, row, next) is Err {
                    lemma_row_prefix_error(
                        self@,
                        roots@,
                        count,
                        keys,
                        widths,
                        row,
                        next,
                        keys.len(),
                    );
                }
            }
            let dictionary_index: usize = self.cached_dictionary(
                roots,
                symbols,
                dictionaries,
                key_sym,
                reserve,
            )?;
            let dictionary: &Vec<u32> = &dictionaries[dictionary_index].1;
            if index >= plan.block.widths.len() {
                return Err(corruption("schema-7 keyset block width is missing"));
            }
            let width: u8 = plan.block.widths[index];
            if dictionary.len() > u32::MAX as usize {
                return Err(corruption("schema-7 value dictionary length exceeds u32"));
            }
            record(validate_value_code_width(width, dictionary.len() as u32))?;
            let code: u32 = record(read_value_code(&row_bytes, &mut cursor, width))?;
            if code as usize >= dictionary.len() {
                return Err(corruption("schema-7 value code is out of bounds"));
            }
            encoded_labels.push((key_sym, dictionary[code as usize]));
            proof {
                let label = (key_sym, dictionary@[code as int]);
                assert(start + decoded.push(label) =~= (start + decoded).push(label));
                decoded = decoded.push(label);
            }
            index += 1;
        }
        if cursor != row_bytes.len() {
            return Err(corruption("schema-7 series cold row has trailing bytes"));
        }
        Ok(())
    }
}

} // verus!
