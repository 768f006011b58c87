//! Complete hot pages: fixed header, records and zero padding.

use vstd::prelude::*;

use super::header::{
    checked_u32, header_result, hot_page_cover_law, hot_record_count_result, require_count,
    require_eq_u16, require_eq_u32, require_len, require_zero_u16, require_zero_u32, zeroed_vec,
    SeriesHeaderV3, SERIES_HOT_PAGE_HEADER_LEN_V1, SERIES_HOT_PAGE_LEN_V1,
    SERIES_HOT_RECORDS_PER_PAGE_V1, SERIES_HOT_RECORD_LEN_V3,
};
use super::hot::{
    context_of, decode_record_result, encodes_record, record_result, record_round_trip_law,
    SeriesHotV3, SeriesHotV3Context, SERIES_HOT_PAGE_MAGIC_V1, SERIES_HOT_PAGE_VERSION_V1,
};
use super::root::{
    all_zero_from, copy_into, hot_descriptor_result, page_reached, SeriesHotPageDescriptorV1,
};
use crate::bytes::{put_u16, put_u32, read_u16, read_u32, u16_at, u32_at};
use crate::checksum::{crc32c, crc32c_of};
use crate::error::{data_error, invalid_data, Error};

verus! {

/// The fixed header of a hot page.
#[derive(Debug, Clone, Copy, PartialEq, Eq, Structural)]
pub struct SeriesHotPageHeaderV1 {
    pub page_index: u32,
    pub first_series_ref: u32,
    pub record_count: u32,
}

/// A decoded hot page.
#[derive(Debug, Clone, PartialEq, Eq)]
pub struct SeriesHotPageV1 {
    pub header: SeriesHotPageHeaderV1,
    pub records: Vec<SeriesHotV3>,
}

/// A hot page with its records as a sequence.
pub struct SeriesHotPage {
    pub header: SeriesHotPageHeaderV1,
    pub records: Seq<SeriesHotV3>,
}

impl View for SeriesHotPageV1 {
    type V = SeriesHotPage;

    open spec fn view(&self) -> SeriesHotPage {
        SeriesHotPage { header: self.header, records: self.records@ }
    }
}

pub open spec fn page_header_fields(bytes: Seq<u8>) -> SeriesHotPageHeaderV1 {
    SeriesHotPageHeaderV1 {
        page_index: u32_at(bytes, 8),
        first_series_ref: u32_at(bytes, 12),
        record_count: u32_at(bytes, 16),
    }
}

pub open spec fn decode_page_header_result(bytes: Seq<u8>) -> Result<SeriesHotPageHeaderV1, Error> {
    if bytes.len() != 24 {
        Err(data_error("series v3 hot page header"))
    } else if u32_at(bytes, 0) != SERIES_HOT_PAGE_MAGIC_V1 {
        Err(data_error("series v3 hot page magic"))
    } else if u16_at(bytes, 4) != 1 {
        Err(data_error("series v3 hot page version"))
    } else if u16_at(bytes, 6) != 0 {
        Err(data_error("series v3 hot page flags"))
    } else if u32_at(bytes, 20) != 0 {
        Err(data_error("series v3 hot page reserved0"))
    } else {
        Ok(page_header_fields(bytes))
    }
}

/// The bytes are the encoding of the page header.
pub open spec fn encodes_page_header(bytes: Seq<u8>, header: SeriesHotPageHeaderV1) -> bool {
    decode_page_header_result(bytes) == Ok::<SeriesHotPageHeaderV1, Error>(header)
}

pub open spec fn page_header_result(
    page_header: SeriesHotPageHeaderV1,
    header: SeriesHeaderV3,
    descriptor: SeriesHotPageDescriptorV1,
    page_index: u32,
) -> Result<(), Error> {
    match hot_descriptor_result(descriptor, header, page_index) {
        Err(error) => Err(error),
        Ok(_) => if page_header.page_index != page_index || page_header.first_series_ref
            != descriptor.first_series_ref || page_header.record_count != descriptor.record_count {
            Err(data_error("series v3 hot page header is noncanonical"))
        } else {
            Ok(())
        },
    }
}

impl SeriesHotPageHeaderV1 {
    pub fn encode(self) -> (bytes: [u8; SERIES_HOT_PAGE_HEADER_LEN_V1])
        ensures
            encodes_page_header(bytes@, self),
    {
        let mut bytes = [0u8; SERIES_HOT_PAGE_HEADER_LEN_V1];
        put_u32(&mut bytes, 0, SERIES_HOT_PAGE_MAGIC_V1);
        put_u16(&mut bytes, 4, SERIES_HOT_PAGE_VERSION_V1);
        put_u16(&mut bytes, 6, 0);
        put_u32(&mut bytes, 8, self.page_index);
        put_u32(&mut bytes, 12, self.first_series_ref);
        put_u32(&mut bytes, 16, self.record_count);
        put_u32(&mut bytes, 20, 0);
        bytes
    }

    pub fn decode(bytes: &[u8]) -> (result: Result<Self, Error>)
        ensures
            result == decode_page_header_result(bytes@),
    {
        require_len(bytes, SERIES_HOT_PAGE_HEADER_LEN_V1, "series v3 hot page header")?;
        require_eq_u32(read_u32(bytes, 0), SERIES_HOT_PAGE_MAGIC_V1, "series v3 hot page magic")?;
        require_eq_u16(
            read_u16(bytes, 4),
            SERIES_HOT_PAGE_VERSION_V1,
            "series v3 hot page version",
        )?;
        require_zero_u16(read_u16(bytes, 6), "series v3 hot page flags")?;
        require_zero_u32(read_u32(bytes, 20), "series v3 hot page reserved0")?;
        Ok(
            Self {
                page_index: read_u32(bytes, 8),
                first_series_ref: read_u32(bytes, 12),
                record_count: read_u32(bytes, 16),
            },
        )
    }

    /// Checks the page header against the descriptor of its page.
    pub fn validate(
        self,
        header: SeriesHeaderV3,
        descriptor: SeriesHotPageDescriptorV1,
        page_index: u32,
    ) -> (result: Result<(), Error>)
        requires
            page_reached(header, page_index),
        ensures
            result == page_header_result(self, header, descriptor, page_index),
    {
        descriptor.validate(header, page_index)?;
        if self.page_index != page_index || self.first_series_ref != descriptor.first_series_ref
            || self.record_count != descriptor.record_count {
            return Err(invalid_data("series v3 hot page header is noncanonical"));
        }
        Ok(())
    }
}

/// The forty record bytes at a position of the record area.
pub open spec fn record_slot(encoded: Seq<u8>, position: int) -> Seq<u8> {
    encoded.subrange(40 * position, 40 * position + 40)
}

/// The record area of a page with this many records.
pub open spec fn record_area(bytes: Seq<u8>, record_count: int) -> Seq<u8> {
    bytes.subrange(24, 24 + 40 * record_count)
}

/// The first `n` records of a record area, or the error of the first that is
/// malformed.
pub open spec fn record_list_result(
    encoded: Seq<u8>,
    context: SeriesHotV3Context,
    n: nat,
) -> Result<Seq<SeriesHotV3>, Error>
    decreases n,
{
    if n == 0 {
        Ok(Seq::empty())
    } else {
        match record_list_result(encoded, context, (n - 1) as nat) {
            Err(error) => Err(error),
            Ok(list) => match decode_record_result(record_slot(encoded, n - 1), context) {
                Err(error) => Err(error),
                Ok(record) => Ok(list.push(record)),
            },
        }
    }
}

/// The page header of an authenticated, structurally valid page.
pub open spec fn page_bytes_result(
    header: SeriesHeaderV3,
    page_index: u32,
    descriptor: SeriesHotPageDescriptorV1,
    bytes: Seq<u8>,
) -> Result<SeriesHotPageHeaderV1, Error> {
    match header_result(header) {
        Err(error) => Err(error),
        Ok(_) => if bytes.len() != 16_384 {
            Err(data_error("series v3 hot page"))
        } else {
            match hot_descriptor_result(descriptor, header, page_index) {
                Err(error) => Err(error),
                Ok(_) => if crc32c_of(bytes) != descriptor.page_crc32c {
                    Err(data_error("series v3 hot page CRC mismatch"))
                } else {
                    match decode_page_header_result(bytes.subrange(0, 24)) {
                        Err(error) => Err(error),
                        Ok(page_header) => match page_header_result(
                            page_header,
                            header,
                            descriptor,
                            page_index,
                        ) {
                            Err(error) => Err(error),
                            Ok(_) => if exists|i: int|
                                24 + 40 * page_header.record_count <= i < bytes.len()
                                    && #[trigger] bytes[i] != 0 {
                                Err(data_error("series v3 hot page padding is nonzero"))
                            } else {
                                Ok(page_header)
                            },
                        },
                    }
                },
            }
        },
    }
}

/// The page that a byte sequence holds.
pub open spec fn decode_page_result(
    header: SeriesHeaderV3,
    page_index: u32,
    descriptor: SeriesHotPageDescriptorV1,
    bytes: Seq<u8>,
    chunk_file_lens: [u64; 2],
) -> Result<SeriesHotPage, Error> {
    match page_bytes_result(header, page_index, descriptor, bytes) {
        Err(error) => Err(error),
        Ok(page_header) => match record_list_result(
            record_area(bytes, page_header.record_count as int),
            context_of(header, chunk_file_lens),
            page_header.record_count as nat,
        ) {
            Err(error) => Err(error),
            Ok(records) => Ok(SeriesHotPage { header: page_header, records }),
        },
    }
}

/// A decoded page's result over its view.
pub open spec fn page_view(result: Result<SeriesHotPageV1, Error>) -> Result<SeriesHotPage, Error> {
    match result {
        Ok(page) => Ok(page@),
        Err(error) => Err(error),
    }
}

/// An authenticated page, borrowed, whose records are not decoded yet.
pub struct ValidatedSeriesHotPageBytes<'a> {
    pub page_header: SeriesHotPageHeaderV1,
    pub encoded_records: &'a [u8],
    pub context: SeriesHotV3Context,
}

/// The visitor can let the record pass.
pub open spec fn accepts<F: FnMut(u32, SeriesHotV3) -> Result<(), Error>>(
    visit: F,
    series_ref: u32,
    record: SeriesHotV3,
) -> bool {
    exists|outcome: Result<(), Error>|
        outcome is Ok && #[trigger] call_ensures(visit, (series_ref, record), outcome)
}

/// The first `n` records decode, and the visitor accepts each of them.
pub open spec fn visits<F: FnMut(u32, SeriesHotV3) -> Result<(), Error>>(
    visit: F,
    first_series_ref: u32,
    encoded: Seq<u8>,
    context: SeriesHotV3Context,
    n: int,
) -> bool {
    forall|i: int|
        0 <= i < n ==> {
            &&& decode_record_result(#[trigger] record_slot(encoded, i), context) is Ok
            &&& accepts(
                visit,
                (first_series_ref + i) as u32,
                decode_record_result(record_slot(encoded, i), context)->Ok_0,
            )
        }
}

/// The record at `n` stops the visit with this error.
pub open spec fn visit_stops<F: FnMut(u32, SeriesHotV3) -> Result<(), Error>>(
    visit: F,
    first_series_ref: u32,
    encoded: Seq<u8>,
    context: SeriesHotV3Context,
    n: int,
    error: Error,
) -> bool {
    match decode_record_result(record_slot(encoded, n), context) {
        Err(decode_error) => error == decode_error,
        Ok(record) => call_ensures(
            visit,
            ((first_series_ref + n) as u32, record),
            Err(error),
        ),
    }
}

impl<'a> ValidatedSeriesHotPageBytes<'a> {
    /// The record area is exact and every series reference fits.
    pub open spec fn wf(self) -> bool {
        &&& self.encoded_records@.len() == 40 * self.page_header.record_count
        &&& self.page_header.first_series_ref + self.page_header.record_count <= u32::MAX
    }

    /// Decodes the records in order and hands each to the visitor, until the
    /// first record or visitor that fails.
    pub fn visit_records<F: FnMut(u32, SeriesHotV3) -> Result<(), Error>>(&self, visit: F) -> (result:
        Result<(), Error>)
        requires
            self.wf(),
            forall|series_ref: u32, record: SeriesHotV3|
                call_requires(visit, (series_ref, record)),
        ensures
            result is Ok ==> visits(
                visit,
                self.page_header.first_series_ref,
                self.encoded_records@,
                self.context,
                self.page_header.record_count as int,
            ),
            result matches Err(error) ==> exists|n: int|
                0 <= n < self.page_header.record_count && visits(
                    visit,
                    self.page_header.first_series_ref,
                    self.encoded_records@,
                    self.context,
                    n,
                ) && #[trigger] visit_stops(
                    visit,
                    self.page_header.first_series_ref,
                    self.encoded_records@,
                    self.context,
                    n,
                    error,
                ),
    {
        let mut visitor = visit;
        let first: u32 = self.page_header.first_series_ref;
        let count: u32 = self.page_header.record_count;
        let mut record_index: u32 = 0;
        while record_index < count
            invariant
                record_index <= count,
                self.wf(),
                first == self.page_header.first_series_ref,
                count == self.page_header.record_count,
                visitor == visit,
                forall|series_ref: u32, record: SeriesHotV3|
                    call_requires(visit, (series_ref, record)),
                visits(
                    visit,
                    first,
                    self.encoded_records@,
                    self.context,
                    record_index as int,
                ),
            decreases count - record_index,
        {
            match self.record(record_index) {
                Err(error) => {
                    assert(visit_stops(
                        visit,
                        first,
                        self.encoded_records@,
                        self.context,
                        record_index as int,
                        error,
                    ));
                    return Err(error);
                },
                Ok(record) => {
                    let outcome = visitor(first + record_index, record);
                    if let Err(error) = outcome {
                        assert(visit_stops(
                            visit,
                            first,
                            self.encoded_records@,
                            self.context,
                            record_index as int,
                            error,
                        ));
                        return Err(error);
                    }
                    assert(accepts(visit, (first + record_index) as u32, record));
                },
            }
            record_index += 1;
        }
        Ok(())
    }

    /// Decodes the record at a position of the page.
    pub fn record(&self, record_index: u32) -> (result: Result<SeriesHotV3, Error>)
        requires
            self.wf(),
            record_index < self.page_header.record_count,
        ensures
            result == decode_record_result(
                record_slot(self.encoded_records@, record_index as int),
                self.context,
            ),
    {
        assert(self.encoded_records@.len() == self.encoded_records.len());
        let start: usize = record_index as usize * SERIES_HOT_RECORD_LEN_V3;
        SeriesHotV3::decode(
            &self.encoded_records[start..start + SERIES_HOT_RECORD_LEN_V3],
            self.context,
        )
    }
}

/// Authenticates and structurally validates a complete hot page.
pub fn validate_series_hot_page_bytes_v1<'a>(
    header: SeriesHeaderV3,
    page_index: u32,
    descriptor: SeriesHotPageDescriptorV1,
    bytes: &'a [u8],
    chunk_file_lens: [u64; 2],
) -> (result: Result<ValidatedSeriesHotPageBytes<'a>, Error>)
    ensures
        match page_bytes_result(header, page_index, descriptor, bytes@) {
            Err(error) => result == Err::<ValidatedSeriesHotPageBytes<'a>, Error>(error),
            Ok(page_header) => {
                &&& result is Ok
                &&& result->Ok_0.wf()
                &&& result->Ok_0.page_header == page_header
                &&& result->Ok_0.encoded_records@ == record_area(bytes@, page_header.record_count as int)
                &&& result->Ok_0.context == context_of(header, chunk_file_lens)
            },
        },
{
    header.validate()?;
    require_len(bytes, SERIES_HOT_PAGE_LEN_V1, "series v3 hot page")?;
    proof {
        if page_index < header.page_count {
            hot_page_cover_law(header, page_index);
        }
    }
    descriptor.validate(header, page_index)?;
    if crc32c(bytes) != descriptor.page_crc32c {
        return Err(invalid_data("series v3 hot page CRC mismatch"));
    }
    let page_header = SeriesHotPageHeaderV1::decode(&bytes[0..SERIES_HOT_PAGE_HEADER_LEN_V1])?;
    page_header.validate(header, descriptor, page_index)?;
    let records_len: usize = page_header.record_count as usize * SERIES_HOT_RECORD_LEN_V3;
    let records_end: usize = SERIES_HOT_PAGE_HEADER_LEN_V1 + records_len;
    if !all_zero_from(bytes, records_end) {
        return Err(invalid_data("series v3 hot page padding is nonzero"));
    }
    Ok(
        ValidatedSeriesHotPageBytes {
            page_header,
            encoded_records: &bytes[SERIES_HOT_PAGE_HEADER_LEN_V1..records_end],
            context: SeriesHotV3Context::from_header(header, chunk_file_lens)?,
        },
    )
}

/// A malformed record makes the whole list malformed.
pub(crate) proof fn lemma_record_list_error(
    encoded: Seq<u8>,
    context: SeriesHotV3Context,
    n: nat,
    m: nat,
)
    requires
        n <= m,
        record_list_result(encoded, context, n) is Err,
    ensures
        record_list_result(encoded, context, m) == record_list_result(encoded, context, n),
    decreases m,
{
    if n < m {
        lemma_record_list_error(encoded, context, n, (m - 1) as nat);
    }
}

/// Decodes, authenticates and validates a complete hot page.
pub fn decode_series_hot_page_v1(
    header: SeriesHeaderV3,
    page_index: u32,
    descriptor: SeriesHotPageDescriptorV1,
    bytes: &[u8],
    chunk_file_lens: [u64; 2],
) -> (result: Result<SeriesHotPageV1, Error>)
    ensures
        page_view(result) == decode_page_result(
            header,
            page_index,
            descriptor,
            bytes@,
            chunk_file_lens,
        ),
{
    let validated = validate_series_hot_page_bytes_v1(
        header,
        page_index,
        descriptor,
        bytes,
        chunk_file_lens,
    )?;
    let count: u32 = validated.page_header.record_count;
    let ghost encoded = validated.encoded_records@;
    let ghost context = validated.context;
    let mut records: Vec<SeriesHotV3> = Vec::with_capacity(count as usize);
    let mut record_index: u32 = 0;
    while record_index < count
        invariant
            record_index <= count,
            validated.wf(),
            count == validated.page_header.record_count,
            encoded == validated.encoded_records@,
            context == validated.context,
            record_list_result(encoded, context, record_index as nat) == Ok::<
                Seq<SeriesHotV3>,
                Error,
            >(records@),
            record_list_result(encoded, context, count as nat) is Err ==> decode_page_result(
                header,
                page_index,
                descriptor,
                bytes@,
                chunk_file_lens,
            ) == Err::<SeriesHotPage, Error>(
                record_list_result(encoded, context, count as nat)->Err_0,
            ),
        decreases count - record_index,
    {
        match validated.record(record_index) {
            Ok(record) => {
                records.push(record);
            },
            Err(error) => {
                proof {
                    lemma_record_list_error(
                        encoded,
                        context,
                        (record_index + 1) as nat,
                        count as nat,
                    );
                }
                return Err(error);
            },
        }
        record_index += 1;
    }
    Ok(SeriesHotPageV1 { header: validated.page_header, records })
}

/// What visiting a page gives: its error, or the records up to the first that is
/// malformed or that the visitor refuses.
pub open spec fn visit_outcome<F: FnMut(u32, SeriesHotV3) -> Result<(), Error>>(
    header: SeriesHeaderV3,
    page_index: u32,
    descriptor: SeriesHotPageDescriptorV1,
    bytes: Seq<u8>,
    chunk_file_lens: [u64; 2],
    visit: F,
    result: Result<(), Error>,
) -> bool {
    match page_bytes_result(header, page_index, descriptor, bytes) {
        Err(error) => result == Err::<(), Error>(error),
        Ok(page_header) => {
            let encoded = record_area(bytes, page_header.record_count as int);
            let context = context_of(header, chunk_file_lens);
            &&& result is Ok ==> visits(
                visit,
                page_header.first_series_ref,
                encoded,
                context,
                page_header.record_count as int,
            )
            &&& result matches Err(error) ==> exists|n: int|
                0 <= n < page_header.record_count && visits(
                    visit,
                    page_header.first_series_ref,
                    encoded,
                    context,
                    n,
                ) && #[trigger] visit_stops(
                    visit,
                    page_header.first_series_ref,
                    encoded,
                    context,
                    n,
                    error,
                )
        },
    }
}

/// Authenticates and structurally validates a complete hot page, then hands
/// its records to the visitor without storing them.
pub fn visit_series_hot_page_v1<F: FnMut(u32, SeriesHotV3) -> Result<(), Error>>(
    header: SeriesHeaderV3,
    page_index: u32,
    descriptor: SeriesHotPageDescriptorV1,
    bytes: &[u8],
    chunk_file_lens: [u64; 2],
    visit: F,
) -> (result: Result<(), Error>)
    requires
        forall|series_ref: u32, record: SeriesHotV3| call_requires(visit, (series_ref, record)),
    ensures
        visit_outcome(
            header,
            page_index,
            descriptor,
            bytes@,
            chunk_file_lens,
            visit,
            result,
        ),
{
    let validated = validate_series_hot_page_bytes_v1(
        header,
        page_index,
        descriptor,
        bytes,
        chunk_file_lens,
    )?;
    validated.visit_records(visit)
}

/// Every one of the first `n` records can be encoded, or the first error.
pub open spec fn records_result(
    records: Seq<SeriesHotV3>,
    context: SeriesHotV3Context,
    n: nat,
) -> Result<(), Error>
    decreases n,
{
    if n == 0 {
        Ok(())
    } else {
        match records_result(records, context, (n - 1) as nat) {
            Err(error) => Err(error),
            Ok(_) => record_result(records[n - 1], context),
        }
    }
}

/// Whether a page of these records can be encoded.
pub open spec fn encodable_page_result(
    header: SeriesHeaderV3,
    page_index: u32,
    records: Seq<SeriesHotV3>,
    chunk_file_lens: [u64; 2],
) -> Result<(), Error> {
    match header_result(header) {
        Err(error) => Err(error),
        Ok(_) => match hot_record_count_result(header, page_index) {
            Err(error) => Err(error),
            Ok(count) => if records.len() != count {
                Err(data_error("series v3 hot page record count"))
            } else {
                records_result(records, context_of(header, chunk_file_lens), records.len())
            },
        },
    }
}

/// The bytes are the encoding of the page.
pub open spec fn encodes_page(bytes: Seq<u8>, page: SeriesHotPage) -> bool {
    &&& bytes.len() == 16_384
    &&& 24 + 40 * page.records.len() <= bytes.len()
    &&& encodes_page_header(bytes.subrange(0, 24), page.header)
    &&& forall|i: int|
        0 <= i < page.records.len() ==> encodes_record(
            #[trigger] record_slot(record_area(bytes, page.records.len() as int), i),
            page.records[i],
        )
    &&& forall|i: int|
        24 + 40 * page.records.len() <= i < bytes.len() ==> #[trigger] bytes[i] == 0
}

/// The descriptor of a page with these bytes.
pub open spec fn descriptor_of(page: SeriesHotPageHeaderV1, bytes: Seq<u8>) -> SeriesHotPageDescriptorV1 {
    SeriesHotPageDescriptorV1 {
        first_series_ref: page.first_series_ref,
        record_count: page.record_count,
        page_crc32c: crc32c_of(bytes),
    }
}

/// Writes the records of a page behind its header.
fn write_records(bytes: &mut Vec<u8>, records: &[SeriesHotV3], context: SeriesHotV3Context) -> (
result: Result<(), Error>)
    requires
        old(bytes)@.len() == 16_384,
        records@.len() <= 409,
        forall|i: int| 24 <= i < old(bytes)@.len() ==> #[trigger] old(bytes)@[i] == 0,
    ensures
        match records_result(records@, context, records@.len()) {
            Err(error) => result == Err::<(), Error>(error),
            Ok(_) => {
                &&& result is Ok
                &&& final(bytes)@.len() == 16_384
                &&& final(bytes)@.subrange(0, 24) == old(bytes)@.subrange(0, 24)
                &&& forall|i: int|
                    0 <= i < records@.len() ==> encodes_record(
                        #[trigger] record_slot(
                            record_area(final(bytes)@, records@.len() as int),
                            i,
                        ),
                        records@[i],
                    )
                &&& forall|i: int|
                    24 + 40 * records@.len() <= i < 16_384 ==> #[trigger] final(bytes)@[i] == 0
            },
        },
{
    let ghost start = bytes@;
    let ghost n = records@.len();
    let mut cursor: usize = SERIES_HOT_PAGE_HEADER_LEN_V1;
    let mut index: usize = 0;
    while index < records.len()
        invariant
            index <= records@.len() <= 409,
            n == records@.len(),
            cursor == 24 + 40 * index,
            bytes@.len() == 16_384,
            bytes@.subrange(0, 24) == start.subrange(0, 24),
            records_result(records@, context, index as nat) is Ok,
            forall|i: int|
                0 <= i < index ==> encodes_record(
                    #[trigger] record_slot(record_area(bytes@, n as int), i),
                    records@[i],
                ),
            forall|i: int| cursor <= i < 16_384 ==> #[trigger] bytes@[i] == 0,
        decreases records@.len() - index,
    {
        let ghost before = bytes@;
        match records[index].encode(context) {
            Err(error) => {
                proof {
                    lemma_records_error(records@, context, (index + 1) as nat, n);
                }
                return Err(error);
            },
            Ok(encoded) => {
                copy_into(bytes, cursor, &encoded);
                proof {
                    let area = record_area(bytes@, n as int);
                    let area_before = record_area(before, n as int);
                    assert(record_slot(area, index as int) =~= encoded@);
                    assert forall|i: int| 0 <= i < index implies #[trigger] record_slot(area, i)
                        == record_slot(area_before, i) by {
                        assert(record_slot(area, i) =~= record_slot(area_before, i));
                    }
                    assert(bytes@.subrange(0, 24) =~= before.subrange(0, 24));
                }
            },
        }
        cursor += SERIES_HOT_RECORD_LEN_V3;
        index += 1;
    }
    Ok(())
}

/// A record that cannot be encoded makes the whole page unencodable.
proof fn lemma_records_error(
    records: Seq<SeriesHotV3>,
    context: SeriesHotV3Context,
    n: nat,
    m: nat,
)
    requires
        n <= m,
        records_result(records, context, n) is Err,
    ensures
        records_result(records, context, m) == records_result(records, context, n),
    decreases m,
{
    if n < m {
        lemma_records_error(records, context, n, (m - 1) as nat);
    }
}

/// Encodes one complete hot page and returns its descriptor.
pub fn encode_series_hot_page_v1(
    header: SeriesHeaderV3,
    page_index: u32,
    records: &[SeriesHotV3],
    chunk_file_lens: [u64; 2],
) -> (result: Result<(SeriesHotPageDescriptorV1, Vec<u8>), Error>)
    ensures
        match encodable_page_result(header, page_index, records@, chunk_file_lens) {
            Err(error) => result == Err::<(SeriesHotPageDescriptorV1, Vec<u8>), Error>(error),
            Ok(_) => {
                let page_header = SeriesHotPageHeaderV1 {
                    page_index,
                    first_series_ref: (page_index * 409) as u32,
                    record_count: records@.len() as u32,
                };
                &&& result is Ok
                &&& result->Ok_0.0 == descriptor_of(page_header, result->Ok_0.1@)
                &&& encodes_page(
                    result->Ok_0.1@,
                    SeriesHotPage { header: page_header, records: records@ },
                )
            },
        },
{
    header.validate()?;
    proof {
        if page_index < header.page_count {
            hot_page_cover_law(header, page_index);
        }
    }
    require_count(
        records.len(),
        header.expected_hot_record_count(page_index)?,
        "series v3 hot page record count",
    )?;
    let first_series_ref: u32 = page_index * SERIES_HOT_RECORDS_PER_PAGE_V1;
    let page_header = SeriesHotPageHeaderV1 {
        page_index,
        first_series_ref,
        record_count: checked_u32(records.len(), "hot page record count")?,
    };
    let context = SeriesHotV3Context::from_header(header, chunk_file_lens)?;
    let mut bytes: Vec<u8> = zeroed_vec(SERIES_HOT_PAGE_LEN_V1);
    let encoded_header = page_header.encode();
    copy_into(&mut bytes, 0, &encoded_header);
    assert(bytes@.subrange(0, 24) =~= encoded_header@);
    write_records(&mut bytes, records, context)?;
    let descriptor = SeriesHotPageDescriptorV1 {
        first_series_ref,
        record_count: page_header.record_count,
        page_crc32c: crc32c(&bytes),
    };
    descriptor.validate(header, page_index)?;
    Ok((descriptor, bytes))
}

/// A page that was encoded decodes, under its descriptor, to its records.
pub proof fn page_round_trip_law(
    header: SeriesHeaderV3,
    page_index: u32,
    records: Seq<SeriesHotV3>,
    chunk_file_lens: [u64; 2],
    bytes: Seq<u8>,
)
    requires
        encodable_page_result(header, page_index, records, chunk_file_lens) is Ok,
        ({
            let page_header = SeriesHotPageHeaderV1 {
                page_index,
                first_series_ref: (page_index * 409) as u32,
                record_count: records.len() as u32,
            };
            encodes_page(bytes, SeriesHotPage { header: page_header, records })
        }),
    ensures
        ({
            let page_header = SeriesHotPageHeaderV1 {
                page_index,
                first_series_ref: (page_index * 409) as u32,
                record_count: records.len() as u32,
            };
            decode_page_result(
                header,
                page_index,
                descriptor_of(page_header, bytes),
                bytes,
                chunk_file_lens,
            ) == Ok::<SeriesHotPage, Error>(SeriesHotPage { header: page_header, records })
        }),
{
    hot_page_cover_law(header, page_index);
    let context = context_of(header, chunk_file_lens);
    lemma_records_decode(record_area(bytes, records.len() as int), records, context, records.len());
    assert(records.take(records.len() as int) =~= records);
}

proof fn lemma_records_decode(
    encoded: Seq<u8>,
    records: Seq<SeriesHotV3>,
    context: SeriesHotV3Context,
    n: nat,
)
    requires
        n <= records.len(),
        records_result(records, context, n) is Ok,
        forall|i: int|
            0 <= i < records.len() ==> encodes_record(
                #[trigger] record_slot(encoded, i),
                records[i],
            ),
    ensures
        record_list_result(encoded, context, n) == Ok::<Seq<SeriesHotV3>, Error>(
            records.take(n as int),
        ),
    decreases n,
{
    if n == 0 {
        assert(records.take(0) =~= Seq::empty());
    } else {
        lemma_records_decode(encoded, records, context, (n - 1) as nat);
        assert(encodes_record(record_slot(encoded, n - 1), records[n - 1]));
        record_round_trip_law(record_slot(encoded, n - 1), records[n - 1], context);
        assert(records.take(n - 1).push(records[n - 1]) =~= records.take(n as int));
    }
}

proof fn lemma_record_at(encoded: Seq<u8>, context: SeriesHotV3Context, n: nat, i: int)
    requires
        record_list_result(encoded, context, n) is Ok,
        0 <= i < n,
    ensures
        record_list_result(encoded, context, n)->Ok_0.len() == n,
        decode_record_result(record_slot(encoded, i), context) == Ok::<SeriesHotV3, Error>(
            record_list_result(encoded, context, n)->Ok_0[i],
        ),
    decreases n,
{
    if n > 1 {
        lemma_record_at(encoded, context, (n - 1) as nat, if i < n - 1 { i } else { 0 });
    } else {
        assert(record_list_result(encoded, context, 0) == Ok::<Seq<SeriesHotV3>, Error>(
            Seq::empty(),
        ));
    }
}

/// Visiting an encoded page with a visitor that accepts everything succeeds, and
/// the visitor accepts every record under its own series reference.
pub proof fn visited_page_law<F: FnMut(u32, SeriesHotV3) -> Result<(), Error>>(
    header: SeriesHeaderV3,
    page_index: u32,
    records: Seq<SeriesHotV3>,
    chunk_file_lens: [u64; 2],
    bytes: Seq<u8>,
    visit: F,
    result: Result<(), Error>,
)
    requires
        encodable_page_result(header, page_index, records, chunk_file_lens) is Ok,
        ({
            let page_header = SeriesHotPageHeaderV1 {
                page_index,
                first_series_ref: (page_index * 409) as u32,
                record_count: records.len() as u32,
            };
            &&& encodes_page(bytes, SeriesHotPage { header: page_header, records })
            &&& visit_outcome(
                header,
                page_index,
                descriptor_of(page_header, bytes),
                bytes,
                chunk_file_lens,
                visit,
                result,
            )
        }),
        forall|series_ref: u32, record: SeriesHotV3, outcome: Result<(), Error>| #[trigger]
            call_ensures(visit, (series_ref, record), outcome) ==> outcome is Ok,
    ensures
        result is Ok,
        forall|k: int|
            0 <= k < records.len() ==> accepts(
                visit,
                (409 * page_index + k) as u32,
                #[trigger] records[k],
            ),
{
    let context = context_of(header, chunk_file_lens);
    let encoded = record_area(bytes, records.len() as int);
    page_round_trip_law(header, page_index, records, chunk_file_lens, bytes);
    assert forall|k: int| 0 <= k < records.len() implies decode_record_result(
        #[trigger] record_slot(encoded, k),
        context,
    ) == Ok::<SeriesHotV3, Error>(records[k]) by {
        lemma_record_at(encoded, context, records.len(), k);
    }
    if result is Err {
        let first = (page_index * 409) as u32;
        let n = choose|n: int|
            0 <= n < records.len() && visits(visit, first, encoded, context, n)
                && #[trigger] visit_stops(visit, first, encoded, context, n, result->Err_0);
        assert(decode_record_result(record_slot(encoded, n), context) is Ok);
        assert(call_ensures(visit, ((first + n) as u32, records[n]), result));
    }
    assert forall|k: int| 0 <= k < records.len() implies accepts(
        visit,
        (409 * page_index + k) as u32,
        #[trigger] records[k],
    ) by {
        assert(decode_record_result(record_slot(encoded, k), context) is Ok);
    }
}

/// Bytes that are not a page, or not the page that a descriptor authenticates,
/// are refused before anything is visited, whatever the visitor does.
pub proof fn refused_visit_law<F: FnMut(u32, SeriesHotV3) -> Result<(), Error>>(
    header: SeriesHeaderV3,
    page_index: u32,
    descriptor: SeriesHotPageDescriptorV1,
    bytes: Seq<u8>,
    chunk_file_lens: [u64; 2],
    visit: F,
    result: Result<(), Error>,
)
    requires
        bytes.len() != 16_384 || crc32c_of(bytes) != descriptor.page_crc32c,
        visit_outcome(header, page_index, descriptor, bytes, chunk_file_lens, visit, result),
    ensures
        result is Err,
        page_bytes_result(header, page_index, descriptor, bytes) == Err::<
            SeriesHotPageHeaderV1,
            Error,
        >(result->Err_0),
        header_result(header) is Ok ==> result->Err_0.kind is InvalidData,
{
}

} // verus!
