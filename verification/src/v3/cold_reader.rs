//! Authentication boundary for one physical cold-label page.
//!
//! Cold pages have no page header or physical padding. Their descriptor in the
//! authenticated series root supplies the page index, exact physical length,
//! and CRC. This value retains the complete decode context so a cache hit
//! cannot substitute bytes validated under another root, descriptor, or page.

use core::mem::size_of;

use vstd::prelude::*;

use super::header::{header_result, SeriesHeaderV3};
use super::root::{cold_descriptor_result, SeriesColdPageDescriptorV1};
use crate::bytes::copy_bytes;
use crate::checksum::{crc32c, crc32c_of};
use crate::error::{data_error, invalid_data, memory_error, resource_error, Error};

verus! {

/// One owned, fully authenticated physical cold-label page.
#[derive(Debug, PartialEq, Eq)]
pub struct ValidatedSeriesColdPage {
    header: SeriesHeaderV3,
    page_index: u32,
    descriptor: SeriesColdPageDescriptorV1,
    bytes: Vec<u8>,
}

/// A cold page with its bytes as a sequence.
pub struct ColdPage {
    pub header: SeriesHeaderV3,
    pub page_index: u32,
    pub descriptor: SeriesColdPageDescriptorV1,
    pub bytes: Seq<u8>,
}

impl View for ValidatedSeriesColdPage {
    type V = ColdPage;

    closed spec fn view(&self) -> ColdPage {
        ColdPage {
            header: self.header,
            page_index: self.page_index,
            descriptor: self.descriptor,
            bytes: self.bytes@,
        }
    }
}

/// The page index and descriptor are those of the header.
pub open spec fn cold_context_result(
    header: SeriesHeaderV3,
    page_index: u32,
    descriptor: SeriesColdPageDescriptorV1,
) -> Result<(), Error> {
    match header_result(header) {
        Err(error) => Err(error),
        Ok(_) => cold_descriptor_result(descriptor, header, page_index),
    }
}

/// The bytes are those of the page.
pub open spec fn cold_page_result(
    header: SeriesHeaderV3,
    page_index: u32,
    descriptor: SeriesColdPageDescriptorV1,
    bytes: Seq<u8>,
) -> Result<(), Error> {
    match cold_context_result(header, page_index, descriptor) {
        Err(error) => Err(error),
        Ok(_) => if bytes.len() != descriptor.page_len {
            Err(data_error("series v3 cold page length is not exact"))
        } else if crc32c_of(bytes) != descriptor.page_crc32c {
            Err(data_error("series v3 cold page CRC mismatch"))
        } else {
            Ok(())
        },
    }
}

/// A decoded page is the page it was decoded as.
pub open spec fn decoded_cold_page(
    result: Result<ValidatedSeriesColdPage, Error>,
    header: SeriesHeaderV3,
    page_index: u32,
    descriptor: SeriesColdPageDescriptorV1,
    bytes: Seq<u8>,
) -> bool {
    match cold_page_result(header, page_index, descriptor, bytes) {
        Err(error) => result == Err::<ValidatedSeriesColdPage, Error>(error),
        Ok(_) => result is Ok && result->Ok_0@ == (ColdPage {
            header,
            page_index,
            descriptor,
            bytes,
        }),
    }
}

/// The logical bytes of a cold page of this length.
pub open spec fn cold_charge_result(len: nat) -> Result<u64, Error> {
    if vstd::layout::size_of::<ValidatedSeriesColdPage>() + len > u64::MAX {
        Err(memory_error("series v3 cold page charge overflows"))
    } else {
        Ok((vstd::layout::size_of::<ValidatedSeriesColdPage>() + len) as u64)
    }
}

impl ValidatedSeriesColdPage {
    /// Returns the exact final-allocation bound for one decoded cold page.
    pub fn declared_max_bytes(descriptor: SeriesColdPageDescriptorV1) -> (result: Result<
        u64,
        Error,
    >)
        ensures
            result == cold_charge_result(descriptor.page_len as nat),
    {
        let fixed: u64 = size_of::<Self>() as u64;
        match fixed.checked_add(descriptor.page_len as u64) {
            Some(charge) => Ok(charge),
            None => Err(resource_error("series v3 cold page charge overflows")),
        }
    }

    /// Validates and owns one exact physical cold-page range.
    ///
    /// The final page is not padded to the page size. Passing a padded final
    /// page, a truncated page, or bytes for another descriptor is therefore a
    /// structural error even when the extra bytes are zero.
    pub fn decode(
        header: SeriesHeaderV3,
        page_index: u32,
        descriptor: SeriesColdPageDescriptorV1,
        page_bytes: &[u8],
    ) -> (result: Result<Self, Error>)
        ensures
            decoded_cold_page(result, header, page_index, descriptor, page_bytes@),
    {
        validate_page_bytes(header, page_index, descriptor, page_bytes)?;
        Self::decode_owned(header, page_index, descriptor, copy_bytes(page_bytes))
    }

    /// Validates and takes ownership of an exact-range allocation.
    pub fn decode_owned(
        header: SeriesHeaderV3,
        page_index: u32,
        descriptor: SeriesColdPageDescriptorV1,
        page_bytes: Vec<u8>,
    ) -> (result: Result<Self, Error>)
        ensures
            decoded_cold_page(result, header, page_index, descriptor, page_bytes@),
    {
        validate_page_bytes(header, page_index, descriptor, &page_bytes)?;
        Ok(Self { header, page_index, descriptor, bytes: page_bytes })
    }

    /// Returns the authenticated bytes after rebinding a cache hit to the
    /// exact root and descriptor expected by the caller.
    pub fn bytes_for(
        &self,
        header: SeriesHeaderV3,
        page_index: u32,
        descriptor: SeriesColdPageDescriptorV1,
    ) -> (result: Result<&[u8], Error>)
        ensures
            if self@.header == header && self@.page_index == page_index && self@.descriptor
                == descriptor {
                result is Ok && result->Ok_0@ == self@.bytes
            } else {
                result == Err::<&[u8], Error>(
                    data_error(
                        "series v3 cached cold page decode context does not match the expected root",
                    ),
                )
            },
    {
        if self.header != header || self.page_index != page_index || self.descriptor != descriptor {
            return Err(
                invalid_data(
                    "series v3 cached cold page decode context does not match the expected root",
                ),
            );
        }
        Ok(&self.bytes)
    }

    /// Logical allocation bytes owned by this cache value.
    pub fn charged_bytes(&self) -> (result: Result<u64, Error>)
        ensures
            result == cold_charge_result(self@.bytes.len()),
    {
        assert(self.bytes@.len() == self.bytes.len());
        let fixed: u64 = size_of::<Self>() as u64;
        match fixed.checked_add(self.bytes.len() as u64) {
            Some(charge) => Ok(charge),
            None => Err(resource_error("series v3 cold page charge overflows")),
        }
    }
}

/// Checks the bytes of a page and returns their exact length.
pub fn validate_page_bytes(
    header: SeriesHeaderV3,
    page_index: u32,
    descriptor: SeriesColdPageDescriptorV1,
    page_bytes: &[u8],
) -> (result: Result<usize, Error>)
    ensures
        result == (match cold_page_result(header, page_index, descriptor, page_bytes@) {
            Err(error) => Err(error),
            Ok(_) => Ok::<usize, Error>(page_bytes@.len() as usize),
        }),
{
    assert(page_bytes@.len() == page_bytes.len());
    validate_context(header, page_index, descriptor)?;
    let expected_len: usize = descriptor.page_len as usize;
    if page_bytes.len() != expected_len {
        return Err(invalid_data("series v3 cold page length is not exact"));
    }
    if crc32c(page_bytes) != descriptor.page_crc32c {
        return Err(invalid_data("series v3 cold page CRC mismatch"));
    }
    Ok(expected_len)
}

/// Checks the descriptor of a page against the header.
pub fn validate_context(
    header: SeriesHeaderV3,
    page_index: u32,
    descriptor: SeriesColdPageDescriptorV1,
) -> (result: Result<(), Error>)
    ensures
        result == cold_context_result(header, page_index, descriptor),
{
    header.validate()?;
    descriptor.validate(header, page_index)
}

} // verus!
