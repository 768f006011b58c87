//! Deterministic writer-side plan for the cold label stream.
//!
//! The plan is independent of where the stream will stand: its three sections
//! are encoded at the absolute offsets that the caller chooses.


use vstd::prelude::*;

use super::blocks::{
    block_entries, blocks_section_len_result, dict_values, new_rows_result, rows_view,
    write_blocks_result, write_keyset_blocks_section, ColdKeysetRows, KeysetRows,
};
use super::canonical::{dicts_for, keysets_for};
use super::encode::{
    checked_u32, checked_u64, checked_usize, dict_entries, dicts_len_result, exceeds_error,
    keyset_entries, keysets_len_result, lemma_assoc, section_bytes, write_dicts_result,
    write_keysets_result, write_keysets_section, write_value_dicts_section,
};
use super::shapes::{
    collect_result, dicts_view, keys_of, keyset_rows, keysets_view, ColdPlanSeriesEntry,
};
use crate::error::{input_error, invalid_data, invalid_input, Error, ErrorKind, Message};

verus! {

/// Where the labels of a series stand.
#[derive(Debug, Clone, Copy, PartialEq, Eq, Structural)]
pub struct SeriesColdV2SeriesRow {
    pub series_id: u64,
    pub kind_mask: u8,
    pub keyset_id: u32,
    pub row: u32,
}

/// The encoded lengths of the three sections.
#[derive(Debug, Clone, Copy, PartialEq, Eq, Structural)]
pub struct SeriesColdV2Lengths {
    pub keysets: u64,
    pub value_dicts: u64,
    pub keyset_blocks: u64,
}

pub open spec fn total_result(lengths: SeriesColdV2Lengths) -> Result<u64, Error> {
    if lengths.keysets + lengths.value_dicts + lengths.keyset_blocks > u64::MAX {
        Err(input_error("series cold sections are too large"))
    } else {
        Ok((lengths.keysets + lengths.value_dicts + lengths.keyset_blocks) as u64)
    }
}

impl SeriesColdV2Lengths {
    /// The length of all three sections.
    pub fn total(self) -> (result: Result<u64, Error>)
        ensures
            result == total_result(self),
    {
        match self.keysets.checked_add(self.value_dicts) {
            Some(len) => match len.checked_add(self.keyset_blocks) {
                Some(len) => Ok(len),
                None => Err(invalid_input("series cold sections are too large")),
            },
            None => Err(invalid_input("series cold sections are too large")),
        }
    }
}

/// Absolute locations for the three contiguous cold sections.
#[derive(Debug, Clone, Copy, PartialEq, Eq, Structural)]
pub struct SeriesColdV2SectionOffsets {
    pub keysets: u64,
    pub value_dicts: u64,
    pub keyset_blocks: u64,
    pub end: u64,
}

/// Canonical label rows and exact section sizes.
#[derive(Debug, Clone, PartialEq, Eq)]
pub struct SeriesColdV2Plan {
    pub series_rows: Vec<SeriesColdV2SeriesRow>,
    pub num_series: u32,
    pub num_keysets: u32,
    pub num_value_dicts: u32,
    pub keysets: Vec<Vec<u32>>,
    pub value_dicts: Vec<(u32, Vec<u32>)>,
    pub rows_by_keyset: Vec<ColdKeysetRows>,
    pub lengths: SeriesColdV2Lengths,
}

/// A plan with its lists as sequences.
pub struct ColdPlan {
    pub series_rows: Seq<SeriesColdV2SeriesRow>,
    pub num_series: u32,
    pub num_keysets: u32,
    pub num_value_dicts: u32,
    pub keysets: Seq<Seq<u32>>,
    pub value_dicts: Seq<(u32, Seq<u32>)>,
    pub rows: Seq<KeysetRows>,
    pub lengths: SeriesColdV2Lengths,
}

impl View for SeriesColdV2Plan {
    type V = ColdPlan;

    open spec fn view(&self) -> ColdPlan {
        ColdPlan {
            series_rows: self.series_rows@,
            num_series: self.num_series,
            num_keysets: self.num_keysets,
            num_value_dicts: self.num_value_dicts,
            keysets: keysets_view(self.keysets@),
            value_dicts: dicts_view(self.value_dicts@),
            rows: rows_view(self.rows_by_keyset@),
            lengths: self.lengths,
        }
    }
}

/// The position of a value among the values of its key.
pub open spec fn value_code(dicts: Seq<(u32, Seq<u32>)>, key: u32, value: u32) -> u32 {
    match dict_values(dicts, dicts.len(), key) {
        Some(values) => values.index_of(value) as u32,
        None => 0,
    }
}

/// The codes of a label row.
pub open spec fn row_codes(row: Seq<(u32, u32)>, dicts: Seq<(u32, Seq<u32>)>) -> Seq<u32> {
    Seq::new(row.len(), |j: int| value_code(dicts, row[j].0, row[j].1))
}

/// The codes of those of the first `n` rows that have these keys, in order.
pub open spec fn keyset_codes(
    rows: Seq<Seq<(u32, u32)>>,
    n: nat,
    keys: Seq<u32>,
    dicts: Seq<(u32, Seq<u32>)>,
) -> Seq<u32>
    decreases n,
{
    if n == 0 {
        Seq::empty()
    } else if keys_of(rows[n - 1]) == keys {
        keyset_codes(rows, (n - 1) as nat, keys, dicts) + row_codes(rows[n - 1], dicts)
    } else {
        keyset_codes(rows, (n - 1) as nat, keys, dicts)
    }
}

/// The packed rows of a keyset after the first `n` rows.
pub open spec fn planned_keyset(
    rows: Seq<Seq<(u32, u32)>>,
    n: nat,
    keys: Seq<u32>,
    dicts: Seq<(u32, Seq<u32>)>,
) -> KeysetRows {
    KeysetRows {
        row_count: keyset_rows(rows, n, keys) as u32,
        row_width: keys.len() as u32,
        codes: keyset_codes(rows, n, keys, dicts),
    }
}

pub open spec fn planned_keysets(
    rows: Seq<Seq<(u32, u32)>>,
    n: nat,
    keysets: Seq<Seq<u32>>,
    dicts: Seq<(u32, Seq<u32>)>,
) -> Seq<KeysetRows> {
    Seq::new(keysets.len(), |k: int| planned_keyset(rows, n, keysets[k], dicts))
}

/// Where series `i` stands: the keyset of its row, and how many earlier rows
/// have the same keys.
pub open spec fn planned_row(
    heads: Seq<(u64, u8)>,
    rows: Seq<Seq<(u32, u32)>>,
    keysets: Seq<Seq<u32>>,
    i: int,
) -> SeriesColdV2SeriesRow {
    SeriesColdV2SeriesRow {
        series_id: heads[i].0,
        kind_mask: heads[i].1,
        keyset_id: keysets.index_of(keys_of(rows[i])) as u32,
        row: keyset_rows(rows, i as nat, keys_of(rows[i])) as u32,
    }
}

/// The series identifiers and kinds.
pub open spec fn heads_of<E: ColdPlanSeriesEntry>(entries: Seq<E>) -> Seq<(u64, u8)> {
    Seq::new(entries.len(), |i: int| (entries[i].id(), entries[i].kinds()))
}

/// The lists of a plan are short enough to be counted, or the first error.
pub open spec fn lists_result(keysets: Seq<Seq<u32>>, dicts: Seq<(u32, Seq<u32>)>) -> Result<
    (),
    Error,
> {
    if exists|k: int| 0 <= k < keysets.len() && (#[trigger] keysets[k]).len() > u32::MAX {
        Err(exceeds_error("keyset length", "u32"))
    } else if exists|d: int| 0 <= d < dicts.len() && (#[trigger] dicts[d]).1.len() > u32::MAX {
        Err(exceeds_error("value dictionary length", "u32"))
    } else {
        Ok(())
    }
}

/// Checks that every keyset and every dictionary can be counted.
pub fn validate_cold_shapes(keysets: &[Vec<u32>], value_dicts: &[(u32, Vec<u32>)]) -> (result: Result<
    (),
    Error,
>)
    ensures
        result == lists_result(keysets_view(keysets@), dicts_view(value_dicts@)),
{
    let ghost view = keysets_view(keysets@);
    let ghost dicts = dicts_view(value_dicts@);
    let mut k: usize = 0;
    while k < keysets.len()
        invariant
            k <= keysets@.len(),
            view == keysets_view(keysets@),
            dicts == dicts_view(value_dicts@),
            forall|i: int| 0 <= i < k ==> (#[trigger] view[i]).len() <= u32::MAX,
        decreases keysets@.len() - k,
    {
        assert(view[k as int] == keysets@[k as int]@);
        checked_u32(keysets[k].len(), "keyset length")?;
        k += 1;
    }
    let mut d: usize = 0;
    while d < value_dicts.len()
        invariant
            d <= value_dicts@.len(),
            view == keysets_view(keysets@),
            dicts == dicts_view(value_dicts@),
            forall|i: int| 0 <= i < view.len() ==> (#[trigger] view[i]).len() <= u32::MAX,
            forall|i: int| 0 <= i < d ==> (#[trigger] dicts[i]).1.len() <= u32::MAX,
        decreases value_dicts@.len() - d,
    {
        assert(dicts[d as int].1 == value_dicts@[d as int].1@);
        checked_u32(value_dicts[d].1.len(), "value dictionary length")?;
        d += 1;
    }
    Ok(())
}

/// The codes of the first `n` keysets can be counted, or the first error.
pub open spec fn room_result(rows: Seq<Seq<(u32, u32)>>, keysets: Seq<Seq<u32>>, n: nat) -> Result<
    (),
    Error,
>
    decreases n,
{
    if n == 0 {
        Ok(())
    } else {
        match room_result(rows, keysets, (n - 1) as nat) {
            Err(error) => Err(error),
            Ok(_) => match new_rows_result(
                keysets[n - 1].len() as usize,
                keyset_rows(rows, rows.len(), keysets[n - 1]) as u32,
            ) {
                Err(error) => Err(error),
                Ok(_) => Ok(()),
            },
        }
    }
}

/// The plan for rows whose keysets and dictionaries are known.
pub open spec fn planned(
    heads: Seq<(u64, u8)>,
    rows: Seq<Seq<(u32, u32)>>,
    keysets: Seq<Seq<u32>>,
    dicts: Seq<(u32, Seq<u32>)>,
    lengths: SeriesColdV2Lengths,
) -> ColdPlan {
    ColdPlan {
        series_rows: Seq::new(rows.len(), |i: int| planned_row(heads, rows, keysets, i)),
        num_series: rows.len() as u32,
        num_keysets: keysets.len() as u32,
        num_value_dicts: dicts.len() as u32,
        keysets,
        value_dicts: dicts,
        rows: planned_keysets(rows, rows.len(), keysets, dicts),
        lengths,
    }
}

/// The section lengths of a plan.
pub open spec fn lengths_result(
    keysets: Seq<Seq<u32>>,
    rows: Seq<KeysetRows>,
    dicts: Seq<(u32, Seq<u32>)>,
) -> Result<SeriesColdV2Lengths, Error> {
    match (
        keysets_len_result(keysets),
        dicts_len_result(dicts),
        blocks_section_len_result(keysets, rows, dicts),
    ) {
        (Err(error), _, _) => Err(error),
        (_, Err(error), _) => Err(error),
        (_, _, Err(error)) => Err(error),
        (Ok(keysets), Ok(value_dicts), Ok(keyset_blocks)) => {
            let lengths = SeriesColdV2Lengths { keysets, value_dicts, keyset_blocks };
            match total_result(lengths) {
                Err(error) => Err(error),
                Ok(_) => Ok(lengths),
            }
        },
    }
}

/// What can be said of rows before they are packed, in the order in which it
/// is checked.
pub open spec fn corpus_result(rows: Seq<Seq<(u32, u32)>>) -> Result<(), Error> {
    let keysets = keysets_for(rows);
    let dicts = dicts_for(rows);
    if rows.len() > u32::MAX {
        Err(exceeds_error("series count", "u32"))
    } else if collect_result(rows, rows.len()) is Err {
        Err(collect_result(rows, rows.len())->Err_0)
    } else if keysets.len() > u32::MAX {
        Err(exceeds_error("keyset count", "u32"))
    } else if dicts.len() > u32::MAX {
        Err(exceeds_error("value dictionary count", "u32"))
    } else if lists_result(keysets, dicts) is Err {
        Err(lists_result(keysets, dicts)->Err_0)
    } else {
        room_result(rows, keysets, keysets.len())
    }
}

/// The plan for rows of series, or why there is none.
pub open spec fn plan_result(heads: Seq<(u64, u8)>, rows: Seq<Seq<(u32, u32)>>) -> Result<
    ColdPlan,
    Error,
> {
    let keysets = keysets_for(rows);
    let dicts = dicts_for(rows);
    match corpus_result(rows) {
        Err(error) => Err(error),
        Ok(_) => match lengths_result(
            keysets,
            planned_keysets(rows, rows.len(), keysets, dicts),
            dicts,
        ) {
            Err(error) => Err(error),
            Ok(lengths) => Ok(planned(heads, rows, keysets, dicts, lengths)),
        },
    }
}

pub open spec fn section_offsets_result(
    lengths: SeriesColdV2Lengths,
    keysets_offset: u64,
) -> Result<SeriesColdV2SectionOffsets, Error> {
    let value_dicts = keysets_offset + lengths.keysets;
    let keyset_blocks = value_dicts + lengths.value_dicts;
    let end = keyset_blocks + lengths.keyset_blocks;
    if value_dicts > u64::MAX {
        Err(input_error("series cold keysets offset overflow"))
    } else if keyset_blocks > u64::MAX {
        Err(input_error("series cold value dictionaries offset overflow"))
    } else if end > u64::MAX {
        Err(input_error("series cold keyset blocks offset overflow"))
    } else {
        Ok(
            SeriesColdV2SectionOffsets {
                keysets: keysets_offset,
                value_dicts: value_dicts as u64,
                keyset_blocks: keyset_blocks as u64,
                end: end as u64,
            },
        )
    }
}

pub open spec fn offsets_result(
    lengths: SeriesColdV2Lengths,
    offsets: SeriesColdV2SectionOffsets,
) -> Result<(), Error> {
    match section_offsets_result(lengths, offsets.keysets) {
        Err(error) => Err(error),
        Ok(canonical) => if offsets != canonical {
            Err(input_error("series cold section offsets are not canonical and contiguous"))
        } else {
            Ok(())
        },
    }
}

/// The three sections of a plan at absolute offsets.
pub open spec fn sections_bytes(plan: ColdPlan, offsets: SeriesColdV2SectionOffsets) -> Seq<u8> {
    section_bytes(offsets.keysets as int, keyset_entries(plan.keysets)) + section_bytes(
        offsets.value_dicts as int,
        dict_entries(plan.value_dicts),
    ) + section_bytes(
        offsets.keyset_blocks as int,
        block_entries(plan.keysets, plan.rows, plan.value_dicts),
    )
}

pub open spec fn write_sections_result(
    plan: ColdPlan,
    offsets: SeriesColdV2SectionOffsets,
) -> Result<u64, Error> {
    if offsets_result(plan.lengths, offsets) is Err {
        Err(offsets_result(plan.lengths, offsets)->Err_0)
    } else if write_keysets_result(offsets.keysets, plan.keysets) is Err {
        Err(write_keysets_result(offsets.keysets, plan.keysets)->Err_0)
    } else if write_dicts_result(offsets.value_dicts, plan.value_dicts) is Err {
        Err(write_dicts_result(offsets.value_dicts, plan.value_dicts)->Err_0)
    } else {
        match write_blocks_result(
            offsets.keyset_blocks,
            plan.keysets,
            plan.rows,
            plan.value_dicts,
        ) {
            Err(error) => Err(error),
            Ok(_) => total_result(plan.lengths),
        }
    }
}

pub open spec fn writer_offset_error(what: &'static str) -> Error {
    Error { kind: ErrorKind::InvalidData, message: Message::WriterOffset { what } }
}

/// Checks that a file buffer ends at an offset.
pub fn require_writer_offset(writer: &[u8], expected: u64, what: &'static str) -> (result: Result<
    (),
    Error,
>)
    ensures
        result == (if writer@.len() != expected {
            Err(writer_offset_error(what))
        } else {
            Ok::<(), Error>(())
        }),
{
    assert(writer@.len() == writer.len());
    if checked_u64(writer.len(), "series cold output offset")? != expected {
        return Err(
            Error { kind: ErrorKind::InvalidData, message: Message::WriterOffset { what } },
        );
    }
    Ok(())
}

/// Whether the sections can be appended to a buffer of this length.
pub open spec fn append_sections_result(
    plan: ColdPlan,
    len: nat,
    offsets: SeriesColdV2SectionOffsets,
) -> Result<(), Error> {
    if offsets_result(plan.lengths, offsets) is Err {
        offsets_result(plan.lengths, offsets)
    } else if len != offsets.keysets {
        Err(input_error("series cold output does not start at the keysets offset"))
    } else {
        match total_result(plan.lengths) {
            Err(error) => Err(error),
            Ok(total) => if total > usize::MAX {
                Err(exceeds_error("series cold section bytes", "usize"))
            } else {
                match write_sections_result(plan, offsets) {
                    Err(error) => Err(error),
                    Ok(_) => if len + sections_bytes(plan, offsets).len() != offsets.end {
                        Err(writer_offset_error("cold section end"))
                    } else {
                        Ok(())
                    },
                }
            },
        }
    }
}

impl SeriesColdV2Plan {
    pub fn series_rows(&self) -> (rows: &[SeriesColdV2SeriesRow])
        ensures
            rows@ == self@.series_rows,
    {
        &self.series_rows
    }

    pub fn num_series(&self) -> (count: u32)
        ensures
            count == self@.num_series,
    {
        self.num_series
    }

    pub fn num_keysets(&self) -> (count: u32)
        ensures
            count == self@.num_keysets,
    {
        self.num_keysets
    }

    pub fn num_value_dicts(&self) -> (count: u32)
        ensures
            count == self@.num_value_dicts,
    {
        self.num_value_dicts
    }

    pub fn lengths(&self) -> (lengths: SeriesColdV2Lengths)
        ensures
            lengths == self@.lengths,
    {
        self.lengths
    }

    /// The contiguous layout of the sections from an absolute offset on.
    pub fn section_offsets_at(&self, keysets_offset: u64) -> (result: Result<
        SeriesColdV2SectionOffsets,
        Error,
    >)
        ensures
            result == section_offsets_result(self@.lengths, keysets_offset),
    {
        let value_dicts: u64 = match keysets_offset.checked_add(self.lengths.keysets) {
            Some(offset) => offset,
            None => {
                return Err(invalid_input("series cold keysets offset overflow"));
            },
        };
        let keyset_blocks: u64 = match value_dicts.checked_add(self.lengths.value_dicts) {
            Some(offset) => offset,
            None => {
                return Err(invalid_input("series cold value dictionaries offset overflow"));
            },
        };
        let end: u64 = match keyset_blocks.checked_add(self.lengths.keyset_blocks) {
            Some(offset) => offset,
            None => {
                return Err(invalid_input("series cold keyset blocks offset overflow"));
            },
        };
        Ok(SeriesColdV2SectionOffsets { keysets: keysets_offset, value_dicts, keyset_blocks, end })
    }

    /// Checks that offsets are the contiguous layout of this plan.
    pub fn validate_section_offsets(&self, offsets: SeriesColdV2SectionOffsets) -> (result: Result<
        (),
        Error,
    >)
        ensures
            result == offsets_result(self@.lengths, offsets),
    {
        let canonical = self.section_offsets_at(offsets.keysets)?;
        if offsets != canonical {
            return Err(
                invalid_input("series cold section offsets are not canonical and contiguous"),
            );
        }
        Ok(())
    }

    /// Streams the three sections to a writer positioned at `offsets.keysets`.
    ///
    /// The encoded offset tables use the supplied absolute locations. The
    /// caller owns positioning; the returned count is the length of the
    /// sections.
    pub fn write_sections_at(
        &self,
        writer: &mut Vec<u8>,
        offsets: SeriesColdV2SectionOffsets,
    ) -> (result: Result<u64, Error>)
        ensures
            result == write_sections_result(self@, offsets),
            old(writer)@.is_prefix_of(final(writer)@),
            offsets_result(self@.lengths, offsets) is Err ==> final(writer)@ == old(writer)@,
            result is Ok ==> final(writer)@ == old(writer)@ + sections_bytes(self@, offsets),
    {
        let ghost start = writer@;
        self.validate_section_offsets(offsets)?;
        write_keysets_section(writer, offsets.keysets, &self.keysets)?;
        let ghost first = section_bytes(offsets.keysets as int, keyset_entries(self@.keysets));
        assert(writer@ == start + first);
        write_value_dicts_section(writer, offsets.value_dicts, &self.value_dicts)?;
        let ghost second = section_bytes(
            offsets.value_dicts as int,
            dict_entries(self@.value_dicts),
        );
        proof {
            lemma_assoc(start, first, second);
        }
        write_keyset_blocks_section(
            writer,
            offsets.keyset_blocks,
            &self.keysets,
            &self.rows_by_keyset,
            &self.value_dicts,
        )?;
        let ghost third = section_bytes(
            offsets.keyset_blocks as int,
            block_entries(self@.keysets, self@.rows, self@.value_dicts),
        );
        proof {
            lemma_assoc(start, first + second, third);
        }
        self.lengths.total()
    }

    /// Appends the three sections to a complete file buffer at absolute offsets.
    ///
    /// Offsets must describe the contiguous layout derived from this plan, and
    /// the existing file buffer must end exactly at `offsets.keysets`.
    pub fn append_sections_at(
        &self,
        writer: &mut Vec<u8>,
        offsets: SeriesColdV2SectionOffsets,
    ) -> (result: Result<(), Error>)
        ensures
            result == append_sections_result(self@, old(writer)@.len(), offsets),
            old(writer)@.is_prefix_of(final(writer)@),
            offsets_result(self@.lengths, offsets) is Err || old(writer)@.len() != offsets.keysets
                ==> final(writer)@ == old(writer)@,
            result is Ok ==> final(writer)@ == old(writer)@ + sections_bytes(self@, offsets),
    {
        self.validate_section_offsets(offsets)?;
        assert(writer@.len() == writer.len());
        if checked_u64(writer.len(), "series cold output offset")? != offsets.keysets {
            return Err(invalid_input("series cold output does not start at the keysets offset"));
        }
        let total: u64 = self.lengths.total()?;
        checked_usize(total, "series cold section bytes")?;
        let written: u64 = self.write_sections_at(writer, offsets)?;
        if written != total {
            return Err(invalid_data("series cold encoded length mismatch"));
        }
        let result = require_writer_offset(writer, offsets.end, "cold section end");
        result
    }
}

} // verus!
