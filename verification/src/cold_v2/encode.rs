//! Section lengths and section encoders of the cold label stream.
//!
//! Every section is a table of absolute offsets, one per entry and a terminal
//! one, followed by the entries without gaps.

use vstd::prelude::*;

use super::reader::canonical_width;
use super::shapes::{dicts_view, keysets_view};
use crate::bytes::{push_u16, push_u32, push_u64, u16_bytes, u32_bytes, u64_bytes};
use crate::error::{
    data_error, input_error, invalid_data, invalid_input, Error, ErrorKind, Message,
};

verus! {

/// An `InvalidInput` error that says that something exceeds an integer type.
pub open spec fn exceeds_error(what: &'static str, limit: &'static str) -> Error {
    Error { kind: ErrorKind::InvalidInput, message: Message::Exceeds { what, limit } }
}

/// An `InvalidInput` error that says that something is too large.
pub open spec fn too_large_error(what: &'static str) -> Error {
    Error { kind: ErrorKind::InvalidInput, message: Message::TooLarge { what } }
}

pub open spec fn u32_result(value: nat, what: &'static str) -> Result<u32, Error> {
    if value > u32::MAX {
        Err(exceeds_error(what, "u32"))
    } else {
        Ok(value as u32)
    }
}

pub fn checked_u32(value: usize, what: &'static str) -> (result: Result<u32, Error>)
    ensures
        result == u32_result(value as nat, what),
{
    match u32::try_from(value) {
        Ok(value) => Ok(value),
        Err(_) => Err(
            Error {
                kind: ErrorKind::InvalidInput,
                message: Message::Exceeds { what, limit: "u32" },
            },
        ),
    }
}

/// Every `usize` is a `u64`.
pub fn checked_u64(value: usize, what: &'static str) -> (result: Result<u64, Error>)
    ensures
        result == Ok::<u64, Error>(value as u64),
{
    match u64::try_from(value) {
        Ok(value) => Ok(value),
        Err(_) => Err(
            Error {
                kind: ErrorKind::InvalidInput,
                message: Message::Exceeds { what, limit: "u64" },
            },
        ),
    }
}

pub fn checked_usize(value: u64, what: &'static str) -> (result: Result<usize, Error>)
    ensures
        result == (if value > usize::MAX {
            Err(exceeds_error(what, "usize"))
        } else {
            Ok::<usize, Error>(value as usize)
        }),
{
    match usize::try_from(value) {
        Ok(value) => Ok(value),
        Err(_) => Err(
            Error {
                kind: ErrorKind::InvalidInput,
                message: Message::Exceeds { what, limit: "usize" },
            },
        ),
    }
}

pub fn checked_mul_u64(value: usize, multiplier: usize, what: &'static str) -> (result: Result<
    u64,
    Error,
>)
    ensures
        result == (if value * multiplier > u64::MAX {
            Err(too_large_error(what))
        } else {
            Ok::<u64, Error>((value * multiplier) as u64)
        }),
{
    match checked_u64(value, what)?.checked_mul(multiplier as u64) {
        Some(product) => Ok(product),
        None => Err(
            Error { kind: ErrorKind::InvalidInput, message: Message::TooLarge { what } },
        ),
    }
}

/// The length of the offset table of a section with this many entries.
pub open spec fn offsets_len_result(entry_count: nat) -> Result<u64, Error> {
    if entry_count + 1 > usize::MAX {
        Err(input_error("section offset count is too large"))
    } else if (entry_count + 1) * 8 > u64::MAX {
        Err(too_large_error("section offset count"))
    } else {
        Ok(((entry_count + 1) * 8) as u64)
    }
}

pub fn checked_section_offsets_len(entry_count: usize) -> (result: Result<u64, Error>)
    ensures
        result == offsets_len_result(entry_count as nat),
{
    match entry_count.checked_add(1) {
        None => Err(invalid_input("section offset count is too large")),
        Some(offset_count) => checked_mul_u64(offset_count, 8, "section offset count"),
    }
}

/// The texts that the errors of a section of counted entries carry.
pub struct EntryTexts {
    pub count: &'static str,
    pub entry: &'static str,
    pub section: &'static str,
}

pub open spec fn keyset_texts() -> EntryTexts {
    EntryTexts {
        count: "keyset length",
        entry: "series keyset entry is too large",
        section: "series keysets section is too large",
    }
}

pub open spec fn dict_texts() -> EntryTexts {
    EntryTexts {
        count: "value dictionary length",
        entry: "series value dictionary entry is too large",
        section: "series value dictionaries section is too large",
    }
}

/// Where an entry of `count` words behind an eight-byte header ends.
pub open spec fn entry_end_result(cursor: u64, count: nat, texts: EntryTexts) -> Result<
    u64,
    Error,
> {
    if count * 4 > u64::MAX {
        Err(too_large_error(texts.count))
    } else if 8 + count * 4 > u64::MAX {
        Err(input_error(texts.entry))
    } else if cursor + 8 + count * 4 > u64::MAX {
        Err(input_error(texts.section))
    } else {
        Ok((cursor + 8 + count * 4) as u64)
    }
}

/// Where the first `n` entries end, counted from `cursor`.
pub open spec fn entries_end_result(
    cursor: u64,
    counts: Seq<nat>,
    n: nat,
    texts: EntryTexts,
) -> Result<u64, Error>
    decreases n,
{
    if n == 0 {
        Ok(cursor)
    } else {
        match entries_end_result(cursor, counts, (n - 1) as nat, texts) {
            Err(error) => Err(error),
            Ok(end) => entry_end_result(end, counts[n - 1], texts),
        }
    }
}

proof fn lemma_entries_error(cursor: u64, counts: Seq<nat>, n: nat, m: nat, texts: EntryTexts)
    requires
        n <= m,
        entries_end_result(cursor, counts, n, texts) is Err,
    ensures
        entries_end_result(cursor, counts, m, texts) == entries_end_result(
            cursor,
            counts,
            n,
            texts,
        ),
    decreases m,
{
    if n < m {
        lemma_entries_error(cursor, counts, n, (m - 1) as nat, texts);
    }
}

fn entry_end(
    cursor: u64,
    count: usize,
    what: &'static str,
    entry: &'static str,
    section: &'static str,
) -> (result: Result<u64, Error>)
    ensures
        result == entry_end_result(
            cursor,
            count as nat,
            EntryTexts { count: what, entry, section },
        ),
{
    let words: u64 = checked_mul_u64(count, 4, what)?;
    match 8u64.checked_add(words) {
        None => Err(invalid_input(entry)),
        Some(len) => match cursor.checked_add(len) {
            None => Err(invalid_input(section)),
            Some(end) => Ok(end),
        },
    }
}

/// How many keys each keyset has.
pub open spec fn keyset_counts(keysets: Seq<Seq<u32>>) -> Seq<nat> {
    Seq::new(keysets.len(), |k: int| keysets[k].len())
}

/// How many values each dictionary has.
pub open spec fn dict_counts(dicts: Seq<(u32, Seq<u32>)>) -> Seq<nat> {
    Seq::new(dicts.len(), |d: int| dicts[d].1.len())
}

pub open spec fn keysets_len_result(keysets: Seq<Seq<u32>>) -> Result<u64, Error> {
    match offsets_len_result(keysets.len()) {
        Err(error) => Err(error),
        Ok(offsets_len) => entries_end_result(
            offsets_len,
            keyset_counts(keysets),
            keysets.len(),
            keyset_texts(),
        ),
    }
}

pub open spec fn dicts_len_result(dicts: Seq<(u32, Seq<u32>)>) -> Result<u64, Error> {
    match offsets_len_result(dicts.len()) {
        Err(error) => Err(error),
        Ok(offsets_len) => entries_end_result(
            offsets_len,
            dict_counts(dicts),
            dicts.len(),
            dict_texts(),
        ),
    }
}

/// The encoded length of the keysets section.
pub fn keysets_section_len(keysets: &[Vec<u32>]) -> (result: Result<u64, Error>)
    ensures
        result == keysets_len_result(keysets_view(keysets@)),
{
    let offsets_len: u64 = checked_section_offsets_len(keysets.len())?;
    let ghost counts = keyset_counts(keysets_view(keysets@));
    let mut len: u64 = offsets_len;
    let mut k: usize = 0;
    while k < keysets.len()
        invariant
            k <= keysets@.len(),
            counts == keyset_counts(keysets_view(keysets@)),
            offsets_len_result(keysets@.len()) == Ok::<u64, Error>(offsets_len),
            entries_end_result(offsets_len, counts, k as nat, keyset_texts()) == Ok::<u64, Error>(
                len,
            ),
        decreases keysets@.len() - k,
    {
        assert(counts[k as int] == keysets@[k as int]@.len());
        match entry_end(
            len,
            keysets[k].len(),
            "keyset length",
            "series keyset entry is too large",
            "series keysets section is too large",
        ) {
            Ok(end) => {
                len = end;
            },
            Err(error) => {
                proof {
                    lemma_entries_error(
                        offsets_len,
                        counts,
                        (k + 1) as nat,
                        keysets@.len(),
                        keyset_texts(),
                    );
                }
                return Err(error);
            },
        }
        k += 1;
    }
    Ok(len)
}

/// The encoded length of the value dictionaries section.
pub fn value_dicts_section_len(value_dicts: &[(u32, Vec<u32>)]) -> (result: Result<u64, Error>)
    ensures
        result == dicts_len_result(dicts_view(value_dicts@)),
{
    let offsets_len: u64 = checked_section_offsets_len(value_dicts.len())?;
    let ghost counts = dict_counts(dicts_view(value_dicts@));
    let mut len: u64 = offsets_len;
    let mut d: usize = 0;
    while d < value_dicts.len()
        invariant
            d <= value_dicts@.len(),
            counts == dict_counts(dicts_view(value_dicts@)),
            offsets_len_result(value_dicts@.len()) == Ok::<u64, Error>(offsets_len),
            entries_end_result(offsets_len, counts, d as nat, dict_texts()) == Ok::<u64, Error>(
                len,
            ),
        decreases value_dicts@.len() - d,
    {
        assert(counts[d as int] == value_dicts@[d as int].1@.len());
        match entry_end(
            len,
            value_dicts[d].1.len(),
            "value dictionary length",
            "series value dictionary entry is too large",
            "series value dictionaries section is too large",
        ) {
            Ok(end) => {
                len = end;
            },
            Err(error) => {
                proof {
                    lemma_entries_error(
                        offsets_len,
                        counts,
                        (d + 1) as nat,
                        value_dicts@.len(),
                        dict_texts(),
                    );
                }
                return Err(error);
            },
        }
        d += 1;
    }
    Ok(len)
}

/// The width in which a code of a dictionary with this many values is packed.
pub fn value_code_width(cardinality: usize) -> (width: u8)
    ensures
        width == canonical_width(cardinality as int),
{
    if cardinality <= 1 {
        0
    } else if cardinality <= 256 {
        1
    } else if cardinality <= 65_536 {
        2
    } else {
        4
    }
}

/// The bytes of a code in its width.
pub open spec fn code_bytes(code: u32, width: u8) -> Seq<u8> {
    if width == 0 {
        Seq::empty()
    } else if width == 1 {
        seq![code as u8]
    } else if width == 2 {
        u16_bytes(code as u16)
    } else {
        u32_bytes(code)
    }
}

/// Whether a code can be packed in a width.
pub open spec fn write_code_result(code: u32, width: u8) -> Result<(), Error> {
    if width == 0 {
        if code == 0 {
            Ok(())
        } else {
            Err(data_error("implicit value code is not zero"))
        }
    } else if width == 1 {
        if code > u8::MAX {
            Err(input_error("value code exceeds u8"))
        } else {
            Ok(())
        }
    } else if width == 2 {
        if code > u16::MAX {
            Err(input_error("value code exceeds u16"))
        } else {
            Ok(())
        }
    } else if width == 4 {
        Ok(())
    } else {
        Err(data_error("invalid value code width"))
    }
}

/// Appends a code in its width.
pub fn write_value_code(writer: &mut Vec<u8>, code: u32, width: u8) -> (result: Result<(), Error>)
    ensures
        result == write_code_result(code, width),
        final(writer)@ == (if result is Ok {
            old(writer)@ + code_bytes(code, width)
        } else {
            old(writer)@
        }),
{
    match width {
        0 => {
            if code == 0 {
                assert(writer@ =~= old(writer)@ + code_bytes(code, width));
                Ok(())
            } else {
                Err(invalid_data("implicit value code is not zero"))
            }
        },
        1 => match u8::try_from(code) {
            Ok(value) => {
                writer.push(value);
                assert(writer@ =~= old(writer)@ + code_bytes(code, width));
                Ok(())
            },
            Err(_) => Err(invalid_input("value code exceeds u8")),
        },
        2 => match u16::try_from(code) {
            Ok(value) => {
                push_u16(writer, value);
                Ok(())
            },
            Err(_) => Err(invalid_input("value code exceeds u16")),
        },
        4 => {
            push_u32(writer, code);
            Ok(())
        },
        _ => Err(invalid_data("invalid value code width")),
    }
}

/// The bytes of a list of words.
pub open spec fn words_bytes(words: Seq<u32>) -> Seq<u8>
    decreases words.len(),
{
    if words.len() == 0 {
        Seq::empty()
    } else {
        words_bytes(words.drop_last()) + u32_bytes(words.last())
    }
}

/// One keyset entry: key count, reserved zero, keys.
pub open spec fn keyset_entry(keys: Seq<u32>) -> Seq<u8> {
    u32_bytes(keys.len() as u32) + u32_bytes(0) + words_bytes(keys)
}

/// One value dictionary entry: key, value count, values.
pub open spec fn dict_entry(key: u32, values: Seq<u32>) -> Seq<u8> {
    u32_bytes(key) + u32_bytes(values.len() as u32) + words_bytes(values)
}

pub open spec fn keyset_entries(keysets: Seq<Seq<u32>>) -> Seq<Seq<u8>> {
    Seq::new(keysets.len(), |k: int| keyset_entry(keysets[k]))
}

pub open spec fn dict_entries(dicts: Seq<(u32, Seq<u32>)>) -> Seq<Seq<u8>> {
    Seq::new(dicts.len(), |d: int| dict_entry(dicts[d].0, dicts[d].1))
}

/// The entries of a section, one after the other.
pub open spec fn entries_bytes(entries: Seq<Seq<u8>>) -> Seq<u8>
    decreases entries.len(),
{
    if entries.len() == 0 {
        Seq::empty()
    } else {
        entries_bytes(entries.drop_last()) + entries.last()
    }
}

/// Where entry `i` begins when the first one begins at `start`.
pub open spec fn entry_offset(start: int, entries: Seq<Seq<u8>>, i: int) -> int {
    start + entries_bytes(entries.take(i)).len()
}

/// The first `n` words of an offset table.
pub open spec fn table_bytes(start: int, entries: Seq<Seq<u8>>, n: nat) -> Seq<u8>
    decreases n,
{
    if n == 0 {
        Seq::empty()
    } else {
        table_bytes(start, entries, (n - 1) as nat) + u64_bytes(
            entry_offset(start, entries, n - 1) as u64,
        )
    }
}

/// A section at an absolute offset: its offset table, then its entries.
pub open spec fn section_bytes(section_offset: int, entries: Seq<Seq<u8>>) -> Seq<u8> {
    table_bytes(
        section_offset + 8 * (entries.len() + 1),
        entries,
        entries.len() + 1,
    ) + entries_bytes(entries)
}

/// Appending is associative.
pub proof fn lemma_assoc(a: Seq<u8>, b: Seq<u8>, c: Seq<u8>)
    ensures
        a + b + c == a + (b + c),
{
    assert(a + b + c =~= a + (b + c));
}

pub proof fn lemma_words_len(words: Seq<u32>)
    ensures
        words_bytes(words).len() == 4 * words.len(),
    decreases words.len(),
{
    if words.len() > 0 {
        lemma_words_len(words.drop_last());
    }
}

pub proof fn lemma_table_len(start: int, entries: Seq<Seq<u8>>, n: nat)
    ensures
        table_bytes(start, entries, n).len() == 8 * n,
    decreases n,
{
    if n > 0 {
        lemma_table_len(start, entries, (n - 1) as nat);
    }
}

/// The entries of one more entry.
pub proof fn lemma_entries_take(entries: Seq<Seq<u8>>, i: int)
    requires
        0 <= i < entries.len(),
    ensures
        entries_bytes(entries.take(i + 1)) == entries_bytes(entries.take(i)) + entries[i],
{
    assert(entries.take(i + 1).drop_last() =~= entries.take(i));
    assert(entries.take(i + 1).last() == entries[i]);
}

/// Appends a list of words.
fn push_words(writer: &mut Vec<u8>, words: &[u32])
    ensures
        final(writer)@ == old(writer)@ + words_bytes(words@),
{
    let ghost start = writer@;
    let mut i: usize = 0;
    assert(writer@ =~= start + words_bytes(words@.take(0)));
    while i < words.len()
        invariant
            i <= words@.len(),
            writer@ == start + words_bytes(words@.take(i as int)),
        decreases words@.len() - i,
    {
        push_u32(writer, words[i]);
        i += 1;
        proof {
            assert(words@.take(i as int).drop_last() =~= words@.take(i - 1));
            assert(writer@ =~= start + words_bytes(words@.take(i as int)));
        }
    }
    assert(words@.take(i as int) =~= words@);
}

/// Counted entries end where their bytes end.
pub proof fn lemma_counted_end(
    start: u64,
    entries: Seq<Seq<u8>>,
    counts: Seq<nat>,
    n: nat,
    texts: EntryTexts,
)
    requires
        n <= entries.len(),
        entries.len() == counts.len(),
        forall|i: int| 0 <= i < entries.len() ==> (#[trigger] entries[i]).len() == 8 + 4 * counts[i],
        entries_end_result(start, counts, n, texts) is Ok,
    ensures
        entries_end_result(start, counts, n, texts)->Ok_0 == entry_offset(
            start as int,
            entries,
            n as int,
        ),
    decreases n,
{
    if n == 0 {
        assert(entries.take(0) =~= Seq::empty());
    } else {
        lemma_counted_end(start, entries, counts, (n - 1) as nat, texts);
        lemma_entries_take(entries, n - 1);
    }
}

/// Whether a section of counted entries can be written at an offset.
pub open spec fn counted_section_result(
    section_offset: u64,
    counts: Seq<nat>,
    offset_text: &'static str,
    texts: EntryTexts,
) -> Result<(), Error> {
    match offsets_len_result(counts.len()) {
        Err(error) => Err(error),
        Ok(offsets_len) => if section_offset + offsets_len > u64::MAX {
            Err(input_error(offset_text))
        } else {
            match entries_end_result(
                (section_offset + offsets_len) as u64,
                counts,
                counts.len(),
                texts,
            ) {
                Err(error) => Err(error),
                Ok(_) => if exists|i: int|
                    0 <= i < counts.len() && #[trigger] counts[i] > u32::MAX {
                    Err(exceeds_error(texts.count, "u32"))
                } else {
                    Ok(())
                },
            }
        },
    }
}

pub open spec fn write_keysets_result(section_offset: u64, keysets: Seq<Seq<u32>>) -> Result<
    (),
    Error,
> {
    counted_section_result(
        section_offset,
        keyset_counts(keysets),
        "series keysets offset overflow",
        keyset_texts(),
    )
}

pub open spec fn write_dicts_result(section_offset: u64, dicts: Seq<(u32, Seq<u32>)>) -> Result<
    (),
    Error,
> {
    counted_section_result(
        section_offset,
        dict_counts(dicts),
        "series value dictionaries offset overflow",
        dict_texts(),
    )
}

pub proof fn lemma_keyset_entry_len(keysets: Seq<Seq<u32>>)
    ensures
        forall|k: int|
            0 <= k < keysets.len() ==> (#[trigger] keyset_entries(keysets)[k]).len() == 8 + 4
                * keyset_counts(keysets)[k],
{
    assert forall|k: int| 0 <= k < keysets.len() implies (#[trigger] keyset_entries(
        keysets,
    )[k]).len() == 8 + 4 * keyset_counts(keysets)[k] by {
        lemma_words_len(keysets[k]);
    }
}

pub proof fn lemma_dict_entry_len(dicts: Seq<(u32, Seq<u32>)>)
    ensures
        forall|d: int|
            0 <= d < dicts.len() ==> (#[trigger] dict_entries(dicts)[d]).len() == 8 + 4
                * dict_counts(dicts)[d],
{
    assert forall|d: int| 0 <= d < dicts.len() implies (#[trigger] dict_entries(dicts)[d]).len()
        == 8 + 4 * dict_counts(dicts)[d] by {
        lemma_words_len(dicts[d].1);
    }
}

/// Appends the keysets section. A section that cannot be written leaves the
/// writer with a part of it.
pub fn write_keysets_section(
    writer: &mut Vec<u8>,
    section_offset: u64,
    keysets: &[Vec<u32>],
) -> (result: Result<(), Error>)
    ensures
        result == write_keysets_result(section_offset, keysets_view(keysets@)),
        old(writer)@.is_prefix_of(final(writer)@),
        result is Ok ==> final(writer)@ == old(writer)@ + section_bytes(
            section_offset as int,
            keyset_entries(keysets_view(keysets@)),
        ),
{
    let ghost start = writer@;
    let ghost view = keysets_view(keysets@);
    let ghost entries = keyset_entries(view);
    let ghost counts = keyset_counts(view);
    let offsets_len: u64 = checked_section_offsets_len(keysets.len())?;
    let first: u64 = match section_offset.checked_add(offsets_len) {
        Some(first) => first,
        None => {
            return Err(invalid_input("series keysets offset overflow"));
        },
    };
    proof {
        lemma_keyset_entry_len(view);
    }
    let mut cursor: u64 = first;
    let mut k: usize = 0;
    assert(entries.take(0) =~= Seq::empty());
    assert(writer@ =~= start + table_bytes(first as int, entries, 0));
    while k < keysets.len()
        invariant
            k <= keysets@.len(),
            start == old(writer)@,
            view == keysets_view(keysets@),
            entries == keyset_entries(view),
            counts == keyset_counts(view),
            forall|i: int|
                0 <= i < entries.len() ==> (#[trigger] entries[i]).len() == 8 + 4 * counts[i],
            offsets_len_result(counts.len()) == Ok::<u64, Error>(offsets_len),
            first == section_offset + offsets_len,
            entries_end_result(first, counts, k as nat, keyset_texts()) == Ok::<u64, Error>(cursor),
            cursor == entry_offset(first as int, entries, k as int),
            writer@ == start + table_bytes(first as int, entries, k as nat),
        decreases keysets@.len() - k,
    {
        push_u64(writer, cursor);
        proof {
            lemma_assoc(
                start,
                table_bytes(first as int, entries, k as nat),
                u64_bytes(cursor),
            );
        }
        assert(counts[k as int] == keysets@[k as int]@.len());
        cursor = match entry_end(
            cursor,
            keysets[k].len(),
            "keyset length",
            "series keyset entry is too large",
            "series keysets section is too large",
        ) {
            Ok(end) => end,
            Err(error) => {
                proof {
                    lemma_entries_error(first, counts, (k + 1) as nat, counts.len(), keyset_texts());
                }
                return Err(error);
            },
        };
        k += 1;
        proof {
            lemma_counted_end(first, entries, counts, k as nat, keyset_texts());
        }
    }
    proof {
        lemma_assoc(
            start,
            table_bytes(first as int, entries, entries.len()),
            u64_bytes(cursor),
        );
    }
    push_u64(writer, cursor);
    let ghost table = table_bytes(first as int, entries, entries.len() + 1);
    assert(writer@ == start + table);
    let mut k: usize = 0;
    assert(writer@ =~= start + table + entries_bytes(entries.take(0)));
    while k < keysets.len()
        invariant
            k <= keysets@.len(),
            start == old(writer)@,
            view == keysets_view(keysets@),
            entries == keyset_entries(view),
            counts == keyset_counts(view),
            offsets_len_result(counts.len()) == Ok::<u64, Error>(offsets_len),
            first == section_offset + offsets_len,
            entries_end_result(first, counts, counts.len(), keyset_texts()) is Ok,
            forall|i: int| 0 <= i < k ==> #[trigger] counts[i] <= u32::MAX,
            writer@ == start + table + entries_bytes(entries.take(k as int)),
        decreases keysets@.len() - k,
    {
        let ghost before = writer@;
        assert(counts[k as int] == keysets@[k as int]@.len());
        let count: u32 = checked_u32(keysets[k].len(), "keyset length")?;
        push_u32(writer, count);
        push_u32(writer, 0);
        push_words(writer, &keysets[k]);
        proof {
            lemma_assoc(before, u32_bytes(count), u32_bytes(0));
            lemma_assoc(
                before,
                u32_bytes(count) + u32_bytes(0),
                words_bytes(keysets@[k as int]@),
            );
            assert(view[k as int] == keysets@[k as int]@);
            lemma_entries_take(entries, k as int);
            lemma_assoc(
                start + table,
                entries_bytes(entries.take(k as int)),
                entries[k as int],
            );
        }
        k += 1;
    }
    assert(entries.take(k as int) =~= entries);
    proof {
        lemma_assoc(start, table, entries_bytes(entries));
    }
    Ok(())
}

/// Appends the value dictionaries section. A section that cannot be written
/// leaves the writer with a part of it.
pub fn write_value_dicts_section(
    writer: &mut Vec<u8>,
    section_offset: u64,
    value_dicts: &[(u32, Vec<u32>)],
) -> (result: Result<(), Error>)
    ensures
        result == write_dicts_result(section_offset, dicts_view(value_dicts@)),
        old(writer)@.is_prefix_of(final(writer)@),
        result is Ok ==> final(writer)@ == old(writer)@ + section_bytes(
            section_offset as int,
            dict_entries(dicts_view(value_dicts@)),
        ),
{
    let ghost start = writer@;
    let ghost view = dicts_view(value_dicts@);
    let ghost entries = dict_entries(view);
    let ghost counts = dict_counts(view);
    let offsets_len: u64 = checked_section_offsets_len(value_dicts.len())?;
    let first: u64 = match section_offset.checked_add(offsets_len) {
        Some(first) => first,
        None => {
            return Err(invalid_input("series value dictionaries offset overflow"));
        },
    };
    proof {
        lemma_dict_entry_len(view);
    }
    let mut cursor: u64 = first;
    let mut d: usize = 0;
    assert(entries.take(0) =~= Seq::empty());
    assert(writer@ =~= start + table_bytes(first as int, entries, 0));
    while d < value_dicts.len()
        invariant
            d <= value_dicts@.len(),
            start == old(writer)@,
            view == dicts_view(value_dicts@),
            entries == dict_entries(view),
            counts == dict_counts(view),
            forall|i: int|
                0 <= i < entries.len() ==> (#[trigger] entries[i]).len() == 8 + 4 * counts[i],
            offsets_len_result(counts.len()) == Ok::<u64, Error>(offsets_len),
            first == section_offset + offsets_len,
            entries_end_result(first, counts, d as nat, dict_texts()) == Ok::<u64, Error>(cursor),
            cursor == entry_offset(first as int, entries, d as int),
            writer@ == start + table_bytes(first as int, entries, d as nat),
        decreases value_dicts@.len() - d,
    {
        push_u64(writer, cursor);
        proof {
            lemma_assoc(
                start,
                table_bytes(first as int, entries, d as nat),
                u64_bytes(cursor),
            );
        }
        assert(counts[d as int] == value_dicts@[d as int].1@.len());
        cursor = match entry_end(
            cursor,
            value_dicts[d].1.len(),
            "value dictionary length",
            "series value dictionary entry is too large",
            "series value dictionaries section is too large",
        ) {
            Ok(end) => end,
            Err(error) => {
                proof {
                    lemma_entries_error(first, counts, (d + 1) as nat, counts.len(), dict_texts());
                }
                return Err(error);
            },
        };
        d += 1;
        proof {
            lemma_counted_end(first, entries, counts, d as nat, dict_texts());
        }
    }
    proof {
        lemma_assoc(
            start,
            table_bytes(first as int, entries, entries.len()),
            u64_bytes(cursor),
        );
    }
    push_u64(writer, cursor);
    let ghost table = table_bytes(first as int, entries, entries.len() + 1);
    assert(writer@ == start + table);
    let mut d: usize = 0;
    assert(writer@ =~= start + table + entries_bytes(entries.take(0)));
    while d < value_dicts.len()
        invariant
            d <= value_dicts@.len(),
            start == old(writer)@,
            view == dicts_view(value_dicts@),
            entries == dict_entries(view),
            counts == dict_counts(view),
            offsets_len_result(counts.len()) == Ok::<u64, Error>(offsets_len),
            first == section_offset + offsets_len,
            entries_end_result(first, counts, counts.len(), dict_texts()) is Ok,
            forall|i: int| 0 <= i < d ==> #[trigger] counts[i] <= u32::MAX,
            writer@ == start + table + entries_bytes(entries.take(d as int)),
        decreases value_dicts@.len() - d,
    {
        let ghost before = writer@;
        assert(counts[d as int] == value_dicts@[d as int].1@.len());
        push_u32(writer, value_dicts[d].0);
        let count: u32 = checked_u32(value_dicts[d].1.len(), "value dictionary length")?;
        push_u32(writer, count);
        push_words(writer, &value_dicts[d].1);
        proof {
            lemma_assoc(before, u32_bytes(value_dicts@[d as int].0), u32_bytes(count));
            lemma_assoc(
                before,
                u32_bytes(value_dicts@[d as int].0) + u32_bytes(count),
                words_bytes(value_dicts@[d as int].1@),
            );
            assert(view[d as int] == (value_dicts@[d as int].0, value_dicts@[d as int].1@));
            lemma_entries_take(entries, d as int);
            lemma_assoc(
                start + table,
                entries_bytes(entries.take(d as int)),
                entries[d as int],
            );
        }
        d += 1;
    }
    assert(entries.take(d as int) =~= entries);
    proof {
        lemma_assoc(start, table, entries_bytes(entries));
    }
    Ok(())
}

} // verus!
