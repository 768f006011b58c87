//! What the reader gives back of what the encoders wrote.

use core::ops::Range;

use vstd::prelude::*;

use super::blocks::{
    block_entry, block_header, code_row, lemma_block_entry_len, lemma_packed_len,
    lemma_row_bytes_len, lemma_widths_packable, packable, packed_bytes, packed_result, row_bytes,
    row_codes_result, row_len, width_total, widths_of, KeysetRows,
};
use super::encode::{
    code_bytes, dict_entry, entries_bytes, entry_offset, keyset_entry, lemma_entries_take,
    lemma_table_len, lemma_words_len, section_bytes, table_bytes, words_bytes, write_code_result,
};
use super::reader::{
    block_result, code_at, code_result, entry_range_result, keyset_keys, keyset_result,
    row_range_result, strictly_increasing, table_len, table_prefix_result, table_result,
    valid_width, value_dict_meta_result, value_dict_values_result, value_range_result, value_result,
    width_sum_result, widths_range_result, KeySetBlock, ValueDictMeta,
};
use crate::bytes::{
    lemma_u16_bytes_value, lemma_u32_at_window, lemma_u32_bytes_value, lemma_u64_at_window,
    lemma_u64_bytes_value, u32_at, u32_bytes, u64_at, u64_bytes,
};
use crate::error::Error;

verus! {

proof fn lemma_entries_prefix(entries: Seq<Seq<u8>>, i: int, j: int)
    requires
        0 <= i <= j <= entries.len(),
    ensures
        entries_bytes(entries.take(i)).is_prefix_of(entries_bytes(entries.take(j))),
    decreases j,
{
    if i < j {
        lemma_entries_prefix(entries, i, j - 1);
        lemma_entries_take(entries, j - 1);
        let shorter = entries_bytes(entries.take(j - 1));
        let longer = entries_bytes(entries.take(j));
        assert(longer.take(shorter.len() as int) =~= shorter);
        let first = entries_bytes(entries.take(i));
        assert(longer.subrange(0, first.len() as int) =~= shorter.subrange(
            0,
            first.len() as int,
        ));
    } else {
        let first = entries_bytes(entries.take(i));
        assert(first.subrange(0, first.len() as int) =~= first);
    }
}

/// Entry `i` stands where its offset says.
proof fn lemma_entry_at(entries: Seq<Seq<u8>>, i: int)
    requires
        0 <= i < entries.len(),
    ensures
        entry_offset(0, entries, i) + entries[i].len() == entry_offset(0, entries, i + 1),
        entry_offset(0, entries, i + 1) <= entries_bytes(entries).len(),
        entries_bytes(entries).subrange(
            entry_offset(0, entries, i),
            entry_offset(0, entries, i + 1),
        ) == entries[i],
{
    lemma_entries_take(entries, i);
    lemma_entries_prefix(entries, i + 1, entries.len() as int);
    assert(entries.take(entries.len() as int) =~= entries);
    let upto = entries_bytes(entries.take(i + 1));
    let all = entries_bytes(entries);
    let start = entry_offset(0, entries, i);
    let end = entry_offset(0, entries, i + 1);
    assert(upto == all.subrange(0, upto.len() as int));
    assert(all.subrange(start, end) =~= upto.subrange(start, end));
    assert(upto.subrange(start, end) =~= entries[i]);
}

/// Word `i` of an offset table is the start of entry `i`.
pub proof fn lemma_table_word(start: int, entries: Seq<Seq<u8>>, n: nat, i: int)
    requires
        0 <= i < n,
        0 <= entry_offset(start, entries, i) <= u64::MAX,
    ensures
        u64_at(table_bytes(start, entries, n), 8 * i) == entry_offset(start, entries, i),
    decreases n,
{
    let table = table_bytes(start, entries, n);
    let before = table_bytes(start, entries, (n - 1) as nat);
    lemma_table_len(start, entries, n);
    lemma_table_len(start, entries, (n - 1) as nat);
    let word = u64_bytes(entry_offset(start, entries, n - 1) as u64);
    assert(table == before + word);
    if i == n - 1 {
        lemma_u64_bytes_value(entry_offset(start, entries, i) as u64);
        assert(table.subrange(8 * i, 8 * i + 8) =~= word.subrange(0, 8));
        lemma_u64_at_window(table, 8 * i, word, 0);
    } else {
        lemma_table_word(start, entries, (n - 1) as nat, i);
        assert(table.subrange(8 * i, 8 * i + 8) =~= before.subrange(8 * i, 8 * i + 8));
        lemma_u64_at_window(table, 8 * i, before, 8 * i);
    }
}

/// The offsets of a section lie within it.
pub proof fn lemma_offset_bound(first: int, entries: Seq<Seq<u8>>, i: int)
    requires
        0 <= i <= entries.len(),
    ensures
        first <= entry_offset(first, entries, i) <= entry_offset(
            first,
            entries,
            entries.len() as int,
        ),
        entry_offset(first, entries, entries.len() as int) == first + entries_bytes(entries).len(),
        i == 0 ==> entry_offset(first, entries, i) == first,
{
    lemma_entries_prefix(entries, i, entries.len() as int);
    assert(entries.take(entries.len() as int) =~= entries);
    if i == 0 {
        assert(entries.take(0) =~= Seq::empty());
    }
}

/// The length of a section is that of its table and its entries.
pub proof fn lemma_section_len(section_offset: int, entries: Seq<Seq<u8>>)
    ensures
        section_bytes(section_offset, entries).len() == 8 * (entries.len() + 1) + entries_bytes(
            entries,
        ).len(),
{
    lemma_table_len(
        section_offset + 8 * (entries.len() + 1),
        entries,
        entries.len() + 1,
    );
}

/// The offset pair of an entry holds the start and the end of the entry.
proof fn lemma_section_pair(section_offset: u64, entries: Seq<Seq<u8>>, i: u32)
    requires
        i < entries.len() <= u32::MAX,
        section_offset + section_bytes(section_offset as int, entries).len() <= u64::MAX,
    ensures
        ({
            let pair = section_bytes(section_offset as int, entries).subrange(
                8 * i as int,
                8 * i + 16,
            );
            let first = section_offset + 8 * (entries.len() + 1);
            &&& pair.len() == 16
            &&& u64_at(pair, 0) == entry_offset(first, entries, i as int)
            &&& u64_at(pair, 8) == entry_offset(first, entries, i + 1)
        }),
{
    let section = section_bytes(section_offset as int, entries);
    let count = entries.len();
    let first = section_offset + 8 * (count + 1);
    let table = table_bytes(first, entries, count + 1);
    lemma_section_len(section_offset as int, entries);
    lemma_table_len(first, entries, count + 1);
    lemma_offset_bound(first, entries, i as int);
    lemma_offset_bound(first, entries, i + 1);
    lemma_table_word(first, entries, count + 1, i as int);
    lemma_table_word(first, entries, count + 1, i + 1);
    let pair = section.subrange(8 * i as int, 8 * i + 16);
    assert(pair.subrange(0, 8) =~= table.subrange(8 * i as int, 8 * i + 8));
    lemma_u64_at_window(pair, 0, table, 8 * i as int);
    assert(pair.subrange(8, 16) =~= table.subrange(8 * (i + 1), 8 * (i + 1) + 8));
    lemma_u64_at_window(pair, 8, table, 8 * (i + 1));
}

/// An encoded section gives back every entry: the offset pair at its index is
/// accepted, and the range that it names holds the entry.
pub proof fn section_entry_law(section_offset: u64, entries: Seq<Seq<u8>>, i: u32)
    requires
        i < entries.len() <= u32::MAX,
        entries[i as int].len() > 0,
        section_offset + section_bytes(section_offset as int, entries).len() <= u64::MAX,
    ensures
        ({
            let section = section_bytes(section_offset as int, entries);
            let section_end = (section_offset + section.len()) as u64;
            let first = section_offset + 8 * (entries.len() + 1);
            let start = entry_offset(first, entries, i as int);
            let end = entry_offset(first, entries, i + 1);
            &&& section_offset <= start < end <= section_end
            &&& 8 * i + 16 <= section.len()
            &&& entry_range_result(
                section.subrange(8 * i as int, 8 * i + 16),
                section_offset,
                section_end,
                entries.len() as u32,
                i,
            ) == Ok::<Range<u64>, Error>(Range { start: start as u64, end: end as u64 })
            &&& section.subrange(start - section_offset, end - section_offset) == entries[i as int]
        }),
{
    let section = section_bytes(section_offset as int, entries);
    let section_end = (section_offset + section.len()) as u64;
    let count = entries.len();
    let first = section_offset + 8 * (count + 1);
    let start = entry_offset(first, entries, i as int);
    let end = entry_offset(first, entries, i + 1);
    lemma_section_len(section_offset as int, entries);
    lemma_table_len(first, entries, count + 1);
    lemma_offset_bound(first, entries, i as int);
    lemma_offset_bound(first, entries, i + 1);
    lemma_section_pair(section_offset, entries, i);
    assert(section.subrange(start - section_offset, end - section_offset) == entries[i as int]) by {
        lemma_entry_at(entries, i as int);
        let body = entries_bytes(entries);
        assert(section.subrange(start - section_offset, end - section_offset) =~= body.subrange(
            start - first,
            end - first,
        ));
    }
    assert(start < end) by {
        lemma_entry_at(entries, i as int);
    }
}

proof fn lemma_table_prefix(section_offset: u64, entries: Seq<Seq<u8>>, n: nat)
    requires
        n <= entries.len() <= u32::MAX,
        forall|i: int| 0 <= i < entries.len() ==> (#[trigger] entries[i]).len() > 0,
        section_offset + section_bytes(section_offset as int, entries).len() <= u64::MAX,
    ensures
        ({
            let section = section_bytes(section_offset as int, entries);
            let first = section_offset + 8 * (entries.len() + 1);
            table_prefix_result(
                section.take(table_len(entries.len() as u32)),
                section_offset,
                (section_offset + section.len()) as u64,
                entries.len() as u32,
                n,
            ) == Ok::<Seq<u64>, Error>(
                if n == 0 {
                    Seq::empty()
                } else {
                    Seq::new(n + 1, |i: int| entry_offset(first, entries, i) as u64)
                },
            )
        }),
    decreases n,
{
    let section = section_bytes(section_offset as int, entries);
    let first = section_offset + 8 * (entries.len() + 1);
    let table = section.take(table_len(entries.len() as u32));
    lemma_section_len(section_offset as int, entries);
    if n > 0 {
        let i = (n - 1) as u32;
        lemma_table_prefix(section_offset, entries, i as nat);
        section_entry_law(section_offset, entries, i);
        assert(table.subrange(8 * (n - 1), 8 * (n - 1) + 16) =~= section.subrange(
            8 * i as int,
            8 * i + 16,
        ));
        let offsets = Seq::new(n + 1, |i: int| entry_offset(first, entries, i) as u64);
        let before = Seq::new(n, |i: int| entry_offset(first, entries, i) as u64);
        if n == 1 {
            assert(offsets =~= seq![
                entry_offset(first, entries, 0) as u64,
                entry_offset(first, entries, 1) as u64,
            ]);
        } else {
            assert(offsets =~= before.push(entry_offset(first, entries, n as int) as u64));
        }
    }
}

/// An encoded section has a valid offset table: the table that is read holds
/// the start of every entry and the end of the last.
pub proof fn section_table_law(section_offset: u64, entries: Seq<Seq<u8>>)
    requires
        entries.len() <= u32::MAX,
        forall|i: int| 0 <= i < entries.len() ==> (#[trigger] entries[i]).len() > 0,
        section_offset + section_bytes(section_offset as int, entries).len() <= u64::MAX,
        table_len(entries.len() as u32) <= usize::MAX,
    ensures
        ({
            let section = section_bytes(section_offset as int, entries);
            let first = section_offset + 8 * (entries.len() + 1);
            table_result(
                section.take(table_len(entries.len() as u32)),
                section_offset,
                (section_offset + section.len()) as u64,
                entries.len() as u32,
            ) == Ok::<Seq<u64>, Error>(
                Seq::new(entries.len() + 1, |i: int| entry_offset(first, entries, i) as u64),
            )
        }),
{
    let section = section_bytes(section_offset as int, entries);
    let first = section_offset + 8 * (entries.len() + 1);
    let table = section.take(table_len(entries.len() as u32));
    lemma_section_len(section_offset as int, entries);
    lemma_table_prefix(section_offset, entries, entries.len());
    if entries.len() == 0 {
        assert(entries.take(0) =~= Seq::empty());
        let words = table_bytes(first, entries, 1);
        lemma_table_len(first, entries, 1);
        lemma_table_word(first, entries, 1, 0);
        assert(table.subrange(0, 8) =~= words.subrange(0, 8));
        lemma_u64_at_window(table, 0, words, 0);
        assert(seq![first as u64] =~= Seq::new(
            1,
            |i: int| entry_offset(first, entries, i) as u64,
        ));
    }
}

proof fn lemma_word_at(words: Seq<u32>, i: int)
    requires
        0 <= i < words.len(),
    ensures
        u32_at(words_bytes(words), 4 * i) == words[i],
    decreases words.len(),
{
    let all = words_bytes(words);
    let before = words_bytes(words.drop_last());
    let word = u32_bytes(words.last());
    lemma_words_len(words);
    lemma_words_len(words.drop_last());
    if i == words.len() - 1 {
        lemma_u32_bytes_value(words.last());
        assert(all.subrange(4 * i, 4 * i + 4) =~= word.subrange(0, 4));
        lemma_u32_at_window(all, 4 * i, word, 0);
    } else {
        lemma_word_at(words.drop_last(), i);
        assert(all.subrange(4 * i, 4 * i + 4) =~= before.subrange(4 * i, 4 * i + 4));
        lemma_u32_at_window(all, 4 * i, before, 4 * i);
    }
}

/// The header words and the list of an entry of counted words.
proof fn lemma_counted_entry(a: u32, b: u32, words: Seq<u32>)
    ensures
        ({
            let entry = u32_bytes(a) + u32_bytes(b) + words_bytes(words);
            &&& entry.len() == 8 + 4 * words.len()
            &&& u32_at(entry, 0) == a
            &&& u32_at(entry, 4) == b
            &&& forall|i: int|
                0 <= i < words.len() ==> u32_at(entry, 8 + 4 * i) == #[trigger] words[i]
        }),
{
    let entry = u32_bytes(a) + u32_bytes(b) + words_bytes(words);
    let list = words_bytes(words);
    lemma_words_len(words);
    lemma_u32_bytes_value(a);
    lemma_u32_bytes_value(b);
    assert(entry.subrange(0, 4) =~= u32_bytes(a).subrange(0, 4));
    lemma_u32_at_window(entry, 0, u32_bytes(a), 0);
    assert(entry.subrange(4, 8) =~= u32_bytes(b).subrange(0, 4));
    lemma_u32_at_window(entry, 4, u32_bytes(b), 0);
    assert forall|i: int| 0 <= i < words.len() implies u32_at(entry, 8 + 4 * i)
        == #[trigger] words[i] by {
        lemma_word_at(words, i);
        assert(entry.subrange(8 + 4 * i, 8 + 4 * i + 4) =~= list.subrange(4 * i, 4 * i + 4));
        lemma_u32_at_window(entry, 8 + 4 * i, list, 4 * i);
    }
}

/// An encoded keyset is read back.
pub proof fn keyset_entry_law(keys: Seq<u32>, entry_start: u64, entry_end: u64)
    requires
        strictly_increasing(keys),
        keys.len() <= u32::MAX,
        entry_end - entry_start == keyset_entry(keys).len(),
    ensures
        keyset_result(keyset_entry(keys), entry_start, entry_end) == Ok::<Seq<u32>, Error>(keys),
{
    lemma_counted_entry(keys.len() as u32, 0, keys);
    assert(keyset_keys(keyset_entry(keys)) =~= keys);
}

/// An encoded value dictionary is read back, as a whole and value by value.
pub proof fn dict_entry_law(key: u32, values: Seq<u32>, entry_start: u64, entry_end: u64)
    requires
        0 < values.len() <= u32::MAX,
        entry_end - entry_start == dict_entry(key, values).len(),
    ensures
        ({
            let entry = dict_entry(key, values);
            let meta = ValueDictMeta {
                key_sym: key,
                values_offset: (entry_start + 8) as u64,
                cardinality: values.len() as u32,
            };
            &&& entry.len() == 8 + 4 * values.len()
            &&& value_dict_meta_result(entry.take(8), entry_start, entry_end) == Ok::<
                ValueDictMeta,
                Error,
            >(meta)
            &&& 4 * values.len() <= usize::MAX ==> value_dict_values_result(
                entry.skip(8),
                meta,
            ) == Ok::<Seq<u32>, Error>(values)
            &&& forall|code: u32|
                code < values.len() ==> {
                    &&& #[trigger] value_range_result(meta, code) == Ok::<Range<u64>, Error>(
                        Range {
                            start: (entry_start + 8 + 4 * code) as u64,
                            end: (entry_start + 12 + 4 * code) as u64,
                        },
                    )
                    &&& value_result(
                        entry.subrange(8 + 4 * code, 12 + 4 * code),
                        meta,
                        code,
                    ) == Ok::<u32, Error>(values[code as int])
                }
        }),
{
    let entry = dict_entry(key, values);
    let count = values.len() as u32;
    let meta = ValueDictMeta {
        key_sym: key,
        values_offset: (entry_start + 8) as u64,
        cardinality: count,
    };
    lemma_counted_entry(key, count, values);
    let header = entry.take(8);
    assert(header.subrange(0, 4) =~= entry.subrange(0, 4));
    lemma_u32_at_window(header, 0, entry, 0);
    assert(header.subrange(4, 8) =~= entry.subrange(4, 8));
    lemma_u32_at_window(header, 4, entry, 4);
    let list = entry.skip(8);
    assert forall|i: int| 0 <= i < values.len() implies u32_at(list, 4 * i)
        == #[trigger] values[i] by {
        assert(list.subrange(4 * i, 4 * i + 4) =~= entry.subrange(8 + 4 * i, 8 + 4 * i + 4));
        lemma_u32_at_window(list, 4 * i, entry, 8 + 4 * i);
    }
    assert(Seq::new(count as nat, |i: int| u32_at(list, 4 * i)) =~= values);
    assert forall|code: u32| code < values.len() implies {
        &&& #[trigger] value_range_result(meta, code) == Ok::<Range<u64>, Error>(
            Range {
                start: (entry_start + 8 + 4 * code) as u64,
                end: (entry_start + 12 + 4 * code) as u64,
            },
        )
        &&& value_result(entry.subrange(8 + 4 * code, 12 + 4 * code), meta, code) == Ok::<
            u32,
            Error,
        >(values[code as int])
    } by {
        let word = entry.subrange(8 + 4 * code, 12 + 4 * code);
        assert(values[code as int] == u32_at(entry, 8 + 4 * code));
        assert(word.subrange(0, 4) =~= entry.subrange(8 + 4 * code, 8 + 4 * code + 4));
        lemma_u32_at_window(word, 0, entry, 8 + 4 * code);
    }
}

/// A packed code is read back from the bytes of its row.
proof fn lemma_code_read(codes: Seq<u32>, widths: Seq<u8>, n: nat, j: int)
    requires
        packable(widths),
        0 <= j < n <= widths.len(),
        row_codes_result(codes, widths, n) is Ok,
    ensures
        width_total(widths, j as nat) + widths[j] <= width_total(widths, n),
        code_at(row_bytes(codes, widths, n), width_total(widths, j as nat) as int, widths[j])
            == codes[j],
    decreases n,
{
    let row = row_bytes(codes, widths, n);
    let before = row_bytes(codes, widths, (n - 1) as nat);
    let code = code_bytes(codes[n - 1], widths[n - 1]);
    let at = width_total(widths, j as nat) as int;
    lemma_row_bytes_len(codes, widths, n);
    lemma_row_bytes_len(codes, widths, (n - 1) as nat);
    assert(valid_width(widths[j]));
    assert(valid_width(widths[n - 1]));
    assert(row_codes_result(codes, widths, (n - 1) as nat) is Ok);
    if j == n - 1 {
        assert(write_code_result(codes[j], widths[j]) is Ok);
        assert(row == before + code);
        if widths[j] == 1 {
            assert(row[at] == code[0]);
        } else if widths[j] == 2 {
            lemma_u16_bytes_value(codes[j] as u16);
            assert(row[at] == code[0]);
            assert(row[at + 1] == code[1]);
        } else if widths[j] == 4 {
            lemma_u32_bytes_value(codes[j]);
            assert(row.subrange(at, at + 4) =~= code.subrange(0, 4));
            lemma_u32_at_window(row, at, code, 0);
        }
    } else {
        lemma_code_read(codes, widths, (n - 1) as nat, j);
        if widths[j] == 1 {
            assert(row[at + 0] == before[at + 0]);
        } else if widths[j] == 2 {
            assert(row[at + 0] == before[at + 0]);
            assert(row[at + 1] == before[at + 1]);
        } else if widths[j] == 4 {
            assert(row.subrange(at, at + 4) =~= before.subrange(at, at + 4));
            lemma_u32_at_window(row, at, before, at);
        }
    }
}

/// The codes of a packed row are read back, one behind the other.
pub proof fn packed_row_law(codes: Seq<u32>, widths: Seq<u8>, j: int)
    requires
        packable(widths),
        0 <= j < widths.len(),
        row_codes_result(codes, widths, widths.len()) is Ok,
        width_total(widths, widths.len()) <= usize::MAX,
    ensures
        width_total(widths, j as nat) + widths[j] == width_total(widths, (j + 1) as nat),
        width_total(widths, (j + 1) as nat) <= width_total(widths, widths.len()),
        row_bytes(codes, widths, widths.len()).len() == width_total(widths, widths.len()),
        code_result(
            row_bytes(codes, widths, widths.len()),
            width_total(widths, j as nat) as usize,
            widths[j],
        ) == Ok::<u32, Error>(codes[j]),
{
    lemma_row_bytes_len(codes, widths, widths.len());
    lemma_code_read(codes, widths, widths.len(), j);
    assert(valid_width(widths[j]));
}

proof fn lemma_width_sum(widths: Seq<u8>, n: nat)
    requires
        packable(widths),
        n <= widths.len(),
        width_total(widths, n) <= u32::MAX,
    ensures
        width_sum_result(widths, n) == Ok::<u32, Error>(width_total(widths, n) as u32),
    decreases n,
{
    if n > 0 {
        lemma_width_sum(widths, (n - 1) as nat);
        assert(valid_width(widths[n - 1]));
    }
}

/// Row `r` of packed rows.
proof fn lemma_packed_row(codes: Seq<u32>, widths: Seq<u8>, n: nat, r: int)
    requires
        packable(widths),
        0 <= r < n,
    ensures
        ({
            let len = width_total(widths, widths.len()) as int;
            &&& 0 <= r * len <= r * len + len <= packed_bytes(codes, widths, n).len()
            &&& packed_bytes(codes, widths, n).subrange(r * len, r * len + len) == row_bytes(
                code_row(codes, widths.len(), r),
                widths,
                widths.len(),
            )
        }),
    decreases n,
{
    let len = width_total(widths, widths.len()) as int;
    let all = packed_bytes(codes, widths, n);
    let before = packed_bytes(codes, widths, (n - 1) as nat);
    let last = row_bytes(code_row(codes, widths.len(), n - 1), widths, widths.len());
    lemma_packed_len(codes, widths, n);
    lemma_packed_len(codes, widths, (n - 1) as nat);
    lemma_row_bytes_len(code_row(codes, widths.len(), n - 1), widths, widths.len());
    assert(0 <= r * len && r * len + len <= n * len) by (nonlinear_arith)
        requires
            0 <= r < n,
            0 <= len,
    ;
    if r == n - 1 {
        assert(all.subrange(r * len, r * len + len) =~= last);
    } else {
        lemma_packed_row(codes, widths, (n - 1) as nat, r);
        assert(all.subrange(r * len, r * len + len) =~= before.subrange(r * len, r * len + len));
    }
}

proof fn lemma_packed_row_ok(codes: Seq<u32>, widths: Seq<u8>, n: nat, r: int)
    requires
        0 <= r < n,
        packed_result(codes, widths, n) is Ok,
    ensures
        row_codes_result(code_row(codes, widths.len(), r), widths, widths.len()) is Ok,
    decreases n,
{
    if r < n - 1 {
        lemma_packed_row_ok(codes, widths, (n - 1) as nat, r);
    }
}

proof fn lemma_block_header(rows: u32, keys: u32, row_len: u32, data_len: u32)
    ensures
        ({
            let head = block_header(rows, keys, row_len, data_len);
            &&& head.len() == 16
            &&& u32_at(head, 0) == rows
            &&& u32_at(head, 4) == keys
            &&& u32_at(head, 8) == row_len
            &&& u32_at(head, 12) == data_len
        }),
{
    let head = block_header(rows, keys, row_len, data_len);
    lemma_u32_bytes_value(rows);
    lemma_u32_bytes_value(keys);
    lemma_u32_bytes_value(row_len);
    lemma_u32_bytes_value(data_len);
    assert(head.subrange(0, 4) =~= u32_bytes(rows).subrange(0, 4));
    lemma_u32_at_window(head, 0, u32_bytes(rows), 0);
    assert(head.subrange(4, 8) =~= u32_bytes(keys).subrange(0, 4));
    lemma_u32_at_window(head, 4, u32_bytes(keys), 0);
    assert(head.subrange(8, 12) =~= u32_bytes(row_len).subrange(0, 4));
    lemma_u32_at_window(head, 8, u32_bytes(row_len), 0);
    assert(head.subrange(12, 16) =~= u32_bytes(data_len).subrange(0, 4));
    lemma_u32_at_window(head, 12, u32_bytes(data_len), 0);
}

/// The header, the widths and the rows of a block entry.
proof fn lemma_block_parts(
    keys: Seq<u32>,
    rows: KeysetRows,
    dicts: Seq<(u32, Seq<u32>)>,
    row: int,
)
    requires
        0 <= row < rows.row_count,
    ensures
        ({
            let entry = block_entry(keys, rows, dicts);
            let widths = widths_of(keys, dicts);
            let len = row_len(keys, dicts);
            let at = 16 + keys.len() + row * len;
            &&& entry.len() == 16 + keys.len() + len * rows.row_count
            &&& entry.take(16) == block_header(
                rows.row_count,
                keys.len() as u32,
                len as u32,
                (len * rows.row_count) as u32,
            )
            &&& entry.subrange(16, 16 + widths.len() as int) == widths
            &&& 0 <= at <= at + len <= entry.len()
            &&& entry.subrange(at, at + len) == row_bytes(
                code_row(rows.codes, widths.len(), row),
                widths,
                widths.len(),
            )
        }),
{
    reveal(block_entry);
    let entry = block_entry(keys, rows, dicts);
    let widths = widths_of(keys, dicts);
    let len = row_len(keys, dicts);
    let packed = packed_bytes(rows.codes, widths, rows.row_count as nat);
    let head = block_header(
        rows.row_count,
        keys.len() as u32,
        len as u32,
        (len * rows.row_count) as u32,
    );
    lemma_block_entry_len(keys, rows, dicts);
    lemma_widths_packable(keys, dicts);
    lemma_packed_len(rows.codes, widths, rows.row_count as nat);
    lemma_packed_row(rows.codes, widths, rows.row_count as nat, row);
    assert(head.len() == 16);
    assert(entry == head + widths + packed);
    assert(entry.take(16) =~= head);
    assert(entry.subrange(16, 16 + widths.len() as int) =~= widths);
    let at = 16 + keys.len() + row * len;
    assert(entry.subrange(at, at + len) =~= packed.subrange(row * len, row * len + len));
}

/// A written block as its reader sees it.
pub open spec fn block_of(
    keys: Seq<u32>,
    rows: KeysetRows,
    dicts: Seq<(u32, Seq<u32>)>,
    entry_start: u64,
) -> KeySetBlock {
    KeySetBlock {
        rows: rows.row_count,
        key_count: keys.len() as u32,
        row_len_bytes: row_len(keys, dicts) as u32,
        data_len: (row_len(keys, dicts) * rows.row_count) as u32,
        widths: widths_of(keys, dicts),
        data_offset: (entry_start + 16 + keys.len()) as u64,
    }
}

/// An encoded keyset block is read back: its header and widths are accepted,
/// and the range of every row holds the bytes of its codes.
pub proof fn block_entry_law(
    keys: Seq<u32>,
    rows: KeysetRows,
    dicts: Seq<(u32, Seq<u32>)>,
    entry_start: u64,
    entry_end: u64,
    row: u32,
)
    requires
        keys.len() <= u32::MAX,
        row_len(keys, dicts) <= u32::MAX,
        row_len(keys, dicts) * rows.row_count <= u32::MAX,
        entry_end - entry_start == block_entry(keys, rows, dicts).len(),
        row < rows.row_count,
    ensures
        ({
            let entry = block_entry(keys, rows, dicts);
            let widths = widths_of(keys, dicts);
            let block = block_of(keys, rows, dicts, entry_start);
            let start = block.data_offset + row * block.row_len_bytes;
            let end = start + block.row_len_bytes;
            &&& 16 + widths.len() <= entry.len()
            &&& entry_start <= start <= end <= entry_end
            &&& widths_range_result(entry.take(16), entry_start, entry_end) == Ok::<
                Range<u64>,
                Error,
            >(Range { start: (entry_start + 16) as u64, end: block.data_offset })
            &&& entry.subrange(16, 16 + widths.len() as int) == widths
            &&& block_result(entry.take(16), widths, entry_start, entry_end) == Ok::<
                KeySetBlock,
                Error,
            >(block)
            &&& row_range_result(block, row) == Ok::<Range<u64>, Error>(
                Range { start: start as u64, end: end as u64 },
            )
            &&& entry.subrange(start - entry_start, end - entry_start) == row_bytes(
                code_row(rows.codes, widths.len(), row as int),
                widths,
                widths.len(),
            )
        }),
{
    let entry = block_entry(keys, rows, dicts);
    let widths = widths_of(keys, dicts);
    let len = row_len(keys, dicts);
    let block = block_of(keys, rows, dicts, entry_start);
    lemma_block_parts(keys, rows, dicts, row as int);
    lemma_block_header(block.rows, block.key_count, block.row_len_bytes, block.data_len);
    lemma_widths_packable(keys, dicts);
    lemma_width_sum(widths, widths.len());
    assert(rows.row_count * len == len * rows.row_count) by (nonlinear_arith);
    assert(0 <= row * len && row * len + len <= len * rows.row_count) by (nonlinear_arith)
        requires
            0 <= row < rows.row_count,
            0 <= len,
    ;
}

/// The codes of a row of an encoded keyset block are read back.
pub proof fn block_codes_law(
    keys: Seq<u32>,
    rows: KeysetRows,
    dicts: Seq<(u32, Seq<u32>)>,
    row: u32,
    j: int,
)
    requires
        row_len(keys, dicts) <= u32::MAX,
        packed_result(rows.codes, widths_of(keys, dicts), rows.row_count as nat) is Ok,
        row < rows.row_count,
        0 <= j < keys.len(),
    ensures
        ({
            let widths = widths_of(keys, dicts);
            let codes = code_row(rows.codes, widths.len(), row as int);
            code_result(
                row_bytes(codes, widths, widths.len()),
                width_total(widths, j as nat) as usize,
                widths[j],
            ) == Ok::<u32, Error>(codes[j])
        }),
{
    let widths = widths_of(keys, dicts);
    lemma_widths_packable(keys, dicts);
    lemma_packed_row_ok(rows.codes, widths, rows.row_count as nat, row as int);
    packed_row_law(code_row(rows.codes, widths.len(), row as int), widths, j);
}

} // verus!
