//! The length that is computed for a section is the length that is written.

use vstd::prelude::*;

use super::blocks::{
    block_entries, blocks_end_result, blocks_len_result,
    blocks_section_len_result, lemma_blocks_end, row_len, write_blocks_result, KeysetRows,
};
use super::encode::{
    counted_section_result, dict_counts, dict_entries, dict_texts, dicts_len_result,
    entries_bytes, entries_end_result, keyset_counts, keyset_entries, keyset_texts,
    keysets_len_result,
    lemma_counted_end, lemma_dict_entry_len, lemma_keyset_entry_len, lemma_table_len,
    offsets_len_result, section_bytes, table_bytes, write_dicts_result, write_keysets_result,
    EntryTexts,
};
use super::read_back::{lemma_offset_bound, lemma_section_len, lemma_table_word};
use crate::bytes::{lemma_u64_at_window, u64_at};

verus! {

/// The section has this length, and the last word of its offset table, which
/// stands behind one word for each entry, names its end.
pub open spec fn section_ends(section_offset: u64, entries: Seq<Seq<u8>>, len: u64) -> bool {
    let section = section_bytes(section_offset as int, entries);
    &&& section.len() == len
    &&& section_offset + len <= u64::MAX
    &&& u64_at(section, 8 * entries.len() as int) == section_offset + len
}

proof fn lemma_section_ends(section_offset: u64, entries: Seq<Seq<u8>>, len: u64)
    requires
        section_offset + len <= u64::MAX,
        len == 8 * (entries.len() + 1) + entries_bytes(entries).len(),
    ensures
        section_ends(section_offset, entries, len),
{
    let section = section_bytes(section_offset as int, entries);
    let count = entries.len();
    let first = section_offset + 8 * (count + 1);
    let table = table_bytes(first, entries, count + 1);
    lemma_section_len(section_offset as int, entries);
    lemma_table_len(first, entries, count + 1);
    lemma_offset_bound(first, entries, count as int);
    lemma_table_word(first, entries, count + 1, count as int);
    let last = 8 * count as int;
    assert(section.subrange(last, last + 8) =~= table.subrange(last, last + 8));
    lemma_u64_at_window(section, last, table, last);
}

/// Counted entries take the same room wherever they begin.
proof fn lemma_same_counted(
    first: u64,
    second: u64,
    counts: Seq<nat>,
    n: nat,
    texts: EntryTexts,
)
    requires
        entries_end_result(first, counts, n, texts) is Ok,
        entries_end_result(second, counts, n, texts) is Ok,
    ensures
        entries_end_result(first, counts, n, texts)->Ok_0 - first == entries_end_result(
            second,
            counts,
            n,
            texts,
        )->Ok_0 - second,
    decreases n,
{
    if n > 0 {
        lemma_same_counted(first, second, counts, (n - 1) as nat, texts);
    }
}

proof fn lemma_counted_section(
    section_offset: u64,
    entries: Seq<Seq<u8>>,
    counts: Seq<nat>,
    offset_text: &'static str,
    texts: EntryTexts,
)
    requires
        entries.len() == counts.len(),
        forall|i: int| 0 <= i < entries.len() ==> (#[trigger] entries[i]).len() == 8 + 4 * counts[i],
        offsets_len_result(counts.len()) is Ok,
        entries_end_result(
            offsets_len_result(counts.len())->Ok_0,
            counts,
            counts.len(),
            texts,
        ) is Ok,
        counted_section_result(section_offset, counts, offset_text, texts) is Ok,
    ensures
        section_ends(
            section_offset,
            entries,
            entries_end_result(
                offsets_len_result(counts.len())->Ok_0,
                counts,
                counts.len(),
                texts,
            )->Ok_0,
        ),
{
    let first = offsets_len_result(counts.len())->Ok_0;
    lemma_same_counted(
        first,
        (section_offset + first) as u64,
        counts,
        counts.len(),
        texts,
    );
    lemma_counted_end(first, entries, counts, counts.len(), texts);
    assert(entries.take(entries.len() as int) =~= entries);
    lemma_section_ends(
        section_offset,
        entries,
        entries_end_result(first, counts, counts.len(), texts)->Ok_0,
    );
}

/// A keysets section that is written has the length that is computed for it.
pub proof fn written_keysets_law(section_offset: u64, keysets: Seq<Seq<u32>>)
    requires
        keysets_len_result(keysets) is Ok,
        write_keysets_result(section_offset, keysets) is Ok,
    ensures
        section_ends(section_offset, keyset_entries(keysets), keysets_len_result(keysets)->Ok_0),
{
    lemma_keyset_entry_len(keysets);
    lemma_counted_section(
        section_offset,
        keyset_entries(keysets),
        keyset_counts(keysets),
        "series keysets offset overflow",
        keyset_texts(),
    );
}

/// A value dictionaries section that is written has the length that is computed
/// for it.
pub proof fn written_dicts_law(section_offset: u64, dicts: Seq<(u32, Seq<u32>)>)
    requires
        dicts_len_result(dicts) is Ok,
        write_dicts_result(section_offset, dicts) is Ok,
    ensures
        section_ends(section_offset, dict_entries(dicts), dicts_len_result(dicts)->Ok_0),
{
    lemma_dict_entry_len(dicts);
    lemma_counted_section(
        section_offset,
        dict_entries(dicts),
        dict_counts(dicts),
        "series value dictionaries offset overflow",
        dict_texts(),
    );
}

/// Blocks take the same room when they are measured and when they are written.
proof fn lemma_same_blocks(
    first: u64,
    second: u64,
    keysets: Seq<Seq<u32>>,
    rows: Seq<KeysetRows>,
    dicts: Seq<(u32, Seq<u32>)>,
    n: nat,
)
    requires
        blocks_len_result(first, keysets, rows, dicts, n) is Ok,
        blocks_end_result(second, keysets, rows, dicts, n) is Ok,
    ensures
        blocks_len_result(first, keysets, rows, dicts, n)->Ok_0 - first == blocks_end_result(
            second,
            keysets,
            rows,
            dicts,
            n,
        )->Ok_0 - second,
    decreases n,
{
    if n > 0 {
        assert(0 <= row_len(keysets[n - 1], dicts) * rows[n - 1].row_count) by (nonlinear_arith);
        lemma_same_blocks(first, second, keysets, rows, dicts, (n - 1) as nat);
    }
}

/// A keyset blocks section that is written has the length that is computed for
/// it, whatever the keysets, rows and dictionaries are.
pub proof fn written_blocks_law(
    section_offset: u64,
    keysets: Seq<Seq<u32>>,
    rows: Seq<KeysetRows>,
    dicts: Seq<(u32, Seq<u32>)>,
)
    requires
        blocks_section_len_result(keysets, rows, dicts) is Ok,
        write_blocks_result(section_offset, keysets, rows, dicts) is Ok,
    ensures
        section_ends(
            section_offset,
            block_entries(keysets, rows, dicts),
            blocks_section_len_result(keysets, rows, dicts)->Ok_0,
        ),
{
    let first = offsets_len_result(keysets.len())->Ok_0;
    let start = (section_offset + first) as u64;
    let entries = block_entries(keysets, rows, dicts);
    lemma_same_blocks(first, start, keysets, rows, dicts, keysets.len());
    lemma_blocks_end(start, keysets, rows, dicts, keysets.len());
    assert(entries.take(entries.len() as int) =~= entries);
    lemma_section_ends(
        section_offset,
        entries,
        blocks_section_len_result(keysets, rows, dicts)->Ok_0,
    );
}

} // verus!
