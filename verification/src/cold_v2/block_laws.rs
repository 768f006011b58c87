//! Which keyset blocks can be written, and how long they are.

use vstd::prelude::*;

use super::blocks::{
    block_shape_result, blocks_codes_result, blocks_end_result, blocks_len_result,
    blocks_section_len_result, code_row, packed_result, row_codes_result, row_len, widths_of,
    write_blocks_result, KeysetRows,
};
use super::reader_laws::{code_room, written_code_law};

verus! {

/// The rows can stand in a block of the keyset: they have a code for each key of each row, and
/// the lengths of a row and of all rows fit their words.
pub open spec fn block_fits(
    keys: Seq<u32>,
    rows: KeysetRows,
    dicts: Seq<(u32, Seq<u32>)>,
) -> bool {
    &&& rows.row_width == keys.len()
    &&& rows.codes.len() == rows.row_count * rows.row_width
    &&& rows.codes.len() <= usize::MAX
    &&& row_len(keys, dicts) <= u32::MAX
    &&& row_len(keys, dicts) * rows.row_count <= u32::MAX
}

/// The bytes of the first `n` blocks: a header of four words, a byte for each key, and the rows.
pub open spec fn blocks_total(
    keysets: Seq<Seq<u32>>,
    rows: Seq<KeysetRows>,
    dicts: Seq<(u32, Seq<u32>)>,
    n: nat,
) -> nat
    decreases n,
{
    if n == 0 {
        0
    } else {
        blocks_total(keysets, rows, dicts, (n - 1) as nat) + 16 + keysets[n - 1].len() + row_len(
            keysets[n - 1],
            dicts,
        ) * rows[n - 1].row_count as nat
    }
}

/// The first `n` keysets have rows that can stand in their blocks.
pub open spec fn blocks_fit(
    keysets: Seq<Seq<u32>>,
    rows: Seq<KeysetRows>,
    dicts: Seq<(u32, Seq<u32>)>,
    n: nat,
) -> bool {
    &&& n <= rows.len()
    &&& forall|k: int| 0 <= k < n ==> block_fits(#[trigger] keysets[k], rows[k], dicts)
}

proof fn lemma_blocks_len(
    cursor: u64,
    keysets: Seq<Seq<u32>>,
    rows: Seq<KeysetRows>,
    dicts: Seq<(u32, Seq<u32>)>,
    n: nat,
)
    requires
        n <= keysets.len(),
    ensures
        ({
            let len = blocks_len_result(cursor, keysets, rows, dicts, n);
            let end = blocks_end_result(cursor, keysets, rows, dicts, n);
            let total = cursor + blocks_total(keysets, rows, dicts, n);
            &&& len is Ok <==> blocks_fit(keysets, rows, dicts, n) && total <= u64::MAX
            &&& end is Ok <==> blocks_fit(keysets, rows, dicts, n) && total <= u64::MAX
            &&& len is Ok ==> len->Ok_0 == total && end->Ok_0 == total
        }),
    decreases n,
{
    reveal(block_shape_result);
    if n > 0 {
        let m = (n - 1) as nat;
        lemma_blocks_len(cursor, keysets, rows, dicts, m);
        let product = row_len(keysets[n - 1], dicts) * rows[n - 1].row_count;
        assert(product == row_len(keysets[n - 1], dicts) * rows[n - 1].row_count as nat);
        assert(product >= 0) by (nonlinear_arith)
            requires
                product == row_len(keysets[n - 1], dicts) * rows[n - 1].row_count,
        ;
        if blocks_fit(keysets, rows, dicts, n) {
            assert(block_fits(keysets[n - 1], rows[n - 1], dicts));
            assert(blocks_fit(keysets, rows, dicts, m));
        }
        if blocks_fit(keysets, rows, dicts, m) && n <= rows.len() && block_fits(
            keysets[n - 1],
            rows[n - 1],
            dicts,
        ) {
            assert forall|k: int| 0 <= k < n implies block_fits(
                #[trigger] keysets[k],
                rows[k],
                dicts,
            ) by {
                if k == n - 1 {
                }
            }
            assert(blocks_fit(keysets, rows, dicts, n));
        }
    }
}

/// The section of keyset blocks is its table and its blocks, and has a length exactly when all
/// rows can stand in blocks and the length can be counted.
pub proof fn blocks_len_law(
    keysets: Seq<Seq<u32>>,
    rows: Seq<KeysetRows>,
    dicts: Seq<(u32, Seq<u32>)>,
)
    requires
        keysets.len() < usize::MAX,
    ensures
        ({
            let len = 8 * (keysets.len() + 1) + blocks_total(keysets, rows, dicts, keysets.len());
            let counted = blocks_section_len_result(keysets, rows, dicts);
            &&& counted is Ok <==> blocks_fit(keysets, rows, dicts, keysets.len()) && len
                <= u64::MAX
            &&& counted is Ok ==> counted->Ok_0 == len
        }),
{
    if 8 * (keysets.len() + 1) <= u64::MAX {
        lemma_blocks_len(
            (8 * (keysets.len() + 1)) as u64,
            keysets,
            rows,
            dicts,
            keysets.len(),
        );
    }
}

proof fn lemma_row_codes(codes: Seq<u32>, widths: Seq<u8>, n: nat)
    requires
        n <= widths.len(),
    ensures
        row_codes_result(codes, widths, n) is Ok <==> forall|j: int|
            0 <= j < n ==> #[trigger] codes[j] < code_room(widths[j]),
    decreases n,
{
    if n > 0 {
        lemma_row_codes(codes, widths, (n - 1) as nat);
        written_code_law(codes[n - 1], widths[n - 1]);
        if row_codes_result(codes, widths, n) is Ok {
            assert forall|j: int| 0 <= j < n implies #[trigger] codes[j] < code_room(
                widths[j],
            ) by {
                if j == n - 1 {
                }
            }
        } else if row_codes_result(codes, widths, (n - 1) as nat) is Ok {
            assert(codes[n - 1] >= code_room(widths[n - 1]));
        }
    }
}

/// The codes of the first `n` rows fit the widths of their columns.
pub open spec fn codes_fit(codes: Seq<u32>, widths: Seq<u8>, n: nat) -> bool {
    forall|r: int, j: int|
        0 <= r < n && 0 <= j < widths.len() ==> #[trigger] code_row(codes, widths.len(), r)[j]
            < code_room(widths[j])
}

/// Rows can be packed exactly when every code fits the width of its column.
pub proof fn packed_codes_law(codes: Seq<u32>, widths: Seq<u8>, n: nat)
    ensures
        packed_result(codes, widths, n) is Ok <==> codes_fit(codes, widths, n),
    decreases n,
{
    if n > 0 {
        let m = (n - 1) as nat;
        packed_codes_law(codes, widths, m);
        let row = code_row(codes, widths.len(), n - 1);
        lemma_row_codes(row, widths, widths.len());
        if packed_result(codes, widths, n) is Ok {
            assert forall|r: int, j: int| 0 <= r < n && 0 <= j < widths.len() implies
                #[trigger] code_row(codes, widths.len(), r)[j] < code_room(widths[j]) by {
                if r == n - 1 {
                    assert(row[j] < code_room(widths[j]));
                }
            }
        }
        if codes_fit(codes, widths, n) {
            assert forall|j: int| 0 <= j < widths.len() implies #[trigger] row[j] < code_room(
                widths[j],
            ) by {
                assert(code_row(codes, widths.len(), n - 1)[j] < code_room(widths[j]));
            }
            assert(codes_fit(codes, widths, m));
        }
    }
}

proof fn lemma_blocks_codes(
    keysets: Seq<Seq<u32>>,
    rows: Seq<KeysetRows>,
    dicts: Seq<(u32, Seq<u32>)>,
    n: nat,
)
    requires
        n <= keysets.len(),
    ensures
        blocks_codes_result(keysets, rows, dicts, n) is Ok <==> forall|k: int|
            0 <= k < n ==> codes_fit(
                rows[k].codes,
                widths_of(#[trigger] keysets[k], dicts),
                rows[k].row_count as nat,
            ),
    decreases n,
{
    if n > 0 {
        lemma_blocks_codes(keysets, rows, dicts, (n - 1) as nat);
        packed_codes_law(
            rows[n - 1].codes,
            widths_of(keysets[n - 1], dicts),
            rows[n - 1].row_count as nat,
        );
        if blocks_codes_result(keysets, rows, dicts, n) is Ok {
            assert forall|k: int| 0 <= k < n implies codes_fit(
                rows[k].codes,
                widths_of(#[trigger] keysets[k], dicts),
                rows[k].row_count as nat,
            ) by {
                if k == n - 1 {
                }
            }
        } else if blocks_codes_result(keysets, rows, dicts, (n - 1) as nat) is Ok {
            assert(!codes_fit(
                rows[n - 1].codes,
                widths_of(keysets[n - 1], dicts),
                rows[n - 1].row_count as nat,
            ));
        }
    }
}

/// The section of keyset blocks can be written at an offset exactly when all rows can stand in
/// blocks, the end can be counted there, and every code fits the width of its column.
pub proof fn written_block_section_law(
    section_offset: u64,
    keysets: Seq<Seq<u32>>,
    rows: Seq<KeysetRows>,
    dicts: Seq<(u32, Seq<u32>)>,
)
    requires
        keysets.len() < usize::MAX,
    ensures
        write_blocks_result(section_offset, keysets, rows, dicts) is Ok <==> {
            &&& blocks_fit(keysets, rows, dicts, keysets.len())
            &&& section_offset + 8 * (keysets.len() + 1) + blocks_total(
                keysets,
                rows,
                dicts,
                keysets.len(),
            ) <= u64::MAX
            &&& forall|k: int|
                0 <= k < keysets.len() ==> codes_fit(
                    rows[k].codes,
                    widths_of(#[trigger] keysets[k], dicts),
                    rows[k].row_count as nat,
                )
        },
{
    if section_offset + 8 * (keysets.len() + 1) <= u64::MAX {
        lemma_blocks_len(
            (section_offset + 8 * (keysets.len() + 1)) as u64,
            keysets,
            rows,
            dicts,
            keysets.len(),
        );
    }
    lemma_blocks_codes(keysets, rows, dicts, keysets.len());
}

} // verus!
