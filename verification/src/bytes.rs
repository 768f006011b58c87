//! Little-endian integers inside byte sequences.
//!
//! `u16_at`, `u32_at` and `u64_at` say which value the bytes at an offset
//! hold; `u16_bytes`, `u32_bytes` and `u64_bytes` are the bytes of a value.

use vstd::prelude::*;

verus! {

/// The value of two bytes, the low byte first.
pub open spec fn le16(b0: u8, b1: u8) -> u16 {
    (b0 + 0x100 * b1) as u16
}

/// The value of four bytes, the low byte first.
pub open spec fn le32(b0: u8, b1: u8, b2: u8, b3: u8) -> u32 {
    (b0 + 0x100 * b1 + 0x1_0000 * b2 + 0x100_0000 * b3) as u32
}

pub open spec fn u16_at(bytes: Seq<u8>, offset: int) -> u16 {
    le16(bytes[offset], bytes[offset + 1])
}

pub open spec fn u32_at(bytes: Seq<u8>, offset: int) -> u32 {
    le32(bytes[offset], bytes[offset + 1], bytes[offset + 2], bytes[offset + 3])
}

pub open spec fn u64_at(bytes: Seq<u8>, offset: int) -> u64 {
    (u32_at(bytes, offset) + 0x1_0000_0000 * u32_at(bytes, offset + 4)) as u64
}

pub open spec fn u16_bytes(value: u16) -> Seq<u8> {
    seq![(value % 0x100) as u8, (value / 0x100) as u8]
}

pub open spec fn u32_bytes(value: u32) -> Seq<u8> {
    seq![
        (value % 0x100) as u8,
        (value / 0x100 % 0x100) as u8,
        (value / 0x1_0000 % 0x100) as u8,
        (value / 0x100_0000) as u8,
    ]
}

pub open spec fn u64_bytes(value: u64) -> Seq<u8> {
    u32_bytes((value % 0x1_0000_0000) as u32) + u32_bytes((value / 0x1_0000_0000) as u32)
}

/// `base` with the bytes from `offset` on replaced by `patch`.
pub open spec fn splice(base: Seq<u8>, offset: int, patch: Seq<u8>) -> Seq<u8> {
    Seq::new(
        base.len(),
        |i: int| if offset <= i < offset + patch.len() { patch[i - offset] } else { base[i] },
    )
}

/// The bytes of a value hold that value.
pub proof fn lemma_u16_bytes_value(value: u16)
    ensures
        u16_bytes(value).len() == 2,
        u16_at(u16_bytes(value), 0) == value,
{
}

/// The bytes of a value hold that value.
pub proof fn lemma_u32_bytes_value(value: u32)
    ensures
        u32_bytes(value).len() == 4,
        u32_at(u32_bytes(value), 0) == value,
{
    assert(value / 0x1_0000 == value / 0x100 / 0x100) by (bit_vector);
    assert(value / 0x100_0000 == value / 0x1_0000 / 0x100) by (bit_vector);
}

/// The bytes of a value hold that value.
pub proof fn lemma_u64_bytes_value(value: u64)
    ensures
        u64_bytes(value).len() == 8,
        u64_at(u64_bytes(value), 0) == value,
{
    let low = (value % 0x1_0000_0000) as u32;
    let high = (value / 0x1_0000_0000) as u32;
    lemma_u32_bytes_value(low);
    lemma_u32_bytes_value(high);
    assert(u32_at(u64_bytes(value), 0) == low);
    assert(u32_at(u64_bytes(value), 4) == high);
}

/// The value at an offset depends on its own bytes alone.
pub proof fn lemma_u32_at_window(a: Seq<u8>, i: int, b: Seq<u8>, j: int)
    requires
        0 <= i,
        i + 4 <= a.len(),
        0 <= j,
        j + 4 <= b.len(),
        a.subrange(i, i + 4) == b.subrange(j, j + 4),
    ensures
        u32_at(a, i) == u32_at(b, j),
{
    let sa = a.subrange(i, i + 4);
    let sb = b.subrange(j, j + 4);
    assert(sa[0] == sb[0] && sa[1] == sb[1] && sa[2] == sb[2] && sa[3] == sb[3]);
}

/// The value at an offset depends on its own bytes alone.
pub proof fn lemma_u64_at_window(a: Seq<u8>, i: int, b: Seq<u8>, j: int)
    requires
        0 <= i,
        i + 8 <= a.len(),
        0 <= j,
        j + 8 <= b.len(),
        a.subrange(i, i + 8) == b.subrange(j, j + 8),
    ensures
        u64_at(a, i) == u64_at(b, j),
{
    let sa = a.subrange(i, i + 8);
    let sb = b.subrange(j, j + 8);
    assert(sa[0] == sb[0] && sa[1] == sb[1] && sa[2] == sb[2] && sa[3] == sb[3]);
    assert(sa[4] == sb[4] && sa[5] == sb[5] && sa[6] == sb[6] && sa[7] == sb[7]);
}

proof fn lemma_splice_u32(base: Seq<u8>, offset: int, value: u32)
    requires
        0 <= offset,
        offset + 4 <= base.len(),
    ensures
        u32_at(splice(base, offset, u32_bytes(value)), offset) == value,
{
    lemma_u32_bytes_value(value);
    let s = splice(base, offset, u32_bytes(value));
    let b = u32_bytes(value);
    assert(s[offset] == b[0] && s[offset + 1] == b[1] && s[offset + 2] == b[2] && s[offset + 3]
        == b[3]);
}

proof fn lemma_splice_u64(base: Seq<u8>, offset: int, value: u64)
    requires
        0 <= offset,
        offset + 8 <= base.len(),
    ensures
        u64_at(splice(base, offset, u64_bytes(value)), offset) == value,
{
    lemma_u64_bytes_value(value);
    let s = splice(base, offset, u64_bytes(value));
    assert(s.subrange(offset, offset + 8) =~= u64_bytes(value).subrange(0, 8));
    lemma_u64_at_window(s, offset, u64_bytes(value), 0);
}

pub fn read_u16(bytes: &[u8], offset: usize) -> (value: u16)
    requires
        offset + 2 <= bytes@.len(),
    ensures
        value == u16_at(bytes@, offset as int),
{
    bytes[offset] as u16 + 0x100 * bytes[offset + 1] as u16
}

pub fn read_u32(bytes: &[u8], offset: usize) -> (value: u32)
    requires
        offset + 4 <= bytes@.len(),
    ensures
        value == u32_at(bytes@, offset as int),
{
    bytes[offset] as u32 + 0x100 * bytes[offset + 1] as u32 + 0x1_0000 * bytes[offset + 2] as u32
        + 0x100_0000 * bytes[offset + 3] as u32
}

pub fn read_u64(bytes: &[u8], offset: usize) -> (value: u64)
    requires
        offset + 8 <= bytes@.len(),
    ensures
        value == u64_at(bytes@, offset as int),
{
    assert(offset + 8 <= bytes.len());
    read_u32(bytes, offset) as u64 + 0x1_0000_0000 * read_u32(bytes, offset + 4) as u64
}

pub fn put_u16(bytes: &mut [u8], offset: usize, value: u16)
    requires
        offset + 2 <= old(bytes)@.len(),
    ensures
        final(bytes)@ == splice(old(bytes)@, offset as int, u16_bytes(value)),
        u16_at(final(bytes)@, offset as int) == value,
{
    bytes[offset] = (value % 0x100) as u8;
    bytes[offset + 1] = (value / 0x100) as u8;
    assert(bytes@ =~= splice(old(bytes)@, offset as int, u16_bytes(value)));
}

pub fn put_u32(bytes: &mut [u8], offset: usize, value: u32)
    requires
        offset + 4 <= old(bytes)@.len(),
    ensures
        final(bytes)@ == splice(old(bytes)@, offset as int, u32_bytes(value)),
        u32_at(final(bytes)@, offset as int) == value,
{
    bytes[offset] = (value % 0x100) as u8;
    bytes[offset + 1] = (value / 0x100 % 0x100) as u8;
    bytes[offset + 2] = (value / 0x1_0000 % 0x100) as u8;
    bytes[offset + 3] = (value / 0x100_0000) as u8;
    assert(bytes@ =~= splice(old(bytes)@, offset as int, u32_bytes(value)));
    proof {
        lemma_splice_u32(old(bytes)@, offset as int, value);
    }
}

pub fn put_u64(bytes: &mut [u8], offset: usize, value: u64)
    requires
        offset + 8 <= old(bytes)@.len(),
    ensures
        final(bytes)@ == splice(old(bytes)@, offset as int, u64_bytes(value)),
        u64_at(final(bytes)@, offset as int) == value,
{
    assert(offset + 8 <= bytes.len());
    put_u32(bytes, offset, (value % 0x1_0000_0000) as u32);
    put_u32(bytes, offset + 4, (value / 0x1_0000_0000) as u32);
    assert(bytes@ =~= splice(old(bytes)@, offset as int, u64_bytes(value)));
    proof {
        lemma_splice_u64(old(bytes)@, offset as int, value);
    }
}

/// Appends the bytes of a value.
pub fn push_u16(bytes: &mut Vec<u8>, value: u16)
    ensures
        final(bytes)@ == old(bytes)@ + u16_bytes(value),
{
    bytes.push((value % 0x100) as u8);
    bytes.push((value / 0x100) as u8);
    assert(bytes@ =~= old(bytes)@ + u16_bytes(value));
}

/// Appends the bytes of a value.
pub fn push_u32(bytes: &mut Vec<u8>, value: u32)
    ensures
        final(bytes)@ == old(bytes)@ + u32_bytes(value),
{
    bytes.push((value % 0x100) as u8);
    bytes.push((value / 0x100 % 0x100) as u8);
    bytes.push((value / 0x1_0000 % 0x100) as u8);
    bytes.push((value / 0x100_0000) as u8);
    assert(bytes@ =~= old(bytes)@ + u32_bytes(value));
}

/// Appends the bytes of a value.
pub fn push_u64(bytes: &mut Vec<u8>, value: u64)
    ensures
        final(bytes)@ == old(bytes)@ + u64_bytes(value),
{
    push_u32(bytes, (value % 0x1_0000_0000) as u32);
    push_u32(bytes, (value / 0x1_0000_0000) as u32);
    assert(bytes@ =~= old(bytes)@ + u64_bytes(value));
}

/// A copy of bytes.
pub fn copy_bytes(bytes: &[u8]) -> (copy: Vec<u8>)
    ensures
        copy@ == bytes@,
{
    let mut copy: Vec<u8> = Vec::with_capacity(bytes.len());
    push_bytes(&mut copy, bytes);
    assert(copy@ =~= bytes@);
    copy
}

/// Appends bytes.
pub fn push_bytes(writer: &mut Vec<u8>, bytes: &[u8])
    ensures
        final(writer)@ == old(writer)@ + bytes@,
{
    let ghost start = writer@;
    let mut i: usize = 0;
    assert(writer@ =~= start + bytes@.take(0));
    while i < bytes.len()
        invariant
            i <= bytes@.len(),
            writer@ == start + bytes@.take(i as int),
        decreases bytes@.len() - i,
    {
        writer.push(bytes[i]);
        i += 1;
        assert(writer@ =~= start + bytes@.take(i as int));
    }
    assert(bytes@.take(i as int) =~= bytes@);
}

/// The bytes of a word are its digits to the base 256, the lowest first.
pub proof fn word_bytes_law(bytes: Seq<u8>, at: int)
    ensures
        u16_at(bytes, at) == bytes[at] + 0x100 * bytes[at + 1],
        u32_at(bytes, at) == bytes[at] + 0x100 * bytes[at + 1] + 0x1_0000 * bytes[at + 2]
            + 0x100_0000 * bytes[at + 3],
        u64_at(bytes, at) == bytes[at] + 0x100 * bytes[at + 1] + 0x1_0000 * bytes[at + 2]
            + 0x100_0000 * bytes[at + 3] + 0x1_0000_0000 * bytes[at + 4] + 0x100_0000_0000
            * bytes[at + 5] + 0x1_0000_0000_0000 * bytes[at + 6] + 0x100_0000_0000_0000 * bytes[at
            + 7],
{
}

/// A word takes as many bytes as its width, and they read back as the word.
pub proof fn written_word_law(short: u16, word: u32, long: u64)
    ensures
        u16_bytes(short).len() == 2,
        u32_bytes(word).len() == 4,
        u64_bytes(long).len() == 8,
        u16_at(u16_bytes(short), 0) == short,
        u32_at(u32_bytes(word), 0) == word,
        u64_at(u64_bytes(long), 0) == long,
{
    lemma_u16_bytes_value(short);
    lemma_u32_bytes_value(word);
    lemma_u64_bytes_value(long);
}

} // verus!
