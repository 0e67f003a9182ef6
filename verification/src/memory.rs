//! Word access to byte buffers: big-endian words as the N64 buses see them,
//! native-endian words as RDRAM is held by the host, and masked register
//! writes.

use vstd::prelude::*;
use vstd::endian::{endianness, Endian};

verus! {

/// The value of four bytes read most significant byte first.
pub open spec fn be_value(b: Seq<u8>) -> u32
    recommends
        b.len() == 4,
{
    (b[0] as int * 0x100_0000 + b[1] as int * 0x1_0000 + b[2] as int * 0x100 + b[3] as int) as u32
}

/// The value of four bytes read least significant byte first.
pub open spec fn le_value(b: Seq<u8>) -> u32
    recommends
        b.len() == 4,
{
    (b[3] as int * 0x100_0000 + b[2] as int * 0x1_0000 + b[1] as int * 0x100 + b[0] as int) as u32
}

/// The four bytes of `x`, most significant first.
pub open spec fn be_bytes(x: u32) -> Seq<u8> {
    seq![
        (x / 0x100_0000) as u8,
        ((x / 0x1_0000) % 0x100) as u8,
        ((x / 0x100) % 0x100) as u8,
        (x % 0x100) as u8,
    ]
}

/// The four bytes of `x`, least significant first.
pub open spec fn le_bytes(x: u32) -> Seq<u8> {
    seq![
        (x % 0x100) as u8,
        ((x / 0x100) % 0x100) as u8,
        ((x / 0x1_0000) % 0x100) as u8,
        (x / 0x100_0000) as u8,
    ]
}

/// The four bytes of `x` in the byte order of the machine the code runs on.
pub open spec fn ne_bytes(x: u32) -> Seq<u8> {
    match endianness() {
        Endian::Little => le_bytes(x),
        Endian::Big => be_bytes(x),
    }
}

/// The value of four bytes in the byte order of the machine the code runs on.
pub open spec fn ne_value(b: Seq<u8>) -> u32 {
    match endianness() {
        Endian::Little => le_value(b),
        Endian::Big => be_value(b),
    }
}

/// Whether the four bytes at `offset` lie inside a buffer of `len` bytes.
pub open spec fn word_in_range(len: int, offset: int) -> bool {
    0 <= offset && offset + 4 <= len
}

/// The big-endian word at `offset`, or 0 where the word does not lie wholly
/// inside the buffer.
pub open spec fn word_at(bytes: Seq<u8>, offset: int) -> u32 {
    if word_in_range(bytes.len() as int, offset) {
        be_value(bytes.subrange(offset, offset + 4))
    } else {
        0
    }
}

/// The buffer after storing `value` big-endian at `offset`; unchanged where
/// the word does not lie wholly inside it.
pub open spec fn with_word_at(bytes: Seq<u8>, offset: int, value: u32) -> Seq<u8> {
    with_bytes_at(bytes, offset, be_bytes(value))
}

/// The buffer with `chunk` stored at `offset`; unchanged where `chunk` does
/// not lie wholly inside it.
pub open spec fn with_bytes_at(bytes: Seq<u8>, offset: int, chunk: Seq<u8>) -> Seq<u8> {
    if 0 <= offset && offset + chunk.len() <= bytes.len() {
        bytes.subrange(0, offset) + chunk + bytes.subrange(offset + chunk.len(), bytes.len() as int)
    } else {
        bytes
    }
}

/// The register value after a write of `value` under `mask`: the bits set in
/// `mask` come from `value`, the others stay.
pub open spec fn masked(old: u32, value: u32, mask: u32) -> u32 {
    (old & !mask) | (value & mask)
}

/// Splits a word into its bytes, most significant first.
pub fn u32_to_be_bytes(x: u32) -> (r: [u8; 4])
    ensures
        r@ == be_bytes(x),
{
    let r = [
        (x / 0x100_0000) as u8,
        ((x / 0x1_0000) % 0x100) as u8,
        ((x / 0x100) % 0x100) as u8,
        (x % 0x100) as u8,
    ];
    assert(r@ =~= be_bytes(x));
    r
}

/// Reads the big-endian word at `offset`; a word that does not lie wholly
/// inside `bytes` reads as 0.
pub fn read_u32_be_at(bytes: &[u8], offset: usize) -> (r: u32)
    ensures
        r == word_at(bytes@, offset as int),
{
    let len = bytes.len();
    if offset > len || len - offset < 4 {
        return 0;
    }
    let b0 = bytes[offset] as u32;
    let b1 = bytes[offset + 1] as u32;
    let b2 = bytes[offset + 2] as u32;
    let b3 = bytes[offset + 3] as u32;
    b0 * 0x100_0000 + b1 * 0x1_0000 + b2 * 0x100 + b3
}

/// Stores `value` big-endian at `offset`; nothing is written where the word
/// does not lie wholly inside `bytes`.
pub fn write_u32_be_at(bytes: &mut [u8], offset: usize, value: u32)
    ensures
        final(bytes)@ == with_word_at(old(bytes)@, offset as int, value),
{
    let len = bytes.len();
    if offset > len || len - offset < 4 {
        return;
    }
    write_bytes_at(bytes, offset, u32_to_be_bytes(value));
}

/// Stores the four bytes `chunk` at `offset`; nothing is written where they
/// do not lie wholly inside `bytes`.
pub fn write_bytes_at(bytes: &mut [u8], offset: usize, chunk: [u8; 4])
    ensures
        final(bytes)@ == with_bytes_at(old(bytes)@, offset as int, chunk@),
{
    let len = bytes.len();
    if offset > len || len - offset < 4 {
        return;
    }
    bytes[offset] = chunk[0];
    bytes[offset + 1] = chunk[1];
    bytes[offset + 2] = chunk[2];
    bytes[offset + 3] = chunk[3];
    assert(bytes@ =~= with_bytes_at(old(bytes)@, offset as int, chunk@));
}

/// Writes `value` into `*dst` under `mask`.
pub fn masked_write_32(dst: &mut u32, value: u32, mask: u32)
    ensures
        *final(dst) == masked(*old(dst), value, mask),
{
    *dst = (*dst & !mask) | (value & mask);
}

/// `u32::to_ne_bytes`: the memory representation of `x` in the byte order of
/// the machine the code runs on, which is what `ne_bytes` names through
/// vstd's `endianness()`.
#[verifier::external_body]
pub(crate) fn u32_to_ne_bytes(x: u32) -> (r: [u8; 4])
    ensures
        r@ == ne_bytes(x),
{
    x.to_ne_bytes()
}

/// `u32::from_ne_bytes`: the value whose memory representation in the byte
/// order of the machine the code runs on is `b`, which is what `ne_value`
/// names through vstd's `endianness()`.
#[verifier::external_body]
pub(crate) fn u32_from_ne_bytes(b: [u8; 4]) -> (r: u32)
    ensures
        r == ne_value(b@),
{
    u32::from_ne_bytes(b)
}

/// Reading back a word that was just stored gives the stored value.
pub proof fn lemma_read_after_write(bytes: Seq<u8>, offset: int, value: u32)
    requires
        word_in_range(bytes.len() as int, offset),
    ensures
        word_at(with_word_at(bytes, offset, value), offset) == value,
        with_word_at(bytes, offset, value).len() == bytes.len(),
{
    lemma_be_roundtrip(value);
    let w = with_word_at(bytes, offset, value);
    assert(w.subrange(offset, offset + 4) =~= be_bytes(value));
}

/// Storing a word leaves every byte outside its four bytes as it was.
pub proof fn lemma_write_keeps_other_bytes(bytes: Seq<u8>, offset: int, value: u32, i: int)
    requires
        0 <= i < bytes.len(),
        i < offset || offset + 4 <= i,
    ensures
        with_word_at(bytes, offset, value)[i] == bytes[i],
{
}

/// Storing a word leaves every word that does not overlap it as it was.
pub proof fn lemma_write_keeps_other_words(bytes: Seq<u8>, offset: int, value: u32, other: int)
    requires
        other + 4 <= offset || offset + 4 <= other,
    ensures
        word_at(with_word_at(bytes, offset, value), other) == word_at(bytes, other),
{
    let w = with_word_at(bytes, offset, value);
    if word_in_range(bytes.len() as int, other) {
        assert(w.subrange(other, other + 4) =~= bytes.subrange(other, other + 4));
    }
}

/// A word split into big-endian bytes and read back is the same word.
pub proof fn lemma_be_roundtrip(x: u32)
    ensures
        be_bytes(x).len() == 4,
        be_value(be_bytes(x)) == x,
{
}

/// A word split into little-endian bytes and read back is the same word.
pub proof fn lemma_le_roundtrip(x: u32)
    ensures
        le_bytes(x).len() == 4,
        le_value(le_bytes(x)) == x,
{
}

/// A word split into native-endian bytes and read back is the same word.
pub proof fn lemma_ne_roundtrip(x: u32)
    ensures
        ne_bytes(x).len() == 4,
        ne_value(ne_bytes(x)) == x,
{
    lemma_be_roundtrip(x);
    lemma_le_roundtrip(x);
}

/// A full mask writes the whole value; an empty mask writes nothing.
pub proof fn lemma_masked_full_and_empty(old: u32, value: u32)
    ensures
        masked(old, value, 0xFFFF_FFFF) == value,
        masked(old, value, 0) == old,
{
    assert(masked(old, value, 0xFFFF_FFFF) == value) by (bit_vector);
    assert(masked(old, value, 0) == old) by (bit_vector);
}

/// Four bytes read as a big-endian word and split again are the same bytes.
pub proof fn lemma_be_bytes_roundtrip(b: Seq<u8>)
    requires
        b.len() == 4,
    ensures
        be_bytes(be_value(b)) == b,
{
    assert(be_bytes(be_value(b)) =~= b);
}

/// Four bytes read as a little-endian word and split again are the same bytes.
pub proof fn lemma_le_bytes_roundtrip(b: Seq<u8>)
    requires
        b.len() == 4,
    ensures
        le_bytes(le_value(b)) == b,
{
    assert(le_bytes(le_value(b)) =~= b);
}

/// Four bytes read as a native-endian word and split again are the same bytes.
pub proof fn lemma_ne_bytes_roundtrip(b: Seq<u8>)
    requires
        b.len() == 4,
    ensures
        ne_bytes(ne_value(b)) == b,
{
    lemma_be_bytes_roundtrip(b);
    lemma_le_bytes_roundtrip(b);
}

/// Byte `j` of a buffer after storing `chunk` at `offset`.
pub proof fn lemma_with_bytes_at_index(bytes: Seq<u8>, offset: int, chunk: Seq<u8>, j: int)
    requires
        0 <= j < bytes.len(),
    ensures
        with_bytes_at(bytes, offset, chunk).len() == bytes.len(),
        with_bytes_at(bytes, offset, chunk)[j] == if 0 <= offset && offset + chunk.len() <= bytes.len()
            && offset <= j < offset + chunk.len() {
            chunk[j - offset]
        } else {
            bytes[j]
        },
{
}

} // verus!
