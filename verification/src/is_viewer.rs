//! The ISViewer debug interface: a 64 KiB window on the cartridge bus whose
//! length register at offset 0x14, when written, makes the host print the
//! text buffer at offset 0x20 (at most 512 bytes).

use vstd::prelude::*;
use crate::device::Device;
use crate::memory::{
    with_bytes_at, lemma_read_after_write, lemma_write_keeps_other_words, masked, masked_write_32, read_u32_be_at, with_word_at,
    word_at, word_in_range, write_u32_be_at,
};

verus! {

/// Bus addresses are taken modulo the 64 KiB window.
pub const IS_VIEWER_MASK: usize = 0xFFFF;
/// Length register; writing it triggers a host print of the text buffer.
pub const WRITE_LEN_OFFSET: usize = 0x14;
/// Start of the text buffer.
pub const BUF_OFFSET: usize = 0x20;
/// Size of the text buffer.
pub const BUF_SIZE: usize = 0x200;

/// Offset inside the ISViewer window of a bus address.
pub open spec fn window_offset(address: u64) -> int {
    (address & 0xFFFF) as int
}

/// The bytes printed for a length-register value of `length`: the first
/// `min(length, 512)` bytes of the text buffer, or nothing where they do not
/// lie wholly inside the ISViewer buffer.
pub open spec fn flushed_text(buffer: Seq<u8>, length: int) -> Seq<u8> {
    let n = if length < BUF_SIZE { length } else { BUF_SIZE as int };
    if BUF_OFFSET + n <= buffer.len() {
        buffer.subrange(BUF_OFFSET as int, BUF_OFFSET + n)
    } else {
        Seq::empty()
    }
}

/// Whether `mask` enables exactly one whole byte lane.
pub open spec fn is_byte_lane_mask(mask: u32) -> bool {
    mask == 0xFF || mask == 0xFF00 || mask == 0xFF_0000 || mask == 0xFF00_0000
}

/// A byte store that carries its byte right-aligned in `value` rather than
/// in the lane that the mask enables: the mask enables one byte lane, and
/// `value` is a non-zero byte with no bits in that lane. Merging it under the
/// mask would store none of its bits.
pub open spec fn is_right_aligned_byte_store(value: u32, mask: u32) -> bool {
    is_byte_lane_mask(mask) && value & mask == 0 && 0 < value <= 0xFF
}

/// The ISViewer buffer after a bus write of `value` under `mask` at
/// `address`. A right-aligned byte store (`is_right_aligned_byte_store`)
/// puts its byte at the addressed byte; any other write merges `value` under
/// the mask into the big-endian word at the address. Either way nothing is
/// stored where the word at the address does not lie wholly inside the
/// buffer.
pub open spec fn buffer_after_write(buffer: Seq<u8>, address: u64, value: u32, mask: u32) -> Seq<u8> {
    let offset = window_offset(address);
    if is_right_aligned_byte_store(value, mask) {
        if word_in_range(buffer.len() as int, offset) {
            buffer.update(offset, value as u8)
        } else {
            buffer
        }
    } else {
        with_word_at(buffer, offset, masked(word_at(buffer, offset), value, mask))
    }
}

/// The length-register value that a write of `value` under `mask` to the
/// length register leaves, given the buffer before and after it: `value`
/// merged under the mask into the word the buffer held there, or, for a
/// right-aligned byte store, the word the buffer then holds there.
pub open spec fn length_after_write(before: Seq<u8>, after: Seq<u8>, value: u32, mask: u32) -> u32 {
    if is_right_aligned_byte_store(value, mask) {
        word_at(after, WRITE_LEN_OFFSET as int)
    } else {
        masked(word_at(before, WRITE_LEN_OFFSET as int), value, mask)
    }
}

fn is_right_aligned_byte_store_exec(value: u32, mask: u32) -> (r: bool)
    ensures
        r == is_right_aligned_byte_store(value, mask),
{
    (mask == 0xFF || mask == 0xFF00 || mask == 0xFF_0000 || mask == 0xFF00_0000) && value & mask == 0
        && 0 < value && value <= 0xFF
}

fn window_offset_exec(address: u64) -> (r: usize)
    ensures
        r == window_offset(address),
        r <= IS_VIEWER_MASK,
{
    assert(address & 0xFFFF <= 0xFFFF) by (bit_vector);
    (address & 0xFFFF) as usize
}

/// The bytes to print for a length-register value of `length`.
pub fn text_buffer_slice(buffer: &[u8], length: usize) -> (text: Vec<u8>)
    ensures
        text@ == flushed_text(buffer@, length as int),
        text@.len() <= BUF_SIZE,
{
    let n = if length < BUF_SIZE { length } else { BUF_SIZE };
    let mut text: Vec<u8> = Vec::new();
    if n > buffer.len() || buffer.len() - n < BUF_OFFSET {
        return text;
    }
    let mut i: usize = 0;
    while i < n
        invariant
            i <= n,
            n <= BUF_SIZE,
            BUF_OFFSET + n <= buffer@.len(),
            text@ == buffer@.subrange(BUF_OFFSET as int, BUF_OFFSET + i),
        decreases n - i,
    {
        text.push(buffer[BUF_OFFSET + i]);
        i = i + 1;
        assert(text@ =~= buffer@.subrange(BUF_OFFSET as int, BUF_OFFSET + i));
    }
    text
}

/// A bus read of the ISViewer window: the big-endian word at the address
/// taken modulo 64 KiB, or 0 where that word is not wholly inside the buffer.
pub fn read_mem(device: &Device, address: u64) -> (r: u32)
    ensures
        r == word_at(device.cart.is_viewer_buffer@, window_offset(address)),
{
    let offset = window_offset_exec(address);
    read_u32_be_at(device.cart.is_viewer_buffer.as_slice(), offset)
}

/// A bus write to the ISViewer window (see `buffer_after_write`). A write to
/// the length register also returns the text that the host is to print for
/// the length value it leaves.
pub fn write_mem(device: &mut Device, address: u64, value: u32, mask: u32) -> (text: Option<Vec<u8>>)
    ensures
        final(device).cart.is_viewer_buffer@ == buffer_after_write(
            old(device).cart.is_viewer_buffer@,
            address,
            value,
            mask,
        ),
        final(device).ri == old(device).ri,
        final(device).rdram == old(device).rdram,
        final(device).pif == old(device).pif,
        final(device).si == old(device).si,
        text is Some <==> window_offset(address) == WRITE_LEN_OFFSET,
        text matches Some(t) ==> t@ == flushed_text(
            final(device).cart.is_viewer_buffer@,
            length_after_write(
                old(device).cart.is_viewer_buffer@,
                final(device).cart.is_viewer_buffer@,
                value,
                mask,
            ) as int,
        ),
{
    let offset = window_offset_exec(address);
    let length;
    if is_right_aligned_byte_store_exec(value, mask) {
        let len = device.cart.is_viewer_buffer.len();
        if offset <= len && len - offset >= 4 {
            device.cart.is_viewer_buffer.set(offset, value as u8);
        }
        assert(device.cart.is_viewer_buffer@ =~= buffer_after_write(
            old(device).cart.is_viewer_buffer@,
            address,
            value,
            mask,
        ));
        length = read_u32_be_at(device.cart.is_viewer_buffer.as_slice(), WRITE_LEN_OFFSET);
    } else {
        let mut data = read_u32_be_at(device.cart.is_viewer_buffer.as_slice(), offset);
        masked_write_32(&mut data, value, mask);
        write_u32_be_at(device.cart.is_viewer_buffer.as_mut_slice(), offset, data);
        length = data;
    }
    if offset == WRITE_LEN_OFFSET {
        Some(text_buffer_slice(device.cart.is_viewer_buffer.as_slice(), length as usize))
    } else {
        None
    }
}

/// A bus read after a bus write (other than a right-aligned byte store) to
/// the same ISViewer address returns the written value merged under the
/// mask into what was there; where that word
/// is not wholly inside the buffer, the write changes nothing and the read
/// returns 0.
pub proof fn lemma_write_then_read(buffer: Seq<u8>, address: u64, value: u32, mask: u32)
    requires
        !is_right_aligned_byte_store(value, mask),
    ensures
        word_in_range(buffer.len() as int, window_offset(address)) ==> word_at(
            buffer_after_write(buffer, address, value, mask),
            window_offset(address),
        ) == masked(word_at(buffer, window_offset(address)), value, mask),
        !word_in_range(buffer.len() as int, window_offset(address)) ==> buffer_after_write(
            buffer,
            address,
            value,
            mask,
        ) == buffer && word_at(buffer, window_offset(address)) == 0,
{
    let offset = window_offset(address);
    if word_in_range(buffer.len() as int, offset) {
        lemma_read_after_write(buffer, offset, masked(word_at(buffer, offset), value, mask));
    }
}

/// A bus write (other than a right-aligned byte store) leaves every ISViewer
/// word that it does not overlap as it was.
pub proof fn lemma_bus_write_keeps_other_words(buffer: Seq<u8>, address: u64, value: u32, mask: u32, other: int)
    requires
        !is_right_aligned_byte_store(value, mask),
        other + 4 <= window_offset(address) || window_offset(address) + 4 <= other,
    ensures
        word_at(buffer_after_write(buffer, address, value, mask), other) == word_at(buffer, other),
{
    let offset = window_offset(address);
    lemma_write_keeps_other_words(buffer, offset, masked(word_at(buffer, offset), value, mask), other);
}

/// Whatever the length register holds, at most 512 bytes are printed.
pub proof fn lemma_flushed_text_bounded(buffer: Seq<u8>, length: int)
    requires
        0 <= length,
    ensures
        flushed_text(buffer, length).len() <= BUF_SIZE,
        length <= BUF_SIZE && BUF_OFFSET + length <= buffer.len() ==> flushed_text(buffer, length).len() == length,
{
}

/// After a right-aligned byte store whose word lies inside the buffer, the
/// addressed byte holds the stored byte and every other byte is as it was;
/// where the word does not lie inside the buffer, nothing changes.
pub proof fn lemma_byte_store_then_read(buffer: Seq<u8>, address: u64, value: u32, mask: u32, i: int)
    requires
        is_right_aligned_byte_store(value, mask),
        0 <= i < buffer.len(),
    ensures
        buffer_after_write(buffer, address, value, mask).len() == buffer.len(),
        buffer_after_write(buffer, address, value, mask)[i] == if word_in_range(
            buffer.len() as int,
            window_offset(address),
        ) && i == window_offset(address) {
            value as u8
        } else {
            buffer[i]
        },
{
}

/// The window offset of a bus address is the address modulo 64 KiB: bus
/// address `0x13FF_0000 + k` reaches byte `k` of the window for every
/// `k < 0x1_0000`.
pub proof fn lemma_window_offset_is_address_mod_64k(address: u64)
    ensures
        window_offset(address) == address as int % 0x1_0000,
        0 <= window_offset(address) < 0x1_0000,
        address < 0x1_0000 ==> window_offset(address) == address,
{
    assert(address & 0xFFFF == address % 0x1_0000) by (bit_vector);
}

/// The printed text is the text buffer's bytes, byte for byte: whenever the
/// first `min(length, 512)` bytes from offset 0x20 lie inside the buffer,
/// the text has that many bytes and byte `i` of it is byte `0x20 + i` of the
/// buffer; otherwise nothing is printed.
pub proof fn lemma_flushed_text_is_buffer_bytes(buffer: Seq<u8>, length: int, i: int)
    requires
        0 <= length,
    ensures
        ({
            let n = if length < 512 { length } else { 512 };
            &&& 0x20 + n <= buffer.len() ==> flushed_text(buffer, length).len() == n
            &&& 0x20 + n <= buffer.len() && 0 <= i < n ==> flushed_text(buffer, length)[i] == buffer[0x20 + i]
            &&& 0x20 + n > buffer.len() ==> flushed_text(buffer, length).len() == 0
        }),
{
}

} // verus!
