use n64_device::memory::{masked_write_32, read_u32_be_at, u32_to_be_bytes, write_bytes_at, write_u32_be_at};

#[test]
fn big_endian_word_roundtrip() {
    let mut buf = vec![0u8; 8];
    write_u32_be_at(&mut buf, 2, 0x0102_0304);
    assert_eq!(buf, vec![0, 0, 1, 2, 3, 4, 0, 0]);
    assert_eq!(read_u32_be_at(&buf, 2), 0x0102_0304);
    assert_eq!(read_u32_be_at(&buf, 0), 0x0000_0102);
}

#[test]
fn words_not_wholly_inside_are_ignored() {
    let mut buf = vec![7u8; 6];
    write_u32_be_at(&mut buf, 3, 0xFFFF_FFFF);
    assert_eq!(buf, vec![7u8; 6]);
    assert_eq!(read_u32_be_at(&buf, 3), 0);
    assert_eq!(read_u32_be_at(&buf, usize::MAX), 0);
    write_bytes_at(&mut buf, usize::MAX - 1, [1, 2, 3, 4]);
    assert_eq!(buf, vec![7u8; 6]);
}

#[test]
fn masked_write_keeps_unmasked_bits() {
    let mut r = 0x1234_5678u32;
    masked_write_32(&mut r, 0xFFFF_FFFF, 0x0000_FF00);
    assert_eq!(r, 0x1234_FF78);
    masked_write_32(&mut r, 0xABCD_EF01, 0);
    assert_eq!(r, 0x1234_FF78);
    masked_write_32(&mut r, 0xABCD_EF01, 0xFFFF_FFFF);
    assert_eq!(r, 0xABCD_EF01);
}

#[test]
fn byte_order_helpers() {
    assert_eq!(u32_to_be_bytes(0x0A0B_0C0D), [0x0A, 0x0B, 0x0C, 0x0D]);
}
