use n64_device::device::Device;
use n64_device::is_viewer::{read_mem, text_buffer_slice, write_mem, BUF_OFFSET, BUF_SIZE, WRITE_LEN_OFFSET};
use n64_device::memory::read_u32_be_at;

fn is_viewer_phys(offset: usize) -> u64 {
    0x13FF_0000 + offset as u64
}

#[test]
fn is_viewer_detect_roundtrip() {
    let mut device = Device::new();
    let magic = 0x1234_5678u32;

    write_mem(&mut device, is_viewer_phys(BUF_OFFSET), magic, 0xFFFF_FFFF);
    let readback = read_mem(&device, is_viewer_phys(BUF_OFFSET));
    assert_eq!(readback, magic);
}

#[test]
fn is_viewer_length_write_stores_register() {
    let mut device = Device::new();
    let text = b"pass";
    device.cart.is_viewer_buffer[BUF_OFFSET..BUF_OFFSET + text.len()].copy_from_slice(text);

    let printed = write_mem(
        &mut device,
        is_viewer_phys(WRITE_LEN_OFFSET),
        text.len() as u32,
        0xFFFF_FFFF,
    );

    assert_eq!(
        read_u32_be_at(&device.cart.is_viewer_buffer, WRITE_LEN_OFFSET),
        text.len() as u32
    );
    assert_eq!(printed, Some(b"pass".to_vec()));
}

#[test]
fn is_viewer_length_clamps_to_buffer_size() {
    let mut device = Device::new();
    device.cart.is_viewer_buffer[BUF_OFFSET] = b'x';

    let printed = write_mem(
        &mut device,
        is_viewer_phys(WRITE_LEN_OFFSET),
        BUF_SIZE as u32 + 64,
        0xFFFF_FFFF,
    );

    assert_eq!(
        read_u32_be_at(&device.cart.is_viewer_buffer, WRITE_LEN_OFFSET),
        (BUF_SIZE + 64) as u32
    );
    let printed = printed.unwrap();
    assert_eq!(printed.len(), BUF_SIZE);
    assert_eq!(printed[0], b'x');
}

#[test]
fn is_viewer_read_out_of_range_returns_zero() {
    let device = Device::new();
    let value = read_u32_be_at(&device.cart.is_viewer_buffer, device.cart.is_viewer_buffer.len());
    assert_eq!(value, 0);
}

#[test]
fn is_viewer_byte_write_to_buffer() {
    let mut device = Device::new();

    write_mem(&mut device, is_viewer_phys(BUF_OFFSET + 1), 0x42, 0x0000_FF00);

    assert_eq!(device.cart.is_viewer_buffer[BUF_OFFSET + 1], 0x42);
}

#[test]
fn is_viewer_other_writes_print_nothing() {
    let mut device = Device::new();
    assert_eq!(write_mem(&mut device, is_viewer_phys(BUF_OFFSET), 0x41424344, 0xFFFF_FFFF), None);
    assert_eq!(read_mem(&device, is_viewer_phys(BUF_OFFSET)), 0x41424344);
    assert_eq!(&device.cart.is_viewer_buffer[BUF_OFFSET..BUF_OFFSET + 4], b"ABCD");
}

#[test]
fn is_viewer_masked_write_merges_into_word() {
    let mut device = Device::new();
    write_mem(&mut device, is_viewer_phys(0x40), 0x1122_3344, 0xFFFF_FFFF);
    write_mem(&mut device, is_viewer_phys(0x40), 0xAABB_CCDD, 0x0F0F_0F0F);
    assert_eq!(read_mem(&device, is_viewer_phys(0x40)), 0x1A2B_3C4D);
}

#[test]
fn is_viewer_narrow_mask_merges_into_word() {
    let mut device = Device::new();
    write_mem(&mut device, is_viewer_phys(0x30), 0xAB00_0000, 0xFF00_0000);
    assert_eq!(&device.cart.is_viewer_buffer[0x30..0x34], &[0xAB, 0x00, 0x00, 0x00]);
    write_mem(&mut device, is_viewer_phys(0x30), 0x1234_BEEF, 0x0000_FFFF);
    assert_eq!(read_mem(&device, is_viewer_phys(0x30)), 0xAB00_BEEF);
}

#[test]
fn is_viewer_length_write_with_byte_mask() {
    let mut device = Device::new();
    device.cart.is_viewer_buffer[BUF_OFFSET..BUF_OFFSET + 5].copy_from_slice(b"hello");
    let printed = write_mem(&mut device, is_viewer_phys(WRITE_LEN_OFFSET), 5, 0xFF);
    assert_eq!(read_u32_be_at(&device.cart.is_viewer_buffer, WRITE_LEN_OFFSET), 5);
    assert_eq!(printed, Some(b"hello".to_vec()));
}

#[test]
fn is_viewer_narrow_write_past_end_is_dropped() {
    let mut device = Device::new();
    write_mem(&mut device, is_viewer_phys(0xFFFE), 0xFFFF_FFFF, 0xFF);
    assert_eq!(device.cart.is_viewer_buffer[0xFFFE], 0);
    assert_eq!(device.cart.is_viewer_buffer[0xFFFF], 0);
}

#[test]
fn is_viewer_address_wraps_in_window() {
    let mut device = Device::new();
    write_mem(&mut device, 0x13FE_0040, 0xCAFE_F00D, 0xFFFF_FFFF);
    assert_eq!(read_mem(&device, 0x0000_0040), 0xCAFE_F00D);
}

#[test]
fn is_viewer_word_past_end_reads_zero_and_ignores_write() {
    let mut device = Device::new();
    write_mem(&mut device, is_viewer_phys(0xFFFE), 0xFFFF_FFFF, 0xFFFF_FFFF);
    assert_eq!(read_mem(&device, is_viewer_phys(0xFFFE)), 0);
    assert_eq!(device.cart.is_viewer_buffer[0xFFFE], 0);
    assert_eq!(device.cart.is_viewer_buffer[0xFFFF], 0);
}

#[test]
fn text_buffer_slice_takes_prefix_of_text_buffer() {
    let mut buffer = vec![0u8; 0x400];
    buffer[BUF_OFFSET..BUF_OFFSET + 5].copy_from_slice(b"hello");
    assert_eq!(text_buffer_slice(&buffer, 5), b"hello".to_vec());
    assert_eq!(text_buffer_slice(&buffer, 0), Vec::<u8>::new());
    assert_eq!(text_buffer_slice(&buffer, 10_000).len(), BUF_SIZE);
    let short = vec![0u8; 0x30];
    assert_eq!(text_buffer_slice(&short, 0x20), Vec::<u8>::new());
    assert_eq!(text_buffer_slice(&short, 0x10).len(), 0x10);
}

#[test]
fn is_viewer_right_aligned_byte_store_goes_to_addressed_byte() {
    let mut device = Device::new();
    device.cart.is_viewer_buffer[0x30..0x34].copy_from_slice(&[1, 2, 3, 4]);
    write_mem(&mut device, is_viewer_phys(0x31), 0x43, 0x00FF_0000);
    assert_eq!(&device.cart.is_viewer_buffer[0x30..0x35], &[1, 0x43, 3, 4, 0]);
    // A value with bits in the enabled lane merges under the mask.
    write_mem(&mut device, is_viewer_phys(0x30), 0x0000_5500, 0x0000_FF00);
    assert_eq!(&device.cart.is_viewer_buffer[0x30..0x34], &[1, 0x43, 0x55, 4]);
    // A zero byte merges too: the lane is cleared.
    write_mem(&mut device, is_viewer_phys(0x30), 0, 0x0000_FF00);
    assert_eq!(&device.cart.is_viewer_buffer[0x30..0x34], &[1, 0x43, 0, 4]);
}

#[test]
fn is_viewer_byte_store_whose_word_runs_past_end_is_dropped() {
    let mut device = Device::new();
    write_mem(&mut device, is_viewer_phys(0xFFFE), 0x42, 0x0000_FF00);
    assert_eq!(device.cart.is_viewer_buffer[0xFFFE], 0);
}
