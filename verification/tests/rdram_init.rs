use n64_device::device::{Device, Rdram, RI_CONFIG_REG, RI_MODE_REG, RI_REFRESH_REG, RI_SELECT_REG};
use n64_device::rdram_init::{
    bit, bits, bitswap5, init_registers, num_rdram_banks, rdram_mode_value, rdram_reg_delay_make,
    rdram_reg_device_id_make, rdram_reg_mode_cc, rdram_reg_rasinterval_make, ri_refresh_value, rot16,
    write_memory_size_markers, DEFAULT_CURRENT_CALIBRATION, INITID, MEMORY_SIZE_MARKER_OFFSETS,
};

#[test]
fn rdram_reg_mode_cc_scrambles_calibration_nibble() {
    assert_ne!(rdram_reg_mode_cc(0x18), rdram_reg_mode_cc(0x20));
}

#[test]
fn rdram_reg_delay_make_rotates() {
    let delay = rot16(rdram_reg_delay_make(5, 7, 3, 1));
    assert_eq!(delay, 0x1808_2838);
}

#[test]
fn rdram_reg_device_id_make_initid() {
    assert_eq!(rdram_reg_device_id_make(INITID), 0x7C00_0000);
    assert_eq!(rdram_reg_device_id_make(0), 0);
    assert_eq!(rdram_reg_device_id_make(2), 0x0800_0000);
}

#[test]
fn rdram_mode_value_uses_default_calibration() {
    let mode = rdram_mode_value(DEFAULT_CURRENT_CALIBRATION);
    assert_ne!(mode & rdram_reg_mode_cc(DEFAULT_CURRENT_CALIBRATION), 0);
}

#[test]
fn ri_refresh_value_for_two_and_four_banks() {
    let two_banks = ri_refresh_value(2);
    assert_eq!(two_banks & 0xFF, 52);
    assert_eq!((two_banks >> 8) & 0xFF, 54);
    assert_eq!((two_banks >> 19) & 0xF, 3);

    let four_banks = ri_refresh_value(4);
    assert_eq!((four_banks >> 19) & 0xF, 15);
}

#[test]
fn rdram_reg_rasinterval_make_encodes_rows() {
    let value = rdram_reg_rasinterval_make(1, 7, 10, 4);
    assert_eq!(value, 0x101C_0A04);
}

#[test]
fn write_memory_size_markers_stores_size_at_ipl3_offsets() {
    let mut mem = vec![0u8; 0x400];
    write_memory_size_markers(&mut mem, 0x800000);
    for offset in MEMORY_SIZE_MARKER_OFFSETS {
        assert_eq!(
            u32::from_ne_bytes(mem[offset..offset + 4].try_into().unwrap()),
            0x800000
        );
    }
}

#[test]
fn init_registers_configures_8mb_expansion_pak() {
    let mut device = Device::new();
    init_registers(&mut device);

    assert_eq!(device.ri.regs[RI_CONFIG_REG], 0x40);
    assert_eq!(device.ri.regs[RI_SELECT_REG], 0x14);
    assert_eq!(device.ri.regs[RI_MODE_REG], 0x0E);
    assert!(device.ri.ram_init);
    assert_eq!(device.rdram.regs[0][1], rdram_reg_device_id_make(0));
    assert_eq!(device.rdram.regs[3][1], rdram_reg_device_id_make(6));

    for offset in MEMORY_SIZE_MARKER_OFFSETS {
        assert_eq!(
            u32::from_ne_bytes(device.rdram.mem[offset..offset + 4].try_into().unwrap()),
            device.rdram.size
        );
    }
}

#[test]
fn init_registers_exact_values_for_8mb() {
    let mut device = Device::new();
    init_registers(&mut device);
    assert_eq!(device.ri.regs[RI_REFRESH_REG], 0x7E_3634);
    for chip in 0..4 {
        assert_eq!(device.rdram.regs[chip][2], 0x1808_2838);
        assert_eq!(device.rdram.regs[chip][3], 0x46C0_4040);
        assert_eq!(device.rdram.regs[chip][5], 0);
        assert_eq!(device.rdram.regs[chip][6], 0x101C_0A04);
        assert_eq!(device.rdram.regs[chip][1], rdram_reg_device_id_make(2 * chip as u32));
        assert_eq!(device.rdram.regs[chip][0], 0);
    }
}

#[test]
fn init_registers_with_4mb_leaves_upper_chips_at_initid() {
    let mut device = Device::new();
    device.rdram = Rdram::new(0x40_0000);
    device.rdram.regs[2][0] = 0x55;
    init_registers(&mut device);
    assert_eq!(device.ri.regs[RI_REFRESH_REG], 0x1E_3634);
    assert_eq!(device.rdram.regs[0][1], 0);
    assert_eq!(device.rdram.regs[1][1], 0x0800_0000);
    assert_eq!(device.rdram.regs[2][1], 0x7C00_0000);
    assert_eq!(device.rdram.regs[3][1], 0x7C00_0000);
    assert_eq!(device.rdram.regs[2][0], 0x55);
    assert_eq!(u32::from_ne_bytes(device.rdram.mem[0x318..0x31C].try_into().unwrap()), 0x40_0000);
}

#[test]
fn init_registers_twice_is_the_same_as_once() {
    let mut once = Device::new();
    init_registers(&mut once);
    let mut twice = Device::new();
    init_registers(&mut twice);
    init_registers(&mut twice);
    assert_eq!(once.ri.regs, twice.ri.regs);
    assert_eq!(once.rdram.regs, twice.rdram.regs);
    assert!(once.rdram.mem == twice.rdram.mem);
}

#[test]
fn size_markers_skip_offsets_past_the_end() {
    let mut mem = vec![0xAAu8; 0x3F2];
    write_memory_size_markers(&mut mem, 0x1234_5678);
    assert_eq!(u32::from_ne_bytes(mem[0x318..0x31C].try_into().unwrap()), 0x1234_5678);
    assert!(mem[0x3F0..].iter().all(|&b| b == 0xAA));
}

#[test]
fn bit_helpers() {
    assert_eq!(bit(0b1010, 1), 1);
    assert_eq!(bit(0b1010, 2), 0);
    assert_eq!(bits(0xABCD, 4, 11), 0xBC);
    assert_eq!(bits(0xFFFF_FFFF, 20, 40), 0xFFF);
    assert_eq!(bitswap5(0b00001), 0b10000);
    assert_eq!(bitswap5(0b10110), 0b01101);
    assert_eq!(bitswap5(0xFFFF_FFE0), 0);
    assert_eq!(rot16(0x1234_5678), 0x5678_1234);
    assert_eq!(rot16(rot16(0xDEAD_BEEF)), 0xDEAD_BEEF);
}

#[test]
fn mode_and_bank_values() {
    assert_eq!(rdram_reg_mode_cc(0x3F), 0);
    assert_eq!(rdram_reg_mode_cc(0x00), 0x00C0_C0C0);
    assert_eq!(rdram_reg_mode_cc(0x18), rdram_reg_mode_cc(0x58));
    assert_eq!(rdram_mode_value(DEFAULT_CURRENT_CALIBRATION), 0x46C0_4040);
    assert_eq!(num_rdram_banks(0x80_0000), 4);
    assert_eq!(num_rdram_banks(0x7F_FFFF), 2);
    assert_eq!(ri_refresh_value(0), 0x6_3634);
    assert_eq!(rdram_reg_delay_make(0xFF, 0xFF, 0xFF, 0xFF), 0x3838_1838);
    assert_eq!(rdram_reg_device_id_make(0xFFFF), 0xFC80_FF80);
}
