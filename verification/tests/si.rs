use n64_device::device::Device;
use n64_device::si::{
    copy_pif_rdram, dma_event, dma_event_work, dma_read, dma_read_with_jitter, dma_write_with_jitter, interrupt_jitter,
    pif_rdram_copy_target, PifRdramCopy, SI_READ_CYCLES, dma_write, randomize_interrupt_time, read_regs, write_regs, DmaDir,
    SiEventEffect, SiWriteEffect, SI_DRAM_ADDR_REG, SI_STATUS_DMA_BUSY, SI_STATUS_INTERRUPT, SI_STATUS_IO_BUSY,
    SI_STATUS_REG,
};
use rand::rngs::Xoshiro256PlusPlus;
use rand::SeedableRng;

fn rng() -> Xoshiro256PlusPlus {
    Xoshiro256PlusPlus::seed_from_u64(7)
}

fn ne(bytes: &[u8]) -> u32 {
    u32::from_ne_bytes(bytes.try_into().unwrap())
}

#[test]
fn unknown_si_register_read_returns_zero() {
    let device = Device::new();
    let value = read_regs(&device, 0x0480_0100);
    assert_eq!(value, 0);
}

#[test]
fn unknown_si_register_write_is_ignored() {
    let mut device = Device::new();
    let mut rng = rng();
    device.si.regs[0] = 0x1234_5678;
    let effect = write_regs(&mut device, &mut rng, 0x0480_0100, 0xDEAD_BEEF, 0xFFFF_FFFF);
    assert_eq!(device.si.regs[0], 0x1234_5678);
    assert_eq!(effect, SiWriteEffect::UnknownRegister);
}

#[test]
fn si_register_write_and_read() {
    let mut device = Device::new();
    let mut rng = rng();
    let effect = write_regs(&mut device, &mut rng, 0x0480_0000, 0x0012_3456, 0xFFFF_FFFF);
    assert_eq!(effect, SiWriteEffect::RegisterWritten);
    assert_eq!(read_regs(&device, 0x0480_0000), 0x0012_3456);
    write_regs(&mut device, &mut rng, 0x0480_0000, 0xFFFF_FFFF, 0x0000_00FF);
    assert_eq!(read_regs(&device, 0x0480_0000), 0x0012_34FF);
}

#[test]
fn si_status_write_acknowledges_interrupt_only() {
    let mut device = Device::new();
    let mut rng = rng();
    device.si.regs[SI_STATUS_REG] = SI_STATUS_INTERRUPT | SI_STATUS_DMA_BUSY;
    let effect = write_regs(&mut device, &mut rng, 0x0480_0018, 0xFFFF_FFFF, 0xFFFF_FFFF);
    assert_eq!(effect, SiWriteEffect::ClearInterrupt);
    assert_eq!(device.si.regs[SI_STATUS_REG], SI_STATUS_DMA_BUSY);
}

#[test]
fn si_dma_write_copies_rdram_words_to_pif_big_endian() {
    let mut device = Device::new();
    let mut rng = rng();
    for k in 0..16u32 {
        let off = 0x1000 + 4 * k as usize;
        device.rdram.mem[off..off + 4].copy_from_slice(&(0x0102_0304 * (k + 1)).to_ne_bytes());
    }
    device.si.regs[SI_DRAM_ADDR_REG] = 0x1000;
    let effect = write_regs(&mut device, &mut rng, 0x0480_0010, 0, 0xFFFF_FFFF);
    match effect {
        SiWriteEffect::ScheduleEvent(cycles) => assert!((6000..6256).contains(&cycles)),
        other => panic!("unexpected effect {:?}", other),
    }
    assert_eq!(device.si.dma_dir, DmaDir::Write);
    assert_eq!(device.si.regs[SI_STATUS_REG] & SI_STATUS_DMA_BUSY, SI_STATUS_DMA_BUSY);
    for k in 0..16u32 {
        let i = 4 * k as usize;
        assert_eq!(u32::from_be_bytes(device.pif.ram[i..i + 4].try_into().unwrap()), 0x0102_0304 * (k + 1));
    }
    assert_eq!(dma_event(&mut device), SiEventEffect::ProcessPifRam);
    assert_eq!(device.si.dma_dir, DmaDir::Idle);
    assert_eq!(device.si.regs[SI_STATUS_REG], SI_STATUS_INTERRUPT);
}

#[test]
fn si_dma_read_copies_pif_to_rdram_in_host_order() {
    let mut device = Device::new();
    let mut rng = rng();
    for i in 0..64 {
        device.pif.ram[i] = i as u8;
    }
    device.si.regs[SI_DRAM_ADDR_REG] = 0x0100_2000; // taken modulo 16 MiB
    assert_eq!(write_regs(&mut device, &mut rng, 0x0480_0004, 0, 0xFFFF_FFFF), SiWriteEffect::StartDmaRead);
    assert_eq!(device.si.dma_dir, DmaDir::Read);
    assert_eq!(device.si.regs[SI_STATUS_REG], 0);
    let cycles = dma_read(&mut device, &mut rng, 1000);
    assert!((1000..1256).contains(&cycles));
    assert_eq!(device.si.dma_dir, DmaDir::Read);
    device.si.regs[SI_STATUS_REG] |= SI_STATUS_IO_BUSY;
    assert_eq!(dma_event_work(&device), SiEventEffect::RdramWrite(0x2000));
    assert_eq!(dma_event(&mut device), SiEventEffect::RdramWrite(0x2000));
    for k in 0..16usize {
        let expected = u32::from_be_bytes(device.pif.ram[4 * k..4 * k + 4].try_into().unwrap());
        assert_eq!(ne(&device.rdram.mem[0x2000 + 4 * k..0x2000 + 4 * k + 4]), expected);
    }
    assert_eq!(device.rdram.mem[0x2040], 0);
    assert_eq!(device.si.regs[SI_STATUS_REG], SI_STATUS_INTERRUPT);
    assert_eq!(device.si.dma_dir, DmaDir::Idle);
}

#[test]
fn si_dma_roundtrip_restores_rdram() {
    let mut device = Device::new();
    let mut rng = rng();
    for i in 0..64 {
        device.rdram.mem[0x300 + i] = (i as u8).wrapping_mul(37);
    }
    let before = device.rdram.mem[0x300..0x340].to_vec();
    device.si.regs[SI_DRAM_ADDR_REG] = 0x300;
    dma_write(&mut device, &mut rng);
    device.rdram.mem[0x300..0x340].fill(0);
    device.si.dma_dir = DmaDir::Read;
    assert_eq!(pif_rdram_copy_target(&device), PifRdramCopy::ToRdram(0x300));
    assert_eq!(copy_pif_rdram(&mut device), PifRdramCopy::ToRdram(0x300));
    assert_eq!(&device.rdram.mem[0x300..0x340], &before[..]);
}

#[test]
fn si_dma_past_end_of_rdram() {
    let mut device = Device::new();
    let mut rng = rng();
    device.si.regs[SI_DRAM_ADDR_REG] = 0x7F_FFF8;
    device.rdram.mem[0x7F_FFF8..0x7F_FFFC].copy_from_slice(&0xAABB_CCDDu32.to_ne_bytes());
    device.pif.ram = [0x11; 64];
    dma_write(&mut device, &mut rng);
    assert_eq!(&device.pif.ram[8..64], &[0u8; 56][..]);
    assert_eq!(&device.pif.ram[0..4], &[0xAA, 0xBB, 0xCC, 0xDD]);
}

#[test]
fn si_dma_event_without_dma() {
    let mut device = Device::new();
    device.pif.ram[0] = 9;
    assert_eq!(dma_event(&mut device), SiEventEffect::NoDma);
    assert_eq!(copy_pif_rdram(&mut device), PifRdramCopy::NoDma);
    assert_eq!(device.si.regs[SI_STATUS_REG], SI_STATUS_INTERRUPT);
    assert_eq!(device.pif.ram[0], 9);
}

#[test]
fn interrupt_time_is_below_256() {
    let mut rng = rng();
    for _ in 0..1000 {
        assert!(randomize_interrupt_time(&mut rng) < 0x100);
    }
}

#[test]
fn interrupt_jitter_is_draw_modulo_256() {
    assert_eq!(interrupt_jitter(0), 0);
    assert_eq!(interrupt_jitter(0x1234_5678_9ABC_DEF0), 0xF0);
    assert_eq!(interrupt_jitter(u64::MAX), 0xFF);
    assert_eq!(SI_READ_CYCLES, 20);
}

#[test]
fn dma_event_work_names_the_due_work() {
    let mut device = Device::new();
    assert_eq!(dma_event_work(&device), SiEventEffect::NoDma);
    device.si.dma_dir = DmaDir::Write;
    assert_eq!(dma_event_work(&device), SiEventEffect::ProcessPifRam);
    device.si.dma_dir = DmaDir::Read;
    device.si.regs[SI_DRAM_ADDR_REG] = 0xFF12_3450;
    assert_eq!(dma_event_work(&device), SiEventEffect::RdramWrite(0x12_3450));
}

#[test]
fn dma_cycles_with_given_jitter() {
    let mut device = Device::new();
    assert_eq!(dma_read_with_jitter(&mut device, 1000, 0x7F), 1000 + 0x7F);
    assert_eq!(device.si.dma_dir, DmaDir::Read);
    assert_eq!(device.si.regs[SI_STATUS_REG], SI_STATUS_DMA_BUSY);
    let mut device = Device::new();
    assert_eq!(dma_write_with_jitter(&mut device, 0xFF), 6000 + 0xFF);
    assert_eq!(device.si.dma_dir, DmaDir::Write);
    assert_eq!(pif_rdram_copy_target(&device), PifRdramCopy::ToPif);
}
