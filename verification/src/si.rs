//! The Serial Interface: its register file and the DMA engine that moves the
//! 64 bytes of PIF RAM to and from RDRAM.
//!
//! PIF RAM is held big-endian; RDRAM is held word by word in the host's byte
//! order, so each 32-bit word changes byte order on the way.

use vstd::prelude::*;
use rand::Rng;
use rand::rngs::Xoshiro256PlusPlus;
use crate::device::{Device, PIF_RAM_SIZE, RDRAM_MASK};
use crate::memory::{
    be_bytes, lemma_be_bytes_roundtrip, lemma_be_roundtrip, lemma_ne_bytes_roundtrip, lemma_ne_roundtrip, masked, masked_write_32, ne_bytes, ne_value, read_u32_be_at, u32_from_ne_bytes, u32_to_be_bytes,
    u32_to_ne_bytes, word_at, write_bytes_at,
};

verus! {

/// Number of SI registers.
pub const SI_REGS_COUNT: usize = 7;
/// SI_DRAM_ADDR: the RDRAM address of the next DMA.
pub const SI_DRAM_ADDR_REG: usize = 0;
/// SI_PIF_ADDR_RD64B: writing it starts a DMA from PIF RAM to RDRAM.
pub const SI_PIF_ADDR_RD64B_REG: usize = 1;
/// SI_PIF_ADDR_WR64B: writing it starts a DMA from RDRAM to PIF RAM.
pub const SI_PIF_ADDR_WR64B_REG: usize = 4;
/// SI_STATUS.
pub const SI_STATUS_REG: usize = 6;

pub const SI_STATUS_DMA_BUSY: u32 = 0x1;
pub const SI_STATUS_IO_BUSY: u32 = 0x2;
pub const SI_STATUS_INTERRUPT: u32 = 0x1000;

/// CPU cycles that every read of an SI register costs, whatever the address.
pub const SI_READ_CYCLES: u64 = 20;

/// Cycles a DMA from RDRAM to PIF RAM takes before the jitter is added.
pub const DMA_WRITE_CYCLES: u64 = 6000;

/// Direction of the SI DMA in flight.
#[derive(Clone, Copy, PartialEq, Eq, Structural, Debug)]
pub enum DmaDir {
    /// No DMA in flight.
    Idle,
    /// RDRAM to PIF RAM.
    Write,
    /// PIF RAM to RDRAM.
    Read,
}

/// SI state: the registers and the direction of the DMA in flight.
#[derive(Clone, Copy)]
pub struct Si {
    pub regs: [u32; SI_REGS_COUNT],
    pub dma_dir: DmaDir,
}

/// What remains to be done, outside the SI, after a write to an SI register.
#[derive(Clone, Copy, PartialEq, Eq, Structural, Debug)]
pub enum SiWriteEffect {
    /// The address names no SI register; nothing was changed.
    UnknownRegister,
    /// SI_STATUS was written: the SI interrupt is acknowledged and the MI's
    /// SI interrupt line is to be cleared.
    ClearInterrupt,
    /// A DMA from PIF RAM to RDRAM was requested and is marked as reading:
    /// PIF RAM is to be brought up to date, then `dma_read` called with the
    /// time that took.
    StartDmaRead,
    /// A DMA from RDRAM to PIF RAM was done: an SI event is to be scheduled
    /// this many cycles ahead.
    ScheduleEvent(u64),
    /// A plain register was written.
    RegisterWritten,
}

/// The outside work that the SI DMA event calls for, to be done before the
/// SI completes the DMA (`dma_event`); raising the MI's SI interrupt line,
/// after it, is always due besides.
#[derive(Clone, Copy, PartialEq, Eq, Structural, Debug)]
pub enum SiEventEffect {
    /// The DMA went to PIF RAM: the PIF is to process its RAM.
    ProcessPifRam,
    /// The DMA goes to RDRAM at this address: framebuffer tracking is to hear
    /// that the 64 bytes there are rewritten.
    RdramWrite(u32),
    /// No DMA was in flight.
    NoDma,
}

/// Where a copy between PIF RAM and RDRAM goes.
#[derive(Clone, Copy, PartialEq, Eq, Structural, Debug)]
pub enum PifRdramCopy {
    /// From RDRAM into PIF RAM.
    ToPif,
    /// From PIF RAM into the 64 bytes of RDRAM at this address, of which
    /// framebuffer tracking is to hear before they are rewritten.
    ToRdram(u32),
    /// No DMA is in flight: nothing is copied.
    NoDma,
}

/// Where the copy for the DMA in flight goes.
pub open spec fn copy_target(si: Si) -> PifRdramCopy {
    match si.dma_dir {
        DmaDir::Write => PifRdramCopy::ToPif,
        DmaDir::Read => PifRdramCopy::ToRdram(dma_dram_addr(si) as u32),
        DmaDir::Idle => PifRdramCopy::NoDma,
    }
}

/// The DMA-busy bit of SI_STATUS is set exactly when a DMA is in flight.
pub open spec fn busy_tracks_dma(si: Si) -> bool {
    (si.regs[SI_STATUS_REG as int] & SI_STATUS_DMA_BUSY != 0) == (si.dma_dir != DmaDir::Idle)
}

/// Index of the SI register that a bus address names (it may be past the
/// last register).
pub open spec fn register_index(address: u64) -> int {
    ((address & 0xFFFF) >> 2) as int
}

/// The RDRAM address at which the next DMA starts.
pub open spec fn dma_dram_addr(si: Si) -> int {
    (si.regs[SI_DRAM_ADDR_REG as int] as int) % 0x100_0000
}

/// Word `k` of the RDRAM window at `addr` as the DMA reads it: the host-order
/// value of its four bytes, or 0 where they are not wholly inside RDRAM.
pub open spec fn rdram_dma_word(mem: Seq<u8>, addr: int, k: int) -> u32 {
    if addr + 4 * k + 4 <= mem.len() {
        ne_value(mem.subrange(addr + 4 * k, addr + 4 * k + 4))
    } else {
        0
    }
}

/// PIF RAM after the first `n` bytes of a DMA from the RDRAM window at
/// `addr`: each word stored big-endian.
pub open spec fn pif_after_write_dma_prefix(pif: Seq<u8>, mem: Seq<u8>, addr: int, n: int) -> Seq<u8> {
    Seq::new(pif.len(), |i: int| if i < n { be_bytes(rdram_dma_word(mem, addr, i / 4))[i % 4] } else { pif[i] })
}

/// PIF RAM after a whole DMA from the RDRAM window at `addr`.
pub open spec fn pif_after_write_dma(pif: Seq<u8>, mem: Seq<u8>, addr: int) -> Seq<u8> {
    pif_after_write_dma_prefix(pif, mem, addr, PIF_RAM_SIZE as int)
}

/// RDRAM after the first `n` bytes of a DMA from PIF RAM to the window at
/// `addr`: each big-endian PIF word stored in host order, where its four
/// bytes lie wholly inside RDRAM.
pub open spec fn rdram_after_read_dma_prefix(mem: Seq<u8>, pif: Seq<u8>, addr: int, n: int) -> Seq<u8> {
    Seq::new(
        mem.len(),
        |j: int|
            if addr <= j < addr + n && addr + 4 * ((j - addr) / 4) + 4 <= mem.len() {
                ne_bytes(word_at(pif, 4 * ((j - addr) / 4)))[(j - addr) % 4]
            } else {
                mem[j]
            },
    )
}

/// RDRAM after a whole DMA from PIF RAM to the window at `addr`.
pub open spec fn rdram_after_read_dma(mem: Seq<u8>, pif: Seq<u8>, addr: int) -> Seq<u8> {
    rdram_after_read_dma_prefix(mem, pif, addr, PIF_RAM_SIZE as int)
}

/// The xoshiro256++ generator of `rand`, whose state Verus does not see.
#[verifier::external_type_specification]
#[verifier::external_body]
pub struct ExXoshiro256PlusPlus(Xoshiro256PlusPlus);

/// `rand::Rng::next_u64` on a xoshiro256++ generator. Nothing is stated of
/// the value, which depends on the generator's hidden state.
#[verifier::external_body]
fn next_u64(rng: &mut Xoshiro256PlusPlus) -> u64 {
    rng.next_u64()
}

/// The delay, under 256 cycles, that a raw 64-bit draw `raw` of the
/// generator gives.
pub fn interrupt_jitter(raw: u64) -> (r: u64)
    ensures
        r == raw % 0x100,
{
    raw % 0x100
}

/// A random delay of less than 256 cycles added to each SI DMA: the
/// generator's next 64-bit draw, modulo 256.
pub fn randomize_interrupt_time(rng: &mut Xoshiro256PlusPlus) -> (r: u64)
    ensures
        r < 0x100,
{
    interrupt_jitter(next_u64(rng))
}

fn register_index_exec(address: u64) -> (r: usize)
    ensures
        r == register_index(address),
{
    assert((address & 0xFFFF) >> 2 <= 0x3FFF) by (bit_vector);
    ((address & 0xFFFF) >> 2) as usize
}

fn dma_dram_addr_exec(si: &Si) -> (r: usize)
    ensures
        r == dma_dram_addr(*si),
        r <= RDRAM_MASK,
{
    let v = si.regs[SI_DRAM_ADDR_REG];
    assert(v & 0xFF_FFFF == v % 0x100_0000 && v & 0xFF_FFFF <= 0xFF_FFFF) by (bit_vector);
    (v & 0xFF_FFFF) as usize
}

/// Word `k` of the RDRAM window at `addr`, as the DMA reads it.
fn read_rdram_dma_word(mem: &Vec<u8>, addr: usize, k: usize) -> (r: u32)
    requires
        addr <= RDRAM_MASK,
        k < PIF_RAM_SIZE,
    ensures
        r == rdram_dma_word(mem@, addr as int, k as int),
{
    let a = addr + 4 * k;
    if a + 4 <= mem.len() {
        let chunk = [mem[a], mem[a + 1], mem[a + 2], mem[a + 3]];
        assert(chunk@ =~= mem@.subrange(a as int, a + 4));
        u32_from_ne_bytes(chunk)
    } else {
        0
    }
}

proof fn lemma_pif_prefix_step(pif0: Seq<u8>, mem: Seq<u8>, addr: int, i: int, pif: Seq<u8>)
    requires
        i % 4 == 0,
        0 <= i,
        i + 4 <= pif0.len(),
        pif.len() == pif0.len(),
        forall|p: int|
            0 <= p < pif.len() ==> #[trigger] pif[p] == if i <= p < i + 4 {
                be_bytes(rdram_dma_word(mem, addr, i / 4))[p - i]
            } else {
                pif_after_write_dma_prefix(pif0, mem, addr, i)[p]
            },
    ensures
        pif =~= pif_after_write_dma_prefix(pif0, mem, addr, i + 4),
{
    assert forall|p: int| 0 <= p < pif.len() implies #[trigger] pif[p] == pif_after_write_dma_prefix(
        pif0,
        mem,
        addr,
        i + 4,
    )[p] by {
        if i <= p < i + 4 {
            assert(p / 4 == i / 4);
            assert(p % 4 == p - i);
        }
    }
}

/// Copies the RDRAM window at `addr` into PIF RAM, word by word.
fn copy_rdram_to_pif(device: &mut Device, addr: usize)
    requires
        addr <= RDRAM_MASK,
    ensures
        final(device).pif.ram@ == pif_after_write_dma(old(device).pif.ram@, old(device).rdram.mem@, addr as int),
        final(device).rdram == old(device).rdram,
        final(device).cart == old(device).cart,
        final(device).ri == old(device).ri,
        final(device).si == old(device).si,
{
    let ghost pif0 = old(device).pif.ram@;
    let ghost mem = old(device).rdram.mem@;
    let mut i: usize = 0;
    while i < PIF_RAM_SIZE
        invariant
            i <= PIF_RAM_SIZE,
            i % 4 == 0,
            addr <= RDRAM_MASK,
            device.rdram.mem@ == mem,
            device.pif.ram@ == pif_after_write_dma_prefix(pif0, mem, addr as int, i as int),
            device.rdram == old(device).rdram,
            device.cart == old(device).cart,
            device.ri == old(device).ri,
            device.si == old(device).si,
        decreases PIF_RAM_SIZE - i,
    {
        let data = read_rdram_dma_word(&device.rdram.mem, addr, i / 4);
        let b = u32_to_be_bytes(data);
        device.pif.ram[i] = b[0];
        device.pif.ram[i + 1] = b[1];
        device.pif.ram[i + 2] = b[2];
        device.pif.ram[i + 3] = b[3];
        proof {
            lemma_pif_prefix_step(pif0, mem, addr as int, i as int, device.pif.ram@);
        }
        i = i + 4;
    }
}

/// Copies PIF RAM into the RDRAM window at `addr`, word by word; a word
/// whose four bytes are not wholly inside RDRAM is dropped.
fn copy_pif_to_rdram(device: &mut Device, addr: usize)
    requires
        addr <= RDRAM_MASK,
    ensures
        final(device).rdram.mem@ == rdram_after_read_dma(old(device).rdram.mem@, old(device).pif.ram@, addr as int),
        final(device).rdram.regs == old(device).rdram.regs,
        final(device).rdram.size == old(device).rdram.size,
        final(device).pif == old(device).pif,
        final(device).cart == old(device).cart,
        final(device).ri == old(device).ri,
        final(device).si == old(device).si,
{
    let ghost pif = old(device).pif.ram@;
    let ghost mem0 = old(device).rdram.mem@;
    let mut i: usize = 0;
    while i < PIF_RAM_SIZE
        invariant
            i <= PIF_RAM_SIZE,
            i % 4 == 0,
            addr <= RDRAM_MASK,
            device.pif.ram@ == pif,
            device.rdram.mem@ == rdram_after_read_dma_prefix(mem0, pif, addr as int, i as int),
            device.rdram.regs == old(device).rdram.regs,
            device.rdram.size == old(device).rdram.size,
            device.pif == old(device).pif,
            device.cart == old(device).cart,
            device.ri == old(device).ri,
            device.si == old(device).si,
        decreases PIF_RAM_SIZE - i,
    {
        let data = read_u32_be_at(&device.pif.ram, i);
        let b = u32_to_ne_bytes(data);
        let ghost before = device.rdram.mem@;
        write_bytes_at(device.rdram.mem.as_mut_slice(), addr + i, b);
        let ghost i0 = i as int;
        i = i + 4;
        assert forall|j: int| 0 <= j < mem0.len() implies #[trigger] device.rdram.mem@[j]
            == rdram_after_read_dma_prefix(mem0, pif, addr as int, i as int)[j] by {
            if addr + i0 <= j < addr + i0 + 4 {
                assert((j - addr) / 4 == i0 / 4);
                assert((j - addr) % 4 == j - addr - i0);
            }
        }
        assert(device.rdram.mem@ =~= rdram_after_read_dma_prefix(mem0, pif, addr as int, i as int));
    }
}

/// Where `copy_pif_rdram` would copy for the DMA in flight, without
/// copying: a copy into RDRAM names the window that framebuffer tracking is
/// to hear of first.
pub fn pif_rdram_copy_target(device: &Device) -> (target: PifRdramCopy)
    ensures
        target == copy_target(device.si),
{
    match device.si.dma_dir {
        DmaDir::Write => PifRdramCopy::ToPif,
        DmaDir::Read => PifRdramCopy::ToRdram(dma_dram_addr_exec(&device.si) as u32),
        DmaDir::Idle => PifRdramCopy::NoDma,
    }
}

/// Moves the 64 bytes between PIF RAM and the RDRAM window at SI_DRAM_ADDR
/// in the direction of the DMA in flight, and returns where they went
/// (`copy_target`); nothing changes when no DMA is in flight. A copy into
/// RDRAM rewrites the window that `pif_rdram_copy_target` names beforehand.
pub fn copy_pif_rdram(device: &mut Device) -> (target: PifRdramCopy)
    ensures
        target == copy_target(old(device).si),
        old(device).si.dma_dir == DmaDir::Write ==> final(device).pif.ram@ == pif_after_write_dma(
            old(device).pif.ram@,
            old(device).rdram.mem@,
            dma_dram_addr(old(device).si),
        ) && final(device).rdram == old(device).rdram,
        old(device).si.dma_dir == DmaDir::Read ==> final(device).rdram.mem@ == rdram_after_read_dma(
            old(device).rdram.mem@,
            old(device).pif.ram@,
            dma_dram_addr(old(device).si),
        ) && final(device).pif == old(device).pif,
        old(device).si.dma_dir == DmaDir::Idle ==> final(device).pif == old(device).pif && final(device).rdram
            == old(device).rdram,
        final(device).rdram.regs == old(device).rdram.regs,
        final(device).rdram.size == old(device).rdram.size,
        final(device).cart == old(device).cart,
        final(device).ri == old(device).ri,
        final(device).si == old(device).si,
{
    let addr = dma_dram_addr_exec(&device.si);
    match device.si.dma_dir {
        DmaDir::Write => {
            copy_rdram_to_pif(device, addr);
            PifRdramCopy::ToPif
        },
        DmaDir::Read => {
            copy_pif_to_rdram(device, addr);
            PifRdramCopy::ToRdram(addr as u32)
        },
        DmaDir::Idle => PifRdramCopy::NoDma,
    }
}

/// A bus read of an SI register; an address past the last register reads 0.
pub fn read_regs(device: &Device, address: u64) -> (r: u32)
    ensures
        r == if register_index(address) < SI_REGS_COUNT {
            device.si.regs[register_index(address)]
        } else {
            0
        },
{
    let reg = register_index_exec(address);
    if reg >= SI_REGS_COUNT {
        return 0;
    }
    device.si.regs[reg]
}

/// Starts a DMA from PIF RAM to RDRAM, once PIF RAM has been brought up to
/// date in `pif_duration` cycles, with completion delayed by `jitter`: marks
/// the DMA in flight and returns after how many cycles it completes.
pub fn dma_read_with_jitter(device: &mut Device, pif_duration: u64, jitter: u64) -> (cycles: u64)
    requires
        jitter < 0x100,
        pif_duration <= u64::MAX - 0xFF,
    ensures
        final(device).si.dma_dir == DmaDir::Read,
        final(device).si.regs@ == old(device).si.regs@.update(
            SI_STATUS_REG as int,
            old(device).si.regs[SI_STATUS_REG as int] | SI_STATUS_DMA_BUSY,
        ),
        busy_tracks_dma(final(device).si),
        cycles == pif_duration + jitter,
        final(device).cart == old(device).cart,
        final(device).ri == old(device).ri,
        final(device).rdram == old(device).rdram,
        final(device).pif == old(device).pif,
{
    device.si.dma_dir = DmaDir::Read;
    let status = device.si.regs[SI_STATUS_REG];
    device.si.regs[SI_STATUS_REG] = status | SI_STATUS_DMA_BUSY;
    assert((status | 1) & 1 != 0) by (bit_vector);
    assert(device.si.regs@ =~= old(device).si.regs@.update(
        SI_STATUS_REG as int,
        old(device).si.regs[SI_STATUS_REG as int] | SI_STATUS_DMA_BUSY,
    ));
    pif_duration + jitter
}

/// Starts a DMA from PIF RAM to RDRAM, once PIF RAM has been brought up to
/// date in `pif_duration` cycles: marks the DMA in flight and returns after
/// how many cycles it completes (`pif_duration` plus a random jitter under
/// 256, see `dma_read_with_jitter`).
pub fn dma_read(device: &mut Device, rng: &mut Xoshiro256PlusPlus, pif_duration: u64) -> (cycles: u64)
    requires
        pif_duration <= u64::MAX - 0xFF,
    ensures
        final(device).si.dma_dir == DmaDir::Read,
        final(device).si.regs@ == old(device).si.regs@.update(
            SI_STATUS_REG as int,
            old(device).si.regs[SI_STATUS_REG as int] | SI_STATUS_DMA_BUSY,
        ),
        busy_tracks_dma(final(device).si),
        pif_duration <= cycles < pif_duration + 0x100,
        final(device).cart == old(device).cart,
        final(device).ri == old(device).ri,
        final(device).rdram == old(device).rdram,
        final(device).pif == old(device).pif,
{
    let jitter = randomize_interrupt_time(rng);
    dma_read_with_jitter(device, pif_duration, jitter)
}

/// Does a DMA from RDRAM to PIF RAM with completion delayed by `jitter`:
/// copies the RDRAM window at SI_DRAM_ADDR into PIF RAM, marks the DMA in
/// flight and returns after how many cycles it completes.
pub fn dma_write_with_jitter(device: &mut Device, jitter: u64) -> (cycles: u64)
    requires
        jitter < 0x100,
    ensures
        final(device).si.dma_dir == DmaDir::Write,
        final(device).si.regs@ == old(device).si.regs@.update(
            SI_STATUS_REG as int,
            old(device).si.regs[SI_STATUS_REG as int] | SI_STATUS_DMA_BUSY,
        ),
        busy_tracks_dma(final(device).si),
        final(device).pif.ram@ == pif_after_write_dma(
            old(device).pif.ram@,
            old(device).rdram.mem@,
            dma_dram_addr(old(device).si),
        ),
        cycles == DMA_WRITE_CYCLES + jitter,
        final(device).cart == old(device).cart,
        final(device).ri == old(device).ri,
        final(device).rdram == old(device).rdram,
{
    device.si.dma_dir = DmaDir::Write;
    copy_pif_rdram(device);
    let status = device.si.regs[SI_STATUS_REG];
    device.si.regs[SI_STATUS_REG] = status | SI_STATUS_DMA_BUSY;
    assert((status | 1) & 1 != 0) by (bit_vector);
    assert(device.si.regs@ =~= old(device).si.regs@.update(
        SI_STATUS_REG as int,
        old(device).si.regs[SI_STATUS_REG as int] | SI_STATUS_DMA_BUSY,
    ));
    DMA_WRITE_CYCLES + jitter
}

/// Does a DMA from RDRAM to PIF RAM: copies the RDRAM window at
/// SI_DRAM_ADDR into PIF RAM, marks the DMA in flight and returns after how
/// many cycles it completes (6000 plus a random jitter under 256, see
/// `dma_write_with_jitter`).
pub fn dma_write(device: &mut Device, rng: &mut Xoshiro256PlusPlus) -> (cycles: u64)
    ensures
        final(device).si.dma_dir == DmaDir::Write,
        final(device).si.regs@ == old(device).si.regs@.update(
            SI_STATUS_REG as int,
            old(device).si.regs[SI_STATUS_REG as int] | SI_STATUS_DMA_BUSY,
        ),
        busy_tracks_dma(final(device).si),
        final(device).pif.ram@ == pif_after_write_dma(
            old(device).pif.ram@,
            old(device).rdram.mem@,
            dma_dram_addr(old(device).si),
        ),
        DMA_WRITE_CYCLES <= cycles < DMA_WRITE_CYCLES + 0x100,
        final(device).cart == old(device).cart,
        final(device).ri == old(device).ri,
        final(device).rdram == old(device).rdram,
{
    let jitter = randomize_interrupt_time(rng);
    dma_write_with_jitter(device, jitter)
}

/// A bus write of `value` under `mask` to an SI register. SI_STATUS
/// acknowledges the SI interrupt; the two PIF address registers start a DMA
/// (their value is not stored); the others take the masked value; an address
/// past the last register changes nothing.
pub fn write_regs(device: &mut Device, rng: &mut Xoshiro256PlusPlus, address: u64, value: u32, mask: u32) -> (effect: SiWriteEffect)
    ensures
        ({
            let reg = register_index(address);
            let regs = old(device).si.regs@;
            if reg >= SI_REGS_COUNT {
                &&& effect == SiWriteEffect::UnknownRegister
                &&& *final(device) == *old(device)
            } else if reg == SI_STATUS_REG {
                &&& effect == SiWriteEffect::ClearInterrupt
                &&& final(device).si.regs@ == regs.update(reg, regs[reg] & !SI_STATUS_INTERRUPT)
                &&& final(device).si.dma_dir == old(device).si.dma_dir
                &&& final(device).pif == old(device).pif
                &&& final(device).rdram == old(device).rdram
            } else if reg == SI_PIF_ADDR_RD64B_REG {
                &&& effect == SiWriteEffect::StartDmaRead
                &&& final(device).si.dma_dir == DmaDir::Read
                &&& final(device).si.regs == old(device).si.regs
                &&& final(device).pif == old(device).pif
                &&& final(device).rdram == old(device).rdram
            } else if reg == SI_PIF_ADDR_WR64B_REG {
                &&& effect matches SiWriteEffect::ScheduleEvent(cycles) && DMA_WRITE_CYCLES <= cycles
                    < DMA_WRITE_CYCLES + 0x100
                &&& final(device).si.dma_dir == DmaDir::Write
                &&& final(device).si.regs@ == regs.update(
                    SI_STATUS_REG as int,
                    regs[SI_STATUS_REG as int] | SI_STATUS_DMA_BUSY,
                )
                &&& final(device).pif.ram@ == pif_after_write_dma(
                    old(device).pif.ram@,
                    old(device).rdram.mem@,
                    dma_dram_addr(old(device).si),
                )
                &&& final(device).rdram == old(device).rdram
            } else {
                &&& effect == SiWriteEffect::RegisterWritten
                &&& final(device).si.regs@ == regs.update(reg, masked(regs[reg], value, mask))
                &&& final(device).si.dma_dir == old(device).si.dma_dir
                &&& final(device).pif == old(device).pif
                &&& final(device).rdram == old(device).rdram
            }
        }),
        busy_tracks_dma(old(device).si) && register_index(address) != SI_PIF_ADDR_RD64B_REG ==> busy_tracks_dma(
            final(device).si,
        ),
        final(device).cart == old(device).cart,
        final(device).ri == old(device).ri,
{
    let reg = register_index_exec(address);
    if reg >= SI_REGS_COUNT {
        return SiWriteEffect::UnknownRegister;
    }
    if reg == SI_STATUS_REG {
        let status = device.si.regs[reg];
        assert((status & !0x1000u32) & 1 == status & 1) by (bit_vector);
        device.si.regs[reg] = status & !SI_STATUS_INTERRUPT;
        assert(device.si.regs@ =~= old(device).si.regs@.update(
            reg as int,
            old(device).si.regs@[reg as int] & !SI_STATUS_INTERRUPT,
        ));
        SiWriteEffect::ClearInterrupt
    } else if reg == SI_PIF_ADDR_RD64B_REG {
        device.si.dma_dir = DmaDir::Read;
        SiWriteEffect::StartDmaRead
    } else if reg == SI_PIF_ADDR_WR64B_REG {
        SiWriteEffect::ScheduleEvent(dma_write(device, rng))
    } else {
        let mut r = device.si.regs[reg];
        masked_write_32(&mut r, value, mask);
        device.si.regs[reg] = r;
        assert(device.si.regs@ =~= old(device).si.regs@.update(
            reg as int,
            masked(old(device).si.regs@[reg as int], value, mask),
        ));
        SiWriteEffect::RegisterWritten
    }
}

/// The outside work that the SI DMA event calls for, given the DMA in
/// flight; it is to be done before `dma_event`, which reports the same.
pub fn dma_event_work(device: &Device) -> (work: SiEventEffect)
    ensures
        device.si.dma_dir == DmaDir::Write ==> work == SiEventEffect::ProcessPifRam,
        device.si.dma_dir == DmaDir::Read ==> work == SiEventEffect::RdramWrite(
            dma_dram_addr(device.si) as u32,
        ),
        device.si.dma_dir == DmaDir::Idle ==> work == SiEventEffect::NoDma,
{
    match device.si.dma_dir {
        DmaDir::Write => SiEventEffect::ProcessPifRam,
        DmaDir::Read => SiEventEffect::RdramWrite(dma_dram_addr_exec(&device.si) as u32),
        DmaDir::Idle => SiEventEffect::NoDma,
    }
}

/// The SI DMA completes: a DMA to RDRAM copies PIF RAM there, the DMA is no
/// longer in flight, the busy bits clear and the SI interrupt bit is set.
/// The returned effect says what outside work the direction calls for.
pub fn dma_event(device: &mut Device) -> (effect: SiEventEffect)
    ensures
        final(device).si.dma_dir == DmaDir::Idle,
        final(device).si.regs@ == old(device).si.regs@.update(
            SI_STATUS_REG as int,
            (old(device).si.regs[SI_STATUS_REG as int] & !(SI_STATUS_DMA_BUSY | SI_STATUS_IO_BUSY))
                | SI_STATUS_INTERRUPT,
        ),
        busy_tracks_dma(final(device).si),
        old(device).si.dma_dir == DmaDir::Write ==> effect == SiEventEffect::ProcessPifRam
            && final(device).rdram == old(device).rdram,
        old(device).si.dma_dir == DmaDir::Read ==> effect == SiEventEffect::RdramWrite(
            dma_dram_addr(old(device).si) as u32,
        ) && final(device).rdram.mem@ == rdram_after_read_dma(
            old(device).rdram.mem@,
            old(device).pif.ram@,
            dma_dram_addr(old(device).si),
        ),
        old(device).si.dma_dir == DmaDir::Idle ==> effect == SiEventEffect::NoDma && final(device).rdram
            == old(device).rdram,
        final(device).rdram.regs == old(device).rdram.regs,
        final(device).rdram.size == old(device).rdram.size,
        final(device).pif == old(device).pif,
        final(device).cart == old(device).cart,
        final(device).ri == old(device).ri,
{
    let addr = dma_dram_addr_exec(&device.si);
    let effect = match device.si.dma_dir {
        DmaDir::Write => SiEventEffect::ProcessPifRam,
        DmaDir::Read => {
            copy_pif_to_rdram(device, addr);
            SiEventEffect::RdramWrite(addr as u32)
        },
        DmaDir::Idle => SiEventEffect::NoDma,
    };
    device.si.dma_dir = DmaDir::Idle;
    let status = device.si.regs[SI_STATUS_REG];
    assert(((status & !(SI_STATUS_DMA_BUSY | SI_STATUS_IO_BUSY)) | SI_STATUS_INTERRUPT) & SI_STATUS_DMA_BUSY
        == 0) by (bit_vector);
    device.si.regs[SI_STATUS_REG] = device.si.regs[SI_STATUS_REG] & !(SI_STATUS_DMA_BUSY | SI_STATUS_IO_BUSY);
    device.si.regs[SI_STATUS_REG] = device.si.regs[SI_STATUS_REG] | SI_STATUS_INTERRUPT;
    assert(device.si.regs@ =~= old(device).si.regs@.update(
        SI_STATUS_REG as int,
        (old(device).si.regs[SI_STATUS_REG as int] & !(SI_STATUS_DMA_BUSY | SI_STATUS_IO_BUSY))
            | SI_STATUS_INTERRUPT,
    ));
    effect
}

/// A DMA from RDRAM to PIF RAM followed by a DMA from PIF RAM back to the
/// same RDRAM window leaves RDRAM as it was.
pub proof fn lemma_dma_write_then_read_restores_rdram(pif: Seq<u8>, mem: Seq<u8>, addr: int)
    requires
        pif.len() == PIF_RAM_SIZE,
        0 <= addr,
    ensures
        rdram_after_read_dma(mem, pif_after_write_dma(pif, mem, addr), addr) == mem,
{
    let pif2 = pif_after_write_dma(pif, mem, addr);
    let out = rdram_after_read_dma(mem, pif2, addr);
    assert forall|j: int| 0 <= j < mem.len() implies #[trigger] out[j] == mem[j] by {
        if addr <= j < addr + PIF_RAM_SIZE && addr + 4 * ((j - addr) / 4) + 4 <= mem.len() {
            let k = (j - addr) / 4;
            let q = (j - addr) % 4;
            assert(0 <= k < 16);
            let chunk = mem.subrange(addr + 4 * k, addr + 4 * k + 4);
            assert(pif2.subrange(4 * k, 4 * k + 4) =~= be_bytes(rdram_dma_word(mem, addr, k))) by {
                assert forall|p: int| 0 <= p < 4 implies #[trigger] pif2[4 * k + p] == be_bytes(
                    rdram_dma_word(mem, addr, k),
                )[p] by {
                    assert((4 * k + p) / 4 == k);
                    assert((4 * k + p) % 4 == p);
                }
            }
            lemma_be_roundtrip(rdram_dma_word(mem, addr, k));
            assert(word_at(pif2, 4 * k) == ne_value(chunk));
            lemma_ne_bytes_roundtrip(chunk);
            assert(j == addr + 4 * k + q);
        }
    }
    assert(out =~= mem);
}

/// A DMA from PIF RAM to an RDRAM window that lies wholly inside RDRAM,
/// followed by a DMA from that window back to PIF RAM, leaves PIF RAM as it
/// was.
pub proof fn lemma_dma_read_then_write_restores_pif(pif: Seq<u8>, mem: Seq<u8>, addr: int)
    requires
        pif.len() == PIF_RAM_SIZE,
        0 <= addr,
        addr + PIF_RAM_SIZE <= mem.len(),
    ensures
        pif_after_write_dma(pif, rdram_after_read_dma(mem, pif, addr), addr) == pif,
{
    let mem2 = rdram_after_read_dma(mem, pif, addr);
    let out = pif_after_write_dma(pif, mem2, addr);
    assert forall|i: int| 0 <= i < PIF_RAM_SIZE implies #[trigger] out[i] == pif[i] by {
        let k = i / 4;
        let q = i % 4;
        let w = word_at(pif, 4 * k);
        assert(mem2.subrange(addr + 4 * k, addr + 4 * k + 4) =~= ne_bytes(w)) by {
            assert forall|p: int| 0 <= p < 4 implies #[trigger] mem2[addr + 4 * k + p] == ne_bytes(w)[p] by {
                assert((4 * k + p) / 4 == k);
                assert((4 * k + p) % 4 == p);
            }
        }
        lemma_ne_roundtrip(w);
        assert(rdram_dma_word(mem2, addr, k) == w);
        lemma_be_bytes_roundtrip(pif.subrange(4 * k, 4 * k + 4));
        assert(i == 4 * k + q);
    }
    assert(out =~= pif);
}

} // verus!
