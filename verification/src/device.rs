//! The parts of the machine state that the device models here read and write.

use vstd::prelude::*;
use crate::si::{DmaDir, Si, SI_REGS_COUNT};

verus! {

/// Number of RI (RDRAM interface) registers.
pub const RI_REGS_COUNT: usize = 8;
/// RI_MODE: operating mode of the RDRAM interface.
pub const RI_MODE_REG: usize = 0;
/// RI_CONFIG: current-control configuration.
pub const RI_CONFIG_REG: usize = 1;
/// RI_CURRENT_LOAD: writing it applies the current-control setting.
pub const RI_CURRENT_LOAD_REG: usize = 2;
/// RI_SELECT: receive/transmit select.
pub const RI_SELECT_REG: usize = 3;
/// RI_REFRESH: refresh control.
pub const RI_REFRESH_REG: usize = 4;
/// RI_LATENCY.
pub const RI_LATENCY_REG: usize = 5;
/// RI_RERROR.
pub const RI_RERROR_REG: usize = 6;
/// RI_WERROR.
pub const RI_WERROR_REG: usize = 7;

/// Number of registers of each RDRAM chip.
pub const RDRAM_REGS_COUNT: usize = 10;
/// Number of RDRAM chips whose registers are modelled (4 MiB base RAM plus
/// the 4 MiB expansion pak, 2 MiB each).
pub const RDRAM_CHIPS: usize = 4;
/// Size of RDRAM with the expansion pak installed.
pub const RDRAM_SIZE_EXPANDED: u32 = 0x80_0000;
/// The SI DMA engine sees RDRAM addresses modulo 16 MiB.
pub const RDRAM_MASK: usize = 0xFF_FFFF;

/// Size of PIF RAM.
pub const PIF_RAM_SIZE: usize = 64;

/// Size of the cartridge-side ISViewer window (addresses are taken modulo it).
pub const IS_VIEWER_SIZE: usize = 0x1_0000;

/// Cartridge-side state: the ISViewer buffer.
pub struct Cart {
    pub is_viewer_buffer: Vec<u8>,
}

/// The RDRAM interface registers.
pub struct Ri {
    pub regs: [u32; RI_REGS_COUNT],
    /// Set once RDRAM has been initialised.
    pub ram_init: bool,
}

/// RDRAM: the chip register files, the memory itself (held in the host's
/// byte order, word by word) and its installed size.
pub struct Rdram {
    pub regs: [[u32; RDRAM_REGS_COUNT]; RDRAM_CHIPS],
    pub mem: Vec<u8>,
    pub size: u32,
}

/// PIF RAM, held big-endian.
pub struct Pif {
    pub ram: [u8; PIF_RAM_SIZE],
}

/// The device state that the ISViewer, RDRAM-init and SI models touch.
pub struct Device {
    pub cart: Cart,
    pub ri: Ri,
    pub rdram: Rdram,
    pub pif: Pif,
    pub si: Si,
}

/// A byte sequence of `n` zeros.
pub open spec fn zeros(n: nat) -> Seq<u8> {
    Seq::new(n, |i: int| 0u8)
}

/// A vector of `n` zero bytes.
pub fn zeroed_bytes(n: usize) -> (v: Vec<u8>)
    ensures
        v@ == zeros(n as nat),
{
    let mut v: Vec<u8> = Vec::new();
    let mut i: usize = 0;
    while i < n
        invariant
            i <= n,
            v@ == zeros(i as nat),
        decreases n - i,
    {
        v.push(0);
        i = i + 1;
        assert(v@ =~= zeros(i as nat));
    }
    v
}

impl Rdram {
    /// RDRAM of `size` bytes, zero-filled, with all chip registers zero.
    pub fn new(size: u32) -> (r: Rdram)
        ensures
            r.size == size,
            r.mem@ == zeros(size as nat),
            forall|c: int, k: int|
                0 <= c < RDRAM_CHIPS && 0 <= k < RDRAM_REGS_COUNT ==> #[trigger] r.regs[c][k] == 0,
    {
        let r = Rdram { regs: [[0u32; RDRAM_REGS_COUNT]; RDRAM_CHIPS], mem: zeroed_bytes(size as usize), size };
        r
    }
}

impl Device {
    /// A powered-on device with an 8 MiB (expansion pak) RDRAM, every buffer
    /// and register zero, RDRAM not yet initialised and no SI DMA pending.
    pub fn new() -> (d: Device)
        ensures
            d.cart.is_viewer_buffer@ == zeros(IS_VIEWER_SIZE as nat),
            forall|k: int| 0 <= k < RI_REGS_COUNT ==> #[trigger] d.ri.regs[k] == 0,
            !d.ri.ram_init,
            d.rdram.size == RDRAM_SIZE_EXPANDED,
            d.rdram.mem@ == zeros(RDRAM_SIZE_EXPANDED as nat),
            forall|c: int, k: int|
                0 <= c < RDRAM_CHIPS && 0 <= k < RDRAM_REGS_COUNT ==> #[trigger] d.rdram.regs[c][k] == 0,
            d.pif.ram@ == zeros(PIF_RAM_SIZE as nat),
            forall|k: int| 0 <= k < SI_REGS_COUNT ==> #[trigger] d.si.regs[k] == 0,
            d.si.dma_dir == DmaDir::Idle,
    {
        let pif = Pif { ram: [0u8; PIF_RAM_SIZE] };
        assert(pif.ram@ =~= zeros(PIF_RAM_SIZE as nat));
        Device {
            cart: Cart { is_viewer_buffer: zeroed_bytes(IS_VIEWER_SIZE) },
            ri: Ri { regs: [0u32; RI_REGS_COUNT], ram_init: false },
            rdram: Rdram::new(RDRAM_SIZE_EXPANDED),
            pif,
            si: Si { regs: [0u32; SI_REGS_COUNT], dma_dir: DmaDir::Idle },
        }
    }
}

} // verus!
