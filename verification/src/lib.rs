//! Verified models of three Nintendo 64 device blocks: the ISViewer debug
//! interface of the cartridge bus, the RI/RDRAM register initialisation that boot
//! code leaves behind, and the Serial Interface (SI) register file with its
//! PIF RAM <-> RDRAM DMA engine.

pub mod memory;
pub mod device;
pub mod is_viewer;
pub mod rdram_init;
pub mod si;
