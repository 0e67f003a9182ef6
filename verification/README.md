# n64_device

Verified models of three Nintendo 64 device blocks, written in Verus:

- `src/memory.rs`: big-endian and host-order word access to byte buffers,
  masked register writes, and the laws that tie reads to writes.
- `src/is_viewer.rs`: the ISViewer debug interface (bus reads and writes of
  its 64 KiB window; a write to the length register yields the text to print).
- `src/rdram_init.rs`: the RI/RDRAM register values that boot code leaves
  after RDRAM calibration, and the IPL3 size markers.
- `src/si.rs`: the Serial Interface register file and its PIF RAM <-> RDRAM
  DMA engine.
- `src/device.rs`: the device state these blocks share.

`app/` holds the host-side glue: printing ISViewer text, the SI's hooks into
the rest of the machine, and serde copies of the SI state.
