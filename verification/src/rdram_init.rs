//! RI/RDRAM register initialisation: the register state that boot code leaves
//! behind once RDRAM has been calibrated, so that the emulated CPU can skip
//! hardware RDRAM training.

use vstd::prelude::*;
use crate::device::{Device, RDRAM_CHIPS, RDRAM_REGS_COUNT, RI_CONFIG_REG, RI_MODE_REG, RI_REFRESH_REG, RI_SELECT_REG};
use crate::memory::{lemma_ne_roundtrip, lemma_with_bytes_at_index, ne_bytes, ne_value, u32_to_ne_bytes, with_bytes_at, write_bytes_at};

verus! {

pub const RI_CONFIG_AUTO_CALIBRATION: u32 = 0x40;
pub const RI_SELECT_RX_TX: u32 = 0x14;
pub const RI_MODE_STANDARD: u32 = 0xE;
pub const RI_REFRESH_AUTO: u32 = 0x2_0000;
pub const RI_REFRESH_OPTIMIZE: u32 = 0x4_0000;

pub const RDRAM_REG_DEVICE_ID: usize = 1;
pub const RDRAM_REG_DELAY: usize = 2;
pub const RDRAM_REG_MODE: usize = 3;
pub const RDRAM_REG_REF_ROW: usize = 5;
pub const RDRAM_REG_RAS_INTERVAL: usize = 6;

pub const RDRAM_REG_MODE_DE: u32 = 0x200_0000;
pub const RDRAM_REG_MODE_AS: u32 = 0x400_0000;
/// Device id that every chip answers to before it is given its own.
pub const INITID: u32 = 0x1F;
pub const DEFAULT_CURRENT_CALIBRATION: u32 = 0x18;

/// Offsets at which IPL3 leaves the RDRAM size for homebrew boot code.
pub const MEMORY_SIZE_MARKER_OFFSETS: [usize; 2] = [0x318, 0x3f0];

/// Bit `n` of `x`.
pub open spec fn spec_bit(x: u32, n: u32) -> u32 {
    (x >> n) & 1
}

/// The `w` low bits set.
pub open spec fn low_mask(w: u32) -> u32 {
    ((1u32 << w) - 1) as u32
}

/// Bits `start..=end` of `x`, moved down to bit 0.
pub open spec fn spec_bits(x: u32, start: u32, end: u32) -> u32 {
    (x >> start) & low_mask((end - start + 1) as u32)
}

/// The five low bits of `x` in reverse order.
pub open spec fn spec_bitswap5(x: u32) -> u32 {
    (spec_bit(x, 0) << 4) | (spec_bit(x, 1) << 3) | (spec_bit(x, 2) << 2) | (spec_bit(x, 3) << 1)
        | spec_bit(x, 4)
}

/// `x` with its two halves exchanged.
pub open spec fn spec_rot16(x: u32) -> u32 {
    ((x & 0xFFFF0000) >> 16) | ((x & 0xFFFF) << 16)
}

/// The current-calibration field of the RDRAM mode register: the six bits of
/// `cc`, inverted, scattered to bits 6, 14, 22, 7, 15, 23.
pub open spec fn spec_mode_cc(cc: u32) -> u32 {
    let c = cc ^ 0x3F;
    (spec_bit(c, 0) << 6) | (spec_bit(c, 1) << 14) | (spec_bit(c, 2) << 22) | (spec_bit(c, 3) << 7)
        | (spec_bit(c, 4) << 15) | (spec_bit(c, 5) << 23)
}

/// The RDRAM delay register: each delay in the top three bits of its byte.
pub open spec fn spec_delay_make(ack_win_delay: u32, read_delay: u32, ack_delay: u32, write_delay: u32) -> u32 {
    (((ack_win_delay & 7) << 3) << 24) | (((read_delay & 7) << 3) << 16) | (((ack_delay & 3) << 3) << 8)
        | ((write_delay & 7) << 3)
}

/// The RDRAM device-id register for `chip_id`.
pub open spec fn spec_device_id_make(chip_id: u32) -> u32 {
    (spec_bits(chip_id, 0, 5) << 26) | (spec_bits(chip_id, 6, 6) << 23) | (spec_bits(chip_id, 7, 14) << 8)
        | (spec_bits(chip_id, 15, 15) << 7)
}

/// The RDRAM RAS-interval register: each interval bit-reversed in its byte.
pub open spec fn spec_rasinterval_make(
    row_precharge: u32,
    row_sense: u32,
    row_imp_restore: u32,
    row_exp_restore: u32,
) -> u32 {
    (spec_bitswap5(row_precharge) << 24) | (spec_bitswap5(row_sense) << 16) | (spec_bitswap5(row_imp_restore) << 8)
        | spec_bitswap5(row_exp_restore)
}

/// The RI refresh register: automatic, optimised refresh with clean and
/// dirty refresh delays 52 and 54, and one bank-enable bit per bank from
/// bit 19 up.
pub open spec fn spec_ri_refresh_value(num_banks: u32) -> u32 {
    RI_REFRESH_AUTO | RI_REFRESH_OPTIMIZE | 52 | (54u32 << 8) | (low_mask(num_banks) << 19)
}

/// The RDRAM mode register: device enable, auto-skip, the 0x4000_0000 bit,
/// and the calibration field for `current_calibration`.
pub open spec fn spec_mode_value(current_calibration: u32) -> u32 {
    RDRAM_REG_MODE_DE | RDRAM_REG_MODE_AS | 0x4000_0000 | spec_mode_cc(current_calibration)
}

/// Banks of RDRAM: 4 with the expansion pak, else 2.
pub open spec fn spec_num_banks(rdram_size: u32) -> u32 {
    if rdram_size >= 0x80_0000 { 4 } else { 2 }
}

/// Bit `n` of `x`.
pub fn bit(x: u32, n: u32) -> (r: u32)
    requires
        n < 32,
    ensures
        r == spec_bit(x, n),
        r <= 1,
{
    assert((x >> n) & 1 <= 1) by (bit_vector);
    (x >> n) & 1
}

/// Bits `start..=end` of `x`, moved down to bit 0.
pub fn bits(x: u32, start: u32, end: u32) -> (r: u32)
    requires
        start < 32,
        start <= end,
        end - start < 31,
    ensures
        r == spec_bits(x, start, end),
        r < 1u32 << (end - start + 1),
{
    let w = end - start + 1;
    assert(1u32 << w >= 1 && (x >> start) & (((1u32 << w) - 1) as u32) < 1u32 << w) by (bit_vector)
        requires
            w < 32,
    ;
    (x >> start) & ((1u32 << w) - 1)
}

/// The five low bits of `x` in reverse order.
pub fn bitswap5(x: u32) -> (r: u32)
    ensures
        r == spec_bitswap5(x),
{
    (bit(x, 0) << 4) | (bit(x, 1) << 3) | (bit(x, 2) << 2) | (bit(x, 3) << 1) | bit(x, 4)
}

/// `x` with its two halves exchanged.
pub fn rot16(x: u32) -> (r: u32)
    ensures
        r == spec_rot16(x),
{
    ((x & 0xFFFF0000) >> 16) | ((x & 0xFFFF) << 16)
}

/// The current-calibration field of the RDRAM mode register.
pub fn rdram_reg_mode_cc(cc: u32) -> (r: u32)
    ensures
        r == spec_mode_cc(cc),
{
    let cc = cc ^ 0x3F;
    (bit(cc, 0) << 6) | (bit(cc, 1) << 14) | (bit(cc, 2) << 22) | (bit(cc, 3) << 7) | (bit(cc, 4) << 15)
        | (bit(cc, 5) << 23)
}

/// The RDRAM delay register.
pub fn rdram_reg_delay_make(ack_win_delay: u32, read_delay: u32, ack_delay: u32, write_delay: u32) -> (r: u32)
    ensures
        r == spec_delay_make(ack_win_delay, read_delay, ack_delay, write_delay),
{
    (((ack_win_delay & 7) << 3) << 24) | (((read_delay & 7) << 3) << 16) | (((ack_delay & 3) << 3) << 8)
        | ((write_delay & 7) << 3)
}

/// The RDRAM device-id register for `chip_id`.
pub fn rdram_reg_device_id_make(chip_id: u32) -> (r: u32)
    ensures
        r == spec_device_id_make(chip_id),
{
    (bits(chip_id, 0, 5) << 26) | (bits(chip_id, 6, 6) << 23) | (bits(chip_id, 7, 14) << 8) | (bits(
        chip_id,
        15,
        15,
    ) << 7)
}

/// The RDRAM RAS-interval register.
pub fn rdram_reg_rasinterval_make(
    row_precharge: u32,
    row_sense: u32,
    row_imp_restore: u32,
    row_exp_restore: u32,
) -> (r: u32)
    ensures
        r == spec_rasinterval_make(row_precharge, row_sense, row_imp_restore, row_exp_restore),
{
    (bitswap5(row_precharge) << 24) | (bitswap5(row_sense) << 16) | (bitswap5(row_imp_restore) << 8) | bitswap5(
        row_exp_restore,
    )
}

/// The RI refresh register for `num_banks` banks.
pub fn ri_refresh_value(num_banks: u32) -> (r: u32)
    requires
        num_banks < 32,
    ensures
        r == spec_ri_refresh_value(num_banks),
{
    assert(1u32 << num_banks >= 1) by (bit_vector)
        requires
            num_banks < 32,
    ;
    RI_REFRESH_AUTO | RI_REFRESH_OPTIMIZE | 52 | (54u32 << 8) | (((1u32 << num_banks) - 1) << 19)
}

/// The RDRAM mode register for `current_calibration`.
pub fn rdram_mode_value(current_calibration: u32) -> (r: u32)
    ensures
        r == spec_mode_value(current_calibration),
{
    RDRAM_REG_MODE_DE | RDRAM_REG_MODE_AS | 0x4000_0000 | rdram_reg_mode_cc(current_calibration)
}

/// Banks of RDRAM for `rdram_size` bytes.
pub fn num_rdram_banks(rdram_size: u32) -> (r: u32)
    ensures
        r == spec_num_banks(rdram_size),
{
    if rdram_size >= 0x80_0000 { 4 } else { 2 }
}

/// The delay register value that every chip receives.
pub open spec fn broadcast_delay() -> u32 {
    spec_rot16(spec_delay_make(5, 7, 3, 1))
}

/// The RAS-interval register value that every chip receives.
pub open spec fn broadcast_ras_interval() -> u32 {
    spec_rasinterval_make(1, 7, 10, 4)
}

/// A chip's registers after the broadcast writes with mode-register value
/// `mode`: delay, device id (the initial id), refresh row (0), mode and RAS
/// interval are set; the others stay.
pub open spec fn broadcast_chip(chip: Seq<u32>, mode: u32) -> Seq<u32> {
    chip.update(RDRAM_REG_DELAY as int, broadcast_delay()).update(
        RDRAM_REG_DEVICE_ID as int,
        spec_device_id_make(INITID),
    ).update(RDRAM_REG_REF_ROW as int, 0).update(RDRAM_REG_MODE as int, mode).update(
        RDRAM_REG_RAS_INTERVAL as int,
        broadcast_ras_interval(),
    )
}

/// The RDRAM buffer after the size markers for `size` have been stored in
/// the host's byte order at each marker offset that lies inside it.
pub open spec fn with_size_markers(mem: Seq<u8>, size: u32) -> Seq<u8> {
    with_bytes_at(
        with_bytes_at(mem, MEMORY_SIZE_MARKER_OFFSETS[0] as int, ne_bytes(size)),
        MEMORY_SIZE_MARKER_OFFSETS[1] as int,
        ne_bytes(size),
    )
}

/// Sets the broadcast registers of every RDRAM chip, with mode-register
/// value `mode`.
pub fn apply_broadcast_rdram_regs(device: &mut Device, mode: u32)
    ensures
        forall|c: int|
            0 <= c < RDRAM_CHIPS ==> #[trigger] final(device).rdram.regs[c]@ == broadcast_chip(
                old(device).rdram.regs[c]@,
                mode,
            ),
        final(device).rdram.mem == old(device).rdram.mem,
        final(device).rdram.size == old(device).rdram.size,
        final(device).cart == old(device).cart,
        final(device).ri == old(device).ri,
        final(device).pif == old(device).pif,
        final(device).si == old(device).si,
{
    let delay = rot16(rdram_reg_delay_make(5, 7, 3, 1));
    let device_id = rdram_reg_device_id_make(INITID);
    let ras_interval = rdram_reg_rasinterval_make(1, 7, 10, 4);
    let ghost before = *device;
    let mut c: usize = 0;
    while c < RDRAM_CHIPS
        invariant
            c <= RDRAM_CHIPS,
            delay == broadcast_delay(),
            device_id == spec_device_id_make(INITID),
            ras_interval == broadcast_ras_interval(),
            forall|j: int| 0 <= j < c ==> #[trigger] device.rdram.regs[j]@ == broadcast_chip(before.rdram.regs[j]@, mode),
            forall|j: int| c <= j < RDRAM_CHIPS ==> #[trigger] device.rdram.regs[j] == before.rdram.regs[j],
            device.rdram.mem == before.rdram.mem,
            device.rdram.size == before.rdram.size,
            device.cart == before.cart,
            device.ri == before.ri,
            device.pif == before.pif,
            device.si == before.si,
        decreases RDRAM_CHIPS - c,
    {
        let mut chip = device.rdram.regs[c];
        chip[RDRAM_REG_DELAY] = delay;
        chip[RDRAM_REG_DEVICE_ID] = device_id;
        chip[RDRAM_REG_REF_ROW] = 0;
        chip[RDRAM_REG_MODE] = mode;
        chip[RDRAM_REG_RAS_INTERVAL] = ras_interval;
        assert(chip@ =~= broadcast_chip(before.rdram.regs[c as int]@, mode));
        device.rdram.regs[c] = chip;
        c = c + 1;
    }
}

/// Stores `size` in the host's byte order at each marker offset whose four
/// bytes lie inside `mem`.
pub fn write_memory_size_markers(mem: &mut [u8], size: u32)
    ensures
        final(mem)@ == with_size_markers(old(mem)@, size),
{
    let bytes = u32_to_ne_bytes(size);
    let mut k: usize = 0;
    while k < MEMORY_SIZE_MARKER_OFFSETS.len()
        invariant
            k <= 2,
            bytes@ == ne_bytes(size),
            k == 0 ==> mem@ == old(mem)@,
            k == 1 ==> mem@ == with_bytes_at(old(mem)@, MEMORY_SIZE_MARKER_OFFSETS[0] as int, ne_bytes(size)),
            k == 2 ==> mem@ == with_size_markers(old(mem)@, size),
        decreases 2 - k,
    {
        write_bytes_at(mem, MEMORY_SIZE_MARKER_OFFSETS[k], bytes);
        k = k + 1;
    }
}

/// The device id that chip `c` is left with on RDRAM of `num_banks` banks:
/// the chips that back installed RAM get ids 0, 2, 4, 6 in order, the rest
/// keep the initial id.
pub open spec fn initialized_device_id(c: int, num_banks: u32) -> u32 {
    if c < num_banks {
        spec_device_id_make((2 * c) as u32)
    } else {
        spec_device_id_make(INITID)
    }
}

/// The RI registers after initialisation for `num_banks` banks.
pub open spec fn initialized_ri_regs(regs: Seq<u32>, num_banks: u32) -> Seq<u32> {
    regs.update(RI_CONFIG_REG as int, RI_CONFIG_AUTO_CALIBRATION).update(
        RI_SELECT_REG as int,
        RI_SELECT_RX_TX,
    ).update(RI_REFRESH_REG as int, spec_ri_refresh_value(num_banks)).update(
        RI_MODE_REG as int,
        RI_MODE_STANDARD,
    )
}

/// `after` is `before` with the RI and RDRAM registers initialised as boot
/// code leaves them after calibration, and the RDRAM size markers written;
/// nothing else differs.
pub open spec fn registers_initialized(before: Device, after: Device) -> bool {
    let num_banks = spec_num_banks(before.rdram.size);
    let mode = spec_mode_value(DEFAULT_CURRENT_CALIBRATION);
    &&& after.ri.regs@ == initialized_ri_regs(before.ri.regs@, num_banks)
    &&& after.ri.ram_init
    &&& forall|c: int|
        0 <= c < RDRAM_CHIPS ==> #[trigger] after.rdram.regs[c]@ == broadcast_chip(before.rdram.regs[c]@, mode).update(
            RDRAM_REG_DEVICE_ID as int,
            initialized_device_id(c, num_banks),
        )
    &&& after.rdram.size == before.rdram.size
    &&& after.rdram.mem@ == with_size_markers(before.rdram.mem@, before.rdram.size)
    &&& after.cart == before.cart
    &&& after.pif == before.pif
    &&& after.si == before.si
}

/// Initialises the RI and RDRAM registers as boot code leaves them after
/// calibration, and stores the RDRAM size at the IPL3 marker offsets.
pub fn init_registers(device: &mut Device)
    ensures
        registers_initialized(*old(device), *final(device)),
{
    let num_banks = num_rdram_banks(device.rdram.size);
    let mode = rdram_mode_value(DEFAULT_CURRENT_CALIBRATION);

    device.ri.regs[RI_CONFIG_REG] = RI_CONFIG_AUTO_CALIBRATION;
    device.ri.regs[RI_SELECT_REG] = RI_SELECT_RX_TX;
    device.ri.regs[RI_REFRESH_REG] = ri_refresh_value(num_banks);
    device.ri.regs[RI_MODE_REG] = RI_MODE_STANDARD;
    device.ri.ram_init = true;
    let ghost before = *old(device);
    assert(device.ri.regs@ =~= initialized_ri_regs(before.ri.regs@, num_banks));

    apply_broadcast_rdram_regs(device, mode);
    let ghost broadcast = *device;

    let chip_ids: [u32; 4] = [0, 2, 4, 6];
    let count: usize = if num_banks >= 4 { 4 } else { 2 };
    assert(count == num_banks);
    let mut k: usize = 0;
    while k < count
        invariant
            k <= count,
            count == num_banks,
            num_banks == spec_num_banks(before.rdram.size),
            chip_ids@ == seq![0u32, 2, 4, 6],
            forall|c: int|
                0 <= c < RDRAM_CHIPS ==> #[trigger] device.rdram.regs[c]@ == if c < k {
                    broadcast.rdram.regs[c]@.update(RDRAM_REG_DEVICE_ID as int, spec_device_id_make((2 * c) as u32))
                } else {
                    broadcast.rdram.regs[c]@
                },
            device.rdram.mem == broadcast.rdram.mem,
            device.rdram.size == broadcast.rdram.size,
            device.ri == broadcast.ri,
            device.cart == broadcast.cart,
            device.pif == broadcast.pif,
            device.si == broadcast.si,
        decreases count - k,
    {
        let chip_id = chip_ids[k];
        let chip_index = (chip_id / 2) as usize;
        let mut chip = device.rdram.regs[chip_index];
        chip[RDRAM_REG_DEVICE_ID] = rdram_reg_device_id_make(chip_id);
        device.rdram.regs[chip_index] = chip;
        k = k + 1;
    }

    let size = device.rdram.size;
    write_memory_size_markers(device.rdram.mem.as_mut_slice(), size);
    proof {
        assert forall|c: int| 0 <= c < RDRAM_CHIPS implies #[trigger] device.rdram.regs[c]@
            == broadcast_chip(before.rdram.regs[c]@, mode).update(
            RDRAM_REG_DEVICE_ID as int,
            initialized_device_id(c, num_banks),
        ) by {
            assert(device.rdram.regs[c]@ =~= broadcast_chip(before.rdram.regs[c]@, mode).update(
                RDRAM_REG_DEVICE_ID as int,
                initialized_device_id(c, num_banks),
            ));
        }
    }
}

/// Exchanging the halves of a word twice gives the word back.
pub proof fn lemma_rot16_involution(x: u32)
    ensures
        spec_rot16(spec_rot16(x)) == x,
{
    assert(spec_rot16(spec_rot16(x)) == x) by (bit_vector);
}

/// Reversing the five low bits twice gives those five bits back.
pub proof fn lemma_bitswap5_involution(x: u32)
    ensures
        spec_bitswap5(spec_bitswap5(x)) == x & 0x1F,
        spec_bitswap5(x) <= 0x1F,
{
    assert(spec_bitswap5(spec_bitswap5(x)) == x & 0x1F && spec_bitswap5(x) <= 0x1F) by (bit_vector);
}

/// The calibration field depends on the six low bits of the calibration
/// value only, and distinct six-bit values give distinct fields.
pub proof fn lemma_mode_cc_injective(a: u32, b: u32)
    ensures
        (spec_mode_cc(a) == spec_mode_cc(b)) <==> (a & 0x3F == b & 0x3F),
{
    assert((spec_mode_cc(a) == spec_mode_cc(b)) <==> (a & 0x3F == b & 0x3F)) by (bit_vector);
}

/// The mode register value carries the calibration field of its calibration
/// value, beside the DE, AS and 0x4000_0000 bits, which the field never
/// touches.
pub proof fn lemma_mode_value_carries_calibration(c: u32)
    ensures
        spec_mode_value(c) & spec_mode_cc(c) == spec_mode_cc(c),
        spec_mode_cc(c) & (RDRAM_REG_MODE_DE | RDRAM_REG_MODE_AS | 0x4000_0000) == 0,
        spec_mode_value(c) & (RDRAM_REG_MODE_DE | RDRAM_REG_MODE_AS | 0x4000_0000) == RDRAM_REG_MODE_DE
            | RDRAM_REG_MODE_AS | 0x4000_0000,
{
    assert(spec_mode_value(c) & spec_mode_cc(c) == spec_mode_cc(c) && spec_mode_cc(c) & (RDRAM_REG_MODE_DE
        | RDRAM_REG_MODE_AS | 0x4000_0000) == 0 && spec_mode_value(c) & (RDRAM_REG_MODE_DE | RDRAM_REG_MODE_AS
        | 0x4000_0000) == RDRAM_REG_MODE_DE | RDRAM_REG_MODE_AS | 0x4000_0000) by (bit_vector);
}

/// The fields of the RI refresh register: clean delay 52 in bits 0..8,
/// dirty delay 54 in bits 8..16, automatic and optimised refresh bits 17 and
/// 18, and `num_banks` enable bits from bit 19 up.
pub proof fn lemma_ri_refresh_fields(num_banks: u32)
    requires
        num_banks <= 13,
    ensures
        spec_ri_refresh_value(num_banks) & 0xFF == 52,
        (spec_ri_refresh_value(num_banks) >> 8) & 0xFF == 54,
        (spec_ri_refresh_value(num_banks) >> 17) & 3 == 3,
        (spec_ri_refresh_value(num_banks) >> 19) == low_mask(num_banks),
{
    assert(spec_ri_refresh_value(num_banks) & 0xFF == 52 && (spec_ri_refresh_value(num_banks) >> 8) & 0xFF == 54
        && (spec_ri_refresh_value(num_banks) >> 17) & 3 == 3 && (spec_ri_refresh_value(num_banks) >> 19)
        == low_mask(num_banks)) by (bit_vector)
        requires
            num_banks <= 13,
    ;
}

/// The register values that initialisation writes.
pub proof fn lemma_initialized_values()
    ensures
        broadcast_delay() == 0x1808_2838,
        broadcast_ras_interval() == 0x101C_0A04,
        spec_device_id_make(INITID) == 0x7C00_0000,
        spec_device_id_make(0) == 0,
        spec_device_id_make(2) == 0x0800_0000,
        spec_device_id_make(4) == 0x1000_0000,
        spec_device_id_make(6) == 0x1800_0000,
        spec_mode_value(DEFAULT_CURRENT_CALIBRATION) == 0x46C0_4040,
        spec_ri_refresh_value(2) == 0x1E_3634,
        spec_ri_refresh_value(4) == 0x7E_3634,
{
    assert(broadcast_delay() == 0x1808_2838 && broadcast_ras_interval() == 0x101C_0A04) by (bit_vector);
    assert(spec_device_id_make(0x1F) == 0x7C00_0000 && spec_device_id_make(0) == 0 && spec_device_id_make(2)
        == 0x0800_0000 && spec_device_id_make(4) == 0x1000_0000 && spec_device_id_make(6) == 0x1800_0000)
        by (bit_vector);
    assert(spec_mode_value(0x18) == 0x46C0_4040 && spec_ri_refresh_value(2) == 0x1E_3634
        && spec_ri_refresh_value(4) == 0x7E_3634) by (bit_vector);
}

/// Each size marker that lies inside RDRAM reads back, in the host's byte
/// order, as the size that was written.
pub proof fn lemma_size_markers_read_back(mem: Seq<u8>, size: u32, k: int)
    requires
        0 <= k < 2,
        MEMORY_SIZE_MARKER_OFFSETS[k] + 4 <= mem.len(),
    ensures
        with_size_markers(mem, size).len() == mem.len(),
        ne_value(
            with_size_markers(mem, size).subrange(
                MEMORY_SIZE_MARKER_OFFSETS[k] as int,
                MEMORY_SIZE_MARKER_OFFSETS[k] + 4,
            ),
        ) == size,
{
    let o = MEMORY_SIZE_MARKER_OFFSETS[k] as int;
    let out = with_size_markers(mem, size);
    lemma_ne_roundtrip(size);
    assert forall|p: int| 0 <= p < 4 implies #[trigger] out[o + p] == ne_bytes(size)[p] by {
        let m1 = with_bytes_at(mem, MEMORY_SIZE_MARKER_OFFSETS[0] as int, ne_bytes(size));
        lemma_with_bytes_at_index(mem, MEMORY_SIZE_MARKER_OFFSETS[0] as int, ne_bytes(size), o + p);
        lemma_with_bytes_at_index(m1, MEMORY_SIZE_MARKER_OFFSETS[1] as int, ne_bytes(size), o + p);
    }
    assert(out.subrange(o, o + 4) =~= ne_bytes(size));
}

/// Storing the size markers a second time changes nothing.
pub proof fn lemma_size_markers_idempotent(mem: Seq<u8>, size: u32)
    ensures
        with_size_markers(with_size_markers(mem, size), size) == with_size_markers(mem, size),
{
    let o0 = MEMORY_SIZE_MARKER_OFFSETS[0] as int;
    let o1 = MEMORY_SIZE_MARKER_OFFSETS[1] as int;
    let once = with_size_markers(mem, size);
    let twice = with_size_markers(once, size);
    lemma_ne_roundtrip(size);
    assert forall|j: int| 0 <= j < mem.len() implies #[trigger] twice[j] == once[j] by {
        let m1 = with_bytes_at(mem, o0, ne_bytes(size));
        lemma_with_bytes_at_index(mem, o0, ne_bytes(size), j);
        lemma_with_bytes_at_index(m1, o1, ne_bytes(size), j);
        let n1 = with_bytes_at(once, o0, ne_bytes(size));
        lemma_with_bytes_at_index(once, o0, ne_bytes(size), j);
        lemma_with_bytes_at_index(n1, o1, ne_bytes(size), j);
    }
    assert(twice =~= once);
}

/// Initialising the registers of a device whose registers were already
/// initialised changes nothing.
pub proof fn lemma_init_registers_idempotent(a: Device, b: Device, c: Device)
    requires
        registers_initialized(a, b),
        registers_initialized(b, c),
    ensures
        c.ri.regs@ == b.ri.regs@,
        c.ri.ram_init == b.ri.ram_init,
        forall|i: int| 0 <= i < RDRAM_CHIPS ==> #[trigger] c.rdram.regs[i]@ == b.rdram.regs[i]@,
        c.rdram.size == b.rdram.size,
        c.rdram.mem@ == b.rdram.mem@,
        c.cart == b.cart,
        c.pif == b.pif,
        c.si == b.si,
{
    let banks = spec_num_banks(a.rdram.size);
    assert(c.ri.regs@ =~= b.ri.regs@);
    assert forall|i: int| 0 <= i < RDRAM_CHIPS implies #[trigger] c.rdram.regs[i]@ == b.rdram.regs[i]@ by {
        assert(c.rdram.regs[i]@ =~= b.rdram.regs[i]@);
    }
    lemma_size_markers_idempotent(a.rdram.mem@, a.rdram.size);
}

/// Initialisation leaves the same broadcast values in every chip whatever
/// the RDRAM size: mode register 0x46C0_4040 (calibration 0x18), delay
/// 0x1808_2838, RAS interval 0x101C_0A04, refresh row 0; and the RI
/// registers at config 0x40, select 0x14, mode 0x0E, with refresh
/// 0x7E_3634 for 4 banks (8 MiB or more) and 0x1E_3634 for 2.
pub proof fn lemma_initialized_register_values(before: Device, after: Device)
    requires
        registers_initialized(before, after),
    ensures
        forall|c: int|
            0 <= c < RDRAM_CHIPS ==> {
                &&& #[trigger] after.rdram.regs[c][RDRAM_REG_MODE as int] == 0x46C0_4040
                &&& after.rdram.regs[c][RDRAM_REG_DELAY as int] == 0x1808_2838
                &&& after.rdram.regs[c][RDRAM_REG_RAS_INTERVAL as int] == 0x101C_0A04
                &&& after.rdram.regs[c][RDRAM_REG_REF_ROW as int] == 0
            },
        after.ri.regs[RI_CONFIG_REG as int] == 0x40,
        after.ri.regs[RI_SELECT_REG as int] == 0x14,
        after.ri.regs[RI_MODE_REG as int] == 0x0E,
        after.ri.regs[RI_REFRESH_REG as int] == if before.rdram.size >= 0x80_0000 { 0x7E_3634u32 } else { 0x1E_3634u32 },
        after.ri.ram_init,
{
    lemma_initialized_values();
    assert forall|c: int| 0 <= c < RDRAM_CHIPS implies {
        &&& #[trigger] after.rdram.regs[c][RDRAM_REG_MODE as int] == 0x46C0_4040
        &&& after.rdram.regs[c][RDRAM_REG_DELAY as int] == 0x1808_2838
        &&& after.rdram.regs[c][RDRAM_REG_RAS_INTERVAL as int] == 0x101C_0A04
        &&& after.rdram.regs[c][RDRAM_REG_REF_ROW as int] == 0
    } by {
        assert(after.rdram.regs[c]@[RDRAM_REG_MODE as int] == after.rdram.regs[c][RDRAM_REG_MODE as int]);
    }
}

} // verus!
