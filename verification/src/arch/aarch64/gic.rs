//! GICv2 interrupt controller: which register to write, and what, for
//! each operation.  The functions compute register accesses; carrying
//! them out on the device is left to the caller.

use vstd::prelude::*;

verus! {

/// Distributor control register
pub const GICD_CTLR: usize = 0x000;

/// Distributor set-enable registers (one bit per INTID)
pub const GICD_ISENABLER: usize = 0x100;

/// Distributor clear-enable registers (write 1 to disable)
pub const GICD_ICENABLER: usize = 0x180;

/// Distributor priority registers (one byte per INTID)
pub const GICD_IPRIORITYR: usize = 0x400;

/// CPU interface control register
pub const GICC_CTLR: usize = 0x000;

/// CPU interface priority mask register
pub const GICC_PMR: usize = 0x004;

/// CPU interface interrupt acknowledge register
pub const GICC_IAR: usize = 0x00C;

/// CPU interface end-of-interrupt register
pub const GICC_EOIR: usize = 0x010;

/// INTID that is read when no interrupt is pending
pub const INTID_SPURIOUS: u32 = 1023;

/// Highest INTID the controller knows.
pub const MAX_INTID: u32 = 1019;

/// Part of the controller that a register belongs to.
#[derive(Clone, Copy, PartialEq, Eq, Debug, Structural)]
pub enum GicBlock {
    Distributor,
    CpuInterface,
}

/// One write of a 32-bit register.
#[derive(Clone, Copy, PartialEq, Eq, Debug, Structural)]
pub struct RegWrite {
    pub block: GicBlock,
    pub offset: usize,
    pub value: u32,
}

/// The bit that stands for `intid` in its enable register.
pub open spec fn enable_bit(intid: u32) -> u32 {
    1u32 << (intid % 32)
}

/// Offset of the register that holds the bit of `intid`, in a bank of
/// one-bit-per-INTID registers that starts at `bank`.
pub open spec fn enable_reg(bank: usize, intid: u32) -> int {
    bank + (intid / 32) * 4
}

/// The writes that initialize the controller: the distributor is
/// switched off and on again, all priorities are let through, and the
/// CPU interface is switched on.
pub fn init() -> (writes: [RegWrite; 4])
    ensures
        writes[0] == (RegWrite { block: GicBlock::Distributor, offset: GICD_CTLR, value: 0 }),
        writes[1] == (RegWrite { block: GicBlock::Distributor, offset: GICD_CTLR, value: 1 }),
        writes[2] == (RegWrite { block: GicBlock::CpuInterface, offset: GICC_PMR, value: 0xFF }),
        writes[3] == (RegWrite { block: GicBlock::CpuInterface, offset: GICC_CTLR, value: 1 }),
{
    [
        RegWrite { block: GicBlock::Distributor, offset: GICD_CTLR, value: 0 },
        RegWrite { block: GicBlock::Distributor, offset: GICD_CTLR, value: 1 },
        RegWrite { block: GicBlock::CpuInterface, offset: GICC_PMR, value: 0xFF },
        RegWrite { block: GicBlock::CpuInterface, offset: GICC_CTLR, value: 1 },
    ]
}

/// Enable an interrupt: the write that sets the bit of `intid` in its
/// set-enable register, which reads `current` now.  The other bits of
/// the register stay.
pub fn enable_intid(intid: u32, current: u32) -> (w: RegWrite)
    ensures
        w.block == GicBlock::Distributor,
        w.offset == enable_reg(GICD_ISENABLER, intid),
        w.value == current | enable_bit(intid),
{
    let reg_index = (intid / 32) as usize;
    let bit = 1u32 << (intid % 32);
    let offset = GICD_ISENABLER + reg_index * 4;
    RegWrite { block: GicBlock::Distributor, offset, value: current | bit }
}

/// Disable (mask) an interrupt: the write that clears the enable bit of
/// `intid`.  The clear-enable register takes a one for each interrupt
/// to disable, so nothing has to be read first.
pub fn disable_intid(intid: u32) -> (w: RegWrite)
    ensures
        w.block == GicBlock::Distributor,
        w.offset == enable_reg(GICD_ICENABLER, intid),
        w.value == enable_bit(intid),
{
    let reg_index = (intid / 32) as usize;
    let bit = 1u32 << (intid % 32);
    let offset = GICD_ICENABLER + reg_index * 4;
    RegWrite { block: GicBlock::Distributor, offset, value: bit }
}

/// Offset of the priority byte of `intid` in the distributor, and the
/// byte to write there (0 = highest priority).
pub fn set_priority(intid: u32, priority: u8) -> (r: (usize, u8))
    requires
        GICD_IPRIORITYR + intid <= usize::MAX,
    ensures
        r.0 == GICD_IPRIORITYR + intid,
        r.1 == priority,
{
    (GICD_IPRIORITYR + intid as usize, priority)
}

/// The INTID in a value read from the interrupt acknowledge register:
/// its low ten bits.
pub fn acknowledge(iar: u32) -> (intid: u32)
    ensures
        intid == iar & 0x3FF,
        intid <= 1023,
{
    let intid = iar & 0x3FF;
    assert(iar & 0x3FF <= 1023) by (bit_vector);
    intid
}

/// Signal the end of an interrupt: the write of `intid` to the
/// end-of-interrupt register.
pub fn end_interrupt(intid: u32) -> (w: RegWrite)
    ensures
        w == (RegWrite { block: GicBlock::CpuInterface, offset: GICC_EOIR, value: intid }),
{
    RegWrite { block: GicBlock::CpuInterface, offset: GICC_EOIR, value: intid }
}

} // verus!
