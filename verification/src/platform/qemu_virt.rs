//! Constants of the QEMU `virt` machine: device addresses, memory map,
//! timer, and the region that task images are loaded into.

use vstd::prelude::*;
use crate::kernel::sched::{IDLE_TASK_ID, NUM_TASKS};

verus! {

/// Interrupt controller, distributor base address
pub const GICD_BASE: usize = 0x0800_0000;

/// Interrupt controller, CPU interface base address
pub const GICC_BASE: usize = 0x0801_0000;

/// UART0 data register address
pub const UART0_BASE: usize = 0x0900_0000;

/// Physical RAM base address
pub const RAM_BASE: usize = 0x4000_0000;

/// Kernel load address
pub const KERNEL_BASE: usize = 0x4008_0000;

/// INTID of the tick timer
pub const TIMER_INTID: u32 = 30;

/// Default tick interval in milliseconds
pub const TICK_MS: u32 = 10;

/// Timer frequency (Hz)
pub const TIMER_FREQ_HZ: u64 = 62_500_000;

/// Base address of the region task images are loaded into
pub const ELF_LOAD_BASE: u64 = 0x4010_0000;

/// Size of the slot of one task image (16 KiB)
pub const ELF_LOAD_SIZE_PER_TASK: usize = 16 * 1024;

/// Number of task image slots
pub const MAX_ELF_TASKS: usize = 6;

/// Id that the first loaded image is given in a task table with room
/// behind the two built-in tasks
pub const ELF_FIRST_TASK_ID: usize = 2;

/// Whether a task image may be loaded for task `task_id` from image
/// slot `slot`: the task exists and is not the idle task, which has no
/// image, and the slot exists.
pub fn image_target_ok(task_id: usize, slot: usize) -> (ok: bool)
    ensures
        ok == (task_id < NUM_TASKS && task_id != IDLE_TASK_ID && slot < MAX_ELF_TASKS),
{
    task_id < NUM_TASKS && task_id != IDLE_TASK_ID && slot < MAX_ELF_TASKS
}

/// Load address of image slot `slot`.
pub open spec fn slot_addr(slot: int) -> int {
    ELF_LOAD_BASE + slot * ELF_LOAD_SIZE_PER_TASK
}

/// Compute the load address for image slot `slot`.
pub fn elf_load_addr(slot: usize) -> (addr: u64)
    requires
        slot_addr(slot as int) <= u64::MAX,
    ensures
        addr == slot_addr(slot as int),
{
    ELF_LOAD_BASE + (slot as u64) * (ELF_LOAD_SIZE_PER_TASK as u64)
}

/// The slots lie side by side in the load region: each slot within it,
/// no two of them overlapping.
pub proof fn lemma_slots_disjoint(i: int, j: int)
    requires
        0 <= i < MAX_ELF_TASKS,
        0 <= j < MAX_ELF_TASKS,
        i != j,
    ensures
        slot_addr(i) >= ELF_LOAD_BASE,
        slot_addr(i) + ELF_LOAD_SIZE_PER_TASK <= ELF_LOAD_BASE + MAX_ELF_TASKS
            * ELF_LOAD_SIZE_PER_TASK,
        slot_addr(i) + ELF_LOAD_SIZE_PER_TASK <= slot_addr(j) || slot_addr(j)
            + ELF_LOAD_SIZE_PER_TASK <= slot_addr(i),
{
}

} // verus!
