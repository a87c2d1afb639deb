//! Page-table layout and descriptor bits.
//!
//! Every task has four tables: a second-level device table, a top-level
//! table, a second-level RAM table and a third-level table for the first
//! two megabytes of RAM.  The kernel has four of its own for boot.  The
//! functions here compute what the tables hold; writing the entries and
//! invalidating the TLB is left to the caller.

use vstd::prelude::*;
use crate::kernel::sched::NUM_TASKS;

verus! {

/// Table descriptor (levels 1 and 2): points to the next-level table
pub const TABLE: u64 = 0b11;

/// Block descriptor (levels 1 and 2): maps a large region directly
pub const BLOCK: u64 = 0b01;

/// Page descriptor (level 3)
pub const PAGE: u64 = 0b11;

/// Memory attribute index 0: device memory
pub const ATTR_DEVICE: u64 = 0 << 2;

/// Memory attribute index 1: normal memory, not cached
pub const ATTR_NORMAL_NC: u64 = 1 << 2;

/// Memory attribute index 2: normal memory, write-back
pub const ATTR_NORMAL_WB: u64 = 2 << 2;

/// Kernel read-write, user no access
pub const AP_RW_EL1: u64 = 0b00 << 6;

/// Kernel read-only, user no access
pub const AP_RO_EL1: u64 = 0b10 << 6;

/// Kernel read-write, user read-write
pub const AP_RW_EL0: u64 = 0b01 << 6;

/// Kernel read-only, user read-only
pub const AP_RO_EL0: u64 = 0b11 << 6;

/// Not shareable
pub const SH_NON: u64 = 0b00 << 8;

/// Inner shareable
pub const SH_INNER: u64 = 0b11 << 8;

/// Access flag; must be set
pub const AF: u64 = 1 << 10;

/// Privileged execute never
pub const PXN: u64 = 1 << 53;

/// Unprivileged execute never
pub const UXN: u64 = 1 << 54;

/// No execution at any privilege level
pub const XN: u64 = PXN | UXN;

/// Device registers: kernel read-write, never executable
pub const DEVICE_BLOCK: u64 = BLOCK | ATTR_DEVICE | AP_RW_EL1 | AF | XN;

/// Device registers made accessible to a task
pub const DEVICE_BLOCK_EL0: u64 = BLOCK | ATTR_DEVICE | AP_RW_EL0 | AF | XN;

/// RAM block: write-back, kernel read-write
pub const RAM_BLOCK: u64 = BLOCK | ATTR_NORMAL_WB | AP_RW_EL1 | SH_INNER | AF;

/// Kernel code page: kernel read-only, executable
pub const KERNEL_CODE_PAGE: u64 = PAGE | ATTR_NORMAL_WB | AP_RO_EL1 | SH_INNER | AF;

/// Read-only data page: readable by kernel and tasks, never executable
pub const KERNEL_RODATA_PAGE: u64 = PAGE | ATTR_NORMAL_WB | AP_RO_EL0 | SH_INNER | AF | XN;

/// Kernel data page: kernel read-write, never executable
pub const KERNEL_DATA_PAGE: u64 = PAGE | ATTR_NORMAL_WB | AP_RW_EL1 | SH_INNER | AF | XN;

/// User data page: read-write for kernel and task, never executable
pub const USER_DATA_PAGE: u64 = PAGE | ATTR_NORMAL_WB | AP_RW_EL0 | SH_INNER | AF | XN;

/// User code page: read-only, executable by the task only
pub const USER_CODE_PAGE: u64 = PAGE | ATTR_NORMAL_WB | AP_RO_EL0 | SH_INNER | AF | PXN;

/// Shared code page: read-only, executable by kernel and tasks
pub const SHARED_CODE_PAGE: u64 = PAGE | ATTR_NORMAL_WB | AP_RO_EL0 | SH_INNER | AF;

/// Memory attribute register value: the attributes behind the indices
pub const MAIR_VALUE: u64 = 0x0000_0000_04FF_4400;

/// Translation control register value: 39-bit addresses, 4 KiB pages,
/// lower half only
pub const TCR_VALUE: u64 = 25 | (0b01 << 8) | (0b01 << 10) | (0b11 << 12) | (0b00 << 14) | (25
    << 16) | (1 << 23) | (0b01 << 24) | (0b01 << 26) | (0b11 << 28) | (0b10 << 30) | (0b101 << 32);

/// System control bits that turn the MMU and the caches on
pub const SCTLR_MMU_ON: u64 = (1 << 0) | (1 << 2) | (1 << 3) | (1 << 12);

/// System control bit that makes writable memory never executable
pub const SCTLR_WXN: u64 = 1 << 19;

/// Number of page table pages: four per task and four for the kernel
pub const NUM_PAGE_TABLE_PAGES: usize = 4 * NUM_TASKS + 4;

/// Kind of a page table within a task's set of four.  The tables are
/// laid out kind by kind: all device tables first, then all top-level
/// tables, and so on.
#[derive(Clone, Copy, Debug, PartialEq, Eq, Structural)]
pub enum PageTableType {
    L2Device,
    L1,
    L2Ram,
    L3,
}

/// Number of page table kinds per task.
pub const PT_TYPES_PER_TASK: usize = 4;

/// Position of a table kind in the layout.
pub open spec fn kind_rank(pt_type: PageTableType) -> int {
    match pt_type {
        PageTableType::L2Device => 0,
        PageTableType::L1 => 1,
        PageTableType::L2Ram => 2,
        PageTableType::L3 => 3,
    }
}

/// Index of the page table of kind `pt_type` of task `task_id`.
pub fn pt_index(task_id: usize, pt_type: PageTableType) -> (index: usize)
    requires
        kind_rank(pt_type) * NUM_TASKS + task_id <= usize::MAX,
    ensures
        index == kind_rank(pt_type) * NUM_TASKS + task_id,
        task_id < NUM_TASKS ==> index < PT_TYPES_PER_TASK * NUM_TASKS,
{
    let rank: usize = match pt_type {
        PageTableType::L2Device => 0,
        PageTableType::L1 => 1,
        PageTableType::L2Ram => 2,
        PageTableType::L3 => 3,
    };
    rank * NUM_TASKS + task_id
}

/// Two tables of different tasks or kinds have different indices.
pub proof fn lemma_pt_index_injective(t1: usize, k1: PageTableType, t2: usize, k2: PageTableType)
    requires
        t1 < NUM_TASKS,
        t2 < NUM_TASKS,
        kind_rank(k1) * NUM_TASKS + t1 == kind_rank(k2) * NUM_TASKS + t2,
    ensures
        t1 == t2,
        k1 == k2,
{
}

pub const PT_L2_DEVICE_0: usize = 0;

pub const PT_L2_DEVICE_1: usize = 1;

pub const PT_L2_DEVICE_2: usize = 2;

pub const PT_L1_TASK0: usize = 1 * NUM_TASKS;

pub const PT_L2_RAM_TASK0: usize = 2 * NUM_TASKS;

pub const PT_L3_TASK0: usize = 3 * NUM_TASKS;

pub const PT_L2_DEVICE_KERNEL: usize = PT_TYPES_PER_TASK * NUM_TASKS;

pub const PT_L1_KERNEL: usize = PT_TYPES_PER_TASK * NUM_TASKS + 1;

pub const PT_L2_RAM_KERNEL: usize = PT_TYPES_PER_TASK * NUM_TASKS + 2;

pub const PT_L3_KERNEL: usize = PT_TYPES_PER_TASK * NUM_TASKS + 3;

/// Start of RAM, and of the two megabytes that the third-level tables
/// map page by page.
pub const RAM_START: u64 = 0x4000_0000;

/// Size of a page.
pub const PAGE_SIZE: u64 = 4096;

/// Number of entries of a page table.
pub const TABLE_ENTRIES: usize = 512;

/// Size of the region a second-level block maps.
pub const BLOCK_SIZE: u64 = 0x20_0000;

/// First entry of the device table that maps a device.
pub const FIRST_DEVICE_BLOCK: usize = 64;

/// Last entry of the device table that maps a device.
pub const LAST_DEVICE_BLOCK: usize = 72;

/// Owner given to the tables the kernel boots with: no user stack is
/// accessible from user mode.
pub const KERNEL_OWNER: u8 = 0xFF;

pub const PAGE_ATTR_ERR_INVALID_TASK: u64 = 0xFFFF_3001;

pub const PAGE_ATTR_ERR_OUT_OF_RANGE: u64 = 0xFFFF_3002;

/// Where the page tables start.
pub const PAGE_TABLES_BASE: u64 = 0x8000_0000;

/// Distance between the page-table bases of two neighbouring tasks.
pub const PAGE_TABLE_STRIDE: u64 = 0x1_0000;

/// Base address of the top-level page table of a task.
pub open spec fn table_base_of(task_id: usize) -> u64 {
    (PAGE_TABLES_BASE + task_id * PAGE_TABLE_STRIDE) as u64
}

/// The address-space register value of a task: the address-space id in
/// the top sixteen bits, the table base below.
pub open spec fn ttbr0_of(task_id: usize, asid: u16) -> u64 {
    ((asid as u64) << 48) | table_base_of(task_id)
}

/// Get the base address of the top-level page table of a task.
pub fn page_table_base(task_id: usize) -> (base: u64)
    requires
        PAGE_TABLES_BASE + task_id * PAGE_TABLE_STRIDE <= u64::MAX,
    ensures
        base == table_base_of(task_id),
{
    0x8000_0000_u64 + (task_id as u64) * 0x1_0000
}

/// Get the address-space register value for a task:
/// `(asid << 48) | page_table_base`.
pub fn ttbr0_for_task(task_id: usize, asid: u16) -> (ttbr0: u64)
    requires
        PAGE_TABLES_BASE + task_id * PAGE_TABLE_STRIDE <= u64::MAX,
    ensures
        ttbr0 == ttbr0_of(task_id, asid),
{
    let base = page_table_base(task_id);
    ((asid as u64) << 48) | base
}

/// A device whose registers can be mapped for a task.  The interrupt
/// controller is not among them.
#[derive(Clone, Copy, Debug)]
pub struct DeviceInfo {
    /// index of the device's entry in the second-level device table
    pub l2_index: usize,
    /// hardware INTID of the device
    pub intid: u32,
    /// human-readable name
    pub name: &'static str,
}

/// Number of devices in the registry.
pub const NUM_DEVICES: usize = 1;

/// Maximum device id
pub const MAX_DEVICE_ID: usize = 0;

pub const DEVICE_MAP_ERR_INVALID_ID: u64 = 0xFFFF_2001;

pub const DEVICE_MAP_ERR_INVALID_TASK: u64 = 0xFFFF_2002;

/// The device registry; a device id is an index into it.
pub fn devices() -> (d: [DeviceInfo; 1])
    ensures
        d[0].l2_index == 72,
        d[0].intid == 33,
        d[0].name@ == "UART0"@,
{
    [DeviceInfo { l2_index: 72, intid: 33, name: "UART0" }]
}

/// Why a device cannot be mapped for a task, or zero if it can.
pub open spec fn device_map_code(device_id: u64, task_id: usize) -> u64 {
    if device_id >= NUM_DEVICES {
        DEVICE_MAP_ERR_INVALID_ID
    } else if task_id >= NUM_TASKS {
        DEVICE_MAP_ERR_INVALID_TASK
    } else {
        0
    }
}

/// Check a request to map a device's registers for a task.  Returns 0
/// if the device is in the registry and the task exists, else the error
/// code.  On 0 the device's entry in the task's device table is to be
/// made accessible to the task.
pub fn map_device_for_task(device_id: u64, task_id: usize) -> (code: u64)
    ensures
        code == device_map_code(device_id, task_id),
{
    if device_id >= NUM_DEVICES as u64 {
        return DEVICE_MAP_ERR_INVALID_ID;
    }
    if task_id >= NUM_TASKS {
        return DEVICE_MAP_ERR_INVALID_TASK;
    }
    0
}

/// Entry `i` of a device table: the device blocks are mapped for the
/// kernel only, everything else is unmapped.
pub fn l2_device_entry(i: usize) -> (desc: u64)
    ensures
        desc == (if FIRST_DEVICE_BLOCK <= i <= LAST_DEVICE_BLOCK {
            ((i * BLOCK_SIZE) as u64) | DEVICE_BLOCK
        } else {
            0
        }),
{
    if i >= 64 && i <= 72 {
        ((i as u64) * 0x20_0000) | DEVICE_BLOCK
    } else {
        0
    }
}

/// Entry `i` of a RAM table, entries 1 to 63: a block of RAM for the
/// kernel only.  Entry 0 points to the third-level table instead, and
/// the entries from 64 on are unmapped.
pub fn l2_ram_entry(i: usize, l3_table: u64) -> (desc: u64)
    ensures
        desc == (if i == 0 {
            l3_table | TABLE
        } else if i < 64 {
            ((RAM_START + i * BLOCK_SIZE) as u64) | RAM_BLOCK
        } else {
            0
        }),
{
    if i == 0 {
        l3_table | TABLE
    } else if i < 64 {
        (0x4000_0000_u64 + (i as u64) * 0x20_0000) | RAM_BLOCK
    } else {
        0
    }
}

/// Where the linker placed what the third-level tables tell apart.
#[derive(Clone, Copy, Debug)]
pub struct MemoryLayout {
    pub text_start: usize,
    pub text_end: usize,
    pub rodata_start: usize,
    pub rodata_end: usize,
    pub data_start: usize,
    pub kernel_end: usize,
    pub user_stacks_start: usize,
    pub user_stacks_end: usize,
    pub grant_pages_start: usize,
    pub grant_pages_end: usize,
    pub stack_guard: usize,
}

/// The attributes of the page at `pa` in the third-level table of
/// `owner_task`, zero for a page that is not mapped.
///
/// The stack guard is never mapped.  A user stack is accessible from
/// user mode only in the table of the task that owns it.  Grant pages
/// start out for the kernel only.  Code is shared and read-only,
/// read-only data is readable by all, everything else of the kernel
/// image and what lies below it is for the kernel only, and what lies
/// above it is not mapped.
pub open spec fn l3_attributes(layout: MemoryLayout, pa: usize, owner_task: u8) -> u64 {
    if pa == layout.stack_guard {
        0
    } else if layout.user_stacks_start <= pa < layout.user_stacks_end {
        if owner_task != KERNEL_OWNER && (pa - layout.user_stacks_start) / (PAGE_SIZE as int)
            == owner_task {
            USER_DATA_PAGE
        } else {
            KERNEL_DATA_PAGE
        }
    } else if layout.grant_pages_start <= pa < layout.grant_pages_end {
        KERNEL_DATA_PAGE
    } else if layout.text_start <= pa < layout.text_end {
        SHARED_CODE_PAGE
    } else if layout.rodata_start <= pa < layout.rodata_end {
        KERNEL_RODATA_PAGE
    } else if layout.data_start <= pa < layout.kernel_end {
        KERNEL_DATA_PAGE
    } else if pa < layout.text_start {
        KERNEL_DATA_PAGE
    } else {
        0
    }
}

/// Entry `i` of the third-level table of `owner_task`: the page at
/// `RAM_START + i * PAGE_SIZE` with its attributes, or zero for a page
/// that is not mapped.
pub fn l3_entry(layout: &MemoryLayout, i: usize, owner_task: u8) -> (desc: u64)
    requires
        i < TABLE_ENTRIES,
    ensures
        desc == ({
            let pa = (RAM_START + i * PAGE_SIZE) as usize;
            let attrs = l3_attributes(*layout, pa, owner_task);
            if attrs == 0 {
                0
            } else {
                (pa as u64) | attrs
            }
        }),
{
    let pa64: u64 = 0x4000_0000_u64 + (i as u64) * 4096;
    let pa = pa64 as usize;
    assert(USER_DATA_PAGE != 0 && KERNEL_DATA_PAGE != 0 && SHARED_CODE_PAGE != 0
        && KERNEL_RODATA_PAGE != 0) by (bit_vector);
    if pa == layout.stack_guard {
        0
    } else if pa >= layout.user_stacks_start && pa < layout.user_stacks_end {
        let stack_idx = (pa - layout.user_stacks_start) / 4096;
        if owner_task == 0xFF {
            pa64 | KERNEL_DATA_PAGE
        } else if stack_idx == owner_task as usize {
            pa64 | USER_DATA_PAGE
        } else {
            pa64 | KERNEL_DATA_PAGE
        }
    } else if pa >= layout.grant_pages_start && pa < layout.grant_pages_end {
        pa64 | KERNEL_DATA_PAGE
    } else if pa >= layout.text_start && pa < layout.text_end {
        pa64 | SHARED_CODE_PAGE
    } else if pa >= layout.rodata_start && pa < layout.rodata_end {
        pa64 | KERNEL_RODATA_PAGE
    } else if pa >= layout.data_start && pa < layout.kernel_end {
        pa64 | KERNEL_DATA_PAGE
    } else if pa < layout.text_start {
        pa64 | KERNEL_DATA_PAGE
    } else {
        0
    }
}

/// Index in a third-level table of the page at `addr`, if the table maps
/// it.
pub open spec fn l3_index_of(addr: u64) -> Option<usize> {
    if RAM_START <= addr < RAM_START + TABLE_ENTRIES * PAGE_SIZE {
        Some(((addr - RAM_START) / (PAGE_SIZE as int)) as usize)
    } else {
        None
    }
}

/// Index in a third-level table of the page at `addr`, if the table maps
/// it.
pub fn l3_index(addr: u64) -> (index: Option<usize>)
    ensures
        index == l3_index_of(addr),
        index matches Some(i) ==> i < TABLE_ENTRIES,
{
    let base: u64 = 0x4000_0000;
    if addr < base || addr >= base + 512 * 4096 {
        return None;
    }
    Some(((addr - base) / 4096) as usize)
}

/// The entry that maps the grant page at `grant_phys` for a task
/// (`mapped`) or takes it away from the task again (`!mapped`), with
/// its index; `None` if the page lies outside what the third-level table
/// maps.
pub fn grant_page_entry(grant_phys: u64, mapped: bool) -> (r: Option<(usize, u64)>)
    ensures
        r == (match l3_index_of(grant_phys) {
            Some(i) => Some(
                (
                    i,
                    grant_phys | (if mapped {
                        USER_DATA_PAGE
                    } else {
                        KERNEL_DATA_PAGE
                    }),
                ),
            ),
            None => None,
        }),
{
    match l3_index(grant_phys) {
        Some(i) => Some(
            (
                i,
                grant_phys | (if mapped {
                    USER_DATA_PAGE
                } else {
                    KERNEL_DATA_PAGE
                }),
            ),
        ),
        None => None,
    }
}

/// The entry that makes device `device_id` accessible to a task, with
/// its index in the task's device table; `None` for a device that is
/// not in the registry.
pub fn device_entry(device_id: u64) -> (r: Option<(usize, u64)>)
    ensures
        r == (if device_id < NUM_DEVICES {
            Some((72usize, ((72 * BLOCK_SIZE) as u64) | DEVICE_BLOCK_EL0))
        } else {
            None
        }),
{
    if device_id >= NUM_DEVICES as u64 {
        return None;
    }
    let dev = devices()[0];
    let pa = (dev.l2_index as u64) * 0x20_0000;
    Some((dev.l2_index, pa | DEVICE_BLOCK_EL0))
}

/// The TLB invalidation operand for the address space of a task: the
/// address-space id `task_id + 1` in the top sixteen bits.
pub fn tlb_asid(task_id: usize) -> (operand: u64)
    requires
        task_id < u64::MAX,
    ensures
        operand == ((task_id + 1) as u64) << 48,
{
    (task_id as u64 + 1) << 48
}

/// The register values that turn the MMU on, in the order memory
/// attributes, translation control, table base, system control.  The
/// kernel boots on its own top-level table at `l1_kernel`.
pub fn mmu_get_config(l1_kernel: u64) -> (out: [u64; 4])
    ensures
        out[0] == MAIR_VALUE,
        out[1] == TCR_VALUE,
        out[2] == l1_kernel,
        out[3] == SCTLR_MMU_ON | SCTLR_WXN,
{
    [MAIR_VALUE, TCR_VALUE, l1_kernel, SCTLR_MMU_ON | SCTLR_WXN]
}

/// Why the attributes of the page at `vaddr` cannot be set for a task,
/// or zero if they can.
pub open spec fn page_attr_code(task_id: usize, vaddr: u64) -> u64 {
    if task_id >= NUM_TASKS {
        PAGE_ATTR_ERR_INVALID_TASK
    } else if l3_index_of(vaddr).is_none() {
        PAGE_ATTR_ERR_OUT_OF_RANGE
    } else {
        0
    }
}

/// Check a request to set the descriptor of the page at `vaddr` in a
/// task's third-level table.  Returns 0 if the task exists and the table
/// maps the address, else the error code.  On 0 the entry
/// `vaddr | template` is to be written at the page's index.
pub fn set_page_attr(task_id: usize, vaddr: u64, template: u64) -> (code: u64)
    ensures
        code == page_attr_code(task_id, vaddr),
{
    if task_id >= NUM_TASKS {
        return PAGE_ATTR_ERR_INVALID_TASK;
    }
    let base: u64 = 0x4000_0000;
    if vaddr < base || vaddr >= base + 512 * 4096 {
        return PAGE_ATTR_ERR_OUT_OF_RANGE;
    }
    0
}

/// The descriptor template for the pages of a loaded segment with
/// permission flags `flags`: code for a segment that may be executed,
/// data for any other, so that no page is both writable and executable.
pub fn segment_page_template(flags: u32) -> (template: u64)
    ensures
        template == (if flags & crate::kernel::elf::PF_X != 0 {
            USER_CODE_PAGE
        } else {
            USER_DATA_PAGE
        }),
{
    if flags & crate::kernel::elf::PF_X != 0 {
        USER_CODE_PAGE
    } else {
        USER_DATA_PAGE
    }
}

/// The address of the page that holds `addr`.
pub open spec fn page_floor(addr: u64) -> u64 {
    (addr - addr % PAGE_SIZE) as u64
}

/// The pages that a segment of `memsz` bytes at `vaddr` lies in, as the
/// address of the first of them and the end of the segment: the pages
/// are those at `first`, `first + PAGE_SIZE`, ... below `end`.  `None`
/// if the segment does not end within the address space.
pub fn segment_pages(vaddr: u64, memsz: u64) -> (r: Option<(u64, u64)>)
    ensures
        r == (if vaddr + memsz <= u64::MAX {
            Some((page_floor(vaddr), (vaddr + memsz) as u64))
        } else {
            None
        }),
        r matches Some((first, end)) ==> first % PAGE_SIZE == 0 && first <= vaddr < first
            + PAGE_SIZE && vaddr <= end,
{
    if memsz > u64::MAX - vaddr {
        None
    } else {
        Some((vaddr - vaddr % PAGE_SIZE, vaddr + memsz))
    }
}

} // verus!
