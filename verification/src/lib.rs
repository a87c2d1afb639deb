//! AegisOS kernel control plane.
//!
//! The library holds the decision logic of a single-core microkernel: the
//! capability table, the task table and scheduler, the synchronous IPC
//! endpoints, the grant and IRQ tables, and the syscall entry that ties
//! them together.  All kernel state lives in one structure,
//! [`state::Kernel`], that a trap handler borrows exclusively for the
//! time of one trap.
//!
//! Every function states what it does in a contract over a plain model of
//! the state ([`state::KernelView`]), and Verus proves the contract.  The
//! library touches no hardware: where the machine has to act (a register
//! write, a page-table entry, bytes for the console) a function returns
//! what is to be done and the embedding binary does it.

/// Architecture-specific logic.
pub mod arch;

/// Trap frames, the syscall entry and exception dispatch.
pub mod exception;

/// Portable kernel logic: capabilities, scheduler, IPC, grants, IRQs.
pub mod kernel;

/// Page-table layout and descriptor bits.
pub mod mmu;

/// Platform constants.
pub mod platform;

/// Console text.
pub mod uart;

pub use arch::aarch64::gic;
pub use kernel::cap;
pub use kernel::elf;
pub use kernel::grant;
pub use kernel::ipc;
pub use kernel::irq;
pub use kernel::log;
pub use kernel::sched;
pub use kernel::state;
pub use kernel::timer;
pub use kernel::waiting;
pub use uart::{uart_print_dec, uart_print_hex};
