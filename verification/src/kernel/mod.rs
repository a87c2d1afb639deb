//! Architecture-independent kernel modules.

pub mod cap;
pub mod elf;
pub mod grant;
pub mod ipc;
pub mod irq;
pub mod log;
pub mod sched;
pub mod state;
pub mod timer;
pub mod waiting;
