//! Platform descriptions: memory map and device addresses.

pub mod qemu_virt;
