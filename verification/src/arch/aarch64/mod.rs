//! AArch64: the interrupt controller's register arithmetic.

pub mod gic;
