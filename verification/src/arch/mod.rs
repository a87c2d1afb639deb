//! Architecture-specific logic, one module per architecture.

pub mod aarch64;
