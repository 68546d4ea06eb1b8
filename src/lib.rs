//! A miniature 32-bit register machine and a two-pass assembler for it.

pub mod error;
pub mod register;
pub mod opcode;
pub mod memory;
pub mod vm;
pub mod text;
pub mod assembler;
