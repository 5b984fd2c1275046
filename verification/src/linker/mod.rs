//! Linker subsystem: ELF parsing, dynamic linking, relocation resolution and symbol tables.

pub mod elf;
pub mod symbols;
pub mod loader;
