//! Memory subsystem: 16 KiB page arithmetic, modelled virtual memory regions, text shadows.

pub mod page;
pub mod mmap;
pub mod shadow;
