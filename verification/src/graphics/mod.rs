//! Graphics: capability probes, buffer descriptions, the CPU overlay and native windows.

pub mod probes;
pub mod buffers;
pub mod overlay;
pub mod native_window;
pub mod errors;
