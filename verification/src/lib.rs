//! LAR: a Linux runtime for Android NDK libraries, with its core logic verified.

pub mod memory;
pub mod wire;
pub mod linker;
pub mod arch;
pub mod jit;
pub mod text;
pub mod keyed;
pub mod bionic;
pub mod lifecycle;
pub mod managers;
pub mod dex;
pub mod tester;
pub mod api_policy;
pub mod runtime;
pub mod messages;
pub mod audio;
pub mod graphics;
pub mod ipc;
pub mod aidl;
pub mod hidl;
pub mod art;

pub use runtime::LarRuntime;
