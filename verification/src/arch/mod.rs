pub mod context;
pub mod trampoline;

pub use context::Arm64CpuContext;
pub use trampoline::Arm64ContextTrampoline;

use vstd::prelude::*;

verus! {

/// The instruction set of the machine the runtime runs on.
#[derive(Debug, Clone, Copy, PartialEq, Eq, Structural)]
pub enum HostArch {
    Arm64,
    X86_64,
    Riscv64,
    Unknown,
}

/// How guest AArch64 code reaches the host: natively, or through a translating bridge.
#[derive(Debug, Clone, Copy, PartialEq, Eq, Structural)]
pub enum ExecutionMode {
    Direct,
    ForeignBridge,
}

/// Only an AArch64 host runs guest code directly.
pub open spec fn spec_execution_mode(arch: HostArch) -> ExecutionMode {
    if arch == HostArch::Arm64 {
        ExecutionMode::Direct
    } else {
        ExecutionMode::ForeignBridge
    }
}

impl HostArch {
    pub fn execution_mode(&self) -> (r: ExecutionMode)
        ensures
            r == spec_execution_mode(*self),
    {
        match self {
            HostArch::Arm64 => ExecutionMode::Direct,
            HostArch::X86_64 | HostArch::Riscv64 => ExecutionMode::ForeignBridge,
            HostArch::Unknown => ExecutionMode::ForeignBridge,
        }
    }
}

} // verus!
