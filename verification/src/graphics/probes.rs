//! What the host's graphics stack offers.

use vstd::prelude::*;

verus! {

/// Whether a part of the stack is there, and from which library.
#[derive(Debug, Clone, Copy, PartialEq, Eq)]
pub struct Capability {
    pub available: bool,
    pub library: Option<&'static str>,
}

/// The parts of the host's graphics stack.
#[derive(Debug, Clone, Copy, PartialEq, Eq)]
pub struct GraphicsCapabilities {
    pub wayland: Capability,
    pub gbm: Capability,
    pub egl: Capability,
    pub vulkan: Capability,
}

impl GraphicsCapabilities {
    /// Whether EGL or Vulkan is there.
    pub fn any_native_backend(&self) -> (r: bool)
        ensures
            r == (self.egl.available || self.vulkan.available),
    {
        self.egl.available || self.vulkan.available
    }

    /// Whether buffers can be shared without copies: Wayland, GBM and a native backend.
    pub fn zero_copy_ready(&self) -> (r: bool)
        ensures
            r == (self.wayland.available && self.gbm.available && (self.egl.available || self.vulkan.available)),
    {
        self.wayland.available && self.gbm.available && self.any_native_backend()
    }
}

} // verus!
