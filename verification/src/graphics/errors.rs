//! Errors of the host graphics, DMA-BUF and virtual touch layers.

use vstd::prelude::*;

verus! {

#[derive(Debug, Clone, Copy, PartialEq, Eq, Structural)]
pub enum FenceKind {
    Acquire,
    Release,
}

#[derive(Debug, Clone, Copy, PartialEq, Eq, Structural)]
pub enum DmaBufError {
    InvalidPlane,
    InvalidFence,
    PollFailed(i32),
    DuplicateFailed(i32),
    MapFailed(i32),
}

/// A sync fence: its file descriptor's number and what it guards.
#[derive(Debug, Clone, Copy, PartialEq, Eq, Structural)]
pub struct SyncFence {
    pub fd: i32,
    pub kind: FenceKind,
}

/// Errors of the host's Wayland, DRM and GBM layers; I/O errors carry their text.
#[derive(Debug, Clone)]
pub enum HostGraphicsError {
    Io(String),
    LibraryUnavailable,
    MissingSymbol,
    WaylandConnectionFailed,
    DrmNodeUnavailable,
    GbmDeviceFailed,
    BufferAllocationFailed,
    BufferExportFailed,
    UnsupportedFormat,
}

/// Errors of the virtual touch device; I/O errors carry their text.
#[derive(Debug, Clone)]
pub enum VirtualTouchError {
    Unsupported,
    InvalidEvent,
    Io(String),
}

} // verus!
