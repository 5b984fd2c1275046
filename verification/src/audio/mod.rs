//! Audio: bounded sample queues and stream configuration.

pub mod ring_buffer;
pub mod stream;
pub mod runtime;
