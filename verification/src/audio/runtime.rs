//! The audio runtime: opens streams when the host's audio server can carry them.

use vstd::prelude::*;
use crate::audio::stream::{AudioStreamConfig, AudioStreamShim, StreamBackend, StreamError, queue_samples};

verus! {

/// What was found of the host's PipeWire library.
#[derive(Debug, Clone)]
pub struct PipeWireCapabilities {
    pub available: bool,
    pub version: Option<String>,
    pub has_stream_api: bool,
}

#[derive(Debug, Clone, Copy, PartialEq, Eq, Structural)]
pub enum AudioRuntimeError {
    PipeWireUnavailable,
    Stream(StreamError),
}

/// The audio runtime.
#[derive(Debug)]
pub struct AudioRuntime {
    pub capabilities: PipeWireCapabilities,
}

impl AudioRuntime {
    /// A runtime over what was probed of the host.
    pub fn new(capabilities: PipeWireCapabilities) -> (r: AudioRuntime)
        ensures
            r.capabilities == capabilities,
    {
        AudioRuntime { capabilities }
    }

    pub fn capabilities(&self) -> (r: &PipeWireCapabilities)
        ensures
            *r == self.capabilities,
    {
        &self.capabilities
    }

    /// Opens a stream, when PipeWire is there with its stream API.
    pub fn open_stream<S: Copy>(&self, backend: StreamBackend, config: AudioStreamConfig)
        -> (r: Result<AudioStreamShim<S>, AudioRuntimeError>)
        ensures
            !(self.capabilities.available && self.capabilities.has_stream_api)
                ==> r == Err::<AudioStreamShim<S>, AudioRuntimeError>(AudioRuntimeError::PipeWireUnavailable),
            self.capabilities.available && self.capabilities.has_stream_api
                && (config.sample_rate == 0 || config.channels == 0 || config.frames_per_buffer == 0
                    || queue_samples(config) > usize::MAX)
                ==> r == Err::<AudioStreamShim<S>, AudioRuntimeError>(AudioRuntimeError::Stream(StreamError::InvalidConfig)),
            r matches Ok(s) ==> s.wf() && !s.spec_running() && s.spec_backend() == backend && s.spec_config() == config
                && s.output_queue().len() == 0 && s.input_queue().len() == 0,
    {
        if !self.capabilities.available || !self.capabilities.has_stream_api {
            return Err(AudioRuntimeError::PipeWireUnavailable);
        }
        match AudioStreamShim::open(backend, config) {
            Ok(s) => Ok(s),
            Err(e) => Err(AudioRuntimeError::Stream(e)),
        }
    }
}

} // verus!
