//! Audio streams: a configuration, a running flag, and sample queues in each direction.

use vstd::prelude::*;
use crate::audio::ring_buffer::{MutexRingBuffer, RingBufferError, SpscRingBuffer};

verus! {

#[derive(Debug, Clone, Copy, PartialEq, Eq, Structural)]
pub enum StreamBackend {
    OpenSlEs,
    AAudio,
}

#[derive(Debug, Clone, Copy, PartialEq, Eq, Structural)]
pub enum StreamDirection {
    Input,
    Output,
    Duplex,
}

/// A stream's format.
#[derive(Debug, Clone, Copy, PartialEq, Eq, Structural)]
pub struct AudioStreamConfig {
    pub sample_rate: u32,
    pub channels: u16,
    pub frames_per_buffer: usize,
    pub direction: StreamDirection,
}

#[derive(Debug, Clone, Copy, PartialEq, Eq, Structural)]
pub enum StreamError {
    InvalidConfig,
    AlreadyRunning,
    RingBuffer(RingBufferError),
}

impl AudioStreamConfig {
    /// The configuration, unless its rate, channel count or buffer size is zero.
    pub fn validate(self) -> (r: Result<Self, StreamError>)
        ensures
            (self.sample_rate == 0 || self.channels == 0 || self.frames_per_buffer == 0)
                ==> r == Err::<Self, StreamError>(StreamError::InvalidConfig),
            !(self.sample_rate == 0 || self.channels == 0 || self.frames_per_buffer == 0) ==> r == Ok::<Self, StreamError>(self),
    {
        if self.sample_rate == 0 || self.channels == 0 || self.frames_per_buffer == 0 {
            return Err(StreamError::InvalidConfig);
        }
        Ok(self)
    }
}

/// How many samples each queue holds: four buffers' worth of frames on every channel.
pub open spec fn queue_samples(c: AudioStreamConfig) -> int {
    c.frames_per_buffer * c.channels * 4
}

/// A stream shim with an input and an output queue of samples of type `S`.
pub struct AudioStreamShim<S> {
    backend: StreamBackend,
    config: AudioStreamConfig,
    input: MutexRingBuffer<S>,
    output: SpscRingBuffer<S>,
    running: bool,
}

impl<S: Copy> AudioStreamShim<S> {
    pub closed spec fn wf(&self) -> bool {
        self.input.wf() && self.output.wf()
    }

    /// The samples written and not yet read back, oldest first.
    pub closed spec fn output_queue(&self) -> Seq<S> {
        self.output.view()
    }

    /// The samples pushed in and not yet read, oldest first.
    pub closed spec fn input_queue(&self) -> Seq<S> {
        self.input.view()
    }

    /// How many samples each queue holds.
    pub closed spec fn queue_capacity(&self) -> nat {
        self.output.spec_capacity()
    }

    /// How many input samples the stream holds.
    pub closed spec fn input_capacity(&self) -> nat {
        self.input.spec_capacity()
    }

    pub closed spec fn spec_running(&self) -> bool {
        self.running
    }

    pub closed spec fn spec_backend(&self) -> StreamBackend {
        self.backend
    }

    pub closed spec fn spec_config(&self) -> AudioStreamConfig {
        self.config
    }

    /// Opens a stopped stream with empty queues sized by the configuration.
    pub fn open(backend: StreamBackend, config: AudioStreamConfig) -> (r: Result<Self, StreamError>)
        ensures
            (config.sample_rate == 0 || config.channels == 0 || config.frames_per_buffer == 0 || queue_samples(config) > usize::MAX)
                ==> r == Err::<Self, StreamError>(StreamError::InvalidConfig),
            !(config.sample_rate == 0 || config.channels == 0 || config.frames_per_buffer == 0 || queue_samples(config) > usize::MAX)
                ==> (r matches Ok(s) && s.wf() && !s.spec_running() && s.spec_backend() == backend && s.spec_config() == config
                    && s.output_queue().len() == 0 && s.input_queue().len() == 0 && s.queue_capacity() == queue_samples(config)),
    {
        let config = config.validate()?;
        let channels = config.channels as usize;
        if config.frames_per_buffer > usize::MAX / channels {
            proof {
                assert(config.frames_per_buffer * channels > usize::MAX) by (nonlinear_arith)
                    requires config.frames_per_buffer > usize::MAX / channels, channels > 0;
                assert(config.frames_per_buffer * channels * 4 >= config.frames_per_buffer * channels) by (nonlinear_arith)
                    requires config.frames_per_buffer > 0, channels > 0;
            }
            return Err(StreamError::InvalidConfig);
        }
        proof {
            assert(config.frames_per_buffer * channels <= usize::MAX) by (nonlinear_arith)
                requires config.frames_per_buffer <= usize::MAX / channels, channels > 0;
            assert(config.frames_per_buffer * channels > 0) by (nonlinear_arith)
                requires config.frames_per_buffer > 0, channels > 0;
        }
        let per = config.frames_per_buffer * channels;
        if per > usize::MAX / 4 {
            return Err(StreamError::InvalidConfig);
        }
        let samples = per * 4;
        let input = match MutexRingBuffer::new(samples) {
            Ok(b) => b,
            Err(e) => return Err(StreamError::RingBuffer(e)),
        };
        let output = match SpscRingBuffer::new(samples) {
            Ok(b) => b,
            Err(e) => return Err(StreamError::RingBuffer(e)),
        };
        Ok(AudioStreamShim { backend, config, input, output, running: false })
    }

    pub fn backend(&self) -> (r: StreamBackend)
        ensures
            r == self.spec_backend(),
    {
        self.backend
    }

    pub fn config(&self) -> (r: AudioStreamConfig)
        ensures
            r == self.spec_config(),
    {
        self.config
    }

    /// Starts the stream; a running stream refuses.
    pub fn start(&mut self) -> (r: Result<(), StreamError>)
        requires
            old(self).wf(),
        ensures
            final(self).wf(),
            old(self).spec_running() ==> r == Err::<(), StreamError>(StreamError::AlreadyRunning),
            !old(self).spec_running() ==> r is Ok,
            final(self).spec_running(),
            final(self).output_queue() == old(self).output_queue(),
            final(self).input_queue() == old(self).input_queue(),
    {
        if self.running {
            return Err(StreamError::AlreadyRunning);
        }
        self.running = true;
        Ok(())
    }

    /// Stops the stream.
    pub fn stop(&mut self)
        requires
            old(self).wf(),
        ensures
            final(self).wf(),
            !final(self).spec_running(),
            final(self).output_queue() == old(self).output_queue(),
            final(self).input_queue() == old(self).input_queue(),
    {
        self.running = false;
    }

    pub fn is_running(&self) -> (r: bool)
        ensures
            r == self.spec_running(),
    {
        self.running
    }

    /// Queues as many output samples as fit, in order, and says how many.
    pub fn write_output(&mut self, samples: &[S]) -> (r: usize)
        requires
            old(self).wf(),
        ensures
            final(self).wf(),
            r <= samples@.len(),
            r == samples@.len() || old(self).output_queue().len() + r == old(self).queue_capacity(),
            final(self).output_queue() == old(self).output_queue() + samples@.subrange(0, r as int),
            final(self).input_queue() == old(self).input_queue(),
            final(self).spec_running() == old(self).spec_running(),
    {
        let mut n: usize = 0;
        while n < samples.len()
            invariant
                n <= samples@.len(),
                self.wf(),
                self.output.spec_capacity() == old(self).output.spec_capacity(),
                self.output.view() == old(self).output.view() + samples@.subrange(0, n as int),
                self.input == old(self).input,
                self.running == old(self).running,
            decreases samples@.len() - n,
        {
            proof {
                self.output.lemma_len_le_capacity();
            }
            match self.output.push(samples[n]) {
                Ok(()) => {},
                Err(_) => {
                    return n;
                },
            }
            n = n + 1;
            assert(self.output.view() =~= old(self).output.view() + samples@.subrange(0, n as int));
        }
        n
    }

    /// Moves queued output samples into `out`, as many as it holds, and says how many.
    pub fn read_output(&mut self, out: &mut [S]) -> (r: usize)
        requires
            old(self).wf(),
        ensures
            final(self).wf(),
            r <= old(out)@.len(),
            r == old(out)@.len() || r == old(self).output_queue().len(),
            r <= old(self).output_queue().len(),
            final(out)@ == old(self).output_queue().subrange(0, r as int) + old(out)@.subrange(r as int, old(out)@.len() as int),
            final(self).output_queue() == old(self).output_queue().subrange(r as int, old(self).output_queue().len() as int),
            final(self).input_queue() == old(self).input_queue(),
            final(self).spec_running() == old(self).spec_running(),
    {
        let mut n: usize = 0;
        let len = out.len();
        while n < len
            invariant
                n <= len,
                len == out@.len(),
                out@.len() == old(out)@.len(),
                self.wf(),
                n <= old(self).output.view().len(),
                self.output.view() == old(self).output.view().subrange(n as int, old(self).output.view().len() as int),
                out@ == old(self).output.view().subrange(0, n as int) + old(out)@.subrange(n as int, old(out)@.len() as int),
                self.input == old(self).input,
                self.running == old(self).running,
            decreases len - n,
        {
            match self.output.pop() {
                Some(v) => {
                    out[n] = v;
                },
                None => {
                    return n;
                },
            }
            n = n + 1;
            assert(out@ =~= old(self).output.view().subrange(0, n as int) + old(out)@.subrange(n as int, old(out)@.len() as int));
            assert(self.output.view() =~= old(self).output.view().subrange(n as int, old(self).output.view().len() as int));
        }
        n
    }

    /// Queues as many input samples as fit, in order, and says how many.
    pub fn push_input(&mut self, samples: &[S]) -> (r: usize)
        requires
            old(self).wf(),
        ensures
            final(self).wf(),
            r <= samples@.len(),
            r == samples@.len() || old(self).input_queue().len() + r == old(self).input_capacity(),
            final(self).input_queue() == old(self).input_queue() + samples@.subrange(0, r as int),
            final(self).output_queue() == old(self).output_queue(),
            final(self).spec_running() == old(self).spec_running(),
    {
        let mut n: usize = 0;
        while n < samples.len()
            invariant
                n <= samples@.len(),
                self.wf(),
                self.input.spec_capacity() == old(self).input.spec_capacity(),
                self.input.view() == old(self).input.view() + samples@.subrange(0, n as int),
                self.output == old(self).output,
                self.running == old(self).running,
            decreases samples@.len() - n,
        {
            proof {
                self.input.lemma_len_le_capacity();
            }
            match self.input.push(samples[n]) {
                Ok(()) => {},
                Err(_) => {
                    return n;
                },
            }
            n = n + 1;
            assert(self.input.view() =~= old(self).input.view() + samples@.subrange(0, n as int));
        }
        n
    }

    /// Moves queued input samples into `out`, as many as it holds, and says how many.
    pub fn read_input(&mut self, out: &mut [S]) -> (r: usize)
        requires
            old(self).wf(),
        ensures
            final(self).wf(),
            r <= old(out)@.len(),
            r == old(out)@.len() || r == old(self).input_queue().len(),
            r <= old(self).input_queue().len(),
            final(out)@ == old(self).input_queue().subrange(0, r as int) + old(out)@.subrange(r as int, old(out)@.len() as int),
            final(self).input_queue() == old(self).input_queue().subrange(r as int, old(self).input_queue().len() as int),
            final(self).output_queue() == old(self).output_queue(),
            final(self).spec_running() == old(self).spec_running(),
    {
        let mut n: usize = 0;
        let len = out.len();
        while n < len
            invariant
                n <= len,
                len == out@.len(),
                out@.len() == old(out)@.len(),
                self.wf(),
                n <= old(self).input.view().len(),
                self.input.view() == old(self).input.view().subrange(n as int, old(self).input.view().len() as int),
                out@ == old(self).input.view().subrange(0, n as int) + old(out)@.subrange(n as int, old(out)@.len() as int),
                self.output == old(self).output,
                self.running == old(self).running,
            decreases len - n,
        {
            match self.input.pop() {
                Some(v) => {
                    out[n] = v;
                },
                None => {
                    return n;
                },
            }
            n = n + 1;
            assert(out@ =~= old(self).input.view().subrange(0, n as int) + old(out)@.subrange(n as int, old(out)@.len() as int));
            assert(self.input.view() =~= old(self).input.view().subrange(n as int, old(self).input.view().len() as int));
        }
        n
    }
}

} // verus!
