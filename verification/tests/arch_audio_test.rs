use lar::arch::context::Arm64CpuContext;
use lar::arch::trampoline::Arm64ContextTrampoline;
use lar::arch::{ExecutionMode, HostArch};
use lar::audio::ring_buffer::{MutexRingBuffer, RingBufferError, SpscRingBuffer};
use lar::audio::runtime::{AudioRuntime, AudioRuntimeError, PipeWireCapabilities};
use lar::audio::stream::{AudioStreamConfig, AudioStreamShim, StreamBackend, StreamDirection, StreamError};
use lar::graphics::probes::{Capability, GraphicsCapabilities};
use lar::memory::mmap::ProtFlags;
use lar::memory::page::is_16k_aligned;

#[test]
fn test_arm64_context_args_and_returns() {
    let mut ctx = Arm64CpuContext::new();
    ctx.set_arg(0, 0x1111);
    ctx.set_arg(1, 0x2222);
    ctx.set_arg(7, 0x8888);

    assert_eq!(ctx.get_arg(0), 0x1111);
    assert_eq!(ctx.get_arg(1), 0x2222);
    assert_eq!(ctx.get_arg(7), 0x8888);

    ctx.set_return(42);
    assert_eq!(ctx.get_return(), 42);
    assert_eq!(ctx.regs[0], 42);
}

#[test]
fn test_arm64_context_float_and_flags() {
    let mut ctx = Arm64CpuContext::new();
    ctx.set_flags(true, false, true, false);
    assert!(ctx.flag_n());
    assert!(!ctx.flag_z());
    assert!(ctx.flag_c());
    assert!(!ctx.flag_v());
    ctx.set_flags(false, true, false, true);
    assert!(!ctx.flag_n() && ctx.flag_z() && !ctx.flag_c() && ctx.flag_v());
}

#[test]
fn link_register_and_frame_pointer() {
    let mut ctx = Arm64CpuContext::new();
    ctx.set_lr(0xdead);
    ctx.set_fp(0xbeef);
    ctx.set_return_secondary(7);
    assert_eq!(ctx.lr(), 0xdead);
    assert_eq!(ctx.regs[30], 0xdead);
    assert_eq!(ctx.fp(), 0xbeef);
    assert_eq!(ctx.regs[29], 0xbeef);
    assert_eq!(ctx.get_return_secondary(), 7);
    assert_eq!(ctx.regs[1], 7);
}

#[test]
fn test_host_arch_detection() {
    assert_eq!(HostArch::X86_64.execution_mode(), ExecutionMode::ForeignBridge);
    assert_eq!(HostArch::Arm64.execution_mode(), ExecutionMode::Direct);
    assert_eq!(HostArch::Riscv64.execution_mode(), ExecutionMode::ForeignBridge);
    assert_eq!(HostArch::Unknown.execution_mode(), ExecutionMode::ForeignBridge);
}

#[test]
fn trampoline_is_emitted_read_exec_and_aligned() {
    let tramp = Arm64ContextTrampoline::emit_address(0x1234_5678).unwrap();
    assert!(is_16k_aligned(tramp.as_ptr()));
    assert_eq!(tramp.protection(), ProtFlags::read_exec());
    assert_eq!(tramp.code_len(), Arm64ContextTrampoline::machine_code(0x1234_5678).len());
}

#[test]
fn spsc_preserves_fifo_order_and_capacity() {
    let mut buffer = SpscRingBuffer::new(2).unwrap();
    assert_eq!(buffer.push(1), Ok(()));
    assert_eq!(buffer.push(2), Ok(()));
    assert_eq!(buffer.push(3), Err(3));
    assert_eq!(buffer.pop(), Some(1));
    assert_eq!(buffer.push(3), Ok(()));
    assert_eq!(buffer.pop(), Some(2));
    assert_eq!(buffer.pop(), Some(3));
    assert_eq!(buffer.pop(), None);
}

#[test]
fn mutex_buffer_preserves_fifo_order_and_capacity() {
    let mut buffer = MutexRingBuffer::new(2).unwrap();
    assert_eq!(buffer.push(1), Ok(()));
    assert_eq!(buffer.push(2), Ok(()));
    assert_eq!(buffer.push(3), Err(3));
    assert_eq!(buffer.pop(), Some(1));
    assert_eq!(buffer.pop(), Some(2));
    assert_eq!(buffer.pop(), None);
}

#[test]
fn ring_buffers_reject_zero_capacity_and_report_len() {
    assert!(matches!(SpscRingBuffer::<u8>::new(0), Err(RingBufferError::InvalidCapacity)));
    assert!(matches!(MutexRingBuffer::<u8>::new(0), Err(RingBufferError::InvalidCapacity)));
    let mut buffer = SpscRingBuffer::new(3).unwrap();
    assert!(buffer.is_empty());
    buffer.push(5u8).unwrap();
    buffer.push(6u8).unwrap();
    assert_eq!(buffer.len(), 2);
    assert_eq!(buffer.capacity(), 3);
    assert!(!buffer.is_full());
    buffer.push(7u8).unwrap();
    assert!(buffer.is_full());
}

fn config() -> AudioStreamConfig {
    AudioStreamConfig { sample_rate: 48_000, channels: 2, frames_per_buffer: 8, direction: StreamDirection::Duplex }
}

#[test]
fn stream_moves_samples_between_endpoints() {
    let mut stream: AudioStreamShim<f32> = AudioStreamShim::open(StreamBackend::AAudio, config()).unwrap();
    assert!(!stream.is_running());
    stream.start().unwrap();
    assert!(stream.is_running());

    let input = [0.25f32, -0.5, 1.0];
    let mut output = [0.0f32; 3];
    assert_eq!(stream.write_output(&input), 3);
    assert_eq!(stream.read_output(&mut output), 3);
    assert_eq!(input, output);
    stream.stop();
    assert!(!stream.is_running());
}

#[test]
fn invalid_config_is_rejected() {
    let config = AudioStreamConfig { sample_rate: 0, ..config() };
    assert!(matches!(
        AudioStreamShim::<f32>::open(StreamBackend::OpenSlEs, config),
        Err(StreamError::InvalidConfig)
    ));
}

#[test]
fn second_start_fails_and_input_round_trips() {
    let mut stream: AudioStreamShim<i16> = AudioStreamShim::open(StreamBackend::OpenSlEs, config()).unwrap();
    stream.start().unwrap();
    assert!(matches!(stream.start(), Err(StreamError::AlreadyRunning)));
    assert_eq!(stream.push_input(&[4, 5]), 2);
    let mut out = [0i16; 4];
    assert_eq!(stream.read_input(&mut out), 2);
    assert_eq!(&out[..2], &[4, 5]);
    assert_eq!(stream.backend(), StreamBackend::OpenSlEs);
    assert_eq!(stream.config(), config());
}

#[test]
fn audio_runtime_needs_pipewire_stream_api() {
    let missing = AudioRuntime::new(PipeWireCapabilities { available: false, version: None, has_stream_api: false });
    assert!(matches!(
        missing.open_stream::<f32>(StreamBackend::AAudio, config()),
        Err(AudioRuntimeError::PipeWireUnavailable)
    ));
    let present = AudioRuntime::new(PipeWireCapabilities {
        available: true,
        version: Some("1.0".to_string()),
        has_stream_api: true,
    });
    assert!(present.open_stream::<f32>(StreamBackend::AAudio, config()).is_ok());
    assert!(matches!(
        present.open_stream::<f32>(StreamBackend::AAudio, AudioStreamConfig { channels: 0, ..config() }),
        Err(AudioRuntimeError::Stream(StreamError::InvalidConfig))
    ));
}

#[test]
fn zero_copy_requires_complete_stack() {
    let available = Capability { available: true, library: Some("test") };
    let unavailable = Capability { available: false, library: None };
    let capabilities = GraphicsCapabilities { wayland: available, gbm: available, egl: unavailable, vulkan: available };
    assert!(capabilities.zero_copy_ready());

    let capabilities = GraphicsCapabilities { wayland: unavailable, ..capabilities };
    assert!(!capabilities.zero_copy_ready());
}

#[test]
fn native_backend_needs_egl_or_vulkan() {
    let on = Capability { available: true, library: None };
    let off = Capability { available: false, library: None };
    let caps = GraphicsCapabilities { wayland: on, gbm: on, egl: off, vulkan: off };
    assert!(!caps.any_native_backend());
    assert!(!caps.zero_copy_ready());
    let caps = GraphicsCapabilities { egl: on, ..caps };
    assert!(caps.any_native_backend());
    assert!(caps.zero_copy_ready());
}
