use lar::graphics::buffers::{BufferDescription, BufferError, DmaBufPlane, GraphicBuffer, PixelFormat};
use lar::graphics::errors::DmaBufError;
use lar::graphics::native_window::{ANativeWindow, WindowError, WindowState};
use lar::graphics::overlay::{CpuOverlayManager, OverlayError, OverlayRect};

fn desc(width: u32, height: u32, stride: u32, format: PixelFormat) -> BufferDescription {
    BufferDescription { width, height, stride, format }
}

fn plane(fd: i32) -> DmaBufPlane {
    DmaBufPlane { fd, offset: 0, stride: 16, size: 4096, modifier: 0 }
}

fn buffer(fd: i32) -> GraphicBuffer {
    GraphicBuffer::new(desc(4, 4, 4, PixelFormat::Rgba8888), vec![plane(fd)]).unwrap()
}

#[test]
fn descriptions_are_validated() {
    assert_eq!(desc(0, 1, 1, PixelFormat::Rgba8888).validate(), Err(BufferError::InvalidDescription));
    assert_eq!(desc(4, 1, 3, PixelFormat::Rgba8888).validate(), Err(BufferError::InvalidDescription));
    assert_eq!(desc(4, 2, 4, PixelFormat::Nv12).validate(), Ok(()));
    assert_eq!(desc(4, 2, 8, PixelFormat::Rgb565).linear_size(), Some(32));
    assert_eq!(desc(4, 2, 8, PixelFormat::Nv12).linear_size(), None);
    assert_eq!(PixelFormat::Bgra8888.bytes_per_pixel(), Some(4));
    assert_eq!(PixelFormat::Yv12.bytes_per_pixel(), None);
}

#[test]
fn graphic_buffers_need_valid_planes() {
    assert!(matches!(
        GraphicBuffer::new(desc(4, 4, 4, PixelFormat::Rgba8888), vec![]),
        Err(BufferError::InvalidPlane)
    ));
    let bad = DmaBufPlane { fd: 3, offset: 10, stride: 16, size: 5, modifier: 0 };
    assert_eq!(bad.validate(), Err(DmaBufError::InvalidPlane));
    assert!(matches!(
        GraphicBuffer::new(desc(4, 4, 4, PixelFormat::Rgba8888), vec![bad]),
        Err(BufferError::InvalidPlane)
    ));
    let b = buffer(3);
    assert_eq!(b.planes().len(), 1);
    assert!(b.same_as(&b.duplicate()));
    assert!(!b.same_as(&buffer(4)));
}

#[test]
fn overlay_blends_rectangles_into_the_mapping() {
    let mut overlay = CpuOverlayManager::new();
    assert_eq!(
        overlay.add(OverlayRect { x: 0, y: 0, width: 0, height: 1, color: [0; 4] }),
        Err(OverlayError::InvalidRect)
    );
    overlay.add(OverlayRect { x: 0, y: 0, width: 1, height: 1, color: [255, 0, 0, 128] }).unwrap();
    assert_eq!(overlay.rectangles().len(), 1);
    let mut mapping = vec![0u8, 0, 255, 7, 9, 9, 9, 9];
    let applied = overlay.blend(desc(2, 1, 2, PixelFormat::Rgba8888), &mut mapping).unwrap();
    assert_eq!(applied, 1);
    assert_eq!(mapping, vec![128, 0, 127, 255, 9, 9, 9, 9]);
}

#[test]
fn overlay_swaps_channels_for_bgra() {
    let mut overlay = CpuOverlayManager::new();
    overlay.add(OverlayRect { x: 1, y: 0, width: 5, height: 5, color: [10, 20, 30, 255] }).unwrap();
    let mut mapping = vec![0u8; 8];
    overlay.blend(desc(2, 1, 2, PixelFormat::Bgra8888), &mut mapping).unwrap();
    assert_eq!(mapping, vec![0, 0, 0, 0, 30, 20, 10, 255]);
}

#[test]
fn overlay_refuses_short_mappings_and_other_formats() {
    let mut overlay = CpuOverlayManager::new();
    overlay.add(OverlayRect { x: 0, y: 0, width: 2, height: 1, color: [1, 2, 3, 255] }).unwrap();
    let mut short = vec![0u8; 4];
    assert_eq!(overlay.blend(desc(2, 1, 2, PixelFormat::Rgba8888), &mut short), Err(OverlayError::InvalidBuffer));
    let mut mapping = vec![0u8; 8];
    assert_eq!(overlay.blend(desc(2, 1, 2, PixelFormat::Rgb565), &mut mapping), Err(OverlayError::UnsupportedFormat));
    assert_eq!(mapping, vec![0u8; 8]);
    let nv12 = GraphicBuffer::new(desc(4, 4, 4, PixelFormat::Nv12), vec![plane(5)]).unwrap();
    assert_eq!(overlay.prepare(&nv12), Err(OverlayError::UnsupportedFormat));
    assert_eq!(overlay.prepare(&buffer(6)), Ok(plane(6)));
    overlay.clear();
    assert!(overlay.rectangles().is_empty());
}

#[test]
fn native_window_cycles_buffers() {
    let mut window = ANativeWindow::new();
    assert_eq!(window.state(), WindowState::New);
    assert_eq!(window.set_buffer(buffer(1), None), Err(WindowError::InvalidState));
    window.connect().unwrap();
    assert_eq!(window.connect(), Err(WindowError::InvalidState));
    assert!(matches!(window.dequeue(), Err(WindowError::NoBuffer)));

    window.set_buffer(buffer(1), None).unwrap();
    window.set_buffer(buffer(2), None).unwrap();
    window.set_buffer(buffer(3), None).unwrap();
    assert_eq!(window.set_buffer(buffer(4), None), Err(WindowError::QueueFull));

    let first = window.dequeue().unwrap();
    assert!(first.same_as(&buffer(1)));
    assert_eq!(window.queue_buffer(buffer(9), None), Err(WindowError::NotDequeued));
    window.queue_buffer(first, None).unwrap();
    let queued = window.acquire_queued().unwrap();
    assert!(queued.buffer.same_as(&buffer(1)));
    assert!(matches!(window.acquire_queued(), Err(WindowError::NoBuffer)));
    window.release_buffer(queued.buffer, None).unwrap();

    window.disconnect().unwrap();
    assert_eq!(window.state(), WindowState::Disconnected);
    assert!(matches!(window.dequeue(), Err(WindowError::InvalidState)));
}
