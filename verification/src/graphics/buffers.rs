//! Graphic buffer descriptions and the buffers themselves.

use vstd::prelude::*;
use crate::graphics::errors::DmaBufError;

verus! {

#[derive(Debug, Clone, Copy, PartialEq, Eq, Structural)]
pub enum PixelFormat {
    Rgba8888,
    Bgra8888,
    Rgb565,
    Nv12,
    Yv12,
    Unknown(u32),
}

/// Bytes per pixel of the packed formats.
pub open spec fn spec_bytes_per_pixel(f: PixelFormat) -> Option<usize> {
    match f {
        PixelFormat::Rgba8888 | PixelFormat::Bgra8888 => Some(4),
        PixelFormat::Rgb565 => Some(2),
        _ => None,
    }
}

impl PixelFormat {
    pub fn bytes_per_pixel(self) -> (r: Option<usize>)
        ensures
            r == spec_bytes_per_pixel(self),
    {
        match self {
            PixelFormat::Rgba8888 | PixelFormat::Bgra8888 => Some(4),
            PixelFormat::Rgb565 => Some(2),
            _ => None,
        }
    }
}

#[derive(Debug, Clone, Copy, PartialEq, Eq, Structural)]
pub enum BufferError {
    InvalidDescription,
    SizeOverflow,
    InvalidFd,
    InvalidPlane,
}

/// A buffer's size and layout.
#[derive(Debug, Clone, Copy, PartialEq, Eq, Structural)]
pub struct BufferDescription {
    pub width: u32,
    pub height: u32,
    pub stride: u32,
    pub format: PixelFormat,
}

/// The description's check: a positive size, a stride of at least the width, and a row that
/// fits in memory.
pub open spec fn spec_validate(d: BufferDescription) -> Result<(), BufferError> {
    if d.width == 0 || d.height == 0 || d.stride < d.width {
        Err(BufferError::InvalidDescription)
    } else {
        match spec_bytes_per_pixel(d.format) {
            Some(b) => if d.stride * b > usize::MAX { Err(BufferError::SizeOverflow) } else { Ok(()) },
            None => Ok(()),
        }
    }
}

/// The bytes of a packed buffer: stride times height times bytes per pixel, when it fits.
pub open spec fn spec_linear_size(d: BufferDescription) -> Option<usize> {
    match spec_bytes_per_pixel(d.format) {
        None => None,
        Some(b) => if d.stride * d.height * b > usize::MAX { None } else { Some((d.stride * d.height * b) as usize) },
    }
}

impl BufferDescription {
    pub fn validate(&self) -> (r: Result<(), BufferError>)
        ensures
            r == spec_validate(*self),
    {
        if self.width == 0 || self.height == 0 || self.stride < self.width {
            return Err(BufferError::InvalidDescription);
        }
        match self.format.bytes_per_pixel() {
            Some(bytes) => {
                if self.stride as usize > usize::MAX / bytes {
                    proof {
                        assert(self.stride * bytes > usize::MAX) by (nonlinear_arith)
                            requires self.stride > usize::MAX / bytes, bytes > 0;
                    }
                    return Err(BufferError::SizeOverflow);
                }
                proof {
                    assert(self.stride * bytes <= usize::MAX) by (nonlinear_arith)
                        requires self.stride <= usize::MAX / bytes, bytes > 0;
                }
                Ok(())
            },
            None => Ok(()),
        }
    }

    pub fn linear_size(&self) -> (r: Option<usize>)
        ensures
            r == spec_linear_size(*self),
    {
        let bytes = self.format.bytes_per_pixel()?;
        let stride = self.stride as usize;
        let height = self.height as usize;
        if height != 0 && stride > usize::MAX / height {
            proof {
                assert(stride * height > usize::MAX) by (nonlinear_arith)
                    requires stride > usize::MAX / height, height > 0;
                assert(stride * height * bytes >= stride * height) by (nonlinear_arith)
                    requires bytes > 0, stride * height >= 0;
            }
            return None;
        }
        proof {
            assert(stride * height <= usize::MAX) by (nonlinear_arith)
                requires height == 0 || stride <= usize::MAX / height;
        }
        let rows = stride * height;
        if rows > usize::MAX / bytes {
            proof {
                assert(rows * bytes > usize::MAX) by (nonlinear_arith)
                    requires rows > usize::MAX / bytes, bytes > 0;
            }
            return None;
        }
        proof {
            assert(rows * bytes <= usize::MAX) by (nonlinear_arith)
                requires rows <= usize::MAX / bytes, bytes > 0;
        }
        Some(rows * bytes)
    }
}

/// A DMA-BUF plane: its file descriptor's number and its layout.
#[derive(Debug, Clone, Copy, PartialEq, Eq, Structural)]
pub struct DmaBufPlane {
    pub fd: i32,
    pub offset: u32,
    pub stride: u32,
    pub size: u64,
    pub modifier: u64,
}

impl DmaBufPlane {
    /// A plane needs a stride and must reach its offset.
    pub fn validate(&self) -> (r: Result<(), DmaBufError>)
        ensures
            (self.stride == 0 || self.size < self.offset) ==> r == Err::<(), DmaBufError>(DmaBufError::InvalidPlane),
            !(self.stride == 0 || self.size < self.offset) ==> r is Ok,
    {
        if self.stride == 0 || self.size < self.offset as u64 {
            return Err(DmaBufError::InvalidPlane);
        }
        Ok(())
    }
}

/// A described buffer with its planes.
#[derive(Debug)]
pub struct GraphicBuffer {
    description: BufferDescription,
    planes: Vec<DmaBufPlane>,
}

/// Whether every plane is valid.
pub open spec fn planes_valid(p: Seq<DmaBufPlane>) -> bool {
    forall|i: int| 0 <= i < p.len() ==> !((#[trigger] p[i]).stride == 0 || p[i].size < p[i].offset)
}

impl GraphicBuffer {
    pub closed spec fn spec_description(&self) -> BufferDescription {
        self.description
    }

    pub closed spec fn spec_planes(&self) -> Seq<DmaBufPlane> {
        self.planes@
    }

    /// A buffer of a valid description with at least one plane, all valid.
    pub fn new(description: BufferDescription, planes: Vec<DmaBufPlane>) -> (r: Result<Self, BufferError>)
        ensures
            spec_validate(description) matches Err(e) ==> r == Err::<Self, BufferError>(e),
            spec_validate(description) is Ok && (planes@.len() == 0 || !planes_valid(planes@))
                ==> r == Err::<Self, BufferError>(BufferError::InvalidPlane),
            spec_validate(description) is Ok && planes@.len() > 0 && planes_valid(planes@)
                ==> (r matches Ok(b) && b.spec_description() == description && b.spec_planes() == planes@),
    {
        description.validate()?;
        if planes.len() == 0 {
            return Err(BufferError::InvalidPlane);
        }
        let mut i: usize = 0;
        while i < planes.len()
            invariant
                0 <= i <= planes@.len(),
                planes_valid(planes@.subrange(0, i as int)),
                spec_validate(description) is Ok,
            decreases planes@.len() - i,
        {
            if planes[i].validate().is_err() {
                assert(!planes_valid(planes@)) by {
                    assert((planes@[i as int]).stride == 0 || planes@[i as int].size < planes@[i as int].offset);
                }
                return Err(BufferError::InvalidPlane);
            }
            i = i + 1;
            assert(planes_valid(planes@.subrange(0, i as int))) by {
                assert forall|j: int| 0 <= j < i implies !((#[trigger] planes@.subrange(0, i as int)[j]).stride == 0
                    || planes@.subrange(0, i as int)[j].size < planes@.subrange(0, i as int)[j].offset) by {
                    if j < i - 1 {
                        assert(planes@.subrange(0, i as int)[j] == planes@.subrange(0, i - 1)[j]);
                    }
                }
            }
        }
        assert(planes@.subrange(0, planes@.len() as int) =~= planes@);
        Ok(GraphicBuffer { description, planes })
    }

    /// Whether two buffers have the same description and planes.
    pub fn same_as(&self, other: &GraphicBuffer) -> (r: bool)
        ensures
            r == (self.spec_description() == other.spec_description() && self.spec_planes() == other.spec_planes()),
    {
        if self.description != other.description || self.planes.len() != other.planes.len() {
            return false;
        }
        let mut i: usize = 0;
        while i < self.planes.len()
            invariant
                0 <= i <= self.planes@.len(),
                self.planes@.len() == other.planes@.len(),
                forall|j: int| 0 <= j < i ==> self.planes@[j] == other.planes@[j],
            decreases self.planes@.len() - i,
        {
            if self.planes[i] != other.planes[i] {
                return false;
            }
            i = i + 1;
        }
        assert(self.planes@ =~= other.planes@);
        true
    }

    /// A copy of this buffer.
    pub fn duplicate(&self) -> (r: GraphicBuffer)
        ensures
            r.spec_description() == self.spec_description(),
            r.spec_planes() == self.spec_planes(),
    {
        let mut planes: Vec<DmaBufPlane> = Vec::new();
        let mut i: usize = 0;
        while i < self.planes.len()
            invariant
                0 <= i <= self.planes@.len(),
                planes@ == self.planes@.subrange(0, i as int),
            decreases self.planes@.len() - i,
        {
            planes.push(self.planes[i]);
            i = i + 1;
            assert(planes@ =~= self.planes@.subrange(0, i as int));
        }
        assert(planes@ =~= self.planes@);
        GraphicBuffer { description: self.description, planes }
    }

    pub fn description(&self) -> (r: BufferDescription)
        ensures
            r == self.spec_description(),
    {
        self.description
    }

    pub fn planes(&self) -> (r: &[DmaBufPlane])
        ensures
            r@ == self.spec_planes(),
    {
        self.planes.as_slice()
    }
}

} // verus!
