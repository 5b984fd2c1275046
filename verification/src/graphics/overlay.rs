//! The CPU overlay: rectangles alpha-blended into a mapped 32-bit buffer.

use vstd::prelude::*;
use crate::graphics::buffers::{BufferDescription, DmaBufPlane, GraphicBuffer, PixelFormat};
use crate::graphics::errors::DmaBufError;

verus! {

/// A rectangle and its RGBA colour.
#[derive(Debug, Clone, Copy, PartialEq, Eq)]
pub struct OverlayRect {
    pub x: u32,
    pub y: u32,
    pub width: u32,
    pub height: u32,
    pub color: [u8; 4],
}

#[derive(Debug, Clone, Copy, PartialEq, Eq, Structural)]
pub enum OverlayError {
    InvalidRect,
    InvalidBuffer,
    UnsupportedFormat,
    DmaBuf(DmaBufError),
}

/// A channel blended over the destination: `(c * alpha + d * (255 - alpha)) / 255`.
pub open spec fn blend_channel(c: u8, d: u8, alpha: u8) -> u8 {
    ((c * alpha + d * (255 - alpha)) / 255) as u8
}

/// One pixel at `off` blended with `color`, in the channel order of the format.
pub open spec fn blend_pixel(m: Seq<u8>, off: int, color: Seq<u8>, bgra: bool) -> Seq<u8> {
    let a = color[3];
    if bgra {
        let r = blend_channel(color[0], m[off + 2], a);
        let g = blend_channel(color[1], m[off + 1], a);
        let b = blend_channel(color[2], m[off], a);
        m.update(off, b).update(off + 1, g).update(off + 2, r).update(off + 3, 255)
    } else {
        let r = blend_channel(color[0], m[off], a);
        let g = blend_channel(color[1], m[off + 1], a);
        let b = blend_channel(color[2], m[off + 2], a);
        m.update(off, r).update(off + 1, g).update(off + 2, b).update(off + 3, 255)
    }
}

/// The smaller of two numbers.
pub open spec fn min_int(a: int, b: int) -> int {
    if a < b { a } else { b }
}

/// Where the rectangle ends, clipped to the buffer, in columns and rows.
pub open spec fn x_end(r: OverlayRect, d: BufferDescription) -> int {
    min_int(min_int(r.x + r.width, u32::MAX as int), d.width as int)
}

pub open spec fn y_end(r: OverlayRect, d: BufferDescription) -> int {
    min_int(min_int(r.y + r.height, u32::MAX as int), d.height as int)
}

/// The rectangle's pixels from row `y`, column `x` on, in row order, blended into `m`; None
/// when a pixel lies outside the mapping.
pub open spec fn blend_from(m: Seq<u8>, r: OverlayRect, d: BufferDescription, bgra: bool, y: int, x: int) -> Option<Seq<u8>>
    decreases y_end(r, d) - y, x_end(r, d) - x,
{
    if y >= y_end(r, d) {
        Some(m)
    } else if x >= x_end(r, d) {
        blend_from(m, r, d, bgra, y + 1, min_int(r.x as int, d.width as int))
    } else {
        let off = y * d.stride * 4 + x * 4;
        if off + 4 > m.len() {
            None
        } else {
            blend_from(blend_pixel(m, off, r.color@, bgra), r, d, bgra, y, x + 1)
        }
    }
}

/// The rectangle blended into `m`.
pub open spec fn blend_rect(m: Seq<u8>, r: OverlayRect, d: BufferDescription, bgra: bool) -> Option<Seq<u8>> {
    blend_from(m, r, d, bgra, min_int(r.y as int, d.height as int), min_int(r.x as int, d.width as int))
}

/// The first `k` rectangles blended into `m`, in order.
pub open spec fn blend_all(m: Seq<u8>, rects: Seq<OverlayRect>, d: BufferDescription, bgra: bool, k: int) -> Option<Seq<u8>>
    decreases k,
{
    if k <= 0 {
        Some(m)
    } else {
        match blend_all(m, rects, d, bgra, k - 1) {
            None => None,
            Some(m2) => blend_rect(m2, rects[k - 1], d, bgra),
        }
    }
}

/// An error while blending the first `k` rectangles stays an error.
pub proof fn lemma_blend_none_persists(m: Seq<u8>, rects: Seq<OverlayRect>, d: BufferDescription, bgra: bool, k: int, n: int)
    requires
        0 <= k <= n,
        blend_all(m, rects, d, bgra, k) is None,
    ensures
        blend_all(m, rects, d, bgra, n) is None,
    decreases n - k,
{
    if k < n {
        lemma_blend_none_persists(m, rects, d, bgra, k, n - 1);
    }
}

fn blend_channel_exec(c: u8, d: u8, alpha: u8) -> (r: u8)
    ensures
        r == blend_channel(c, d, alpha),
{
    let a = alpha as u16;
    proof {
        assert(c * a <= 255 * 255) by (nonlinear_arith) requires c <= 255, a <= 255;
        assert(d * (255 - a) <= 255 * (255 - a)) by (nonlinear_arith) requires d <= 255, a <= 255;
        assert(c * a + d * (255 - a) <= 255 * 255) by (nonlinear_arith)
            requires c <= 255, d <= 255, a <= 255;
    }
    ((c as u16 * a + d as u16 * (255 - a)) / 255) as u8
}

/// A list of rectangles blended over buffers.
#[derive(Debug)]
pub struct CpuOverlayManager {
    rectangles: Vec<OverlayRect>,
}

impl CpuOverlayManager {
    /// The rectangles, in the order they were added.
    pub closed spec fn spec_rectangles(&self) -> Seq<OverlayRect> {
        self.rectangles@
    }

    pub fn new() -> (r: CpuOverlayManager)
        ensures
            r.spec_rectangles().len() == 0,
    {
        CpuOverlayManager { rectangles: Vec::new() }
    }

    /// Adds a rectangle; an empty one is refused.
    pub fn add(&mut self, rect: OverlayRect) -> (r: Result<(), OverlayError>)
        ensures
            (rect.width == 0 || rect.height == 0) ==> r == Err::<(), OverlayError>(OverlayError::InvalidRect)
                && final(self).spec_rectangles() == old(self).spec_rectangles(),
            !(rect.width == 0 || rect.height == 0) ==> r is Ok
                && final(self).spec_rectangles() == old(self).spec_rectangles().push(rect),
    {
        if rect.width == 0 || rect.height == 0 {
            return Err(OverlayError::InvalidRect);
        }
        self.rectangles.push(rect);
        Ok(())
    }

    pub fn clear(&mut self)
        ensures
            final(self).spec_rectangles().len() == 0,
    {
        self.rectangles.clear();
    }

    pub fn rectangles(&self) -> (r: &[OverlayRect])
        ensures
            r@ == self.spec_rectangles(),
    {
        self.rectangles.as_slice()
    }

    /// Checks a buffer before mapping it: a 32-bit format and a first plane that can be
    /// mapped. Gives that plane.
    pub fn prepare(&self, buffer: &GraphicBuffer) -> (r: Result<DmaBufPlane, OverlayError>)
        ensures
            !(buffer.spec_description().format is Rgba8888 || buffer.spec_description().format is Bgra8888)
                ==> r == Err::<DmaBufPlane, OverlayError>(OverlayError::UnsupportedFormat),
            (buffer.spec_description().format is Rgba8888 || buffer.spec_description().format is Bgra8888)
                ==> if buffer.spec_planes().len() == 0 {
                    r == Err::<DmaBufPlane, OverlayError>(OverlayError::InvalidBuffer)
                } else {
                    let p = buffer.spec_planes()[0];
                    if p.stride == 0 || p.size < p.offset {
                        r == Err::<DmaBufPlane, OverlayError>(OverlayError::DmaBuf(DmaBufError::InvalidPlane))
                    } else {
                        r == Ok::<DmaBufPlane, OverlayError>(p)
                    }
                },
    {
        let description = buffer.description();
        match description.format {
            PixelFormat::Rgba8888 | PixelFormat::Bgra8888 => {},
            _ => return Err(OverlayError::UnsupportedFormat),
        }
        let planes = buffer.planes();
        if planes.len() == 0 {
            return Err(OverlayError::InvalidBuffer);
        }
        let plane = planes[0];
        match plane.validate() {
            Ok(()) => Ok(plane),
            Err(e) => Err(OverlayError::DmaBuf(e)),
        }
    }

    /// Blends every rectangle, in order, into the mapped pixels of a buffer so described, and
    /// says how many it blended. A pixel outside the mapping stops it with an error.
    pub fn blend(&self, description: BufferDescription, mapping: &mut [u8]) -> (r: Result<usize, OverlayError>)
        ensures
            !(description.format is Rgba8888 || description.format is Bgra8888)
                ==> r == Err::<usize, OverlayError>(OverlayError::UnsupportedFormat) && final(mapping)@ == old(mapping)@,
            (description.format is Rgba8888 || description.format is Bgra8888) ==>
                match blend_all(old(mapping)@, self.spec_rectangles(), description, description.format is Bgra8888,
                    self.spec_rectangles().len() as int) {
                    Some(m) => r == Ok::<usize, OverlayError>(self.spec_rectangles().len() as usize) && final(mapping)@ == m,
                    None => r == Err::<usize, OverlayError>(OverlayError::InvalidBuffer),
                },
    {
        let bgra = match description.format {
            PixelFormat::Rgba8888 => false,
            PixelFormat::Bgra8888 => true,
            _ => return Err(OverlayError::UnsupportedFormat),
        };
        let n = self.rectangles.len();
        let mut k: usize = 0;
        while k < n
            invariant
                k <= n,
                n == self.rectangles@.len(),
                mapping@.len() == old(mapping)@.len(),
                bgra == (description.format is Bgra8888),
                description.format is Rgba8888 || description.format is Bgra8888,
                blend_all(old(mapping)@, self.rectangles@, description, bgra, k as int) == Some(mapping@),
            decreases n - k,
        {
            let rect = self.rectangles[k];
            let ok = blend_one(rect, description, bgra, mapping);
            if !ok {
                proof {
                    lemma_blend_none_persists(old(mapping)@, self.rectangles@, description, bgra, k + 1, n as int);
                }
                return Err(OverlayError::InvalidBuffer);
            }
            k = k + 1;
        }
        Ok(n)
    }
}

/// Blends one rectangle; false when a pixel lies outside the mapping.
fn blend_one(rect: OverlayRect, d: BufferDescription, bgra: bool, mapping: &mut [u8]) -> (ok: bool)
    ensures
        final(mapping)@.len() == old(mapping)@.len(),
        match blend_rect(old(mapping)@, rect, d, bgra) {
            Some(m) => ok && final(mapping)@ == m,
            None => !ok,
        },
{
    let xe: u32 = { let s = rect.x.saturating_add(rect.width); if s < d.width { s } else { d.width } };
    let ye: u32 = { let s = rect.y.saturating_add(rect.height); if s < d.height { s } else { d.height } };
    let x0: u32 = if rect.x < d.width { rect.x } else { d.width };
    let mut y: u32 = if rect.y < d.height { rect.y } else { d.height };
    let len = mapping.len();
    while y < ye
        invariant
            xe == x_end(rect, d),
            ye == y_end(rect, d),
            x0 == min_int(rect.x as int, d.width as int),
            len == mapping@.len(),
            mapping@.len() == old(mapping)@.len(),
            blend_rect(old(mapping)@, rect, d, bgra) == blend_from(mapping@, rect, d, bgra, y as int, x0 as int),
        decreases ye - y,
    {
        let mut x: u32 = x0;
        while x < xe
            invariant
                xe == x_end(rect, d),
                ye == y_end(rect, d),
                y < ye,
                x0 == min_int(rect.x as int, d.width as int),
                len == mapping@.len(),
                mapping@.len() == old(mapping)@.len(),
                blend_rect(old(mapping)@, rect, d, bgra) == blend_from(mapping@, rect, d, bgra, y as int, x as int),
            decreases xe - x,
        {
            proof {
                assert(y as u128 * d.stride as u128 <= 0xffff_ffff * 0xffff_ffff) by (nonlinear_arith)
                    requires y <= 0xffff_ffff, d.stride <= 0xffff_ffff;
            }
            let off: u128 = y as u128 * d.stride as u128 * 4 + x as u128 * 4;
            if off + 4 > len as u128 {
                return false;
            }
            let o = off as usize;
            let ghost before = mapping@;
            let (dr, dg, db) = if bgra { (mapping[o + 2], mapping[o + 1], mapping[o]) } else { (mapping[o], mapping[o + 1], mapping[o + 2]) };
            let a = rect.color[3];
            let r = blend_channel_exec(rect.color[0], dr, a);
            let g = blend_channel_exec(rect.color[1], dg, a);
            let b = blend_channel_exec(rect.color[2], db, a);
            if bgra {
                mapping[o] = b;
                mapping[o + 1] = g;
                mapping[o + 2] = r;
            } else {
                mapping[o] = r;
                mapping[o + 1] = g;
                mapping[o + 2] = b;
            }
            mapping[o + 3] = 255;
            assert(mapping@ =~= blend_pixel(before, o as int, rect.color@, bgra));
            x = x + 1;
        }
        y = y + 1;
    }
    true
}

} // verus!
