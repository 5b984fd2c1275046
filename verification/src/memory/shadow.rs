//! Read-only shadow copy of executable ELF PT_LOAD segments.
use vstd::prelude::*;

use crate::wire::{le32, read_u32};

verus! {

#[derive(Debug, Clone, PartialEq, Eq)]
struct ShadowSegment {
    start: usize,
    bytes: Vec<u8>,
}

/// Copies of executable segments, each with the guest address of its first byte.
#[derive(Debug, Clone, PartialEq, Eq)]
pub struct ShadowText {
    segments: Vec<ShadowSegment>,
}

/// True when `addr` falls inside the segment starting at `start` with contents `bytes`.
pub open spec fn segment_holds(start: usize, bytes: Seq<u8>, addr: usize) -> bool {
    addr >= start && addr - start < bytes.len()
}

/// The word read at `addr` from the first segment (in order) that holds all four of its bytes.
pub open spec fn first_word(segs: Seq<(usize, Seq<u8>)>, addr: usize) -> Option<u32>
    decreases segs.len(),
{
    if segs.len() == 0 {
        None
    } else if addr >= segs[0].0 && addr - segs[0].0 + 4 <= segs[0].1.len() {
        Some(le32(segs[0].1, addr - segs[0].0) as u32)
    } else {
        first_word(segs.drop_first(), addr)
    }
}

/// A segment that holds at least one byte.
pub open spec fn nonempty_segment(p: (usize, Seq<u8>)) -> bool {
    p.1.len() > 0
}

/// Each (start, contents) pair with its contents as a sequence.
pub open spec fn pairs_view(v: Seq<(usize, Vec<u8>)>) -> Seq<(usize, Seq<u8>)> {
    Seq::new(v.len(), |i: int| (v[i].0, v[i].1@))
}

impl ShadowText {
    /// The non-empty segments, in order, as (start, contents).
    pub closed spec fn view_segments(&self) -> Seq<(usize, Seq<u8>)> {
        self.segments@.map_values(|s: ShadowSegment| (s.start, s.bytes@))
    }

    /// Keeps the segments that hold at least one byte, in the given order.
    pub fn new(segments: Vec<(usize, Vec<u8>)>) -> (r: ShadowText)
        ensures
            r.view_segments() == pairs_view(segments@).filter(
                |p: (usize, Seq<u8>)| nonempty_segment(p),
            ),
    {
        let ghost all = pairs_view(segments@);
        let mut out: Vec<ShadowSegment> = Vec::new();
        let mut rest = segments;
        let ghost n = all.len();
        while rest.len() > 0
            invariant
                rest@.len() <= n,
                n == all.len(),
                pairs_view(rest@) == all.skip(n - rest@.len()),
                out@.map_values(|s: ShadowSegment| (s.start, s.bytes@)) == all.subrange(0, n - rest@.len()).filter(|p: (usize, Seq<u8>)| nonempty_segment(p)),
            decreases rest@.len(),
        {
            let ghost k = n - rest@.len();
            let ghost old_rest = rest@;
            let (start, bytes) = rest.remove(0);
            proof {
                assert(pairs_view(old_rest)[0] == all.skip(k)[0]);
                assert((start, bytes@) == all[k]);
                assert(all.subrange(0, k + 1).drop_last() =~= all.subrange(0, k));
                assert forall|i: int| 0 <= i < rest@.len() implies
                    #[trigger] pairs_view(rest@)[i] == all.skip(k + 1)[i] by {
                    assert(rest@[i] == old_rest[i + 1]);
                    assert(pairs_view(old_rest)[i + 1] == all.skip(k)[i + 1]);
                }
                assert(pairs_view(rest@) =~= all.skip(k + 1));
                reveal_with_fuel(Seq::filter, 1);
            }
            proof {
                assert(all.subrange(0, k + 1).filter(|p: (usize, Seq<u8>)| nonempty_segment(p)) == if nonempty_segment(all[k]) {
                    all.subrange(0, k).filter(|p: (usize, Seq<u8>)| nonempty_segment(p)).push(all[k])
                } else {
                    all.subrange(0, k).filter(|p: (usize, Seq<u8>)| nonempty_segment(p))
                });
            }
            assert(nonempty_segment(all[k]) == (bytes@.len() > 0));
            if bytes.len() > 0 {
                let ghost before = out@;
                out.push(ShadowSegment { start, bytes });
                proof {
                    assert(out@.map_values(|s: ShadowSegment| (s.start, s.bytes@)) =~= before.map_values(
                        |s: ShadowSegment| (s.start, s.bytes@)).push(all[k]));
                }
            }
        }
        proof {
            assert(all.subrange(0, n as int) =~= all);
        }
        ShadowText { segments: out }
    }

    /// True when some segment holds the byte at `addr`.
    pub fn contains(&self, addr: usize) -> (r: bool)
        ensures
            r == exists|i: int| 0 <= i < self.view_segments().len()
                && #[trigger] segment_holds(self.view_segments()[i].0, self.view_segments()[i].1, addr),
    {
        let n = self.segments.len();
        let mut i: usize = 0;
        while i < n
            invariant
                0 <= i <= n,
                n == self.segments@.len(),
                forall|j: int| 0 <= j < i ==> !#[trigger] segment_holds(
                    self.view_segments()[j].0, self.view_segments()[j].1, addr),
            decreases n - i,
        {
            let seg = &self.segments[i];
            assert(self.view_segments()[i as int] == (seg.start, seg.bytes@));
            if addr >= seg.start && addr - seg.start < seg.bytes.len() {
                assert(segment_holds(self.view_segments()[i as int].0, self.view_segments()[i as int].1, addr));
                return true;
            }
            i = i + 1;
        }
        false
    }

    /// The little-endian word at `addr` from the first segment holding all its bytes.
    pub fn read_text_u32(&self, addr: usize) -> (r: Option<u32>)
        ensures
            r == first_word(self.view_segments(), addr),
    {
        let n = self.segments.len();
        let mut i: usize = 0;
        assert(self.view_segments().skip(0) =~= self.view_segments());
        while i < n
            invariant
                0 <= i <= n,
                n == self.segments@.len(),
                first_word(self.view_segments(), addr) == first_word(self.view_segments().skip(i as int), addr),
            decreases n - i,
        {
            let seg = &self.segments[i];
            let ghost rest = self.view_segments().skip(i as int);
            assert(rest[0] == (seg.start, seg.bytes@));
            assert(rest.drop_first() =~= self.view_segments().skip(i + 1));
            if addr >= seg.start {
                let offset = addr - seg.start;
                let l = seg.bytes.len();
                if offset <= l && l - offset >= 4 {
                    return Some(read_u32(seg.bytes.as_slice(), offset));
                }
            }
            assert(!(addr >= rest[0].0 && addr - rest[0].0 + 4 <= rest[0].1.len()));
            assert(first_word(rest, addr) == first_word(rest.drop_first(), addr));
            i = i + 1;
        }
        assert(self.view_segments().skip(n as int).len() == 0);
        None
    }

    pub fn is_empty(&self) -> (r: bool)
        ensures
            r == (self.view_segments().len() == 0),
    {
        self.segments.len() == 0
    }
}

} // verus!
