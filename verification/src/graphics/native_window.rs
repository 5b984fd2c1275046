//! A native window's buffer queue: buffers are handed to the producer (dequeued), queued back
//! for display, and acquired by the consumer.

use vstd::prelude::*;
use std::collections::VecDeque;
use crate::graphics::buffers::{BufferDescription, DmaBufPlane, GraphicBuffer};
use crate::graphics::errors::SyncFence;

verus! {

/// The most buffers a window holds.
pub const MAX_WINDOW_BUFFERS: usize = 3;

#[derive(Debug, Clone, Copy, PartialEq, Eq, Structural)]
pub enum WindowState {
    New,
    Connected,
    Disconnected,
}

#[derive(Debug, Clone, Copy, PartialEq, Eq, Structural)]
pub enum WindowError {
    InvalidState,
    NoBuffer,
    Poisoned,
    QueueFull,
    NotDequeued,
}

/// A buffer queued for display with its acquire fence.
#[derive(Debug)]
pub struct QueuedBuffer {
    pub buffer: GraphicBuffer,
    pub acquire_fence: Option<SyncFence>,
}

/// The model of a buffer: its description and planes.
pub open spec fn buf_model(b: GraphicBuffer) -> (BufferDescription, Seq<DmaBufPlane>) {
    (b.spec_description(), b.spec_planes())
}

/// The models of a sequence of buffers.
pub open spec fn bufs_model(s: Seq<GraphicBuffer>) -> Seq<(BufferDescription, Seq<DmaBufPlane>)> {
    s.map_values(|b: GraphicBuffer| buf_model(b))
}

/// The models of queued buffers with their fences.
pub open spec fn queued_model(s: Seq<QueuedBuffer>) -> Seq<((BufferDescription, Seq<DmaBufPlane>), Option<SyncFence>)> {
    s.map_values(|q: QueuedBuffer| (buf_model(q.buffer), q.acquire_fence))
}

/// A native window.
#[derive(Debug)]
pub struct ANativeWindow {
    state: WindowState,
    available: VecDeque<GraphicBuffer>,
    dequeued: Vec<GraphicBuffer>,
    queued: VecDeque<QueuedBuffer>,
}

impl ANativeWindow {
    pub closed spec fn spec_state(&self) -> WindowState {
        self.state
    }

    /// Buffers ready to be dequeued, oldest first.
    pub closed spec fn spec_available(&self) -> Seq<(BufferDescription, Seq<DmaBufPlane>)> {
        bufs_model(self.available@)
    }

    /// Buffers held by the producer.
    pub closed spec fn spec_dequeued(&self) -> Seq<(BufferDescription, Seq<DmaBufPlane>)> {
        bufs_model(self.dequeued@)
    }

    /// Buffers queued for display, oldest first.
    pub closed spec fn spec_queued(&self) -> Seq<((BufferDescription, Seq<DmaBufPlane>), Option<SyncFence>)> {
        queued_model(self.queued@)
    }

    /// How many buffers the window holds.
    pub open spec fn held(&self) -> int {
        (self.spec_available().len() + self.spec_dequeued().len() + self.spec_queued().len()) as int
    }

    pub fn new() -> (r: ANativeWindow)
        ensures
            r.spec_state() == WindowState::New,
            r.held() == 0,
    {
        let r = ANativeWindow { state: WindowState::New, available: VecDeque::new(), dequeued: Vec::new(), queued: VecDeque::new() };
        assert(r.spec_available() =~= Seq::empty());
        assert(r.spec_dequeued() =~= Seq::empty());
        assert(r.spec_queued() =~= Seq::empty());
        r
    }

    fn transition(&mut self, state: WindowState) -> (r: Result<(), WindowError>)
        ensures
            (old(self).spec_state() == WindowState::New && state == WindowState::Connected)
                || (old(self).spec_state() == WindowState::Connected && state == WindowState::Disconnected)
                ==> r is Ok && final(self).spec_state() == state,
            !((old(self).spec_state() == WindowState::New && state == WindowState::Connected)
                || (old(self).spec_state() == WindowState::Connected && state == WindowState::Disconnected))
                ==> r == Err::<(), WindowError>(WindowError::InvalidState) && final(self).spec_state() == old(self).spec_state(),
            final(self).spec_available() == old(self).spec_available(),
            final(self).spec_dequeued() == old(self).spec_dequeued(),
            final(self).spec_queued() == old(self).spec_queued(),
    {
        match (self.state, state) {
            (WindowState::New, WindowState::Connected) | (WindowState::Connected, WindowState::Disconnected) => {
                self.state = state;
                Ok(())
            },
            _ => Err(WindowError::InvalidState),
        }
    }

    /// A new window connects once.
    pub fn connect(&mut self) -> (r: Result<(), WindowError>)
        ensures
            old(self).spec_state() == WindowState::New ==> r is Ok && final(self).spec_state() == WindowState::Connected,
            old(self).spec_state() != WindowState::New ==> r == Err::<(), WindowError>(WindowError::InvalidState)
                && final(self).spec_state() == old(self).spec_state(),
            final(self).held() == old(self).held(),
    {
        self.transition(WindowState::Connected)
    }

    /// A connected window disconnects once.
    pub fn disconnect(&mut self) -> (r: Result<(), WindowError>)
        ensures
            old(self).spec_state() == WindowState::Connected ==> r is Ok && final(self).spec_state() == WindowState::Disconnected,
            old(self).spec_state() != WindowState::Connected ==> r == Err::<(), WindowError>(WindowError::InvalidState)
                && final(self).spec_state() == old(self).spec_state(),
            final(self).held() == old(self).held(),
    {
        self.transition(WindowState::Disconnected)
    }

    pub fn state(&self) -> (r: WindowState)
        ensures
            r == self.spec_state(),
    {
        self.state
    }

    /// Adds a buffer to those ready to be dequeued, when connected and not full.
    pub fn set_buffer(&mut self, buffer: GraphicBuffer, acquire: Option<SyncFence>) -> (r: Result<(), WindowError>)
        ensures
            old(self).spec_state() != WindowState::Connected ==> r == Err::<(), WindowError>(WindowError::InvalidState),
            old(self).spec_state() == WindowState::Connected && old(self).held() >= MAX_WINDOW_BUFFERS
                ==> r == Err::<(), WindowError>(WindowError::QueueFull),
            old(self).spec_state() == WindowState::Connected && old(self).held() < MAX_WINDOW_BUFFERS
                ==> r is Ok && final(self).spec_available() == old(self).spec_available().push(buf_model(buffer)),
            r is Err ==> final(self).spec_available() == old(self).spec_available(),
            final(self).spec_state() == old(self).spec_state(),
            final(self).spec_dequeued() == old(self).spec_dequeued(),
            final(self).spec_queued() == old(self).spec_queued(),
    {
        self.release_buffer(buffer, acquire)
    }

    /// Returns a buffer to those ready to be dequeued, when connected and not full.
    pub fn release_buffer(&mut self, buffer: GraphicBuffer, release: Option<SyncFence>) -> (r: Result<(), WindowError>)
        ensures
            old(self).spec_state() != WindowState::Connected ==> r == Err::<(), WindowError>(WindowError::InvalidState),
            old(self).spec_state() == WindowState::Connected && old(self).held() >= MAX_WINDOW_BUFFERS
                ==> r == Err::<(), WindowError>(WindowError::QueueFull),
            old(self).spec_state() == WindowState::Connected && old(self).held() < MAX_WINDOW_BUFFERS
                ==> r is Ok && final(self).spec_available() == old(self).spec_available().push(buf_model(buffer)),
            r is Err ==> final(self).spec_available() == old(self).spec_available(),
            final(self).spec_state() == old(self).spec_state(),
            final(self).spec_dequeued() == old(self).spec_dequeued(),
            final(self).spec_queued() == old(self).spec_queued(),
    {
        if self.state != WindowState::Connected {
            return Err(WindowError::InvalidState);
        }
        if self.available.len() >= MAX_WINDOW_BUFFERS || self.dequeued.len() >= MAX_WINDOW_BUFFERS - self.available.len()
            || self.queued.len() >= MAX_WINDOW_BUFFERS - self.available.len() - self.dequeued.len() {
            return Err(WindowError::QueueFull);
        }
        let ghost before = self.available@;
        self.available.push_back(buffer);
        assert(bufs_model(self.available@) =~= bufs_model(before).push(buf_model(buffer)));
        Ok(())
    }

    /// Hands the oldest ready buffer to the producer, keeping a copy as dequeued.
    pub fn dequeue(&mut self) -> (r: Result<GraphicBuffer, WindowError>)
        ensures
            old(self).spec_state() != WindowState::Connected ==> r == Err::<GraphicBuffer, WindowError>(WindowError::InvalidState)
                && final(self).spec_available() == old(self).spec_available()
                && final(self).spec_dequeued() == old(self).spec_dequeued(),
            old(self).spec_state() == WindowState::Connected && old(self).spec_available().len() == 0
                ==> r == Err::<GraphicBuffer, WindowError>(WindowError::NoBuffer)
                && final(self).spec_available() == old(self).spec_available()
                && final(self).spec_dequeued() == old(self).spec_dequeued(),
            old(self).spec_state() == WindowState::Connected && old(self).spec_available().len() > 0
                ==> (r matches Ok(b) && buf_model(b) == old(self).spec_available()[0]
                    && final(self).spec_available() == old(self).spec_available().drop_first()
                    && final(self).spec_dequeued() == old(self).spec_dequeued().push(buf_model(b))),
            final(self).spec_state() == old(self).spec_state(),
            final(self).spec_queued() == old(self).spec_queued(),
    {
        if self.state != WindowState::Connected {
            return Err(WindowError::InvalidState);
        }
        let ghost before_a = self.available@;
        let ghost before_d = self.dequeued@;
        let buffer = match self.available.pop_front() {
            Some(b) => b,
            None => return Err(WindowError::NoBuffer),
        };
        assert(bufs_model(self.available@) =~= bufs_model(before_a).drop_first());
        self.dequeued.push(buffer.duplicate());
        assert(bufs_model(self.dequeued@) =~= bufs_model(before_d).push(buf_model(buffer)));
        Ok(buffer)
    }

    /// Queues a dequeued buffer for display with its acquire fence.
    pub fn queue_buffer(&mut self, buffer: GraphicBuffer, acquire: Option<SyncFence>) -> (r: Result<(), WindowError>)
        ensures
            old(self).spec_state() != WindowState::Connected ==> r == Err::<(), WindowError>(WindowError::InvalidState),
            old(self).spec_state() == WindowState::Connected && !old(self).spec_dequeued().contains(buf_model(buffer))
                ==> r == Err::<(), WindowError>(WindowError::NotDequeued),
            old(self).spec_state() == WindowState::Connected && old(self).spec_dequeued().contains(buf_model(buffer))
                ==> r is Ok && final(self).spec_queued() == old(self).spec_queued().push((buf_model(buffer), acquire))
                    && final(self).spec_dequeued().len() == old(self).spec_dequeued().len() - 1
                    && final(self).spec_dequeued().to_multiset() == old(self).spec_dequeued().to_multiset().remove(buf_model(buffer)),
            r is Err ==> final(self).spec_queued() == old(self).spec_queued() && final(self).spec_dequeued() == old(self).spec_dequeued(),
            final(self).spec_state() == old(self).spec_state(),
            final(self).spec_available() == old(self).spec_available(),
    {
        if self.state != WindowState::Connected {
            return Err(WindowError::InvalidState);
        }
        let i = match find_buffer(&self.dequeued, &buffer) {
            Some(i) => i,
            None => return Err(WindowError::NotDequeued),
        };
        let ghost before_d = self.dequeued@;
        let ghost before_q = self.queued@;
        proof {
            assert(bufs_model(before_d)[i as int] == buf_model(buffer));
        }
        self.dequeued.swap_remove(i);
        proof {
            let m = bufs_model(before_d);
            assert(bufs_model(self.dequeued@) =~= m.update(i as int, m.last()).drop_last());
            lemma_swap_remove_multiset(m, i as int);
        }
        self.queued.push_back(QueuedBuffer { buffer, acquire_fence: acquire });
        assert(queued_model(self.queued@) =~= queued_model(before_q).push((buf_model(buffer), acquire)));
        Ok(())
    }

    /// Takes the oldest buffer queued for display.
    pub fn acquire_queued(&mut self) -> (r: Result<QueuedBuffer, WindowError>)
        ensures
            old(self).spec_state() != WindowState::Connected ==> r is Err && final(self).spec_queued() == old(self).spec_queued(),
            old(self).spec_state() == WindowState::Connected && old(self).spec_queued().len() == 0
                ==> r is Err && final(self).spec_queued() == old(self).spec_queued(),
            old(self).spec_state() == WindowState::Connected && old(self).spec_queued().len() > 0
                ==> (r matches Ok(q) && (buf_model(q.buffer), q.acquire_fence) == old(self).spec_queued()[0]
                    && final(self).spec_queued() == old(self).spec_queued().drop_first()),
            r matches Err(e) ==> e == (if old(self).spec_state() != WindowState::Connected { WindowError::InvalidState } else { WindowError::NoBuffer }),
            final(self).spec_state() == old(self).spec_state(),
            final(self).spec_available() == old(self).spec_available(),
            final(self).spec_dequeued() == old(self).spec_dequeued(),
    {
        if self.state != WindowState::Connected {
            return Err(WindowError::InvalidState);
        }
        let ghost before = self.queued@;
        match self.queued.pop_front() {
            Some(q) => {
                assert(queued_model(self.queued@) =~= queued_model(before).drop_first());
                Ok(q)
            },
            None => Err(WindowError::NoBuffer),
        }
    }
}

fn find_buffer(v: &Vec<GraphicBuffer>, b: &GraphicBuffer) -> (r: Option<usize>)
    ensures
        match r {
            Some(i) => i < v@.len() && bufs_model(v@)[i as int] == buf_model(*b),
            None => !bufs_model(v@).contains(buf_model(*b)),
        },
{
    let mut i: usize = 0;
    let n = v.len();
    while i < n
        invariant
            0 <= i <= n,
            n == v@.len(),
            forall|j: int| 0 <= j < i ==> bufs_model(v@)[j] != buf_model(*b),
        decreases n - i,
    {
        if v[i].same_as(b) {
            return Some(i);
        }
        i = i + 1;
    }
    None
}

/// Moving the last element into position `i` and dropping the last keeps the other elements.
pub proof fn lemma_swap_remove_multiset<A>(m: Seq<A>, i: int)
    requires
        0 <= i < m.len(),
    ensures
        m.update(i, m.last()).drop_last().to_multiset() == m.to_multiset().remove(m[i]),
{
    broadcast use vstd::seq_lib::group_to_multiset_ensures;
    let s = m.update(i, m.last()).drop_last();
    vstd::seq_lib::to_multiset_remove(m, i);
    let r = m.remove(i);
    if i < m.len() - 1 {
        assert(s =~= r.subrange(0, i).push(m.last()) + r.subrange(i, r.len() - 1));
        assert(r =~= r.subrange(0, i) + r.subrange(i, r.len() - 1).push(m.last()));
        vstd::seq_lib::lemma_multiset_commutative(r.subrange(0, i).push(m.last()), r.subrange(i, r.len() - 1));
        vstd::seq_lib::lemma_multiset_commutative(r.subrange(0, i), r.subrange(i, r.len() - 1).push(m.last()));
        vstd::seq_lib::lemma_multiset_commutative(r.subrange(0, i), r.subrange(i, r.len() - 1));
    } else {
        assert(s =~= r);
    }
}

} // verus!
