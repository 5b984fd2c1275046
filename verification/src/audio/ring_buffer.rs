//! Bounded first-in first-out queues: a ring of slots and a double-ended queue.

use vstd::prelude::*;
use std::collections::VecDeque;

verus! {

/// Errors of creating a queue.
#[derive(Debug, Clone, Copy, PartialEq, Eq, Structural)]
pub enum RingBufferError {
    InvalidCapacity,
}

/// The slot holding the `i`-th queued item of a ring whose first item is at `start`.
pub open spec fn slot_of(start: int, i: int, cap: int) -> int {
    if start + i < cap { start + i } else { start + i - cap }
}

/// A single-producer single-consumer ring buffer of fixed capacity.
pub struct SpscRingBuffer<T> {
    slots: Vec<Option<T>>,
    capacity: usize,
    start: usize,
    count: usize,
}

impl<T> SpscRingBuffer<T> {
    /// Whether the ring is laid out consistently.
    pub closed spec fn wf(&self) -> bool {
        &&& self.capacity > 0
        &&& self.slots@.len() == self.capacity
        &&& self.start < self.capacity
        &&& self.count <= self.capacity
        &&& forall|i: int| 0 <= i < self.count ==> (#[trigger] self.slots@[slot_of(self.start as int, i, self.capacity as int)]) is Some
    }

    /// The queued items, oldest first.
    pub closed spec fn view(&self) -> Seq<T> {
        Seq::new(self.count as nat, |i: int| self.slots@[slot_of(self.start as int, i, self.capacity as int)]->0)
    }

    /// The capacity.
    pub closed spec fn spec_capacity(&self) -> nat {
        self.capacity as nat
    }

    /// A queue never holds more than its capacity.
    pub proof fn lemma_len_le_capacity(&self)
        requires
            self.wf(),
        ensures
            self.view().len() <= self.spec_capacity(),
    {
    }

    /// An empty ring for `capacity` items; a capacity of zero is refused.
    pub fn new(capacity: usize) -> (r: Result<Self, RingBufferError>)
        ensures
            capacity == 0 ==> r == Err::<Self, RingBufferError>(RingBufferError::InvalidCapacity),
            capacity > 0 ==> (r matches Ok(b) && b.wf() && b.view().len() == 0 && b.spec_capacity() == capacity),
    {
        if capacity == 0 {
            return Err(RingBufferError::InvalidCapacity);
        }
        let mut slots: Vec<Option<T>> = Vec::new();
        let mut i: usize = 0;
        while i < capacity
            invariant
                i <= capacity,
                slots@.len() == i,
            decreases capacity - i,
        {
            slots.push(None);
            i = i + 1;
        }
        Ok(SpscRingBuffer { slots, capacity, start: 0, count: 0 })
    }

    pub fn capacity(&self) -> (r: usize)
        ensures
            r == self.spec_capacity(),
    {
        self.capacity
    }

    pub fn len(&self) -> (r: usize)
        requires
            self.wf(),
        ensures
            r == self.view().len(),
    {
        self.count
    }

    pub fn is_empty(&self) -> (r: bool)
        requires
            self.wf(),
        ensures
            r == (self.view().len() == 0),
    {
        self.count == 0
    }

    pub fn is_full(&self) -> (r: bool)
        requires
            self.wf(),
        ensures
            r == (self.view().len() == self.spec_capacity()),
    {
        self.count == self.capacity
    }

    /// Appends `value` unless the ring is full; a full ring hands it back.
    pub fn push(&mut self, value: T) -> (r: Result<(), T>)
        requires
            old(self).wf(),
        ensures
            final(self).wf(),
            final(self).spec_capacity() == old(self).spec_capacity(),
            old(self).view().len() == old(self).spec_capacity() ==> r == Err::<(), T>(value) && final(self).view() == old(self).view(),
            old(self).view().len() < old(self).spec_capacity() ==> r is Ok && final(self).view() == old(self).view().push(value),
    {
        if self.count == self.capacity {
            return Err(value);
        }
        let idx = if self.start < self.capacity - self.count { self.start + self.count } else { self.start - (self.capacity - self.count) };
        let ghost old_view = self.view();
        self.slots[idx] = Some(value);
        self.count = self.count + 1;
        proof {
            assert forall|i: int| 0 <= i < self.count implies (#[trigger] self.slots@[slot_of(self.start as int, i, self.capacity as int)]) is Some by {
                if i < self.count - 1 {
                    assert(slot_of(self.start as int, i, self.capacity as int) != idx);
                }
            }
            assert(self.view() =~= old_view.push(value)) by {
                assert forall|i: int| 0 <= i < self.count - 1 implies #[trigger] self.view()[i] == old_view[i] by {
                    assert(slot_of(self.start as int, i, self.capacity as int) != idx);
                }
            }
        }
        Ok(())
    }

    /// Takes the oldest item, if any.
    pub fn pop(&mut self) -> (r: Option<T>)
        requires
            old(self).wf(),
        ensures
            final(self).wf(),
            final(self).spec_capacity() == old(self).spec_capacity(),
            old(self).view().len() == 0 ==> r is None && final(self).view() == old(self).view(),
            old(self).view().len() > 0 ==> r == Some(old(self).view()[0]) && final(self).view() == old(self).view().drop_first(),
    {
        if self.count == 0 {
            return None;
        }
        let ghost old_view = self.view();
        let ghost old_slots = self.slots@;
        let idx = self.start;
        assert(old_slots[slot_of(self.start as int, 0, self.capacity as int)] is Some);
        let mut taken: Option<T> = None;
        std::mem::swap(&mut taken, &mut self.slots[idx]);
        self.start = if self.start + 1 == self.capacity { 0 } else { self.start + 1 };
        self.count = self.count - 1;
        proof {
            assert forall|i: int| 0 <= i < self.count implies (#[trigger] self.slots@[slot_of(self.start as int, i, self.capacity as int)]) is Some by {
                assert(slot_of(self.start as int, i, self.capacity as int) == slot_of(idx as int, i + 1, self.capacity as int));
                assert(old_slots[slot_of(idx as int, i + 1, self.capacity as int)] is Some);
            }
            assert(self.view() =~= old_view.drop_first()) by {
                assert forall|i: int| 0 <= i < self.count implies #[trigger] self.view()[i] == old_view.drop_first()[i] by {
                    assert(slot_of(self.start as int, i, self.capacity as int) == slot_of(idx as int, i + 1, self.capacity as int));
                }
            }
        }
        taken
    }
}

/// A bounded queue over a double-ended queue.
pub struct MutexRingBuffer<T> {
    queue: VecDeque<T>,
    capacity: usize,
}

impl<T> MutexRingBuffer<T> {
    /// Whether the queue holds no more than its capacity.
    pub closed spec fn wf(&self) -> bool {
        self.capacity > 0 && self.queue@.len() <= self.capacity
    }

    /// The queued items, oldest first.
    pub closed spec fn view(&self) -> Seq<T> {
        self.queue@
    }

    /// The capacity.
    pub closed spec fn spec_capacity(&self) -> nat {
        self.capacity as nat
    }

    /// A queue never holds more than its capacity.
    pub proof fn lemma_len_le_capacity(&self)
        requires
            self.wf(),
        ensures
            self.view().len() <= self.spec_capacity(),
    {
    }

    /// An empty queue for `capacity` items; a capacity of zero is refused.
    pub fn new(capacity: usize) -> (r: Result<Self, RingBufferError>)
        ensures
            capacity == 0 ==> r == Err::<Self, RingBufferError>(RingBufferError::InvalidCapacity),
            capacity > 0 ==> (r matches Ok(b) && b.wf() && b.view().len() == 0 && b.spec_capacity() == capacity),
    {
        if capacity == 0 {
            return Err(RingBufferError::InvalidCapacity);
        }
        Ok(MutexRingBuffer { queue: VecDeque::with_capacity(capacity), capacity })
    }

    pub fn capacity(&self) -> (r: usize)
        ensures
            r == self.spec_capacity(),
    {
        self.capacity
    }

    pub fn len(&self) -> (r: usize)
        ensures
            r == self.view().len(),
    {
        self.queue.len()
    }

    pub fn is_empty(&self) -> (r: bool)
        ensures
            r == (self.view().len() == 0),
    {
        self.queue.len() == 0
    }

    /// Appends `value` unless the queue is full; a full queue hands it back.
    pub fn push(&mut self, value: T) -> (r: Result<(), T>)
        requires
            old(self).wf(),
        ensures
            final(self).wf(),
            final(self).spec_capacity() == old(self).spec_capacity(),
            old(self).view().len() == old(self).spec_capacity() ==> r == Err::<(), T>(value) && final(self).view() == old(self).view(),
            old(self).view().len() < old(self).spec_capacity() ==> r is Ok && final(self).view() == old(self).view().push(value),
    {
        if self.queue.len() == self.capacity {
            return Err(value);
        }
        self.queue.push_back(value);
        Ok(())
    }

    /// Takes the oldest item, if any.
    pub fn pop(&mut self) -> (r: Option<T>)
        requires
            old(self).wf(),
        ensures
            final(self).wf(),
            final(self).spec_capacity() == old(self).spec_capacity(),
            old(self).view().len() == 0 ==> r is None && final(self).view() == old(self).view(),
            old(self).view().len() > 0 ==> r == Some(old(self).view()[0]) && final(self).view() == old(self).view().drop_first(),
    {
        self.queue.pop_front()
    }
}

} // verus!
