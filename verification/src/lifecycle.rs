//! Runtime life cycle and input events.

use vstd::prelude::*;

verus! {

/// Where the runtime is in its life.
#[derive(Debug, Clone, Copy, PartialEq, Eq, Structural)]
pub enum RuntimeLifecycle {
    Created,
    Started,
    Stopped,
}

/// An input event for the guest.
#[derive(Debug, Clone, Copy, PartialEq, Eq, Structural)]
pub enum InputEvent {
    Key { code: u32, pressed: bool },
    Touch { x: i32, y: i32, pressed: bool },
}

/// Queues input events until the guest takes them.
#[derive(Debug)]
pub struct InputDispatcher {
    events: Vec<InputEvent>,
}

impl InputDispatcher {
    /// The queued events, oldest first.
    pub closed spec fn queued(&self) -> Seq<InputEvent> {
        self.events@
    }

    pub fn new() -> (r: InputDispatcher)
        ensures
            r.queued() == Seq::<InputEvent>::empty(),
    {
        InputDispatcher { events: Vec::new() }
    }

    pub fn push(&mut self, event: InputEvent)
        ensures
            final(self).queued() == old(self).queued().push(event),
    {
        self.events.push(event);
    }

    /// Takes every queued event, oldest first, leaving the queue empty.
    pub fn drain(&mut self) -> (r: Vec<InputEvent>)
        ensures
            r@ == old(self).queued(),
            final(self).queued() == Seq::<InputEvent>::empty(),
    {
        let mut out: Vec<InputEvent> = Vec::new();
        std::mem::swap(&mut out, &mut self.events);
        out
    }

    pub fn len(&self) -> (r: usize)
        ensures
            r == self.queued().len(),
    {
        self.events.len()
    }
}

impl Default for InputDispatcher {
    fn default() -> (r: InputDispatcher)
        ensures
            r.queued() == Seq::<InputEvent>::empty(),
    {
        InputDispatcher::new()
    }
}

/// Events come out of the dispatcher in the order they went in: pushing `a` then `b` into an
/// empty dispatcher and draining gives `[a, b]`.
pub proof fn lemma_input_fifo(a: InputEvent, b: InputEvent)
    ensures
        Seq::<InputEvent>::empty().push(a).push(b) == seq![a, b],
{
    assert(Seq::<InputEvent>::empty().push(a).push(b) =~= seq![a, b]);
}

} // verus!
