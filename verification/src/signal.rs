//! Waiter nodes: the signal a parked thread or task waits for, and the slot
//! that says whom to wake when the signal arrives.
use vstd::prelude::*;

verus! {

/// The waiter has not been prepared for parking.
pub const SIGNAL_UNINIT: usize = 0;

/// The waiter is parked (or about to park) and expects to be woken.
pub const SIGNAL_INIT_WAITING: usize = 1;

/// The waiter was granted what it asked for.
pub const SIGNAL_SIGNALED: usize = 2;

/// The waiter was released by a broadcast.
pub const SIGNAL_ALL: usize = 3;

/// The primitive was closed while the waiter was parked.
pub const SIGNAL_CLOSED: usize = 4;

/// The waiter is asked to look at the state again and to take over.
pub const SIGNAL_RETRY: usize = 5;

/// The outcome has been handed to the caller; nothing may follow.
pub const SIGNAL_RETURNED: usize = usize::MAX;

/// Whom to wake when the signal arrives.
///
/// Threads and wakers are named by numbers that the caller hands out; two
/// wakers with one number wake the same task.
#[derive(Clone, Copy, Debug, PartialEq, Eq, Structural)]
pub enum WakerSlot {
    /// No waker is stored.
    Empty,
    /// A thread that parks.
    Sync(usize),
    /// A task that is polled.
    Async(usize),
}

/// What the sender of a signal still has to do for the waiter.
#[derive(Clone, Copy, Debug, PartialEq, Eq, Structural)]
pub enum Wake {
    /// The waiter finds the signal by itself.
    Nobody,
    /// Unpark this thread.
    Unpark(usize),
    /// Wake the task that registered this waker.
    Task(usize),
}

/// The outcome of one poll.
#[derive(Debug, PartialEq, Eq)]
pub enum Poll<T> {
    /// Done, with this result.
    Ready(T),
    /// Not yet; the task will be woken.
    Pending,
}

impl<T> Poll<T> {
    /// Whether the poll is done.
    pub fn is_ready(&self) -> (r: bool)
        ensures
            r == (self is Ready),
    {
        matches!(self, Poll::Ready(_))
    }

    /// Whether the poll is not done.
    pub fn is_pending(&self) -> (r: bool)
        ensures
            r == (self is Pending),
    {
        matches!(self, Poll::Pending)
    }
}

/// A slot holding the current waker.
pub struct DynamicWaker {
    value: WakerSlot,
}

impl View for DynamicWaker {
    type V = WakerSlot;

    closed spec fn view(&self) -> WakerSlot {
        self.value
    }
}

impl DynamicWaker {
    /// Creates an empty slot.
    pub fn new() -> (r: Self)
        ensures
            r@ == WakerSlot::Empty,
    {
        DynamicWaker { value: WakerSlot::Empty }
    }

    /// Creates a slot that holds a thread.
    pub fn new_sync(thread: usize) -> (r: Self)
        ensures
            r@ == WakerSlot::Sync(thread),
    {
        DynamicWaker { value: WakerSlot::Sync(thread) }
    }

    /// Registers a task, replacing whatever was stored unless the stored waker
    /// already wakes that task.
    pub fn register(&mut self, waker: usize)
        ensures
            final(self)@ == WakerSlot::Async(waker),
    {
        match self.value {
            WakerSlot::Async(val) => {
                if val != waker {
                    self.value = WakerSlot::Async(waker);
                }
            },
            _ => {
                self.value = WakerSlot::Async(waker);
            },
        }
    }

    /// Takes the stored waker, leaving the slot empty.
    pub fn take(&mut self) -> (r: WakerSlot)
        ensures
            r == old(self)@,
            final(self)@ == WakerSlot::Empty,
    {
        let value = self.value;
        self.value = WakerSlot::Empty;
        value
    }

    /// The stored waker.
    pub fn peek(&self) -> (r: WakerSlot)
        ensures
            r == self@,
    {
        self.value
    }
}

/// How dropping a request ended.
#[derive(Debug)]
pub enum Withdrawn {
    /// It is gone; wake these.
    Done(Vec<Wake>),
    /// Its signal is on its way: spin until it is there, and drop again.
    InFlight,
}

/// What a waiter node holds, its link aside.
pub struct SignalView {
    /// One of the `SIGNAL_*` values.
    pub value: usize,
    /// A word that belongs to the primitive: permits still missing, or a
    /// generation.
    pub aux: usize,
    /// Whom to wake.
    pub waker: WakerSlot,
    /// The node belongs to a waiter.
    pub live: bool,
    /// Permits that were assigned to the waiter and not yet taken over by it.
    pub granted: nat,
}

impl SignalView {
    /// A node for a task that has not been polled.
    pub open spec fn fresh_none() -> SignalView {
        SignalView {
            value: SIGNAL_UNINIT,
            aux: 0,
            waker: WakerSlot::Empty,
            live: true,
            granted: 0,
        }
    }

    /// A node for a thread that has not parked.
    pub open spec fn fresh_sync(thread: usize) -> SignalView {
        SignalView { waker: WakerSlot::Sync(thread), ..SignalView::fresh_none() }
    }

    /// A node that belongs to nobody.
    pub open spec fn dead() -> SignalView {
        SignalView { live: false, ..SignalView::fresh_none() }
    }

    /// The node after a signal with `value` was sent to it.
    pub open spec fn signaled(self, value: usize) -> SignalView {
        SignalView { value, waker: WakerSlot::Empty, ..self }
    }

    /// What the sender of a signal has to do for this waiter: a parked thread
    /// is unparked, a spinning one is left alone, a task is woken.
    pub open spec fn wake(self) -> Wake {
        match self.waker {
            WakerSlot::Empty => Wake::Nobody,
            WakerSlot::Sync(thread) => if self.value == SIGNAL_INIT_WAITING {
                Wake::Unpark(thread)
            } else {
                Wake::Nobody
            },
            WakerSlot::Async(waker) => Wake::Task(waker),
        }
    }
}

/// A waiter node of the intrusive wait queue.
pub struct Signal {
    pub next: Option<usize>,
    pub value: usize,
    pub aux: usize,
    pub waker: DynamicWaker,
    pub live: bool,
    pub granted: Ghost<nat>,
}

impl View for Signal {
    type V = SignalView;

    open spec fn view(&self) -> SignalView {
        SignalView {
            value: self.value,
            aux: self.aux,
            waker: self.waker@,
            live: self.live,
            granted: self.granted@,
        }
    }
}

impl Signal {
    /// A node for a task; the waker is registered when it is first polled.
    pub fn new_none() -> (r: Self)
        ensures
            r@ == SignalView::fresh_none(),
            r.next is None,
    {
        Signal {
            next: None,
            value: SIGNAL_UNINIT,
            aux: 0,
            waker: DynamicWaker::new(),
            live: true,
            granted: Ghost(0),
        }
    }

    /// A node for a thread.
    pub fn new_sync(thread: usize) -> (r: Self)
        ensures
            r@ == SignalView::fresh_sync(thread),
            r.next is None,
    {
        Signal {
            next: None,
            value: SIGNAL_UNINIT,
            aux: 0,
            waker: DynamicWaker::new_sync(thread),
            live: true,
            granted: Ghost(0),
        }
    }

    /// Sends `value` to the waiter.
    ///
    /// The waker is taken first: once the waiter can see the value, the node
    /// is no longer the sender's to touch.
    pub fn signal_node(&mut self, value: usize) -> (r: Wake)
        ensures
            final(self)@ == old(self)@.signaled(value),
            final(self).next == old(self).next,
            r == old(self)@.wake(),
    {
        match self.waker.take() {
            WakerSlot::Empty => {
                // The waiter is giving up and watches `value`: publishing the
                // value alone releases it.
                self.value = value;
                Wake::Nobody
            },
            WakerSlot::Sync(thread) => {
                let prev: usize = self.value;
                self.value = value;
                if prev == SIGNAL_INIT_WAITING {
                    Wake::Unpark(thread)
                } else {
                    Wake::Nobody
                }
            },
            WakerSlot::Async(waker) => {
                self.value = value;
                Wake::Task(waker)
            },
        }
    }
}

} // verus!
