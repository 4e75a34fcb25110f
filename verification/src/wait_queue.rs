//! The wait queue shared by the semaphore, rwlock, notify, barrier and
//! once-cell primitives.
//!
//! The queue is reached through a pointer word ([`QueueWord`]). A thread takes
//! it by setting the mark on the published address, or by being the one that
//! fetches a structure where there is none; until it unlocks the queue again,
//! every other thread that tries to take it is told to spin. A structure is
//! fetched for the first waiter and given back as soon as the last one leaves.
use vstd::prelude::*;

use crate::pool::{returned, traded, QueuePool};
use crate::queue_word::{QueueWord, Word};
use crate::signal::{Poll, SignalView, Wake, WakerSlot};
use crate::waiters::{Waiters, WaitersView};

verus! {

/// How an attempt to take the queue ended.
#[derive(Clone, Copy, Debug, PartialEq, Eq, Structural)]
pub enum LockAttempt {
    /// There is no queue, and none was asked for.
    Absent,
    /// Another thread has it: spin and try again.
    Busy,
    /// The caller has the queue to itself until it unlocks it.
    Held,
}

/// A wait queue.
pub struct WaitQueue {
    door: QueueWord,
    waiters: Waiters,
}

/// A wait queue's pointer word and its waiters.
#[verifier::ext_equal]
pub struct WaitQueueView {
    pub door: Word,
    pub waiters: WaitersView,
}

impl WaitQueueView {
    /// One thread has the queue to itself.
    pub open spec fn held(self) -> bool {
        self.door.held()
    }

    /// How an attempt to take the queue ends.
    pub open spec fn attempt(self, alloc: bool) -> LockAttempt {
        match self.door {
            Word::Queue => LockAttempt::Held,
            Word::Unlocked => if alloc {
                LockAttempt::Held
            } else {
                LockAttempt::Absent
            },
            _ => LockAttempt::Busy,
        }
    }

    /// The queue after that attempt.
    pub open spec fn locked(self, alloc: bool) -> WaitQueueView {
        if self.attempt(alloc) is Held {
            WaitQueueView {
                door: if self.door is Queue {
                    Word::Tagged
                } else {
                    Word::Updating
                },
                ..self
            }
        } else {
            self
        }
    }

    /// The queue after it was unlocked: published if somebody waits, gone
    /// otherwise.
    pub open spec fn unlocked(self) -> WaitQueueView {
        WaitQueueView {
            door: if self.waiters.line.len() == 0 {
                Word::Unlocked
            } else {
                Word::Queue
            },
            ..self
        }
    }

    /// The same queue with other waiters.
    pub open spec fn with(self, waiters: WaitersView) -> WaitQueueView {
        WaitQueueView { waiters, ..self }
    }
}

impl View for WaitQueue {
    type V = WaitQueueView;

    closed spec fn view(&self) -> WaitQueueView {
        WaitQueueView { door: self.door@, waiters: self.waiters@ }
    }
}

impl WaitQueue {
    /// The representation behind the view.
    pub closed spec fn inv(&self) -> bool {
        &&& self.waiters.inv()
        &&& self.door.agrees(self.waiters.home())
        &&& !(self.door@ is Locked)
        &&& self.door@ is Unlocked ==> self.waiters@.line.len() == 0
        &&& self.door@ is Queue ==> self.waiters@.line.len() > 0
    }

    /// The address of the structure that the line stands in.
    pub closed spec fn structure(&self) -> Option<usize> {
        self.waiters.home()
    }

    /// Well-formedness: a published queue is never empty.
    pub open spec fn wf(&self) -> bool {
        self@.waiters.ok() && self.inv()
    }

    /// Nobody is in line where there is no queue, and a published queue is never
    /// empty; and there is a structure exactly while there is a queue.
    pub proof fn lemma_wf(&self)
        requires
            self.wf(),
        ensures
            !(self@.door is Locked),
            self@.door is Unlocked ==> self@.waiters.line.len() == 0,
            self@.door is Queue ==> self@.waiters.line.len() > 0,
            (self.structure() is None) == (self@.door is Unlocked),
    {
        self.door.lemma_agrees(self.waiters.home());
    }

    /// A queue without waiters.
    pub fn new() -> (r: Self)
        ensures
            r.wf(),
            r@ == (WaitQueueView { door: Word::Unlocked, waiters: WaitersView::empty() }),
            r.structure() is None,
    {
        WaitQueue { door: QueueWord::new(), waiters: Waiters::new() }
    }

    /// Tries to take the queue.
    ///
    /// Without a queue, `alloc` decides between fetching a structure from the
    /// pool and reporting that there is none.
    pub fn lock(&mut self, alloc: bool, pool: &mut QueuePool) -> (r: LockAttempt)
        requires
            old(self).wf(),
            old(pool)@.lends(old(self).structure()),
            alloc ==> old(pool)@.serves(old(self).structure()),
        ensures
            final(self).wf(),
            r == old(self)@.attempt(alloc),
            final(self)@ == old(self)@.locked(alloc),
            traded(old(pool)@, old(self).structure(), final(pool)@, final(self).structure()),
    {
        proof {
            self.lemma_wf();
        }
        if alloc && self.door.load() == Word::Unlocked {
            self.door.begin_init(&mut self.waiters, pool);
            return LockAttempt::Held;
        }
        self.lock_existing()
    }

    /// Tries to take the queue, if there is one.
    pub fn lock_existing(&mut self) -> (r: LockAttempt)
        requires
            old(self).wf(),
        ensures
            final(self).wf(),
            r == old(self)@.attempt(false),
            final(self)@ == old(self)@.locked(false),
            final(self).structure() == old(self).structure(),
    {
        match self.door.load() {
            Word::Unlocked => LockAttempt::Absent,
            Word::Queue => {
                self.door.tag();
                LockAttempt::Held
            },
            _ => LockAttempt::Busy,
        }
    }

    /// Publishes the queue again, or gives the structure back to the pool if
    /// nobody waits. Returns whether nobody waits, so that the caller clears its
    /// flag.
    pub fn unlock(&mut self, pool: &mut QueuePool) -> (r: bool)
        requires
            old(self).wf(),
            old(self)@.held(),
            old(pool)@.lends(old(self).structure()),
        ensures
            final(self).wf(),
            final(self)@ == old(self)@.unlocked(),
            r == (old(self)@.waiters.line.len() == 0),
            returned(old(pool)@, old(self).structure(), final(pool)@, final(self).structure()),
    {
        proof {
            self.lemma_wf();
        }
        let is_empty = self.waiters.is_empty();
        if branches::unlikely(is_empty) {
            self.door.retire(&mut self.waiters, pool);
        } else {
            self.door.publish(&self.waiters);
        }
        is_empty
    }

    /// Whether there is no queue at the moment.
    pub fn is_absent(&self) -> (r: bool)
        requires
            self.wf(),
        ensures
            r == (self@.door is Unlocked),
    {
        self.door.load() == Word::Unlocked
    }

    /// Adds a waiter to the end of the line. Returns whether the line was
    /// empty.
    pub fn push(&mut self, id: usize) -> (r: bool)
        requires
            old(self).wf(),
            old(self)@.held(),
            old(self)@.waiters.idle(id),
        ensures
            final(self).wf(),
            final(self).structure() == old(self).structure(),
            final(self)@ == old(self)@.with(old(self)@.waiters.pushed(id)),
            r == (old(self)@.waiters.line.len() == 0),
    {
        proof {
            self.lemma_wf();
        }
        self.waiters.push(id)
    }

    /// The waiter at the front of the line.
    pub fn first(&self) -> (r: Option<usize>)
        requires
            self.wf(),
            self@.held(),
        ensures
            r == if self@.waiters.line.len() == 0 {
                None
            } else {
                Some(self@.waiters.line[0])
            },
    {
        self.waiters.first()
    }

    /// Whether nobody is in line.
    pub fn is_empty(&self) -> (r: bool)
        requires
            self.wf(),
            self@.held(),
        ensures
            r == (self@.waiters.line.len() == 0),
    {
        self.waiters.is_empty()
    }

    /// Takes the first waiter out of the line, to be signaled.
    pub fn pop(&mut self) -> (r: Option<usize>)
        requires
            old(self).wf(),
            old(self)@.held(),
        ensures
            final(self).wf(),
            final(self).structure() == old(self).structure(),
            match r {
                Some(id) => old(self)@.waiters.line.len() > 0 && id == old(self)@.waiters.line[0]
                    && final(self)@ == old(self)@.with(old(self)@.waiters.popped_front(1)),
                None => old(self)@.waiters.line.len() == 0 && final(self)@ == old(self)@,
            },
    {
        self.waiters.pop()
    }

    /// Takes a waiter out of the line, wherever it stands. Returns whether it
    /// was in line.
    pub fn remove(&mut self, id: usize) -> (r: bool)
        requires
            old(self).wf(),
            old(self)@.held(),
        ensures
            final(self).wf(),
            final(self).structure() == old(self).structure(),
            final(self)@ == old(self)@.with(old(self)@.waiters.removed(id)),
            r == old(self)@.waiters.line.contains(id),
            r ==> final(self)@.waiters.idle(id),
    {
        self.waiters.remove(id)
    }

    /// Makes a node for a task.
    pub fn add_none(&mut self) -> (id: usize)
        requires
            old(self).wf(),
        ensures
            final(self).wf(),
            final(self).structure() == old(self).structure(),
            old(self)@.waiters.vacant(id),
            final(self)@ == old(self)@.with(
                old(self)@.waiters.with_new(id, SignalView::fresh_none()),
            ),
            final(self)@.waiters.idle(id),
    {
        self.waiters.add_none()
    }

    /// Makes a node for a thread.
    pub fn add_sync(&mut self, thread: usize) -> (id: usize)
        requires
            old(self).wf(),
        ensures
            final(self).wf(),
            final(self).structure() == old(self).structure(),
            old(self)@.waiters.vacant(id),
            final(self)@ == old(self)@.with(
                old(self)@.waiters.with_new(id, SignalView::fresh_sync(thread)),
            ),
            final(self)@.waiters.idle(id),
    {
        self.waiters.add_sync(thread)
    }

    /// Gives a node back.
    pub fn discard(&mut self, id: usize)
        requires
            old(self).wf(),
            old(self)@.waiters.idle(id),
        ensures
            final(self).wf(),
            final(self).structure() == old(self).structure(),
            final(self)@ == old(self)@.with(
                old(self)@.waiters.with_node(id, SignalView::dead()),
            ),
    {
        self.waiters.discard(id)
    }

    /// Sends a signal to a waiter that was taken out of the line.
    pub fn signal(&mut self, id: usize, value: usize) -> (r: Wake)
        requires
            old(self).wf(),
            old(self)@.waiters.popped.contains(id),
        ensures
            final(self).wf(),
            final(self).structure() == old(self).structure(),
            final(self)@ == old(self)@.with(old(self)@.waiters.after_signal(id, value)),
            r == old(self)@.waiters.nodes[id as int].wake(),
            final(self)@.waiters.idle(id),
    {
        self.waiters.signal(id, value)
    }

    /// Reads the signal.
    pub fn value(&self, id: usize) -> (r: usize)
        requires
            self.wf(),
            self@.waiters.live(id),
        ensures
            r == self@.waiters.nodes[id as int].value,
    {
        self.waiters.value(id)
    }

    /// Writes the signal (the waiter's own write).
    pub fn set_value(&mut self, id: usize, value: usize)
        requires
            old(self).wf(),
            old(self)@.waiters.live(id),
        ensures
            final(self).wf(),
            final(self).structure() == old(self).structure(),
            final(self)@ == old(self)@.with(
                old(self)@.waiters.with_node(
                    id,
                    (SignalView { value, ..old(self)@.waiters.nodes[id as int] }),
                ),
            ),
    {
        self.waiters.set_value(id, value)
    }

    /// Whether the node has somebody to wake.
    pub fn has_waker(&self, id: usize) -> (r: bool)
        requires
            self.wf(),
            self@.waiters.live(id),
        ensures
            r == !(self@.waiters.nodes[id as int].waker is Empty),
    {
        self.waiters.waker(id) != WakerSlot::Empty
    }

    /// Reads the primitive's word.
    pub fn aux(&self, id: usize) -> (r: usize)
        requires
            self.wf(),
            self@.waiters.live(id),
        ensures
            r == self@.waiters.nodes[id as int].aux,
    {
        self.waiters.aux(id)
    }

    /// Writes the primitive's word.
    pub fn set_aux(&mut self, id: usize, aux: usize)
        requires
            old(self).wf(),
            old(self)@.waiters.live(id),
        ensures
            final(self).wf(),
            final(self).structure() == old(self).structure(),
            final(self)@ == old(self)@.with(
                old(self)@.waiters.with_node(
                    id,
                    (SignalView { aux, ..old(self)@.waiters.nodes[id as int] }),
                ),
            ),
    {
        self.waiters.set_aux(id, aux)
    }

    /// Records how many permits are assigned to the waiter.
    pub(crate) fn set_granted(&mut self, id: usize, Ghost(granted): Ghost<nat>)
        requires
            old(self).wf(),
            old(self)@.waiters.live(id),
        ensures
            final(self).wf(),
            final(self).structure() == old(self).structure(),
            final(self)@ == old(self)@.with(
                old(self)@.waiters.with_node(
                    id,
                    (SignalView { granted, ..old(self)@.waiters.nodes[id as int] }),
                ),
            ),
    {
        self.waiters.set_granted(id, Ghost(granted))
    }

    /// Registers the task to wake.
    pub fn register(&mut self, id: usize, waker: usize)
        requires
            old(self).wf(),
            old(self)@.waiters.live(id),
        ensures
            final(self).wf(),
            final(self).structure() == old(self).structure(),
            final(self)@ == old(self)@.with(
                old(self)@.waiters.with_node(
                    id,
                    (SignalView {
                        waker: WakerSlot::Async(waker),
                        ..old(self)@.waiters.nodes[id as int]
                    }),
                ),
            ),
    {
        self.waiters.register(id, waker)
    }

    /// Makes a node what it was when it was new.
    pub fn reset(&mut self, id: usize)
        requires
            old(self).wf(),
            old(self)@.waiters.idle(id),
        ensures
            final(self).wf(),
            final(self).structure() == old(self).structure(),
            final(self)@ == old(self)@.with(
                old(self)@.waiters.with_node(id, SignalView::fresh_none()),
            ),
    {
        self.waiters.reset(id)
    }

    /// Re-arms the waker of a parked task, or learns that the signal has
    /// already been sent: its sender has then emptied the slot.
    pub fn rearm(&mut self, id: usize, waker: usize) -> (r: Poll<usize>)
        requires
            old(self).wf(),
            old(self)@.waiters.live(id),
        ensures
            final(self).wf(),
            final(self).structure() == old(self).structure(),
            old(self)@.waiters.nodes[id as int].waker is Empty ==> final(self)@ == old(self)@ && r
                == Poll::Ready(old(self)@.waiters.nodes[id as int].value),
            !(old(self)@.waiters.nodes[id as int].waker is Empty) ==> r is Pending && final(self)@
                == old(self)@.with(
                old(self)@.waiters.with_node(
                    id,
                    (SignalView {
                        waker: WakerSlot::Async(waker),
                        ..old(self)@.waiters.nodes[id as int]
                    }),
                ),
            ),
    {
        if self.waiters.waker(id) == WakerSlot::Empty {
            Poll::Ready(self.waiters.value(id))
        } else {
            self.waiters.register(id, waker);
            Poll::Pending
        }
    }
}

/// Waiters that were popped one after the other, to be woken in that order
/// once the queue is unlocked.
pub struct PoppedChain {
    nodes: Vec<usize>,
}

impl View for PoppedChain {
    type V = Seq<usize>;

    closed spec fn view(&self) -> Seq<usize> {
        self.nodes@
    }
}

impl WaitersView {
    /// The waiters after `value` was sent to each of `chain`.
    pub open spec fn after_signals(self, chain: Seq<usize>, value: usize) -> WaitersView {
        WaitersView {
            line: self.line,
            nodes: Seq::new(
                self.nodes.len(),
                |i: int|
                    if chain.contains(i as usize) {
                        self.nodes[i].signaled(value)
                    } else {
                        self.nodes[i]
                    },
            ),
            popped: self.popped.difference(chain.to_set()),
        }
    }

    /// What the sender of signals to `chain` has to do, in order.
    pub open spec fn wakes(self, chain: Seq<usize>) -> Seq<Wake> {
        Seq::new(chain.len(), |i: int| self.nodes[chain[i] as int].wake())
    }

    /// The chain holds distinct waiters that were taken out of the line.
    pub open spec fn owns_chain(self, chain: Seq<usize>) -> bool {
        &&& chain.no_duplicates()
        &&& forall|i: int| 0 <= i < chain.len() ==> self.popped.contains(#[trigger] chain[i])
    }
}

impl PoppedChain {
    /// An empty chain.
    pub fn new() -> (r: Self)
        ensures
            r@ == Seq::<usize>::empty(),
    {
        PoppedChain { nodes: Vec::new() }
    }

    /// Appends a waiter that was just popped.
    pub fn append(&mut self, id: usize)
        ensures
            final(self)@ == old(self)@.push(id),
    {
        self.nodes.push(id);
    }

    /// How many waiters the chain holds.
    pub fn len(&self) -> (r: usize)
        ensures
            r == self@.len(),
    {
        self.nodes.len()
    }

    /// Sends `value` to every waiter in the chain, front to back.
    pub fn signal_all(self, queue: &mut WaitQueue, value: usize) -> (r: Vec<Wake>)
        requires
            old(queue).wf(),
            old(queue)@.waiters.owns_chain(self@),
        ensures
            final(queue).wf(),
            final(queue).structure() == old(queue).structure(),
            final(queue)@ == old(queue)@.with(old(queue)@.waiters.after_signals(self@, value)),
            r@ == old(queue)@.waiters.wakes(self@),
    {
        let ghost before = queue@;
        let ghost chain = self@;
        let mut wakes: Vec<Wake> = Vec::new();
        let mut i: usize = 0;
        proof {
            assert(before.waiters.after_signals(chain.take(0), value) =~= before.waiters);
        }
        while i < self.nodes.len()
            invariant
                chain == self@,
                chain == self.nodes@,
                i <= chain.len(),
                before.waiters.owns_chain(chain),
                before.waiters.ok(),
                queue.wf(),
                queue.structure() == old(queue).structure(),
                queue@ == before.with(before.waiters.after_signals(chain.take(i as int), value)),
                wakes@ == before.waiters.wakes(chain.take(i as int)),
            decreases chain.len() - i,
        {
            let id: usize = self.nodes[i];
            let ghost part = chain.take(i as int);
            let ghost more = chain.take(i + 1);
            proof {
                assert(more =~= part.push(id));
                assert(!part.contains(id)) by {
                    if part.contains(id) {
                        let j = part.index_of(id);
                        assert(chain[j] == chain[i as int]);
                    }
                }
                assert(before.waiters.popped.contains(chain[i as int]));
                assert(before.waiters.live(id));
            }
            let wake = queue.signal(id, value);
            wakes.push(wake);
            proof {
                let last = before.waiters.after_signals(part, value).after_signal(id, value);
                let next = before.waiters.after_signals(more, value);
                assert forall|x: usize| more.contains(x) <==> part.contains(x) || x == id by {
                    if part.contains(x) {
                        assert(more[part.index_of(x)] == x);
                    }
                    assert(more[i as int] == id);
                }
                assert(last.nodes =~= next.nodes);
                assert(last.popped =~= next.popped);
                assert(wakes@ =~= before.waiters.wakes(more));
            }
            i = i + 1;
        }
        assert(chain.take(chain.len() as int) =~= chain);
        wakes
    }
}

} // verus!
