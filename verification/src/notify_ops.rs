//! The operations of a notifier, each run from start to end with no other
//! thread in between.
use vstd::prelude::*;

use crate::generations::{born, lemma_older, older};
use crate::keeps::{
    lemma_keeps_first, lemma_keeps_joined, lemma_keeps_left, lemma_keeps_node, lemma_keeps_queued,
    lemma_keeps_signaled, lemma_keeps_twice, lemma_node_ok,
};
use crate::notify_core::{next_generation, NotifyCore, NotifyView, WaitTurn, GEN_LAST};
use crate::pool::{returned, traded, visited, QueuePool};
use crate::queue_word::Word;
use crate::sem_core::waiting;
use crate::signal::{
    Poll, SignalView, Wake, WakerSlot, Withdrawn, SIGNAL_ALL, SIGNAL_INIT_WAITING, SIGNAL_RETURNED,
    SIGNAL_SIGNALED, SIGNAL_UNINIT,
};
use crate::sync_wait::{after_sync_step, SyncStep, SyncWaiter};
use crate::wait_queue::{LockAttempt, WaitQueueView};
use crate::waiters::{lemma_remove, WaitersView};

verus! {

/// How an attempt to queue up ended.
#[derive(Debug, PartialEq, Eq, Clone, Copy, Structural)]
pub enum WaitOutcome {
    /// The wait completed without parking.
    Completed,
    /// The entry was pushed to the wait queue.
    Enqueued,
}

/// How a blocking wait starts.
#[derive(Debug)]
pub enum Wait {
    /// It is over.
    Ready,
    /// The thread has to wait.
    Wait(SyncWaiter),
}

impl NotifyView {
    /// No thread is in the middle of an operation.
    pub open spec fn settled(self) -> bool {
        self.quiet() && self.owed == 0
    }

    /// A wait that began in generation `captured` is over.
    pub open spec fn completes(self, captured: usize) -> bool {
        self.generation != captured || self.permit
    }

    /// The state after such a wait ended: a stored notification is used up
    /// unless a new generation ended the wait.
    pub open spec fn after_complete(self, captured: usize) -> NotifyView {
        NotifyView { permit: self.permit && self.generation != captured, ..self }
    }

    /// The state after the waiters became `w`.
    pub open spec fn with_waiters(self, w: WaitersView) -> NotifyView {
        NotifyView {
            flag: w.line.len() > 0,
            queue: WaitQueueView {
                door: if w.line.len() > 0 {
                    Word::Queue
                } else {
                    Word::Unlocked
                },
                waiters: w,
            },
            ..self
        }
    }

    /// The state after `entry` joined the line.
    pub open spec fn enqueued(self, entry: usize, captured: usize) -> NotifyView {
        self.with_waiters(
            self.w().with_node(
                entry,
                SignalView { aux: captured, ..self.node(entry) },
            ).pushed(entry),
        )
    }

    /// The state after one notification: the first in line is released, or the
    /// notification is stored.
    pub open spec fn notified_one(self) -> NotifyView {
        if self.line().len() == 0 {
            NotifyView { permit: true, ..self }
        } else {
            self.with_waiters(
                self.w().popped_front(1).after_signal(self.line()[0], SIGNAL_SIGNALED),
            )
        }
    }

    /// Whom to wake after that.
    pub open spec fn one_wakes(self) -> Seq<Wake> {
        if self.line().len() == 0 {
            Seq::empty()
        } else {
            seq![self.node(self.line()[0]).wake()]
        }
    }

    /// How many waiters a new generation releases.
    pub open spec fn releases(self) -> int {
        older(self.w(), next_generation(self.generation), 0) as int
    }

    /// The state after everybody was notified.
    pub open spec fn notified_all(self) -> NotifyView {
        NotifyView {
            generation: next_generation(self.generation),
            ..self.with_waiters(
                self.w().popped_front(self.releases()).after_signals(
                    self.line().take(self.releases()),
                    SIGNAL_ALL,
                ),
            )
        }
    }

    /// Whom to wake after that.
    pub open spec fn all_wakes(self) -> Seq<Wake> {
        self.w().wakes(self.line().take(self.releases()))
    }

    /// `id` is the node of a thread that waits.
    pub open spec fn sync_waits(self, id: usize) -> bool {
        &&& self.w().live(id)
        &&& if self.w().idle(id) {
            self.node(id).value == SIGNAL_SIGNALED || self.node(id).value == SIGNAL_ALL
        } else {
            waiting(self.node(id))
        }
    }

    /// A request that may be polled: fresh, queued (or its signal on its way),
    /// or notified.
    pub open spec fn pollable(self, id: usize) -> bool {
        &&& self.w().live(id)
        &&& match self.node(id).value {
            SIGNAL_UNINIT => self.node(id).waker is Empty && self.w().idle(id),
            SIGNAL_INIT_WAITING => !self.w().idle(id),
            SIGNAL_SIGNALED => self.w().idle(id),
            SIGNAL_ALL => self.w().idle(id),
            _ => false,
        }
    }

    /// A request that may be dropped: one that may be polled, or a completed
    /// one.
    pub open spec fn droppable(self, id: usize) -> bool {
        self.pollable(id) || self.w().idle(id) && self.node(id).value == SIGNAL_RETURNED
    }

    /// Everybody who waits or has a request, `but` aside, can go on in `after`
    /// as if nothing had happened.
    pub open spec fn keeps(self, after: NotifyView, but: Option<usize>) -> bool {
        &&& forall|id: usize|
            self.pollable(id) && but != Some(id) ==> #[trigger] after.pollable(id)
        &&& forall|id: usize|
            self.droppable(id) && but != Some(id) ==> #[trigger] after.droppable(id)
        &&& forall|id: usize|
            self.sync_waits(id) && but != Some(id) ==> #[trigger] after.sync_waits(id)
    }

    /// The node of a task that waits.
    pub open spec fn armed(self, id: usize, waker: usize) -> SignalView {
        SignalView {
            value: SIGNAL_INIT_WAITING,
            waker: WakerSlot::Async(waker),
            ..self.node(id)
        }
    }

    /// The node of a request once it is completed.
    pub open spec fn returned(self, id: usize) -> SignalView {
        SignalView { value: SIGNAL_RETURNED, ..self.node(id) }
    }

    /// The state after a request was polled.
    pub open spec fn polled(self, id: usize, captured: usize, waker: usize) -> NotifyView {
        match self.node(id).value {
            SIGNAL_INIT_WAITING => self.with_node(id, self.armed(id, waker)),
            SIGNAL_UNINIT => if self.completes(captured) {
                self.after_complete(captured).with_node(id, self.returned(id))
            } else {
                self.with_node(id, self.armed(id, waker)).enqueued(id, captured)
            },
            _ => self.with_node(id, self.returned(id)),
        }
    }

    /// The state after a request was dropped: a waiter leaves the line, and a
    /// notification that was meant for it goes to the next.
    pub open spec fn dropped(self, id: usize) -> NotifyView {
        if self.w().popped.contains(id) {
            self
        } else if self.line().contains(id) {
            self.with_waiters(self.w().removed(id).with_node(id, SignalView::dead()))
        } else if self.node(id).value == SIGNAL_SIGNALED {
            self.with_node(id, SignalView::dead()).notified_one()
        } else {
            self.with_node(id, SignalView::dead())
        }
    }
}

impl NotifyCore {
    /// Completes the wait with the queue held, or queues `entry` up.
    pub fn enqueue_or_complete(
        &mut self,
        entry: usize,
        captured: usize,
        pool: &mut QueuePool,
    ) -> (r: WaitOutcome)
        requires
            old(self).wf(),
            old(self)@.quiet(),
            old(self)@.w().idle(entry),
            waiting(old(self)@.node(entry)),
            old(pool)@.serves(old(self).structure()),
        ensures
            final(self).wf(),
            (r is Completed) == old(self)@.completes(captured),
            final(self)@ == if r is Completed {
                old(self)@.after_complete(captured)
            } else {
                old(self)@.enqueued(entry, captured)
            },
            if r is Completed {
                visited(old(pool)@, old(self).structure(), final(pool)@, final(self).structure())
            } else {
                traded(old(pool)@, old(self).structure(), final(pool)@, final(self).structure())
            },
    {
        let ghost before = self@;
        proof {
            self.lemma_structure();
        }
        self.begin_enqueue(pool);
        proof {
            self.lemma_structure();
        }
        let cur: usize = self.mark();
        // No other thread comes in between, so the first look is the last.
        let turn = self.attempt(cur, captured);
        match turn {
            WaitTurn::Completed => {
                self.end(pool);
                proof {
                    self.lemma_structure();
                }
                assert(self@ =~= before.after_complete(captured));
                WaitOutcome::Completed
            },
            _ => {
                self.push_entry(entry, captured);
                self.end(pool);
                proof {
                    self.lemma_structure();
                }
                assert(self@ =~= before.enqueued(entry, captured));
                WaitOutcome::Enqueued
            },
        }
    }

    /// Wakes one waiter, or stores a notification for the next wait. Returns
    /// whom to wake.
    pub fn notify_one(&mut self, pool: &mut QueuePool) -> (r: Vec<Wake>)
        requires
            old(self).wf(),
            old(self)@.quiet(),
            old(pool)@.lends(old(self).structure()),
        ensures
            final(self).wf(),
            final(self)@ == old(self)@.notified_one(),
            r@ == old(self)@.one_wakes(),
            old(self)@.keeps(final(self)@, None),
            returned(old(pool)@, old(self).structure(), final(pool)@, final(self).structure()),
    {
        proof {
            notify_one_keeps_requests(self@);
        }
        let ghost before = self@;
        let mut wakes: Vec<Wake> = Vec::new();
        if self.store_permit() {
            return wakes;
        }
        self.begin_one();
        let popped = self.pop_one();
        self.end(pool);
        if let Some(node) = popped {
            let wake = self.signal(node, SIGNAL_SIGNALED);
            wakes.push(wake);
        }
        assert(self@ =~= before.notified_one());
        wakes
    }

    /// Wakes all current waiters, and everybody whose wait has begun, without
    /// storing a notification. Returns whom to wake.
    pub fn notify_waiters(&mut self, pool: &mut QueuePool) -> (r: Vec<Wake>)
        requires
            old(self).wf(),
            old(self)@.settled(),
            old(pool)@.lends(old(self).structure()),
        ensures
            final(self).wf(),
            final(self)@ == old(self)@.notified_all(),
            final(self)@.settled(),
            r@ == old(self)@.all_wakes(),
            old(self)@.keeps(final(self)@, None),
            returned(old(pool)@, old(self).structure(), final(pool)@, final(self).structure()),
    {
        proof {
            notify_waiters_keeps_requests(self@);
        }
        let ghost before = self@;
        proof {
            lemma_next(before.generation);
            assert forall|i: int| 0 <= i < before.line().len() implies #[trigger] born(
                before.w(),
                i,
            ) != next_generation(before.generation) by {}
            lemma_older(before.w(), next_generation(before.generation), 0);
        }
        if !self.bump() {
            proof {
                assert(before.line().take(0) =~= Seq::<usize>::empty());
                assert(before.w().popped_front(0).after_signals(
                    before.line().take(0),
                    SIGNAL_ALL,
                ) =~= before.w());
                assert(self@ =~= before.notified_all());
                assert(before.all_wakes() =~= Seq::<Wake>::empty());
            }
            return Vec::new();
        }
        let attempt = self.begin_all();
        if attempt != LockAttempt::Held {
            return Vec::new();
        }
        let chain = self.pop_older();
        let ghost ids = chain@;
        self.end(pool);
        proof {
            assert(self@.w().nodes =~= before.w().nodes);
            assert(self@.w().wakes(ids) =~= before.w().wakes(ids));
        }
        let wakes = self.signal_all(chain, SIGNAL_ALL);
        assert(self@ =~= before.notified_all());
        wakes
    }

    /// Starts a blocking wait for a notification.
    pub fn wait(&mut self, thread: usize, pool: &mut QueuePool) -> (r: Wait)
        requires
            old(self).wf(),
            old(self)@.quiet(),
            old(pool)@.serves(old(self).structure()),
        ensures
            final(self).wf(),
            wait_spec(old(self)@, thread, r, final(self)@),
            r matches Wait::Wait(waiter) ==> final(self)@.sync_waits(waiter@.entry),
            old(self)@.keeps(final(self)@, None),
            traded(old(pool)@, old(self).structure(), final(pool)@, final(self).structure()),
    {
        let captured: usize = self.current();
        if self.try_complete(captured) {
            return Wait::Ready;
        }
        self.wait_slow(captured, thread, pool)
    }

    fn wait_slow(&mut self, captured: usize, thread: usize, pool: &mut QueuePool) -> (r: Wait)
        requires
            old(self).wf(),
            old(self)@.quiet(),
            captured == old(self)@.generation,
            !old(self)@.permit,
            old(pool)@.serves(old(self).structure()),
        ensures
            final(self).wf(),
            wait_spec(old(self)@, thread, r, final(self)@),
            r matches Wait::Wait(waiter) ==> final(self)@.sync_waits(waiter@.entry),
            old(self)@.keeps(final(self)@, None),
            traded(old(pool)@, old(self).structure(), final(pool)@, final(self).structure()),
    {
        let ghost before = self@;
        let entry: usize = self.prepare_sync(thread);
        proof {
            lemma_joined(before, entry, thread);
        }
        self.enqueue_or_complete(entry, captured, pool);
        Wait::Wait(SyncWaiter::new(entry, false))
    }

    /// One look of a waiting thread. Returns what it does next, or nothing if
    /// it was notified.
    pub fn wait_step(&mut self, waiter: &mut SyncWaiter) -> (r: Option<SyncStep>)
        requires
            old(self).wf(),
            old(self)@.sync_waits(old(waiter)@.entry),
        ensures
            final(self).wf(),
            final(self).structure() == old(self).structure(),
            final(waiter)@ == old(waiter)@.after_step(old(self)@.node(old(waiter)@.entry).value),
            (r is None) == (old(self)@.node(old(waiter)@.entry).value >= SIGNAL_SIGNALED),
            match r {
                None => final(self)@ == old(self)@.with_node(
                    old(waiter)@.entry,
                    SignalView::dead(),
                ),
                Some(step) => step == old(waiter)@.step(old(self)@.node(old(waiter)@.entry).value)
                    && final(self)@ == (NotifyView {
                    queue: after_sync_step(old(self)@.queue, old(waiter)@),
                    ..old(self)@
                }),
            },
            r is Some ==> final(self)@.sync_waits(old(waiter)@.entry),
            old(self)@.keeps(final(self)@, Some(old(waiter)@.entry)),
    {
        let ghost before = self@;
        let entry: usize = waiter.entry();
        let step = self.sync_step(waiter);
        match step {
            SyncStep::Signaled(_) => {
                assert(self@ =~= before);
                self.discard(entry);
                proof {
                    lemma_keeps_node(before.w(), entry, SignalView::dead(), answers());
                    lemma_keeps(before, self@, Some(entry));
                }
                None
            },
            _ => {
                proof {
                    lemma_keeps_node(before.w(), entry, self@.node(entry), answers());
                    lemma_keeps(before, self@, Some(entry));
                }
                Some(step)
            },
        }
    }

    /// Polls a request whose wait began in generation `captured`.
    pub fn poll(
        &mut self,
        entry: usize,
        captured: usize,
        waker: usize,
        pool: &mut QueuePool,
    ) -> (r: Poll<()>)
        requires
            old(self).wf(),
            old(self)@.quiet(),
            old(self)@.pollable(entry),
            old(pool)@.serves(old(self).structure()),
        ensures
            final(self).wf(),
            r == if old(self)@.node(entry).value == SIGNAL_INIT_WAITING || old(self)@.node(entry).value
                == SIGNAL_UNINIT && !old(self)@.completes(captured) {
                Poll::Pending
            } else {
                Poll::Ready(())
            },
            final(self)@ == old(self)@.polled(entry, captured, waker),
            r is Pending ==> final(self)@.pollable(entry),
            final(self)@.droppable(entry),
            old(self)@.keeps(final(self)@, Some(entry)),
            traded(old(pool)@, old(self).structure(), final(pool)@, final(self).structure()),
    {
        proof {
            poll_keeps_requests(self@, entry, captured, waker);
        }
        let ghost before = self@;
        let sig_val: usize = self.value(entry);
        if branches::likely(sig_val >= SIGNAL_SIGNALED) {
            self.complete(entry);
            return Poll::Ready(());
        }
        if sig_val == SIGNAL_INIT_WAITING {
            self.arm(entry, waker);
            return Poll::Pending;
        }
        if self.try_complete(captured) {
            self.complete(entry);
            assert(self@ =~= before.polled(entry, captured, waker));
            return Poll::Ready(());
        }
        self.arm(entry, waker);
        self.enqueue_or_complete(entry, captured, pool);
        Poll::Pending
    }

    /// Drops a request, in whatever state it is. One that was notified and did
    /// not see it passes the notification on.
    pub fn drop_request(&mut self, entry: usize, pool: &mut QueuePool) -> (r: Withdrawn)
        requires
            old(self).wf(),
            old(self)@.quiet(),
            old(self)@.droppable(entry),
            old(pool)@.lends(old(self).structure()),
        ensures
            final(self).wf(),
            (r is InFlight) == old(self)@.w().popped.contains(entry),
            final(self)@ == old(self)@.dropped(entry),
            r matches Withdrawn::Done(wakes) ==> wakes@ == if old(self)@.node(entry).value
                == SIGNAL_SIGNALED {
                old(self)@.with_node(entry, SignalView::dead()).one_wakes()
            } else {
                Seq::<Wake>::empty()
            },
            r is InFlight ==> final(self)@.droppable(entry),
            old(self)@.keeps(final(self)@, Some(entry)),
            returned(old(pool)@, old(self).structure(), final(pool)@, final(self).structure()),
    {
        proof {
            drop_keeps_requests(self@, entry);
        }
        let ghost before = self@;
        proof {
            if before.line().contains(entry) {
                assert(waiting(before.node(before.line()[before.line().index_of(entry)])));
            }
            if before.w().popped.contains(entry) {
                assert(waiting(before.node(entry)));
            }
        }
        let value: usize = self.value(entry);
        if branches::likely(value == SIGNAL_UNINIT || value == SIGNAL_RETURNED) {
            self.discard(entry);
            return Withdrawn::Done(Vec::new());
        }
        self.drop_slow(entry, value, pool)
    }

    fn drop_slow(&mut self, entry: usize, value: usize, pool: &mut QueuePool) -> (r: Withdrawn)
        requires
            old(self).wf(),
            old(self)@.quiet(),
            old(self)@.pollable(entry),
            value == old(self)@.node(entry).value,
            value != SIGNAL_UNINIT,
            old(pool)@.lends(old(self).structure()),
        ensures
            final(self).wf(),
            (r is InFlight) == old(self)@.w().popped.contains(entry),
            final(self)@ == old(self)@.dropped(entry),
            r matches Withdrawn::Done(wakes) ==> wakes@ == if value == SIGNAL_SIGNALED {
                old(self)@.with_node(entry, SignalView::dead()).one_wakes()
            } else {
                Seq::<Wake>::empty()
            },
            returned(old(pool)@, old(self).structure(), final(pool)@, final(self).structure()),
    {
        let ghost before = self@;
        proof {
            if before.w().popped.contains(entry) {
                assert(waiting(before.node(entry)));
            }
            if before.line().contains(entry) {
                lemma_remove(before.line(), entry);
                assert(waiting(before.node(before.line()[before.line().index_of(entry)])));
            }
        }
        if value == SIGNAL_INIT_WAITING {
            if self.begin_remove() == LockAttempt::Held {
                let found = self.remove_entry(entry);
                self.end(pool);
                if found {
                    self.discard(entry);
                    assert(self@ =~= before.dropped(entry));
                    return Withdrawn::Done(Vec::new());
                }
                assert(self@ =~= before);
            }
            return Withdrawn::InFlight;
        }
        self.discard(entry);
        if value == SIGNAL_SIGNALED {
            return Withdrawn::Done(self.notify_one(pool));
        }
        Withdrawn::Done(Vec::new())
    }
}

/// What a waiter is told.
spec fn answers() -> Set<usize> {
    set![SIGNAL_SIGNALED, SIGNAL_ALL]
}

/// Whoever is left alone by the waiters' account is left alone.
proof fn lemma_keeps(v: NotifyView, after: NotifyView, but: Option<usize>)
    requires
        v.w().keeps(after.w(), but, answers()),
    ensures
        v.keeps(after, but),
{
}

/// A thread that begins to wait disturbs nobody.
proof fn lemma_joined(v: NotifyView, id: usize, thread: usize)
    requires
        !v.w().live(id),
        id <= v.w().nodes.len(),
    ensures
        v.keeps(v.with_new(id, SignalView::fresh_sync(thread)).enqueued(id, v.generation), None),
        v.with_new(id, SignalView::fresh_sync(thread)).enqueued(id, v.generation).sync_waits(id),
{
    let node = SignalView { aux: v.generation, ..SignalView::fresh_sync(thread) };
    let after = v.with_new(id, SignalView::fresh_sync(thread)).enqueued(id, v.generation);
    assert(after.w() =~= v.w().with_new(id, node).pushed(id));
    lemma_keeps_joined(v.w(), id, node, answers());
    lemma_keeps(v, after, None);
}

/// Notifying one disturbs nobody but the one.
pub proof fn notify_one_keeps_requests(v: NotifyView)
    requires
        v.ok(),
    ensures
        v.keeps(v.notified_one(), None),
{
    if v.line().len() > 0 {
        lemma_keeps_first(v.w(), SIGNAL_SIGNALED, answers());
    }
    lemma_keeps(v, v.notified_one(), None);
}

/// Notifying everybody answers some and leaves the rest alone.
pub proof fn notify_waiters_keeps_requests(v: NotifyView)
    requires
        v.ok(),
    ensures
        v.keeps(v.notified_all(), None),
{
    lemma_older(v.w(), next_generation(v.generation), 0);
    lemma_keeps_signaled(v.w(), v.releases(), SIGNAL_ALL, answers());
    lemma_keeps(v, v.notified_all(), None);
}

/// Polling one request disturbs no other, and the request can be polled again
/// unless it is completed.
pub proof fn poll_keeps_requests(v: NotifyView, id: usize, captured: usize, waker: usize)
    requires
        v.ok(),
        v.pollable(id),
    ensures
        v.keeps(v.polled(id, captured, waker), Some(id)),
        v.polled(id, captured, waker).droppable(id),
        v.node(id).value == SIGNAL_INIT_WAITING || v.node(id).value == SIGNAL_UNINIT
            && !v.completes(captured) ==> v.polled(id, captured, waker).pollable(id),
{
    let w = v.w();
    let after = v.polled(id, captured, waker);
    if v.node(id).value == SIGNAL_UNINIT && !v.completes(captured) {
        let node = SignalView { aux: captured, ..v.armed(id, waker) };
        assert(after.w() =~= w.with_node(id, node).pushed(id));
        lemma_keeps_queued(w, id, node, answers());
    } else {
        lemma_keeps_node(w, id, after.node(id), answers());
        assert(after.w() =~= w.with_node(id, after.node(id)));
    }
    lemma_keeps(v, after, Some(id));
}

/// Dropping one request disturbs no other.
pub proof fn drop_keeps_requests(v: NotifyView, id: usize)
    requires
        v.ok(),
        v.droppable(id),
    ensures
        v.keeps(v.dropped(id), Some(id)),
        v.w().popped.contains(id) ==> v.dropped(id).droppable(id),
{
    let w = v.w();
    let dead = w.with_node(id, SignalView::dead());
    lemma_keeps_node(w, id, SignalView::dead(), answers());
    if w.popped.contains(id) {
        lemma_keeps_node(w, id, v.node(id), answers());
        assert(w.with_node(id, v.node(id)) =~= w);
    } else if w.line.contains(id) {
        lemma_keeps_left(w, id, answers());
    } else if v.node(id).value == SIGNAL_SIGNALED && w.line.len() > 0 {
        lemma_node_ok(w, id, SignalView::dead());
        lemma_keeps_first(dead, SIGNAL_SIGNALED, answers());
        lemma_keeps_twice(w, dead, v.dropped(id).w(), Some(id), None, Some(id), answers());
    }
    lemma_keeps(v, v.dropped(id), Some(id));
}

/// How a blocking wait starts, and the state after it.
pub open spec fn wait_spec(v: NotifyView, thread: usize, r: Wait, after: NotifyView) -> bool {
    match r {
        Wait::Ready => v.permit && after == (NotifyView { permit: false, ..v }),
        Wait::Wait(waiter) => !v.permit && waiter@.stage is Arming && waiter@.spins == 0
            && v.w().vacant(waiter@.entry) && after == v.with_new(
            waiter@.entry,
            SignalView::fresh_sync(thread),
        ).enqueued(waiter@.entry, v.generation),
    }
}

proof fn lemma_next(g: usize)
    requires
        g <= GEN_LAST,
    ensures
        next_generation(g) != g,
        next_generation(g) <= GEN_LAST,
{
}

/// Notifying one saturates: with nobody in line, a second notification adds
/// nothing to the first.
pub proof fn notify_one_saturates(v: NotifyView)
    requires
        v.ok(),
        v.quiet(),
        v.line().len() == 0,
    ensures
        v.notified_one().permit,
        v.notified_one().notified_one() == v.notified_one(),
{
    assert(v.notified_one().notified_one() =~= v.notified_one());
}

/// A stored notification is there for the next wait, which uses it up.
pub proof fn stored_notification_is_used_once(v: NotifyView)
    requires
        v.ok(),
        v.quiet(),
        v.line().len() == 0,
    ensures
        v.notified_one().completes(v.generation),
        !v.notified_one().after_complete(v.generation).completes(v.generation),
{
}

/// A notification is never stored while somebody waits.
pub proof fn no_permit_while_waiting(v: NotifyView)
    requires
        v.ok(),
        v.line().len() > 0,
    ensures
        !v.permit,
{
}

/// One notification releases exactly the one that has waited longest.
pub proof fn notify_one_is_fifo(v: NotifyView)
    requires
        v.ok(),
        v.quiet(),
        v.line().len() > 0,
    ensures
        v.notified_one().line() == v.line().skip(1),
        v.notified_one().node(v.line()[0]).value == SIGNAL_SIGNALED,
        v.notified_one().w().idle(v.line()[0]),
        v.notified_one().permit == v.permit,
{
    let id = v.line()[0];
    assert(v.w().live(id));
    assert(!v.line().skip(1).contains(id)) by {
        if v.line().skip(1).contains(id) {
            let p = v.line().skip(1).index_of(id);
            assert(v.line()[p + 1] == id);
        }
    }
}

/// Notifying everybody releases everybody in line, in order, and stores
/// nothing.
pub proof fn notify_waiters_releases_all(v: NotifyView)
    requires
        v.ok(),
        v.settled(),
    ensures
        v.releases() == v.line().len(),
        v.notified_all().line().len() == 0,
        v.notified_all().permit == v.permit,
        forall|i: int|
            0 <= i < v.line().len() ==> v.notified_all().node(#[trigger] v.line()[i]).value
                == SIGNAL_ALL,
{
    lemma_next(v.generation);
    lemma_older(v.w(), next_generation(v.generation), 0);
    if v.releases() < v.line().len() {
        assert(born(v.w(), v.releases()) == v.generation);
    }
    let chain = v.line().take(v.releases());
    assert(chain =~= v.line());
    assert forall|i: int| 0 <= i < v.line().len() implies v.notified_all().node(
        #[trigger] v.line()[i],
    ).value == SIGNAL_ALL by {
        assert(v.w().live(v.line()[i]));
        assert(chain.contains(v.line()[i]));
    }
}

/// Notifying everybody ends every wait that has begun, also one that is not in
/// line yet; a wait that begins afterwards is not ended by it.
pub proof fn notify_waiters_ends_older_waits(v: NotifyView)
    requires
        v.ok(),
        v.settled(),
    ensures
        v.notified_all().completes(v.generation),
        v.notified_all().completes(v.notified_all().generation) == v.permit,
{
    lemma_next(v.generation);
}

/// A request that was notified and is dropped before it saw it passes the
/// notification on: to the next in line, or into store.
pub proof fn dropped_notification_is_passed_on(v: NotifyView, id: usize)
    requires
        v.ok(),
        v.settled(),
        v.pollable(id),
        v.node(id).value == SIGNAL_SIGNALED,
    ensures
        v.line().len() == 0 ==> v.dropped(id).permit,
        v.line().len() > 0 ==> v.dropped(id).node(v.line()[0]).value == SIGNAL_SIGNALED
            && v.dropped(id).line() == v.line().skip(1),
{
    if v.line().len() > 0 {
        assert(v.w().live(v.line()[0]));
        assert(v.line().contains(v.line()[0]));
    }
}

} // verus!
