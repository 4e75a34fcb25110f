//! The operations of a barrier, each run from start to end with no other
//! thread in between.
use vstd::prelude::*;

use crate::barrier_core::{ArriveOutcome, BarrierCore, BarrierView};
use crate::barrier_word::next_round;
use crate::generations::{born, lemma_older, older};
use crate::keeps::{
    lemma_keeps_joined, lemma_keeps_left, lemma_keeps_node, lemma_keeps_queued,
    lemma_keeps_signaled, lemma_keeps_twice, lemma_node_ok,
};
use crate::pool::{returned, traded, visited, QueuePool};
use crate::queue_word::Word;
use crate::sem_core::waiting;
use crate::signal::{
    Poll, SignalView, Wake, WakerSlot, Withdrawn, SIGNAL_ALL, SIGNAL_INIT_WAITING, SIGNAL_RETURNED,
    SIGNAL_UNINIT,
};
use crate::sync_wait::{after_sync_step, SyncStep, SyncWaiter};
use crate::wait_queue::{LockAttempt, WaitQueueView};
use crate::waiters::{lemma_remove, WaitersView};

verus! {

/// What a wait at the barrier returns: whether this party was the last to
/// arrive. Exactly one party per round is.
#[derive(Debug, Clone, Copy)]
pub struct BarrierWaitResult {
    is_leader: bool,
}

impl View for BarrierWaitResult {
    type V = bool;

    closed spec fn view(&self) -> bool {
        self.is_leader
    }
}

impl BarrierWaitResult {
    fn new(is_leader: bool) -> (r: Self)
        ensures
            r@ == is_leader,
    {
        BarrierWaitResult { is_leader }
    }

    /// Whether this party was the last to arrive, the leader of its round.
    pub fn is_leader(&self) -> (r: bool)
        ensures
            r == self@,
    {
        self.is_leader
    }
}

/// How an attempt to queue up ended.
#[derive(Debug, PartialEq, Eq, Clone, Copy, Structural)]
pub enum RoundOutcome {
    /// The round completed meanwhile; no parking needed.
    Completed,
    /// The entry was pushed to the wait queue.
    Enqueued,
}

/// How a blocking wait starts.
#[derive(Debug)]
pub enum BarrierWait {
    /// The round is complete; wake these.
    Ready(BarrierWaitResult, Vec<Wake>),
    /// The thread has to wait.
    Wait(SyncWaiter),
}

/// What a waiting thread does next.
#[derive(Debug)]
pub enum BarrierStep {
    /// Pause or park, and look again.
    Again(SyncStep),
    /// The round is complete.
    Done(BarrierWaitResult),
}

impl BarrierView {
    /// No thread is in the middle of an operation: everybody who arrived and
    /// did not complete a round is in line.
    pub open spec fn settled(self) -> bool {
        self.quiet() && self.owed == 0 && self.arrived == self.line().len()
    }

    /// The state after the waiters became `w`.
    pub open spec fn with_waiters(self, w: WaitersView) -> BarrierView {
        BarrierView {
            queue: WaitQueueView {
                door: if w.line.len() > 0 {
                    Word::Queue
                } else {
                    Word::Unlocked
                },
                waiters: w,
            },
            ..self
        }
    }

    /// The state after `entry` joined the line.
    pub open spec fn enqueued(self, entry: usize, generation: usize) -> BarrierView {
        self.with_waiters(
            self.w().with_node(
                entry,
                SignalView { aux: generation, ..self.node(entry) },
            ).pushed(entry),
        )
    }

    /// How many waiters a leader releases.
    pub open spec fn releases(self) -> int {
        older(self.w(), self.generation, 0) as int
    }

    /// The state after a leader released those whose round is over.
    pub open spec fn released(self) -> BarrierView {
        BarrierView {
            owed: crate::sem_core::pay(self.owed),
            ..self.with_waiters(
                self.w().popped_front(self.releases()).after_signals(
                    self.line().take(self.releases()),
                    SIGNAL_ALL,
                ),
            )
        }
    }

    /// Whom to wake after that.
    pub open spec fn release_wakes(self) -> Seq<Wake> {
        self.w().wakes(self.line().take(self.releases()))
    }

    /// The state after the arrival that completes a round: the next round has
    /// begun, and everybody in line is released.
    pub open spec fn passed(self) -> BarrierView {
        BarrierView {
            generation: next_round(self.generation),
            arrived: 0,
            ..self.with_waiters(
                self.w().popped_front(self.line().len() as int).after_signals(
                    self.line(),
                    SIGNAL_ALL,
                ),
            )
        }
    }

    /// `id` is the node of a thread that waits.
    pub open spec fn sync_waits(self, id: usize) -> bool {
        &&& self.w().live(id)
        &&& if self.w().idle(id) {
            self.node(id).value == SIGNAL_ALL
        } else {
            waiting(self.node(id))
        }
    }

    /// A request that may be polled: fresh, queued (or its signal on its way),
    /// or released.
    pub open spec fn pollable(self, id: usize) -> bool {
        &&& self.w().live(id)
        &&& match self.node(id).value {
            SIGNAL_UNINIT => self.node(id).waker is Empty && self.w().idle(id),
            SIGNAL_INIT_WAITING => !self.w().idle(id),
            SIGNAL_ALL => self.w().idle(id),
            _ => false,
        }
    }

    /// A request that may be dropped: one that may be polled, or a completed
    /// one.
    pub open spec fn droppable(self, id: usize) -> bool {
        self.pollable(id) || self.w().idle(id) && self.node(id).value == SIGNAL_RETURNED
    }

    /// Everybody who waits or has a request, `but` aside, can go on in `after`
    /// as if nothing had happened.
    pub open spec fn keeps(self, after: BarrierView, but: Option<usize>) -> bool {
        &&& forall|id: usize|
            self.pollable(id) && but != Some(id) ==> #[trigger] after.pollable(id)
        &&& forall|id: usize|
            self.droppable(id) && but != Some(id) ==> #[trigger] after.droppable(id)
        &&& forall|id: usize|
            self.sync_waits(id) && but != Some(id) ==> #[trigger] after.sync_waits(id)
    }

    /// The node of a task that waits.
    pub open spec fn armed(self, id: usize, waker: usize) -> SignalView {
        SignalView {
            value: SIGNAL_INIT_WAITING,
            waker: WakerSlot::Async(waker),
            ..self.node(id)
        }
    }

    /// The node of a request once it is completed.
    pub open spec fn returned(self, id: usize) -> SignalView {
        SignalView { value: SIGNAL_RETURNED, ..self.node(id) }
    }

    /// The state after a request was polled.
    pub open spec fn polled(self, id: usize, waker: usize) -> BarrierView {
        match self.node(id).value {
            SIGNAL_INIT_WAITING => self.with_node(
                id,
                SignalView { waker: WakerSlot::Async(waker), ..self.node(id) },
            ),
            SIGNAL_ALL => self.with_node(id, self.returned(id)),
            _ => if self.completing() {
                self.with_node(id, self.returned(id)).passed()
            } else {
                self.after_arrive().with_node(id, self.armed(id, waker)).enqueued(
                    id,
                    self.generation,
                )
            },
        }
    }

    /// The state after a request was dropped: one that waits takes its arrival
    /// back and leaves the line.
    pub open spec fn dropped(self, id: usize) -> BarrierView {
        if self.w().popped.contains(id) {
            self
        } else if self.line().contains(id) {
            BarrierView {
                arrived: (self.arrived - 1) as nat,
                ..self.with_waiters(self.w().removed(id).with_node(id, SignalView::dead()))
            }
        } else {
            self.with_node(id, SignalView::dead())
        }
    }
}

impl BarrierCore {
    /// Releases everybody whose round is over. Returns whom to wake.
    pub fn release_waiters(&mut self, pool: &mut QueuePool) -> (r: Vec<Wake>)
        requires
            old(self).wf(),
            old(self)@.quiet(),
            old(pool)@.lends(old(self).structure()),
        ensures
            final(self).wf(),
            final(self)@ == old(self)@.released(),
            r@ == old(self)@.release_wakes(),
            returned(old(pool)@, old(self).structure(), final(pool)@, final(self).structure()),
    {
        let ghost before = self@;
        proof {
            lemma_older(before.w(), before.generation, 0);
        }
        if self.begin_release() != LockAttempt::Held {
            proof {
                assert(before.line().take(0) =~= Seq::<usize>::empty());
                assert(before.w().popped_front(0).after_signals(
                    before.line().take(0),
                    SIGNAL_ALL,
                ) =~= before.w());
                assert(self@ =~= before.released());
                assert(before.release_wakes() =~= Seq::<Wake>::empty());
            }
            return Vec::new();
        }
        let chain = self.pop_older();
        let ghost ids = chain@;
        self.end(pool);
        proof {
            assert(self@.w().nodes =~= before.w().nodes);
            assert(self@.w().wakes(ids) =~= before.w().wakes(ids));
        }
        let wakes = self.signal_all(chain, SIGNAL_ALL);
        assert(self@ =~= before.released());
        wakes
    }

    /// Queues `entry` up for the completion of the round of `generation`,
    /// unless it has completed.
    pub fn enqueue_or_complete(
        &mut self,
        entry: usize,
        generation: usize,
        pool: &mut QueuePool,
    ) -> (r: RoundOutcome)
        requires
            old(self).wf(),
            old(self)@.quiet(),
            old(self)@.w().idle(entry),
            waiting(old(self)@.node(entry)),
            old(pool)@.serves(old(self).structure()),
        ensures
            final(self).wf(),
            (r is Completed) == (old(self)@.generation != generation),
            final(self)@ == if r is Completed {
                old(self)@
            } else {
                old(self)@.enqueued(entry, generation)
            },
            if r is Completed {
                visited(old(pool)@, old(self).structure(), final(pool)@, final(self).structure())
            } else {
                traded(old(pool)@, old(self).structure(), final(pool)@, final(self).structure())
            },
    {
        let ghost before = self@;
        proof {
            self.lemma_structure();
        }
        self.begin_enqueue(pool);
        proof {
            self.lemma_structure();
        }
        if self.fresh() != generation {
            self.end(pool);
            proof {
                self.lemma_structure();
            }
            assert(self@ =~= before);
            return RoundOutcome::Completed;
        }
        self.push_entry(entry, generation);
        self.end(pool);
        proof {
            self.lemma_structure();
        }
        assert(self@ =~= before.enqueued(entry, generation));
        RoundOutcome::Enqueued
    }

    /// Starts a blocking wait.
    pub fn wait(&mut self, thread: usize, pool: &mut QueuePool) -> (r: BarrierWait)
        requires
            old(self).wf(),
            old(self)@.settled(),
            old(pool)@.serves(old(self).structure()),
        ensures
            final(self).wf(),
            final(self)@.settled(),
            match r {
                BarrierWait::Ready(result, wakes) => old(self)@.completing() && result@
                    && final(self)@ == old(self)@.passed() && wakes@ == old(self)@.w().wakes(
                    old(self)@.line(),
                ),
                BarrierWait::Wait(waiter) => !old(self)@.completing() && waiter@.stage is Arming
                    && waiter@.spins == 0 && old(self)@.w().vacant(waiter@.entry) && final(self)@
                    == old(self)@.after_arrive().with_new(
                    waiter@.entry,
                    SignalView::fresh_sync(thread),
                ).enqueued(waiter@.entry, old(self)@.generation),
            },
            r matches BarrierWait::Wait(waiter) ==> final(self)@.sync_waits(waiter@.entry),
            old(self)@.keeps(final(self)@, None),
            traded(old(pool)@, old(self).structure(), final(pool)@, final(self).structure()),
    {
        let ghost before = self@;
        proof {
            lemma_settled(before);
        }
        match self.arrive() {
            ArriveOutcome::Leader { .. } => {
                proof {
                    lemma_all_older(before, self@);
                }
                let wakes = self.release_waiters(pool);
                assert(self@ =~= before.passed());
                proof {
                    round_keeps_requests(before);
                }
                BarrierWait::Ready(BarrierWaitResult::new(true), wakes)
            },
            ArriveOutcome::Wait { generation } => {
                let entry: usize = self.prepare_sync(thread);
                proof {
                    lemma_joined(before.after_arrive(), entry, thread);
                }
                self.enqueue_or_complete(entry, generation, pool);
                BarrierWait::Wait(SyncWaiter::new(entry, false))
            },
        }
    }

    /// One look of a waiting thread.
    pub fn wait_step(&mut self, waiter: &mut SyncWaiter) -> (r: BarrierStep)
        requires
            old(self).wf(),
            old(self)@.sync_waits(old(waiter)@.entry),
        ensures
            final(self).wf(),
            final(self).structure() == old(self).structure(),
            final(waiter)@ == old(waiter)@.after_step(old(self)@.node(old(waiter)@.entry).value),
            match r {
                BarrierStep::Done(result) => old(self)@.node(old(waiter)@.entry).value
                    == SIGNAL_ALL && !result@ && final(self)@ == old(self)@.with_node(
                    old(waiter)@.entry,
                    SignalView::dead(),
                ),
                BarrierStep::Again(step) => old(self)@.node(old(waiter)@.entry).value
                    != SIGNAL_ALL && step == old(waiter)@.step(
                    old(self)@.node(old(waiter)@.entry).value,
                ) && final(self)@ == (BarrierView {
                    queue: after_sync_step(old(self)@.queue, old(waiter)@),
                    ..old(self)@
                }),
            },
            r is Again ==> final(self)@.sync_waits(old(waiter)@.entry),
            old(self)@.keeps(final(self)@, Some(old(waiter)@.entry)),
    {
        let ghost before = self@;
        let entry: usize = waiter.entry();
        let step = self.sync_step(waiter);
        match step {
            SyncStep::Signaled(_) => {
                assert(self@ =~= before);
                self.discard(entry);
                proof {
                    lemma_keeps_node(before.w(), entry, SignalView::dead(), answers());
                    lemma_keeps(before, self@, Some(entry));
                }
                BarrierStep::Done(BarrierWaitResult::new(false))
            },
            _ => {
                proof {
                    lemma_keeps_node(before.w(), entry, self@.node(entry), answers());
                    lemma_keeps(before, self@, Some(entry));
                }
                BarrierStep::Again(step)
            },
        }
    }

    /// Polls a request. The arrival is registered by the first poll.
    pub fn poll(&mut self, entry: usize, waker: usize, pool: &mut QueuePool) -> (r: (
        Poll<BarrierWaitResult>,
        Vec<Wake>,
    ))
        requires
            old(self).wf(),
            old(self)@.settled(),
            old(self)@.pollable(entry),
            old(pool)@.serves(old(self).structure()),
        ensures
            final(self).wf(),
            final(self)@.settled(),
            final(self)@ == old(self)@.polled(entry, waker),
            match r.0 {
                Poll::Ready(result) => (old(self)@.node(entry).value == SIGNAL_ALL && !result@
                    && r.1@.len() == 0) || (old(self)@.node(entry).value == SIGNAL_UNINIT && old(
                    self)@.completing() && result@ && r.1@ == old(self)@.w().wakes(
                    old(self)@.line(),
                )),
                Poll::Pending => r.1@.len() == 0 && (old(self)@.node(entry).value
                    == SIGNAL_INIT_WAITING || old(self)@.node(entry).value == SIGNAL_UNINIT
                    && !old(self)@.completing()),
            },
            r.0 is Pending ==> final(self)@.pollable(entry),
            final(self)@.droppable(entry),
            old(self)@.keeps(final(self)@, Some(entry)),
            traded(old(pool)@, old(self).structure(), final(pool)@, final(self).structure()),
    {
        proof {
            poll_keeps_requests(self@, entry, waker);
        }
        let ghost before = self@;
        proof {
            lemma_settled(before);
            if before.line().contains(entry) {
                assert(waiting(before.node(before.line()[before.line().index_of(entry)])));
            }
            if before.w().popped.contains(entry) {
                assert(waiting(before.node(entry)));
            }
        }
        let mut sig_val: usize = self.value(entry);
        if sig_val == SIGNAL_INIT_WAITING {
            match self.rearm(entry, waker) {
                Poll::Pending => return (Poll::Pending, Vec::new()),
                Poll::Ready(value) => sig_val = value,
            }
        }
        if sig_val >= SIGNAL_ALL {
            self.complete(entry);
            return (Poll::Ready(BarrierWaitResult::new(false)), Vec::new());
        }
        match self.arrive() {
            ArriveOutcome::Leader { .. } => {
                self.complete(entry);
                proof {
                    let seen = before.with_node(entry, before.returned(entry));
                    assert(seen.line() == before.line());
                    assert forall|i: int| 0 <= i < before.line().len() implies #[trigger] born(
                        seen.w(),
                        i,
                    ) == born(before.w(), i) && seen.node(before.line()[i]) == before.node(
                        before.line()[i],
                    ) by {
                        assert(before.line().contains(before.line()[i]));
                    }
                    assert(seen.w().wakes(before.line()) =~= before.w().wakes(before.line())) by {
                        assert forall|i: int| 0 <= i < before.line().len() implies seen.w().nodes[(
                        #[trigger] before.line()[i]) as int].wake()
                            == before.w().nodes[before.line()[i] as int].wake() by {
                            assert(born(seen.w(), i) == born(before.w(), i));
                        }
                    }
                    lemma_all_older(seen, self@);
                }
                let wakes = self.release_waiters(pool);
                assert(self@ =~= before.polled(entry, waker));
                (Poll::Ready(BarrierWaitResult::new(true)), wakes)
            },
            ArriveOutcome::Wait { generation } => {
                self.arm(entry, waker);
                self.enqueue_or_complete(entry, generation, pool);
                (Poll::Pending, Vec::new())
            },
        }
    }

    /// Drops a request, in whatever state it is. One that waits takes its
    /// arrival back.
    pub fn drop_request(&mut self, entry: usize, pool: &mut QueuePool) -> (r: Withdrawn)
        requires
            old(self).wf(),
            old(self)@.settled(),
            old(self)@.droppable(entry),
            old(pool)@.lends(old(self).structure()),
        ensures
            final(self).wf(),
            final(self)@.settled(),
            (r is InFlight) == old(self)@.w().popped.contains(entry),
            r matches Withdrawn::Done(wakes) ==> wakes@.len() == 0,
            final(self)@ == old(self)@.dropped(entry),
            r is InFlight ==> final(self)@.droppable(entry),
            old(self)@.keeps(final(self)@, Some(entry)),
            returned(old(pool)@, old(self).structure(), final(pool)@, final(self).structure()),
    {
        proof {
            drop_keeps_requests(self@, entry);
        }
        let ghost before = self@;
        proof {
            if before.line().contains(entry) {
                assert(waiting(before.node(before.line()[before.line().index_of(entry)])));
            }
            if before.w().popped.contains(entry) {
                assert(waiting(before.node(entry)));
            }
        }
        if branches::likely(self.value(entry) != SIGNAL_INIT_WAITING) {
            self.discard(entry);
            return Withdrawn::Done(Vec::new());
        }
        self.drop_slow(entry, pool)
    }

    fn drop_slow(&mut self, entry: usize, pool: &mut QueuePool) -> (r: Withdrawn)
        requires
            old(self).wf(),
            old(self)@.settled(),
            old(self)@.w().live(entry),
            old(self)@.node(entry).value == SIGNAL_INIT_WAITING,
            !old(self)@.w().idle(entry),
            old(pool)@.lends(old(self).structure()),
        ensures
            final(self).wf(),
            final(self)@.settled(),
            (r is InFlight) == old(self)@.w().popped.contains(entry),
            r matches Withdrawn::Done(wakes) ==> wakes@.len() == 0,
            final(self)@ == old(self)@.dropped(entry),
            returned(old(pool)@, old(self).structure(), final(pool)@, final(self).structure()),
    {
        let ghost before = self@;
        proof {
            lemma_settled(before);
            if before.line().contains(entry) {
                lemma_remove(before.line(), entry);
                assert(born(before.w(), before.line().index_of(entry)) == before.generation);
            }
        }
        if self.begin_remove() == LockAttempt::Held {
            let found = self.remove_entry(entry);
            self.end(pool);
            if found {
                let generation: usize = self.round(entry);
                self.withdraw(generation);
                self.discard(entry);
                assert(self@ =~= before.dropped(entry));
                return Withdrawn::Done(Vec::new());
            }
            assert(self@ =~= before);
        }
        Withdrawn::InFlight
    }
}

/// What a waiter is told.
spec fn answers() -> Set<usize> {
    set![SIGNAL_ALL]
}

/// Whoever is left alone by the waiters' account is left alone.
proof fn lemma_keeps(v: BarrierView, after: BarrierView, but: Option<usize>)
    requires
        v.w().keeps(after.w(), but, answers()),
    ensures
        v.keeps(after, but),
{
}

/// A thread that begins to wait disturbs nobody.
proof fn lemma_joined(v: BarrierView, id: usize, thread: usize)
    requires
        !v.w().live(id),
        id <= v.w().nodes.len(),
    ensures
        v.keeps(v.with_new(id, SignalView::fresh_sync(thread)).enqueued(id, v.generation), None),
        v.with_new(id, SignalView::fresh_sync(thread)).enqueued(id, v.generation).sync_waits(id),
{
    let node = SignalView { aux: v.generation, ..SignalView::fresh_sync(thread) };
    let after = v.with_new(id, SignalView::fresh_sync(thread)).enqueued(id, v.generation);
    assert(after.w() =~= v.w().with_new(id, node).pushed(id));
    lemma_keeps_joined(v.w(), id, node, answers());
    lemma_keeps(v, after, None);
}

/// Completing a round answers everybody in line and leaves the rest alone.
pub proof fn round_keeps_requests(v: BarrierView)
    requires
        v.w().ok(),
    ensures
        v.keeps(v.passed(), None),
{
    assert(v.line().take(v.line().len() as int) =~= v.line());
    lemma_keeps_signaled(v.w(), v.line().len() as int, SIGNAL_ALL, answers());
    lemma_keeps(v, v.passed(), None);
}

/// Polling one request disturbs no other, and the request can be polled again
/// unless it is completed.
pub proof fn poll_keeps_requests(v: BarrierView, id: usize, waker: usize)
    requires
        v.ok(),
        v.pollable(id),
    ensures
        v.keeps(v.polled(id, waker), Some(id)),
        v.polled(id, waker).droppable(id),
        v.node(id).value == SIGNAL_INIT_WAITING || v.node(id).value == SIGNAL_UNINIT
            && !v.completing() ==> v.polled(id, waker).pollable(id),
{
    let w = v.w();
    let after = v.polled(id, waker);
    if v.node(id).value == SIGNAL_UNINIT && !v.completing() {
        let node = SignalView { aux: v.generation, ..v.armed(id, waker) };
        assert(after.w() =~= w.with_node(id, node).pushed(id));
        lemma_keeps_queued(w, id, node, answers());
    } else if v.node(id).value == SIGNAL_UNINIT {
        let done = v.with_node(id, v.returned(id));
        lemma_keeps_node(w, id, v.returned(id), answers());
        lemma_node_ok(w, id, v.returned(id));
        assert(done.line().take(done.line().len() as int) =~= done.line());
        lemma_keeps_signaled(done.w(), done.line().len() as int, SIGNAL_ALL, answers());
        lemma_keeps_twice(w, done.w(), after.w(), Some(id), None, Some(id), answers());
        assert(done.w().live(id));
    } else {
        lemma_keeps_node(w, id, after.node(id), answers());
        assert(after.w() =~= w.with_node(id, after.node(id)));
    }
    lemma_keeps(v, after, Some(id));
}

/// Dropping one request disturbs no other.
pub proof fn drop_keeps_requests(v: BarrierView, id: usize)
    requires
        v.ok(),
        v.droppable(id),
    ensures
        v.keeps(v.dropped(id), Some(id)),
        v.w().popped.contains(id) ==> v.dropped(id).droppable(id),
{
    let w = v.w();
    lemma_keeps_node(w, id, SignalView::dead(), answers());
    if w.popped.contains(id) {
        lemma_keeps_node(w, id, v.node(id), answers());
        assert(w.with_node(id, v.node(id)) =~= w);
    } else if w.line.contains(id) {
        lemma_keeps_left(w, id, answers());
    }
    lemma_keeps(v, v.dropped(id), Some(id));
}

/// Between operations, everybody in line waits for the current round.
proof fn lemma_settled(v: BarrierView)
    requires
        v.ok(),
        v.settled(),
    ensures
        next_round(v.generation) != v.generation,
        forall|i: int|
            0 <= i < v.line().len() ==> #[trigger] born(v.w(), i) == v.generation && born(v.w(), i)
                != next_round(v.generation),
{
    crate::barrier_word::lemma_halves(v.generation);
    crate::barrier_core::lemma_zero();
}

/// A completed round releases everybody in line.
proof fn lemma_all_older(before: BarrierView, after: BarrierView)
    requires
        before.w() == after.w(),
        after.generation == next_round(before.generation),
        next_round(before.generation) != before.generation,
        forall|i: int|
            0 <= i < before.line().len() ==> #[trigger] born(before.w(), i) == before.generation,
    ensures
        after.releases() == after.line().len(),
        after.line().take(after.releases()) == after.line(),
{
    lemma_older(after.w(), after.generation, 0);
    if after.releases() < after.line().len() {
        assert(born(before.w(), after.releases()) == before.generation);
    }
    assert(after.line().take(after.line().len() as int) =~= after.line());
}

/// The state after `m` arrivals, one after the other.
pub open spec fn after_arrivals(v: BarrierView, m: nat) -> BarrierView
    decreases m,
{
    if m == 0 {
        v
    } else {
        after_arrivals(v, (m - 1) as nat).after_arrive()
    }
}

/// How many of `m` arrivals, one after the other, lead their round.
pub open spec fn leaders(v: BarrierView, m: nat) -> nat
    decreases m,
{
    if m == 0 {
        0
    } else {
        leaders(v, (m - 1) as nat) + if after_arrivals(v, (m - 1) as nat).completing() {
            1nat
        } else {
            0
        }
    }
}

/// Arrivals are counted round by round: of every `n` of them one leads, and
/// what is left over has arrived in the current round.
pub proof fn one_leader_per_round(v: BarrierView, m: nat)
    requires
        v.ok(),
    ensures
        leaders(v, m) * v.n + after_arrivals(v, m).arrived == v.arrived + m,
        after_arrivals(v, m).arrived < v.n,
        after_arrivals(v, m).n == v.n,
    decreases m,
{
    let n = v.n as int;
    vstd::arithmetic::mul::lemma_mul_basics(n);
    if m > 0 {
        one_leader_per_round(v, (m - 1) as nat);
        let before = leaders(v, (m - 1) as nat) as int;
        vstd::arithmetic::mul::lemma_mul_is_distributive_add_other_way(n, before, 1);
    }
}

/// In particular exactly one of the `n` arrivals of a round leads it, and it is
/// the last one.
pub proof fn exactly_one_leader(v: BarrierView)
    requires
        v.ok(),
        v.arrived == 0,
    ensures
        leaders(v, v.n) == 1,
        after_arrivals(v, (v.n - 1) as nat).completing(),
        leaders(v, (v.n - 1) as nat) == 0,
{
    one_leader_per_round(v, v.n);
    one_leader_per_round(v, (v.n - 1) as nat);
    let all = leaders(v, v.n);
    let some = leaders(v, (v.n - 1) as nat);
    let n = v.n;
    vstd::arithmetic::mul::lemma_mul_basics(n as int);
    if all >= 2 {
        vstd::arithmetic::mul::lemma_mul_inequality(2, all as int, n as int);
    }
    if some >= 1 {
        vstd::arithmetic::mul::lemma_mul_inequality(1, some as int, n as int);
    }
}

/// Nobody passes early and nobody is left behind: the arrival that completes a
/// round releases everybody who waits for it, and the next round starts from
/// nothing.
pub proof fn round_releases_everybody(v: BarrierView)
    requires
        v.ok(),
        v.settled(),
        v.completing(),
    ensures
        v.line().len() == v.n - 1,
        v.passed().line().len() == 0,
        v.passed().arrived == 0,
        v.passed().generation != v.generation,
        forall|i: int|
            0 <= i < v.line().len() ==> v.passed().node(#[trigger] v.line()[i]).value
                == SIGNAL_ALL,
{
    lemma_settled(v);
    assert forall|i: int| 0 <= i < v.line().len() implies v.passed().node(
        #[trigger] v.line()[i],
    ).value == SIGNAL_ALL by {
        assert(v.w().live(v.line()[i]));
        assert(v.line().contains(v.line()[i]));
    }
}

/// Cancelling is safe: a request that is dropped while it waits takes its
/// arrival back, so that the round needs another one in its place.
pub proof fn cancel_withdraws_arrival(v: BarrierView, id: usize)
    requires
        v.ok(),
        v.settled(),
        v.droppable(id),
        v.line().contains(id),
    ensures
        v.dropped(id).arrived == v.arrived - 1,
        v.dropped(id).line().len() == v.line().len() - 1,
        v.dropped(id).generation == v.generation,
{
    lemma_remove(v.line(), id);
    if v.w().popped.contains(id) {
        assert(!v.line().contains(id));
    }
}

} // verus!
