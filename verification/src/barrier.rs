//! Barriers, for threads ([`Barrier`]) and for tasks ([`AsyncBarrier`]). Both are
//! the same underneath and turn into each other.
use vstd::prelude::*;

use crate::barrier_core::{BarrierCore, BarrierView};
use crate::barrier_ops::{BarrierStep, BarrierWait, BarrierWaitResult};
use crate::barrier_word::most_parties;
use crate::pool::{returned, traded, QueuePool};
use crate::signal::{
    Poll, SignalView, Wake, Withdrawn, SIGNAL_ALL, SIGNAL_INIT_WAITING, SIGNAL_UNINIT,
};
use crate::sync_wait::{after_sync_step, SyncWaiter};

verus! {

/// A task's wait at a barrier. Its arrival is registered by the first poll.
#[derive(Debug)]
pub struct AsyncBarrierWaitRequest {
    entry: usize,
}

impl View for AsyncBarrierWaitRequest {
    type V = usize;

    closed spec fn view(&self) -> usize {
        self.entry
    }
}

/// A barrier for threads. It can be used for one round after the other.
pub struct Barrier {
    core: BarrierCore,
}

impl View for Barrier {
    type V = BarrierView;

    closed spec fn view(&self) -> BarrierView {
        self.core@
    }
}

impl Barrier {
    /// The representation behind the view.
    pub closed spec fn inv(&self) -> bool {
        self.core.inv()
    }

    /// The address of the structure that the line stands in.
    pub closed spec fn structure(&self) -> Option<usize> {
        self.core.structure()
    }

    /// There is a structure exactly while somebody waits.
    pub proof fn lemma_structure(&self)
        requires
            self.wf(),
        ensures
            (self.structure() is Some) == (self@.line().len() > 0),
    {
        self.core.lemma_structure();
    }

    /// Well-formedness, kept by every method.
    pub open spec fn wf(&self) -> bool {
        self@.ok() && self@.settled() && self.inv()
    }

    /// A barrier for `n` parties; for none it is one for a single party.
    pub fn new(n: usize) -> (r: Self)
        requires
            n <= most_parties(),
        ensures
            r.wf(),
            r.structure() is None,
            r@ == BarrierView::fresh(n as nat),
    {
        Barrier { core: BarrierCore::new(n) }
    }

    /// How many parties complete a round.
    pub fn parties(&self) -> (r: usize)
        ensures
            r == self@.n,
    {
        self.core.parties()
    }

    /// Starts a blocking wait. The arrival is registered at once.
    pub fn wait(&mut self, thread: usize, pool: &mut QueuePool) -> (r: BarrierWait)
        requires
            old(self).wf(),
            old(pool)@.serves(old(self).structure()),
        ensures
            final(self).wf(),
            (r is Ready) == old(self)@.completing(),
            match r {
                BarrierWait::Ready(result, wakes) => result@ && final(self)@
                    == old(self)@.passed() && wakes@ == old(self)@.w().wakes(old(self)@.line()),
                BarrierWait::Wait(waiter) => waiter@.stage is Arming && waiter@.spins == 0
                    && old(self)@.w().vacant(waiter@.entry) && final(self)@
                    == old(self)@.after_arrive().with_new(
                    waiter@.entry,
                    SignalView::fresh_sync(thread),
                ).enqueued(waiter@.entry, old(self)@.generation),
            },
            r matches BarrierWait::Wait(waiter) ==> final(self)@.sync_waits(waiter@.entry),
            old(self)@.keeps(final(self)@, None),
            traded(old(pool)@, old(self).structure(), final(pool)@, final(self).structure()),
    {
        self.core.wait(thread, pool)
    }

    /// One look of a waiting thread.
    pub fn wait_step(&mut self, waiter: &mut SyncWaiter) -> (r: BarrierStep)
        requires
            old(self).wf(),
            old(self)@.sync_waits(old(waiter)@.entry),
        ensures
            final(self).wf(),
            final(self).structure() == old(self).structure(),
            final(waiter)@ == old(waiter)@.after_step(old(self)@.node(old(waiter)@.entry).value),
            match r {
                BarrierStep::Done(result) => old(self)@.node(old(waiter)@.entry).value
                    == SIGNAL_ALL && !result@ && final(self)@ == old(self)@.with_node(
                    old(waiter)@.entry,
                    SignalView::dead(),
                ),
                BarrierStep::Again(step) => old(self)@.node(old(waiter)@.entry).value
                    != SIGNAL_ALL && step == old(waiter)@.step(
                    old(self)@.node(old(waiter)@.entry).value,
                ) && final(self)@ == (BarrierView {
                    queue: after_sync_step(old(self)@.queue, old(waiter)@),
                    ..old(self)@
                }),
            },
            r is Again ==> final(self)@.sync_waits(old(waiter)@.entry),
            old(self)@.keeps(final(self)@, Some(old(waiter)@.entry)),
    {
        self.core.wait_step(waiter)
    }

    /// Makes a task's wait.
    pub fn wait_async(&mut self) -> (r: AsyncBarrierWaitRequest)
        requires
            old(self).wf(),
        ensures
            final(self).wf(),
            final(self).structure() == old(self).structure(),
            old(self)@.w().vacant(r@),
            final(self)@ == old(self)@.with_new(r@, SignalView::fresh_none()),
            final(self)@.pollable(r@),
            old(self)@.keeps(final(self)@, None),
    {
        AsyncBarrierWaitRequest { entry: self.core.prepare_async() }
    }

    /// Polls a task's wait. Returns whom to wake, too.
    pub fn poll(
        &mut self,
        request: &AsyncBarrierWaitRequest,
        waker: usize,
        pool: &mut QueuePool,
    ) -> (r: (
        Poll<BarrierWaitResult>,
        Vec<Wake>,
    ))
        requires
            old(self).wf(),
            old(self)@.pollable(request@),
            old(pool)@.serves(old(self).structure()),
        ensures
            final(self).wf(),
            final(self)@ == old(self)@.polled(request@, waker),
            match r.0 {
                Poll::Ready(result) => (old(self)@.node(request@).value == SIGNAL_ALL && !result@
                    && r.1@.len() == 0) || (old(self)@.node(request@).value == SIGNAL_UNINIT
                    && old(self)@.completing() && result@ && r.1@ == old(self)@.w().wakes(
                    old(self)@.line(),
                )),
                Poll::Pending => r.1@.len() == 0 && (old(self)@.node(request@).value
                    == SIGNAL_INIT_WAITING || old(self)@.node(request@).value == SIGNAL_UNINIT
                    && !old(self)@.completing()),
            },
            r.0 is Pending ==> final(self)@.pollable(request@),
            final(self)@.droppable(request@),
            old(self)@.keeps(final(self)@, Some(request@)),
            traded(old(pool)@, old(self).structure(), final(pool)@, final(self).structure()),
    {
        self.core.poll(request.entry, waker, pool)
    }

    /// Drops a task's wait, in whatever state it is. One that waits takes its
    /// arrival back.
    pub fn drop_request(
        &mut self,
        request: &AsyncBarrierWaitRequest,
        pool: &mut QueuePool,
    ) -> (r: Withdrawn)
        requires
            old(self).wf(),
            old(self)@.droppable(request@),
            old(pool)@.lends(old(self).structure()),
        ensures
            final(self).wf(),
            (r is InFlight) == old(self)@.w().popped.contains(request@),
            r matches Withdrawn::Done(wakes) ==> wakes@.len() == 0,
            final(self)@ == old(self)@.dropped(request@),
            r is InFlight ==> final(self)@.droppable(request@),
            old(self)@.keeps(final(self)@, Some(request@)),
            returned(old(pool)@, old(self).structure(), final(pool)@, final(self).structure()),
    {
        self.core.drop_request(request.entry, pool)
    }

    /// The same barrier for tasks.
    pub fn to_async(self) -> (r: AsyncBarrier)
        ensures
            r.structure() == self.structure(),
            r@ == self@,
            r.inv() == self.inv(),
    {
        AsyncBarrier { core: self.core }
    }
}

/// A barrier for tasks. It can be used for one round after the other.
pub struct AsyncBarrier {
    core: BarrierCore,
}

impl View for AsyncBarrier {
    type V = BarrierView;

    closed spec fn view(&self) -> BarrierView {
        self.core@
    }
}

impl AsyncBarrier {
    /// The representation behind the view.
    pub closed spec fn inv(&self) -> bool {
        self.core.inv()
    }

    /// The address of the structure that the line stands in.
    pub closed spec fn structure(&self) -> Option<usize> {
        self.core.structure()
    }

    /// There is a structure exactly while somebody waits.
    pub proof fn lemma_structure(&self)
        requires
            self.wf(),
        ensures
            (self.structure() is Some) == (self@.line().len() > 0),
    {
        self.core.lemma_structure();
    }

    /// Well-formedness, kept by every method.
    pub open spec fn wf(&self) -> bool {
        self@.ok() && self@.settled() && self.inv()
    }

    /// A barrier for `n` parties; for none it is one for a single party.
    pub fn new(n: usize) -> (r: Self)
        requires
            n <= most_parties(),
        ensures
            r.wf(),
            r.structure() is None,
            r@ == BarrierView::fresh(n as nat),
    {
        AsyncBarrier { core: BarrierCore::new(n) }
    }

    /// How many parties complete a round.
    pub fn parties(&self) -> (r: usize)
        ensures
            r == self@.n,
    {
        self.core.parties()
    }

    /// Starts a blocking wait. The arrival is registered at once.
    pub fn wait_sync(&mut self, thread: usize, pool: &mut QueuePool) -> (r: BarrierWait)
        requires
            old(self).wf(),
            old(pool)@.serves(old(self).structure()),
        ensures
            final(self).wf(),
            (r is Ready) == old(self)@.completing(),
            match r {
                BarrierWait::Ready(result, wakes) => result@ && final(self)@
                    == old(self)@.passed() && wakes@ == old(self)@.w().wakes(old(self)@.line()),
                BarrierWait::Wait(waiter) => waiter@.stage is Arming && waiter@.spins == 0
                    && old(self)@.w().vacant(waiter@.entry) && final(self)@
                    == old(self)@.after_arrive().with_new(
                    waiter@.entry,
                    SignalView::fresh_sync(thread),
                ).enqueued(waiter@.entry, old(self)@.generation),
            },
            r matches BarrierWait::Wait(waiter) ==> final(self)@.sync_waits(waiter@.entry),
            old(self)@.keeps(final(self)@, None),
            traded(old(pool)@, old(self).structure(), final(pool)@, final(self).structure()),
    {
        self.core.wait(thread, pool)
    }

    /// One look of a waiting thread.
    pub fn wait_step(&mut self, waiter: &mut SyncWaiter) -> (r: BarrierStep)
        requires
            old(self).wf(),
            old(self)@.sync_waits(old(waiter)@.entry),
        ensures
            final(self).wf(),
            final(self).structure() == old(self).structure(),
            final(waiter)@ == old(waiter)@.after_step(old(self)@.node(old(waiter)@.entry).value),
            match r {
                BarrierStep::Done(result) => old(self)@.node(old(waiter)@.entry).value
                    == SIGNAL_ALL && !result@ && final(self)@ == old(self)@.with_node(
                    old(waiter)@.entry,
                    SignalView::dead(),
                ),
                BarrierStep::Again(step) => old(self)@.node(old(waiter)@.entry).value
                    != SIGNAL_ALL && step == old(waiter)@.step(
                    old(self)@.node(old(waiter)@.entry).value,
                ) && final(self)@ == (BarrierView {
                    queue: after_sync_step(old(self)@.queue, old(waiter)@),
                    ..old(self)@
                }),
            },
            r is Again ==> final(self)@.sync_waits(old(waiter)@.entry),
            old(self)@.keeps(final(self)@, Some(old(waiter)@.entry)),
    {
        self.core.wait_step(waiter)
    }

    /// Makes a task's wait.
    pub fn wait(&mut self) -> (r: AsyncBarrierWaitRequest)
        requires
            old(self).wf(),
        ensures
            final(self).wf(),
            final(self).structure() == old(self).structure(),
            old(self)@.w().vacant(r@),
            final(self)@ == old(self)@.with_new(r@, SignalView::fresh_none()),
            final(self)@.pollable(r@),
            old(self)@.keeps(final(self)@, None),
    {
        AsyncBarrierWaitRequest { entry: self.core.prepare_async() }
    }

    /// Polls a task's wait. Returns whom to wake, too.
    pub fn poll(
        &mut self,
        request: &AsyncBarrierWaitRequest,
        waker: usize,
        pool: &mut QueuePool,
    ) -> (r: (
        Poll<BarrierWaitResult>,
        Vec<Wake>,
    ))
        requires
            old(self).wf(),
            old(self)@.pollable(request@),
            old(pool)@.serves(old(self).structure()),
        ensures
            final(self).wf(),
            final(self)@ == old(self)@.polled(request@, waker),
            match r.0 {
                Poll::Ready(result) => (old(self)@.node(request@).value == SIGNAL_ALL && !result@
                    && r.1@.len() == 0) || (old(self)@.node(request@).value == SIGNAL_UNINIT
                    && old(self)@.completing() && result@ && r.1@ == old(self)@.w().wakes(
                    old(self)@.line(),
                )),
                Poll::Pending => r.1@.len() == 0 && (old(self)@.node(request@).value
                    == SIGNAL_INIT_WAITING || old(self)@.node(request@).value == SIGNAL_UNINIT
                    && !old(self)@.completing()),
            },
            r.0 is Pending ==> final(self)@.pollable(request@),
            final(self)@.droppable(request@),
            old(self)@.keeps(final(self)@, Some(request@)),
            traded(old(pool)@, old(self).structure(), final(pool)@, final(self).structure()),
    {
        self.core.poll(request.entry, waker, pool)
    }

    /// Drops a task's wait, in whatever state it is. One that waits takes its
    /// arrival back.
    pub fn drop_request(
        &mut self,
        request: &AsyncBarrierWaitRequest,
        pool: &mut QueuePool,
    ) -> (r: Withdrawn)
        requires
            old(self).wf(),
            old(self)@.droppable(request@),
            old(pool)@.lends(old(self).structure()),
        ensures
            final(self).wf(),
            (r is InFlight) == old(self)@.w().popped.contains(request@),
            r matches Withdrawn::Done(wakes) ==> wakes@.len() == 0,
            final(self)@ == old(self)@.dropped(request@),
            r is InFlight ==> final(self)@.droppable(request@),
            old(self)@.keeps(final(self)@, Some(request@)),
            returned(old(pool)@, old(self).structure(), final(pool)@, final(self).structure()),
    {
        self.core.drop_request(request.entry, pool)
    }

    /// The same barrier for threads.
    pub fn to_sync(self) -> (r: Barrier)
        ensures
            r.structure() == self.structure(),
            r@ == self@,
            r.inv() == self.inv(),
    {
        Barrier { core: self.core }
    }
}

} // verus!
