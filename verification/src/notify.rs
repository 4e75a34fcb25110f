//! Notifiers, for threads ([`Notify`]) and for tasks ([`AsyncNotify`]). Both are
//! the same underneath and turn into each other.
use vstd::prelude::*;

use crate::notify_core::{NotifyCore, NotifyView};
use crate::notify_ops::{wait_spec, Wait};
use crate::pool::{returned, traded, QueuePool};
use crate::signal::{
    Poll, SignalView, Wake, Withdrawn, SIGNAL_INIT_WAITING, SIGNAL_SIGNALED, SIGNAL_UNINIT,
};
use crate::sync_wait::{after_sync_step, SyncStep, SyncWaiter};

verus! {

/// A task's wait for a notification, which begins when this is made.
#[derive(Debug)]
pub struct AsyncNotified {
    entry: usize,
    captured_gen: usize,
}

impl AsyncNotified {
    /// The node that the task waits on.
    pub closed spec fn entry(&self) -> usize {
        self.entry
    }

    /// The generation in which the wait began.
    pub closed spec fn captured(&self) -> usize {
        self.captured_gen
    }
}

/// A notifier for threads.
pub struct Notify {
    core: NotifyCore,
}

impl View for Notify {
    type V = NotifyView;

    closed spec fn view(&self) -> NotifyView {
        self.core@
    }
}

impl Notify {
    /// The representation behind the view.
    pub closed spec fn inv(&self) -> bool {
        self.core.inv()
    }

    /// The address of the structure that the line stands in.
    pub closed spec fn structure(&self) -> Option<usize> {
        self.core.structure()
    }

    /// There is a structure exactly while somebody waits.
    pub proof fn lemma_structure(&self)
        requires
            self.wf(),
        ensures
            (self.structure() is Some) == (self@.line().len() > 0),
    {
        self.core.lemma_structure();
    }

    /// Well-formedness, kept by every method.
    pub open spec fn wf(&self) -> bool {
        self@.ok() && self@.settled() && self.inv()
    }

    /// A notifier with nothing stored.
    pub fn new() -> (r: Self)
        ensures
            r.wf(),
            r.structure() is None,
            r@ == NotifyView::fresh(),
    {
        Notify { core: NotifyCore::new() }
    }

    /// Wakes one waiter, or stores a notification that the next wait uses up.
    /// Returns whom to wake.
    pub fn notify_one(&mut self, pool: &mut QueuePool) -> (r: Vec<Wake>)
        requires
            old(self).wf(),
            old(pool)@.lends(old(self).structure()),
        ensures
            final(self).wf(),
            final(self)@ == old(self)@.notified_one(),
            r@ == old(self)@.one_wakes(),
            old(self)@.keeps(final(self)@, None),
            returned(old(pool)@, old(self).structure(), final(pool)@, final(self).structure()),
    {
        self.core.notify_one(pool)
    }

    /// Wakes all current waiters, and ends every wait that has begun, without
    /// storing a notification. Returns whom to wake.
    pub fn notify_waiters(&mut self, pool: &mut QueuePool) -> (r: Vec<Wake>)
        requires
            old(self).wf(),
            old(pool)@.lends(old(self).structure()),
        ensures
            final(self).wf(),
            final(self)@ == old(self)@.notified_all(),
            r@ == old(self)@.all_wakes(),
            old(self)@.keeps(final(self)@, None),
            returned(old(pool)@, old(self).structure(), final(pool)@, final(self).structure()),
    {
        self.core.notify_waiters(pool)
    }

    /// Starts a blocking wait for a notification.
    pub fn wait(&mut self, thread: usize, pool: &mut QueuePool) -> (r: Wait)
        requires
            old(self).wf(),
            old(pool)@.serves(old(self).structure()),
        ensures
            final(self).wf(),
            wait_spec(old(self)@, thread, r, final(self)@),
            r matches Wait::Wait(waiter) ==> final(self)@.sync_waits(waiter@.entry),
            old(self)@.keeps(final(self)@, None),
            traded(old(pool)@, old(self).structure(), final(pool)@, final(self).structure()),
    {
        self.core.wait(thread, pool)
    }

    /// One look of a waiting thread. Returns what it does next, or nothing if
    /// it was notified.
    pub fn wait_step(&mut self, waiter: &mut SyncWaiter) -> (r: Option<SyncStep>)
        requires
            old(self).wf(),
            old(self)@.sync_waits(old(waiter)@.entry),
        ensures
            final(self).wf(),
            final(self).structure() == old(self).structure(),
            final(waiter)@ == old(waiter)@.after_step(old(self)@.node(old(waiter)@.entry).value),
            (r is None) == (old(self)@.node(old(waiter)@.entry).value >= SIGNAL_SIGNALED),
            match r {
                None => final(self)@ == old(self)@.with_node(
                    old(waiter)@.entry,
                    SignalView::dead(),
                ),
                Some(step) => step == old(waiter)@.step(old(self)@.node(old(waiter)@.entry).value)
                    && final(self)@ == (NotifyView {
                    queue: after_sync_step(old(self)@.queue, old(waiter)@),
                    ..old(self)@
                }),
            },
            r is Some ==> final(self)@.sync_waits(old(waiter)@.entry),
            old(self)@.keeps(final(self)@, Some(old(waiter)@.entry)),
    {
        self.core.wait_step(waiter)
    }

    /// Begins a task's wait for a notification.
    pub fn notified(&mut self) -> (r: AsyncNotified)
        requires
            old(self).wf(),
        ensures
            final(self).wf(),
            final(self).structure() == old(self).structure(),
            r.captured() == old(self)@.generation,
            old(self)@.w().vacant(r.entry()),
            final(self)@ == old(self)@.with_new(r.entry(), SignalView::fresh_none()),
            final(self)@.pollable(r.entry()),
            old(self)@.keeps(final(self)@, None),
    {
        let captured_gen: usize = self.core.current();
        AsyncNotified { entry: self.core.prepare_async(), captured_gen }
    }

    /// Polls a task's wait.
    pub fn poll(
        &mut self,
        request: &AsyncNotified,
        waker: usize,
        pool: &mut QueuePool,
    ) -> (r: Poll<()>)
        requires
            old(self).wf(),
            old(self)@.pollable(request.entry()),
            old(pool)@.serves(old(self).structure()),
        ensures
            final(self).wf(),
            r == if old(self)@.node(request.entry()).value == SIGNAL_INIT_WAITING
                || old(self)@.node(request.entry()).value
                == SIGNAL_UNINIT && !old(self)@.completes(request.captured()) {
                Poll::Pending
            } else {
                Poll::Ready(())
            },
            final(self)@ == old(self)@.polled(request.entry(), request.captured(), waker),
            r is Pending ==> final(self)@.pollable(request.entry()),
            final(self)@.droppable(request.entry()),
            old(self)@.keeps(final(self)@, Some(request.entry())),
            traded(old(pool)@, old(self).structure(), final(pool)@, final(self).structure()),
    {
        self.core.poll(request.entry, request.captured_gen, waker, pool)
    }

    /// Drops a task's wait, in whatever state it is. One that was notified and
    /// did not see it passes the notification on.
    pub fn drop_request(&mut self, request: &AsyncNotified, pool: &mut QueuePool) -> (r: Withdrawn)
        requires
            old(self).wf(),
            old(self)@.droppable(request.entry()),
            old(pool)@.lends(old(self).structure()),
        ensures
            final(self).wf(),
            (r is InFlight) == old(self)@.w().popped.contains(request.entry()),
            final(self)@ == old(self)@.dropped(request.entry()),
            r matches Withdrawn::Done(wakes) ==> wakes@ == if old(self)@.node(request.entry()).value
                == SIGNAL_SIGNALED {
                old(self)@.with_node(request.entry(), SignalView::dead()).one_wakes()
            } else {
                Seq::<Wake>::empty()
            },
            r is InFlight ==> final(self)@.droppable(request.entry()),
            old(self)@.keeps(final(self)@, Some(request.entry())),
            returned(old(pool)@, old(self).structure(), final(pool)@, final(self).structure()),
    {
        self.core.drop_request(request.entry, pool)
    }

    /// The same notifier for tasks.
    pub fn to_async(self) -> (r: AsyncNotify)
        ensures
            r.structure() == self.structure(),
            r@ == self@,
            r.inv() == self.inv(),
    {
        AsyncNotify { core: self.core }
    }
}

impl Default for Notify {
    fn default() -> (r: Self)
        ensures
            r.wf(),
            r.structure() is None,
            r@ == NotifyView::fresh(),
    {
        Notify::new()
    }
}

/// A notifier for tasks.
pub struct AsyncNotify {
    core: NotifyCore,
}

impl View for AsyncNotify {
    type V = NotifyView;

    closed spec fn view(&self) -> NotifyView {
        self.core@
    }
}

impl AsyncNotify {
    /// The representation behind the view.
    pub closed spec fn inv(&self) -> bool {
        self.core.inv()
    }

    /// The address of the structure that the line stands in.
    pub closed spec fn structure(&self) -> Option<usize> {
        self.core.structure()
    }

    /// There is a structure exactly while somebody waits.
    pub proof fn lemma_structure(&self)
        requires
            self.wf(),
        ensures
            (self.structure() is Some) == (self@.line().len() > 0),
    {
        self.core.lemma_structure();
    }

    /// Well-formedness, kept by every method.
    pub open spec fn wf(&self) -> bool {
        self@.ok() && self@.settled() && self.inv()
    }

    /// A notifier with nothing stored.
    pub fn new() -> (r: Self)
        ensures
            r.wf(),
            r.structure() is None,
            r@ == NotifyView::fresh(),
    {
        AsyncNotify { core: NotifyCore::new() }
    }

    /// Wakes one waiter, or stores a notification that the next wait uses up.
    /// Returns whom to wake.
    pub fn notify_one(&mut self, pool: &mut QueuePool) -> (r: Vec<Wake>)
        requires
            old(self).wf(),
            old(pool)@.lends(old(self).structure()),
        ensures
            final(self).wf(),
            final(self)@ == old(self)@.notified_one(),
            r@ == old(self)@.one_wakes(),
            old(self)@.keeps(final(self)@, None),
            returned(old(pool)@, old(self).structure(), final(pool)@, final(self).structure()),
    {
        self.core.notify_one(pool)
    }

    /// Wakes all current waiters, and ends every wait that has begun, without
    /// storing a notification. Returns whom to wake.
    pub fn notify_waiters(&mut self, pool: &mut QueuePool) -> (r: Vec<Wake>)
        requires
            old(self).wf(),
            old(pool)@.lends(old(self).structure()),
        ensures
            final(self).wf(),
            final(self)@ == old(self)@.notified_all(),
            r@ == old(self)@.all_wakes(),
            old(self)@.keeps(final(self)@, None),
            returned(old(pool)@, old(self).structure(), final(pool)@, final(self).structure()),
    {
        self.core.notify_waiters(pool)
    }

    /// Starts a blocking wait for a notification.
    pub fn wait_sync(&mut self, thread: usize, pool: &mut QueuePool) -> (r: Wait)
        requires
            old(self).wf(),
            old(pool)@.serves(old(self).structure()),
        ensures
            final(self).wf(),
            wait_spec(old(self)@, thread, r, final(self)@),
            r matches Wait::Wait(waiter) ==> final(self)@.sync_waits(waiter@.entry),
            old(self)@.keeps(final(self)@, None),
            traded(old(pool)@, old(self).structure(), final(pool)@, final(self).structure()),
    {
        self.core.wait(thread, pool)
    }

    /// One look of a waiting thread. Returns what it does next, or nothing if
    /// it was notified.
    pub fn wait_step(&mut self, waiter: &mut SyncWaiter) -> (r: Option<SyncStep>)
        requires
            old(self).wf(),
            old(self)@.sync_waits(old(waiter)@.entry),
        ensures
            final(self).wf(),
            final(self).structure() == old(self).structure(),
            final(waiter)@ == old(waiter)@.after_step(old(self)@.node(old(waiter)@.entry).value),
            (r is None) == (old(self)@.node(old(waiter)@.entry).value >= SIGNAL_SIGNALED),
            match r {
                None => final(self)@ == old(self)@.with_node(
                    old(waiter)@.entry,
                    SignalView::dead(),
                ),
                Some(step) => step == old(waiter)@.step(old(self)@.node(old(waiter)@.entry).value)
                    && final(self)@ == (NotifyView {
                    queue: after_sync_step(old(self)@.queue, old(waiter)@),
                    ..old(self)@
                }),
            },
            r is Some ==> final(self)@.sync_waits(old(waiter)@.entry),
            old(self)@.keeps(final(self)@, Some(old(waiter)@.entry)),
    {
        self.core.wait_step(waiter)
    }

    /// Begins a task's wait for a notification.
    pub fn notified(&mut self) -> (r: AsyncNotified)
        requires
            old(self).wf(),
        ensures
            final(self).wf(),
            final(self).structure() == old(self).structure(),
            r.captured() == old(self)@.generation,
            old(self)@.w().vacant(r.entry()),
            final(self)@ == old(self)@.with_new(r.entry(), SignalView::fresh_none()),
            final(self)@.pollable(r.entry()),
            old(self)@.keeps(final(self)@, None),
    {
        let captured_gen: usize = self.core.current();
        AsyncNotified { entry: self.core.prepare_async(), captured_gen }
    }

    /// Polls a task's wait.
    pub fn poll(
        &mut self,
        request: &AsyncNotified,
        waker: usize,
        pool: &mut QueuePool,
    ) -> (r: Poll<()>)
        requires
            old(self).wf(),
            old(self)@.pollable(request.entry()),
            old(pool)@.serves(old(self).structure()),
        ensures
            final(self).wf(),
            r == if old(self)@.node(request.entry()).value == SIGNAL_INIT_WAITING
                || old(self)@.node(request.entry()).value
                == SIGNAL_UNINIT && !old(self)@.completes(request.captured()) {
                Poll::Pending
            } else {
                Poll::Ready(())
            },
            final(self)@ == old(self)@.polled(request.entry(), request.captured(), waker),
            r is Pending ==> final(self)@.pollable(request.entry()),
            final(self)@.droppable(request.entry()),
            old(self)@.keeps(final(self)@, Some(request.entry())),
            traded(old(pool)@, old(self).structure(), final(pool)@, final(self).structure()),
    {
        self.core.poll(request.entry, request.captured_gen, waker, pool)
    }

    /// Drops a task's wait, in whatever state it is. One that was notified and
    /// did not see it passes the notification on.
    pub fn drop_request(&mut self, request: &AsyncNotified, pool: &mut QueuePool) -> (r: Withdrawn)
        requires
            old(self).wf(),
            old(self)@.droppable(request.entry()),
            old(pool)@.lends(old(self).structure()),
        ensures
            final(self).wf(),
            (r is InFlight) == old(self)@.w().popped.contains(request.entry()),
            final(self)@ == old(self)@.dropped(request.entry()),
            r matches Withdrawn::Done(wakes) ==> wakes@ == if old(self)@.node(request.entry()).value
                == SIGNAL_SIGNALED {
                old(self)@.with_node(request.entry(), SignalView::dead()).one_wakes()
            } else {
                Seq::<Wake>::empty()
            },
            r is InFlight ==> final(self)@.droppable(request.entry()),
            old(self)@.keeps(final(self)@, Some(request.entry())),
            returned(old(pool)@, old(self).structure(), final(pool)@, final(self).structure()),
    {
        self.core.drop_request(request.entry, pool)
    }

    /// The same notifier for threads.
    pub fn to_sync(self) -> (r: Notify)
        ensures
            r.structure() == self.structure(),
            r@ == self@,
            r.inv() == self.inv(),
    {
        Notify { core: self.core }
    }
}

impl Default for AsyncNotify {
    fn default() -> (r: Self)
        ensures
            r.wf(),
            r.structure() is None,
            r@ == NotifyView::fresh(),
    {
        AsyncNotify::new()
    }
}

} // verus!
