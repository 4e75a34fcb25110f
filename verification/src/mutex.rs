//! Mutual exclusion, for threads ([`Mutex`]) and for tasks ([`AsyncMutex`]).
//! Both are the same underneath and turn into each other.
use vstd::prelude::*;

use crate::mutex_core::{MutexGuard, MutexInternal, MutexView};
use crate::mutex_ops::{lock_spec, look_spec, poll_spec, Lock, LockStep};
use crate::pool::{returned, traded, QueuePool};
use crate::signal::{Poll, SignalView, Wake, Withdrawn, SIGNAL_SIGNALED};
use crate::sync_wait::SyncWaiter;

verus! {

/// A request for the lock, made by a task.
#[derive(Debug)]
pub struct AsyncLockRequest {
    entry: usize,
}

impl View for AsyncLockRequest {
    type V = usize;

    closed spec fn view(&self) -> usize {
        self.entry
    }
}

/// A mutex for threads. It is fair: the lock goes to those who wait in the order
/// in which they came.
pub struct Mutex<T> {
    internal: MutexInternal<T>,
}

impl<T> View for Mutex<T> {
    type V = MutexView<T>;

    closed spec fn view(&self) -> MutexView<T> {
        self.internal@
    }
}

impl<T> Mutex<T> {
    /// The representation behind the view.
    pub closed spec fn inv(&self) -> bool {
        self.internal.inv()
    }

    /// The address of the structure that the line stands in.
    pub closed spec fn structure(&self) -> Option<usize> {
        self.internal.structure()
    }

    /// There is a structure exactly while there is a queue.
    pub proof fn lemma_structure(&self)
        requires
            self.wf(),
        ensures
            (self.structure() is None) == (self@.door is Unlocked || self@.door is Locked),
    {
        self.internal.lemma_structure();
    }

    /// Well-formedness, kept by every method.
    pub open spec fn wf(&self) -> bool {
        self@.ok() && self@.quiet() && self.inv()
    }

    /// A free mutex that protects `data`.
    pub fn new(data: T) -> (r: Self)
        ensures
            r.wf(),
            r.structure() is None,
            r@ == MutexView::fresh(data, r@.id),
    {
        Mutex { internal: MutexInternal::new(data) }
    }

    /// Takes the lock if it is free.
    pub fn try_lock(&mut self) -> (r: Option<MutexGuard<T>>)
        requires
            old(self).wf(),
        ensures
            final(self).wf(),
            final(self).structure() == old(self).structure(),
            (r is Some) == (old(self)@.owner is Nobody),
            r matches Some(guard) ==> Some(guard@) == old(self)@.data && guard.source()
                == old(self)@.id && final(self)@ == old(self)@.guarded(),
            r is None ==> final(self)@ == old(self)@,
            old(self)@.keeps(final(self)@, None),
    {
        self.internal.try_lock()
    }

    /// Starts a blocking lock.
    pub fn lock(&mut self, thread: usize, pool: &mut QueuePool) -> (r: Lock<T>)
        requires
            old(self).wf(),
            old(pool)@.serves(old(self).structure()),
        ensures
            final(self).wf(),
            lock_spec(old(self)@, thread, r, final(self)@),
            r matches Lock::Wait(waiter) ==> final(self)@.sync_waits(waiter@.entry),
            old(self)@.keeps(final(self)@, None),
            traded(old(pool)@, old(self).structure(), final(pool)@, final(self).structure()),
    {
        self.internal.lock(thread, pool)
    }

    /// One look of a thread that waits for the lock.
    pub fn wait_step(&mut self, waiter: &mut SyncWaiter) -> (r: LockStep<T>)
        requires
            old(self).wf(),
            old(self)@.sync_waits(old(waiter)@.entry),
        ensures
            final(self).wf(),
            final(self).structure() == old(self).structure(),
            final(waiter)@ == old(waiter)@.after_step(old(self)@.node(old(waiter)@.entry).value),
            look_spec(old(self)@, old(waiter)@, r, final(self)@),
            r is Again ==> final(self)@.sync_waits(old(waiter)@.entry),
            old(self)@.keeps(final(self)@, Some(old(waiter)@.entry)),
    {
        self.internal.lock_step(waiter)
    }

    /// Makes a request for the lock.
    pub fn lock_async(&mut self) -> (r: AsyncLockRequest)
        requires
            old(self).wf(),
        ensures
            final(self).wf(),
            final(self).structure() == old(self).structure(),
            old(self)@.waiters.vacant(r@),
            final(self)@ == old(self)@.with_new(r@, SignalView::fresh_none()),
            final(self)@.pollable(r@),
            old(self)@.keeps(final(self)@, None),
    {
        AsyncLockRequest { entry: self.internal.prepare_async() }
    }

    /// Polls a request.
    pub fn poll(
        &mut self,
        request: &AsyncLockRequest,
        waker: usize,
        pool: &mut QueuePool,
    ) -> (r: Poll<MutexGuard<T>>)
        requires
            old(self).wf(),
            old(self)@.pollable(request@),
            old(pool)@.serves(old(self).structure()),
        ensures
            final(self).wf(),
            poll_spec(old(self)@, request@, waker, r, final(self)@),
            r is Pending ==> final(self)@.pending(request@),
            final(self)@.droppable(request@),
            old(self)@.keeps(final(self)@, Some(request@)),
            traded(old(pool)@, old(self).structure(), final(pool)@, final(self).structure()),
    {
        self.internal.poll(request.entry, waker, pool)
    }

    /// Drops a request, in whatever state it is: it leaves the line, and a lock
    /// that it was given is handed on.
    pub fn drop_request(
        &mut self,
        request: &AsyncLockRequest,
        pool: &mut QueuePool,
    ) -> (r: Withdrawn)
        requires
            old(self).wf(),
            old(self)@.droppable(request@),
            old(pool)@.lends(old(self).structure()),
        ensures
            final(self).wf(),
            (r is InFlight) == old(self)@.waiters.popped.contains(request@),
            final(self)@ == old(self)@.dropped(request@),
            r matches Withdrawn::Done(wakes) ==> wakes@ == if old(self)@.node(request@).value
                == SIGNAL_SIGNALED {
                old(self)@.unlock_wakes()
            } else {
                Seq::<Wake>::empty()
            },
            r is InFlight ==> final(self)@.droppable(request@),
            old(self)@.keeps(final(self)@, Some(request@)),
            returned(old(pool)@, old(self).structure(), final(pool)@, final(self).structure()),
    {
        self.internal.drop_request(request.entry, pool)
    }

    /// Drops a guard. Returns whom to wake.
    pub fn unlock(&mut self, guard: MutexGuard<T>, pool: &mut QueuePool) -> (r: Vec<Wake>)
        requires
            old(self).wf(),
            old(self)@.owner is Guard,
            guard.source() == old(self)@.id,
            old(pool)@.lends(old(self).structure()),
        ensures
            final(self).wf(),
            final(self)@ == old(self)@.unlocked(guard@),
            r@ == old(self)@.unlock_wakes(),
            old(self)@.keeps(final(self)@, None),
            returned(old(pool)@, old(self).structure(), final(pool)@, final(self).structure()),
    {
        self.internal.unlock(guard, pool)
    }

    /// Whether somebody is in line.
    pub fn has_waiters(&self) -> (r: bool)
        requires
            self.wf(),
        ensures
            r == (self@.line().len() > 0),
    {
        self.internal.has_waiters()
    }

    /// The same mutex for tasks.
    pub fn to_async(self) -> (r: AsyncMutex<T>)
        ensures
            r.structure() == self.structure(),
            r@ == self@,
            r.inv() == self.inv(),
    {
        AsyncMutex { internal: self.internal }
    }
}

/// A mutex for tasks. It is fair: the lock goes to those who wait in the order
/// in which they came.
pub struct AsyncMutex<T> {
    internal: MutexInternal<T>,
}

impl<T> View for AsyncMutex<T> {
    type V = MutexView<T>;

    closed spec fn view(&self) -> MutexView<T> {
        self.internal@
    }
}

impl<T> AsyncMutex<T> {
    /// The representation behind the view.
    pub closed spec fn inv(&self) -> bool {
        self.internal.inv()
    }

    /// The address of the structure that the line stands in.
    pub closed spec fn structure(&self) -> Option<usize> {
        self.internal.structure()
    }

    /// There is a structure exactly while there is a queue.
    pub proof fn lemma_structure(&self)
        requires
            self.wf(),
        ensures
            (self.structure() is None) == (self@.door is Unlocked || self@.door is Locked),
    {
        self.internal.lemma_structure();
    }

    /// Well-formedness, kept by every method.
    pub open spec fn wf(&self) -> bool {
        self@.ok() && self@.quiet() && self.inv()
    }

    /// A free mutex that protects `data`.
    pub fn new(data: T) -> (r: Self)
        ensures
            r.wf(),
            r.structure() is None,
            r@ == MutexView::fresh(data, r@.id),
    {
        AsyncMutex { internal: MutexInternal::new(data) }
    }

    /// Takes the lock if it is free.
    pub fn try_lock(&mut self) -> (r: Option<MutexGuard<T>>)
        requires
            old(self).wf(),
        ensures
            final(self).wf(),
            final(self).structure() == old(self).structure(),
            (r is Some) == (old(self)@.owner is Nobody),
            r matches Some(guard) ==> Some(guard@) == old(self)@.data && guard.source()
                == old(self)@.id && final(self)@ == old(self)@.guarded(),
            r is None ==> final(self)@ == old(self)@,
            old(self)@.keeps(final(self)@, None),
    {
        self.internal.try_lock()
    }

    /// Starts a blocking lock.
    pub fn lock_sync(&mut self, thread: usize, pool: &mut QueuePool) -> (r: Lock<T>)
        requires
            old(self).wf(),
            old(pool)@.serves(old(self).structure()),
        ensures
            final(self).wf(),
            lock_spec(old(self)@, thread, r, final(self)@),
            r matches Lock::Wait(waiter) ==> final(self)@.sync_waits(waiter@.entry),
            old(self)@.keeps(final(self)@, None),
            traded(old(pool)@, old(self).structure(), final(pool)@, final(self).structure()),
    {
        self.internal.lock(thread, pool)
    }

    /// One look of a thread that waits for the lock.
    pub fn wait_step(&mut self, waiter: &mut SyncWaiter) -> (r: LockStep<T>)
        requires
            old(self).wf(),
            old(self)@.sync_waits(old(waiter)@.entry),
        ensures
            final(self).wf(),
            final(self).structure() == old(self).structure(),
            final(waiter)@ == old(waiter)@.after_step(old(self)@.node(old(waiter)@.entry).value),
            look_spec(old(self)@, old(waiter)@, r, final(self)@),
            r is Again ==> final(self)@.sync_waits(old(waiter)@.entry),
            old(self)@.keeps(final(self)@, Some(old(waiter)@.entry)),
    {
        self.internal.lock_step(waiter)
    }

    /// Makes a request for the lock.
    pub fn lock(&mut self) -> (r: AsyncLockRequest)
        requires
            old(self).wf(),
        ensures
            final(self).wf(),
            final(self).structure() == old(self).structure(),
            old(self)@.waiters.vacant(r@),
            final(self)@ == old(self)@.with_new(r@, SignalView::fresh_none()),
            final(self)@.pollable(r@),
            old(self)@.keeps(final(self)@, None),
    {
        AsyncLockRequest { entry: self.internal.prepare_async() }
    }

    /// Polls a request.
    pub fn poll(
        &mut self,
        request: &AsyncLockRequest,
        waker: usize,
        pool: &mut QueuePool,
    ) -> (r: Poll<MutexGuard<T>>)
        requires
            old(self).wf(),
            old(self)@.pollable(request@),
            old(pool)@.serves(old(self).structure()),
        ensures
            final(self).wf(),
            poll_spec(old(self)@, request@, waker, r, final(self)@),
            r is Pending ==> final(self)@.pending(request@),
            final(self)@.droppable(request@),
            old(self)@.keeps(final(self)@, Some(request@)),
            traded(old(pool)@, old(self).structure(), final(pool)@, final(self).structure()),
    {
        self.internal.poll(request.entry, waker, pool)
    }

    /// Drops a request, in whatever state it is: it leaves the line, and a lock
    /// that it was given is handed on.
    pub fn drop_request(
        &mut self,
        request: &AsyncLockRequest,
        pool: &mut QueuePool,
    ) -> (r: Withdrawn)
        requires
            old(self).wf(),
            old(self)@.droppable(request@),
            old(pool)@.lends(old(self).structure()),
        ensures
            final(self).wf(),
            (r is InFlight) == old(self)@.waiters.popped.contains(request@),
            final(self)@ == old(self)@.dropped(request@),
            r matches Withdrawn::Done(wakes) ==> wakes@ == if old(self)@.node(request@).value
                == SIGNAL_SIGNALED {
                old(self)@.unlock_wakes()
            } else {
                Seq::<Wake>::empty()
            },
            r is InFlight ==> final(self)@.droppable(request@),
            old(self)@.keeps(final(self)@, Some(request@)),
            returned(old(pool)@, old(self).structure(), final(pool)@, final(self).structure()),
    {
        self.internal.drop_request(request.entry, pool)
    }

    /// Drops a guard. Returns whom to wake.
    pub fn unlock(&mut self, guard: MutexGuard<T>, pool: &mut QueuePool) -> (r: Vec<Wake>)
        requires
            old(self).wf(),
            old(self)@.owner is Guard,
            guard.source() == old(self)@.id,
            old(pool)@.lends(old(self).structure()),
        ensures
            final(self).wf(),
            final(self)@ == old(self)@.unlocked(guard@),
            r@ == old(self)@.unlock_wakes(),
            old(self)@.keeps(final(self)@, None),
            returned(old(pool)@, old(self).structure(), final(pool)@, final(self).structure()),
    {
        self.internal.unlock(guard, pool)
    }

    /// Whether somebody is in line.
    pub fn has_waiters(&self) -> (r: bool)
        requires
            self.wf(),
        ensures
            r == (self@.line().len() > 0),
    {
        self.internal.has_waiters()
    }

    /// The same mutex for threads.
    pub fn to_sync(self) -> (r: Mutex<T>)
        ensures
            r.structure() == self.structure(),
            r@ == self@,
            r.inv() == self.inv(),
    {
        Mutex { internal: self.internal }
    }
}

} // verus!
