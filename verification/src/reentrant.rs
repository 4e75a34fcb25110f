//! A mutex that the thread that holds it can lock again.
//!
//! Threads are told apart by a number that is not zero. The lock remembers its
//! owner and how often the owner has locked it; it is given up when the owner
//! has unlocked it as often.
use vstd::prelude::*;

use crate::mutex_core::{MutexGuard, MutexInternal, MutexView};
use crate::mutex_ops::{lock_spec, Lock, LockStep};
use crate::pool::{returned, traded, QueuePool};
use crate::signal::{Poll, SignalView, Wake, Withdrawn, SIGNAL_SIGNALED};
use crate::sync_wait::{SyncStep, SyncWaiter};

verus! {

/// The state of a reentrant mutex.
#[verifier::ext_equal]
pub struct ReentrantView<T> {
    /// The mutex underneath.
    pub mutex: MutexView<T>,
    /// The owner, or zero.
    pub owner: usize,
    /// How often the owner has locked it.
    pub count: nat,
    /// The protected value, while there is an owner.
    pub held: Option<T>,
}

impl<T> ReentrantView<T> {
    /// What every operation keeps: the owner is recorded exactly while the
    /// mutex underneath is locked, and its guard is kept here.
    pub open spec fn ok(self) -> bool {
        &&& self.mutex.ok()
        &&& self.mutex.quiet()
        &&& (self.owner != 0) == (self.mutex.owner is Guard)
        &&& (self.owner != 0) == (self.count > 0)
        &&& (self.owner != 0) == (self.held is Some)
        &&& self.count <= usize::MAX
    }

    /// The state after `tid` got a lock that nobody held, with `data` in it.
    pub open spec fn acquired(self, tid: usize, mutex: MutexView<T>, data: T) -> ReentrantView<T> {
        ReentrantView { mutex, owner: tid, count: 1, held: Some(data) }
    }

    /// The state after the owner unlocked it once.
    pub open spec fn unlocked(self) -> ReentrantView<T> {
        if self.count == 1 {
            ReentrantView {
                mutex: self.mutex.unlocked(self.held->0),
                owner: 0,
                count: 0,
                held: None,
            }
        } else {
            ReentrantView { count: (self.count - 1) as nat, ..self }
        }
    }
}

/// A guard of the owner. The value is reached through the mutex.
pub struct ReentrantMutexGuard {
    of: Ghost<int>,
}

impl ReentrantMutexGuard {
    /// The mark of the mutex that it is a guard of.
    pub closed spec fn source(&self) -> int {
        self.of@
    }
}

/// How a blocking lock starts.
pub enum ReentrantLock {
    /// The thread has the lock.
    Ready(ReentrantMutexGuard),
    /// The thread has to wait.
    Wait(SyncWaiter),
}

/// What a waiting thread does next.
pub enum ReentrantStep {
    /// Pause or park, and look again.
    Again(SyncStep),
    /// The thread has the lock.
    Done(ReentrantMutexGuard),
}

/// How giving way to waiters ended.
pub enum Bump {
    /// There was no need: the guard is still good.
    Kept(ReentrantMutexGuard),
    /// The lock went to the first in line: wake these, and wait for it to come
    /// back.
    Yielded(Vec<Wake>, SyncWaiter),
}

/// A request for the lock, made by a task.
#[derive(Debug)]
pub struct ReentrantLockRequest {
    inner: Option<usize>,
}

impl View for ReentrantLockRequest {
    type V = Option<usize>;

    closed spec fn view(&self) -> Option<usize> {
        self.inner
    }
}

/// A reentrant mutex.
pub struct ReentrantMutex<T> {
    mutex: MutexInternal<T>,
    owner: usize,
    count: usize,
    held: Option<MutexGuard<T>>,
}

impl<T> View for ReentrantMutex<T> {
    type V = ReentrantView<T>;

    closed spec fn view(&self) -> ReentrantView<T> {
        ReentrantView {
            mutex: self.mutex@,
            owner: self.owner,
            count: self.count as nat,
            held: match self.held {
                Some(guard) => Some(guard@),
                None => None,
            },
        }
    }
}

impl<T> ReentrantMutex<T> {
    /// The representation behind the view.
    pub closed spec fn inv(&self) -> bool {
        &&& self.mutex.inv()
        &&& self.held matches Some(guard) ==> guard.source() == self.mutex@.id
    }

    /// The address of the structure that the line stands in.
    pub closed spec fn structure(&self) -> Option<usize> {
        self.mutex.structure()
    }

    /// There is a structure exactly while there is a queue.
    pub proof fn lemma_structure(&self)
        requires
            self.wf(),
        ensures
            (self.structure() is None) == (self@.mutex.door is Unlocked
                || self@.mutex.door is Locked),
    {
        self.mutex.lemma_structure();
    }

    /// Well-formedness, kept by every operation.
    pub open spec fn wf(&self) -> bool {
        self@.ok() && self.inv()
    }

    /// A free mutex that protects `v`.
    pub fn new(v: T) -> (r: Self)
        ensures
            r.wf(),
            r.structure() is None,
            r@.owner == 0,
            r@.count == 0,
            r@.mutex == MutexView::fresh(v, r@.mutex.id),
    {
        ReentrantMutex { mutex: MutexInternal::new(v), owner: 0, count: 0, held: None }
    }

    /// The owner, or zero.
    pub fn owner(&self) -> (r: usize)
        ensures
            r == self@.owner,
    {
        self.owner
    }

    /// How often the owner has locked it.
    pub fn count(&self) -> (r: usize)
        ensures
            r == self@.count,
    {
        self.count
    }

    /// Whether somebody is in line.
    pub fn has_waiters(&self) -> (r: bool)
        requires
            self.wf(),
        ensures
            r == (self@.mutex.line().len() > 0),
    {
        self.mutex.has_waiters()
    }

    /// Locks once more, for the owner.
    fn reentrant_guard(&mut self, tid: usize) -> (r: Option<ReentrantMutexGuard>)
        requires
            old(self).wf(),
            tid != 0,
            old(self)@.owner == tid ==> old(self)@.count < usize::MAX,
        ensures
            final(self).wf(),
            final(self).structure() == old(self).structure(),
            (r is Some) == (old(self)@.owner == tid),
            r matches Some(guard) ==> guard.source() == old(self)@.mutex.id,
            final(self)@ == if r is Some {
                ReentrantView { count: old(self)@.count + 1, ..old(self)@ }
            } else {
                old(self)@
            },
    {
        if self.owner == tid {
            self.count = self.count + 1;
            Some(ReentrantMutexGuard { of: Ghost(self.mutex@.id) })
        } else {
            None
        }
    }

    /// Records the owner of a lock that was just taken.
    fn acquired(&mut self, tid: usize, guard: MutexGuard<T>) -> (r: ReentrantMutexGuard)
        requires
            old(self)@.mutex.ok(),
            old(self)@.mutex.quiet(),
            old(self)@.mutex.owner is Guard,
            old(self).inv(),
            tid != 0,
            guard.source() == old(self)@.mutex.id,
        ensures
            final(self).wf(),
            final(self).structure() == old(self).structure(),
            final(self)@ == old(self)@.acquired(tid, old(self)@.mutex, guard@),
            r.source() == old(self)@.mutex.id,
    {
        self.owner = tid;
        self.count = 1;
        self.held = Some(guard);
        ReentrantMutexGuard { of: Ghost(self.mutex@.id) }
    }

    /// Takes the lock if it is free or the thread's own.
    pub fn try_lock(&mut self, tid: usize) -> (r: Option<ReentrantMutexGuard>)
        requires
            old(self).wf(),
            tid != 0,
            old(self)@.owner == tid ==> old(self)@.count < usize::MAX,
        ensures
            final(self).wf(),
            final(self).structure() == old(self).structure(),
            (r is Some) == (old(self)@.owner == tid || old(self)@.mutex.owner is Nobody),
            r matches Some(guard) ==> guard.source() == old(self)@.mutex.id,
            final(self)@ == if old(self)@.owner == tid {
                ReentrantView { count: old(self)@.count + 1, ..old(self)@ }
            } else if r is Some {
                old(self)@.acquired(tid, old(self)@.mutex.guarded(), old(self)@.mutex.data->0)
            } else {
                old(self)@
            },
            old(self)@.mutex.keeps(final(self)@.mutex, None),
    {
        if let Some(g) = self.reentrant_guard(tid) {
            return Some(g);
        }
        match self.mutex.try_lock() {
            Some(guard) => Some(self.acquired(tid, guard)),
            None => None,
        }
    }

    /// Starts a blocking lock.
    pub fn lock(&mut self, tid: usize, thread: usize, pool: &mut QueuePool) -> (r: ReentrantLock)
        requires
            old(self).wf(),
            tid != 0,
            old(self)@.owner == tid ==> old(self)@.count < usize::MAX,
            old(pool)@.serves(old(self).structure()),
        ensures
            final(self).wf(),
            match r {
                ReentrantLock::Ready(guard) => guard.source() == old(self)@.mutex.id
                    && final(self)@ == if old(self)@.owner == tid {
                    ReentrantView { count: old(self)@.count + 1, ..old(self)@ }
                } else {
                    old(self)@.acquired(tid, old(self)@.mutex.guarded(), old(self)@.mutex.data->0)
                } && (old(self)@.owner == tid || old(self)@.mutex.owner is Nobody),
                ReentrantLock::Wait(waiter) => old(self)@.owner != tid && lock_spec(
                    old(self)@.mutex,
                    thread,
                    Lock::Wait(waiter),
                    final(self)@.mutex,
                ) && final(self)@ == (ReentrantView { mutex: final(self)@.mutex, ..old(self)@ }),
            },
            r matches ReentrantLock::Wait(waiter) ==> final(self)@.mutex.sync_waits(waiter@.entry),
            old(self)@.mutex.keeps(final(self)@.mutex, None),
            traded(old(pool)@, old(self).structure(), final(pool)@, final(self).structure()),
    {
        if let Some(g) = self.reentrant_guard(tid) {
            return ReentrantLock::Ready(g);
        }
        match self.mutex.lock(thread, pool) {
            Lock::Ready(guard) => ReentrantLock::Ready(self.acquired(tid, guard)),
            Lock::Wait(waiter) => ReentrantLock::Wait(waiter),
        }
    }

    /// One look of a thread that waits for the lock.
    pub fn lock_step(&mut self, waiter: &mut SyncWaiter, tid: usize) -> (r: ReentrantStep)
        requires
            old(self).wf(),
            tid != 0,
            old(self)@.mutex.sync_waits(old(waiter)@.entry),
        ensures
            final(self).wf(),
            final(self).structure() == old(self).structure(),
            final(waiter)@ == old(waiter)@.after_step(
                old(self)@.mutex.node(old(waiter)@.entry).value,
            ),
            match r {
                ReentrantStep::Done(guard) => old(self)@.mutex.node(old(waiter)@.entry).value
                    == SIGNAL_SIGNALED && guard.source() == old(self)@.mutex.id
                        && final(self)@ == old(self)@.acquired(
                    tid,
                    old(self)@.mutex.guarded().with_node(old(waiter)@.entry, SignalView::dead()),
                    old(self)@.mutex.data->0,
                ),
                ReentrantStep::Again(step) => old(self)@.mutex.node(old(waiter)@.entry).value
                    != SIGNAL_SIGNALED && step == old(waiter)@.step(
                    old(self)@.mutex.node(old(waiter)@.entry).value,
                ) && final(self)@ == (ReentrantView {
                    mutex: old(self)@.mutex.with_node(
                        old(waiter)@.entry,
                        (SignalView {
                            value: old(waiter)@.value_after(
                                old(self)@.mutex.node(old(waiter)@.entry).value,
                            ),
                            ..old(self)@.mutex.node(old(waiter)@.entry)
                        }),
                    ),
                    ..old(self)@
                }),
            },
            r is Again ==> final(self)@.mutex.sync_waits(old(waiter)@.entry),
            old(self)@.mutex.keeps(final(self)@.mutex, Some(old(waiter)@.entry)),
    {
        match self.mutex.lock_step(waiter) {
            LockStep::Done(guard) => ReentrantStep::Done(self.acquired(tid, guard)),
            LockStep::Again(step) => ReentrantStep::Again(step),
        }
    }

    /// Makes a request for the lock; nothing happens before it is polled.
    pub fn lock_async(&self) -> (r: ReentrantLockRequest)
        ensures
            r@ is None,
    {
        ReentrantLockRequest { inner: None }
    }

    /// Polls a request for the lock, on thread `tid`.
    pub fn poll(
        &mut self,
        request: &mut ReentrantLockRequest,
        tid: usize,
        waker: usize,
        pool: &mut QueuePool,
    ) -> (r:
        Poll<ReentrantMutexGuard>)
        requires
            old(self).wf(),
            tid != 0,
            old(self)@.owner == tid ==> old(self)@.count < usize::MAX,
            old(request)@ matches Some(entry) ==> old(self)@.mutex.pending(entry),
            old(pool)@.serves(old(self).structure()),
        ensures
            final(self).wf(),
            r matches Poll::Ready(guard) ==> guard.source() == old(self)@.mutex.id,
            match old(request)@ {
                None => if old(self)@.owner == tid {
                    r is Ready && final(request)@ is None && final(self)@ == (ReentrantView {
                        count: old(self)@.count + 1,
                        ..old(self)@
                    })
                } else if old(self)@.mutex.owner is Nobody {
                    r is Ready && final(request)@ is None && final(self)@ == old(self)@.acquired(
                        tid,
                        old(self)@.mutex.guarded(),
                        old(self)@.mutex.data->0,
                    )
                } else {
                    r is Pending && final(request)@ is Some && old(self)@.mutex.waiters.vacant(
                        final(request)@->0,
                    ) && final(self)@ == (ReentrantView {
                        mutex: queued(old(self)@.mutex, final(request)@->0, waker),
                        ..old(self)@
                    })
                },
                Some(entry) => if old(self)@.mutex.node(entry).value == SIGNAL_SIGNALED {
                    r is Ready && final(request)@ is None && final(self)@ == old(self)@.acquired(
                        tid,
                        old(self)@.mutex.guarded().with_node(entry, SignalView::dead()),
                        old(self)@.mutex.data->0,
                    )
                } else {
                    r is Pending && final(request)@ == old(request)@ && final(self)@ == (
                    ReentrantView {
                        mutex: old(self)@.mutex.with_node(
                            entry,
                            old(self)@.mutex.armed(entry, waker),
                        ),
                        ..old(self)@
                    })
                },
            },
            final(request)@ matches Some(entry) ==> final(self)@.mutex.pending(entry),
            old(self)@.mutex.keeps(final(self)@.mutex, old(request)@),
            traded(old(pool)@, old(self).structure(), final(pool)@, final(self).structure()),
    {
        let ghost before = self@;
        let entry: usize = match request.inner {
            None => {
                if let Some(g) = self.try_lock(tid) {
                    return Poll::Ready(g);
                }
                self.mutex.prepare_async()
            },
            Some(entry) => entry,
        };
        match self.mutex.poll(entry, waker, pool) {
            Poll::Ready(guard) => {
                self.mutex.discard(entry);
                request.inner = None;
                proof {
                    assert(self@.mutex =~= before.mutex.guarded().with_node(
                        entry,
                        SignalView::dead(),
                    ));
                }
                Poll::Ready(self.acquired(tid, guard))
            },
            Poll::Pending => {
                request.inner = Some(entry);
                Poll::Pending
            },
        }
    }

    /// Drops a request for the lock, in whatever state it is.
    pub fn drop_request(
        &mut self,
        request: &ReentrantLockRequest,
        pool: &mut QueuePool,
    ) -> (r: Withdrawn)
        requires
            old(self).wf(),
            request@ matches Some(entry) ==> old(self)@.mutex.droppable(entry),
            old(pool)@.lends(old(self).structure()),
        ensures
            final(self).wf(),
            match request@ {
                None => r is Done && r->Done_0@.len() == 0 && final(self)@ == old(self)@,
                Some(entry) => (r is InFlight) == old(self)@.mutex.waiters.popped.contains(entry)
                    && final(self)@ == (ReentrantView {
                    mutex: old(self)@.mutex.dropped(entry),
                    ..old(self)@
                }) && (r matches Withdrawn::Done(wakes) ==> wakes@ == if old(self)@.mutex.node(
                    entry,
                ).value == SIGNAL_SIGNALED {
                    old(self)@.mutex.unlock_wakes()
                } else {
                    Seq::<Wake>::empty()
                }),
            },
            r is InFlight ==> request@ is Some && final(self)@.mutex.droppable(request@->0),
            old(self)@.mutex.keeps(final(self)@.mutex, request@),
            returned(old(pool)@, old(self).structure(), final(pool)@, final(self).structure()),
    {
        match request.inner {
            None => Withdrawn::Done(Vec::new()),
            Some(entry) => self.mutex.drop_request(entry, pool),
        }
    }

    /// The protected value, for the owner.
    pub fn data(&self, guard: &ReentrantMutexGuard) -> (r: &T)
        requires
            self.wf(),
            self@.owner != 0,
            guard.source() == self@.mutex.id,
        ensures
            Some(*r) == self@.held,
    {
        let held: &MutexGuard<T> = self.held.as_ref().unwrap();
        core::ops::Deref::deref(held)
    }

    /// Drops a guard. The last one gives the lock up. Returns whom to wake.
    pub fn unlock(&mut self, guard: ReentrantMutexGuard, pool: &mut QueuePool) -> (r: Vec<Wake>)
        requires
            old(self).wf(),
            old(self)@.owner != 0,
            guard.source() == old(self)@.mutex.id,
            old(pool)@.lends(old(self).structure()),
        ensures
            final(self).wf(),
            final(self)@ == old(self)@.unlocked(),
            r@ == if old(self)@.count == 1 {
                old(self)@.mutex.unlock_wakes()
            } else {
                Seq::<Wake>::empty()
            },
            old(self)@.mutex.keeps(final(self)@.mutex, None),
            returned(old(pool)@, old(self).structure(), final(pool)@, final(self).structure()),
    {
        let count: usize = self.count - 1;
        self.count = count;
        if count == 0 {
            self.owner = 0;
            self.force_unlock(pool)
        } else {
            Vec::new()
        }
    }

    /// Unlocks the mutex underneath, whose guard is kept here.
    fn force_unlock(&mut self, pool: &mut QueuePool) -> (r: Vec<Wake>)
        requires
            old(self)@.mutex.ok(),
            old(self)@.mutex.quiet(),
            old(self)@.mutex.owner is Guard,
            old(self)@.held is Some,
            old(self).inv(),
            old(pool)@.lends(old(self).structure()),
        ensures
            final(self).inv(),
            final(self)@.mutex.ok(),
            final(self)@ == (ReentrantView {
                mutex: old(self)@.mutex.unlocked(old(self)@.held->0),
                held: None,
                ..old(self)@
            }),
            r@ == old(self)@.mutex.unlock_wakes(),
            old(self)@.mutex.keeps(final(self)@.mutex, None),
            returned(old(pool)@, old(self).structure(), final(pool)@, final(self).structure()),
    {
        let guard = self.held.take().unwrap();
        self.mutex.unlock(guard, pool)
    }

    /// Gives way to whoever waits, if this is the owner's only guard, and queues
    /// up again behind them.
    pub fn bump(
        &mut self,
        guard: ReentrantMutexGuard,
        thread: usize,
        pool: &mut QueuePool,
    ) -> (r: Bump)
        requires
            old(self).wf(),
            old(self)@.owner != 0,
            guard.source() == old(self)@.mutex.id,
            old(pool)@.lends(old(self).structure()),
        ensures
            final(self).wf(),
            match r {
                Bump::Kept(kept) => kept.source() == old(self)@.mutex.id && (old(self)@.count > 1
                    || old(self)@.mutex.line().len() == 0)
                    && final(self)@ == old(self)@,
                Bump::Yielded(wakes, waiter) => old(self)@.count == 1
                    && old(self)@.mutex.line().len() > 0 && wakes@
                    == old(self)@.mutex.unlock_wakes() && lock_spec(
                    old(self)@.unlocked().mutex,
                    thread,
                    Lock::Wait(waiter),
                    final(self)@.mutex,
                ) && final(self)@ == (ReentrantView {
                    mutex: final(self)@.mutex,
                    ..old(self)@.unlocked()
                }),
            },
            r matches Bump::Yielded(_, waiter) ==> final(self)@.mutex.sync_waits(waiter@.entry),
            old(self)@.mutex.keeps(final(self)@.mutex, None),
            final(self).structure() == old(self).structure(),
            final(pool)@ == old(pool)@,
    {
        if self.count == 1 && self.has_waiters() {
            self.owner = 0;
            self.count = 0;
            let wakes = self.force_unlock(pool);
            proof {
                self.mutex.lemma_structure();
            }
            // The lock has gone to the first in line, so it is not free.
            let waiter = self.mutex.queue_up(thread, pool);
            proof {
                self.mutex.lemma_structure();
            }
            Bump::Yielded(wakes, waiter)
        } else {
            Bump::Kept(guard)
        }
    }
}

/// The mutex after a task queued up with a new node.
pub open spec fn queued<T>(v: MutexView<T>, entry: usize, waker: usize) -> MutexView<T> {
    let fresh = v.with_new(entry, SignalView::fresh_none());
    fresh.with_node(entry, fresh.armed(entry, waker)).enqueued(entry)
}

/// Only the owner gets in: while a thread holds the lock, however often, no
/// other thread can take it.
pub proof fn only_owner_enters<T>(v: ReentrantView<T>, tid: usize)
    requires
        v.ok(),
        v.owner != 0,
        tid != v.owner,
    ensures
        !(v.mutex.owner is Nobody),
        v.held is Some,
{
}

/// Locking once more and unlocking it changes nothing.
pub proof fn relock_unlock_is_identity<T>(v: ReentrantView<T>)
    requires
        v.ok(),
        v.owner != 0,
    ensures
        (ReentrantView { count: v.count + 1, ..v }).unlocked() == v,
{
}

/// A thread that has locked `k` times has to unlock `k` times: the lock is given
/// up with the last, not earlier.
pub proof fn unlocked_as_often_as_locked<T>(v: ReentrantView<T>, k: nat)
    requires
        v.ok(),
        v.owner != 0,
        k <= v.count,
    ensures
        unlocked_times(v, k).count == v.count - k,
        k < v.count ==> unlocked_times(v, k).owner == v.owner && unlocked_times(v, k).mutex
            == v.mutex,
        k == v.count ==> unlocked_times(v, k).owner == 0 && !(unlocked_times(
            v,
            k,
        ).mutex.owner is Guard),
    decreases k,
{
    if k > 0 {
        unlocked_as_often_as_locked(v, (k - 1) as nat);
    }
}

/// The state after the owner unlocked `k` times.
pub open spec fn unlocked_times<T>(v: ReentrantView<T>, k: nat) -> ReentrantView<T>
    decreases k,
{
    if k == 0 {
        v
    } else {
        unlocked_times(v, (k - 1) as nat).unlocked()
    }
}

} // verus!
