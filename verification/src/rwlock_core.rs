//! The reader-writer lock on top of the semaphore: a reader holds one permit, a
//! writer holds them all. The semaphore is fair, so a writer in line keeps
//! later readers from overtaking it and cannot starve.
use vstd::prelude::*;

use crate::pool::{returned, traded, QueuePool};
use crate::sem_core::{lemma_served, SemCore, SemView};
use crate::sem_laws::start_keeps_requests;
use crate::sem_ops::{Acquire, AcquireStep};
use crate::sem_word::MAX_PERMITS;
use crate::signal::{Poll, SignalView, Wake, Withdrawn, SIGNAL_CLOSED, SIGNAL_SIGNALED};
use crate::sync_wait::{after_sync_step, SyncStep, SyncWaiter};
use crate::totals::lemma_total_bounds;

verus! {

/// The most readers a lock can have at a time.
pub const MAX_READERS: usize = 0x1fff_ffff;

/// The state of a reader-writer lock.
#[verifier::ext_equal]
pub struct RwView<T> {
    /// The semaphore.
    pub sem: SemView,
    /// How many permits there are: the most readers.
    pub max: nat,
    /// The protected value, unless a write guard has it.
    pub data: Option<T>,
    /// How many read guards are out.
    pub readers: nat,
    /// Whether a write guard is out.
    pub writing: bool,
    /// A mark that the lock keeps and that its guards carry. Nothing is said of
    /// its value: that a guard carries it is only known of a guard that was got
    /// from this lock. That another lock has another mark is not said either;
    /// whoever holds guards of several tells them apart at run time.
    pub id: int,
}

impl<T> RwView<T> {
    /// A free lock for `max` readers that protects `data`, with nobody waiting.
    pub open spec fn fresh(data: T, max: nat, id: int) -> RwView<T> {
        RwView { sem: SemView::fresh(max), max, data: Some(data), readers: 0, writing: false, id }
    }

    /// The permits that guards hold.
    pub open spec fn held(self) -> nat {
        self.readers + if self.writing {
            self.max
        } else {
            0
        }
    }

    /// No request was ever failed.
    pub open spec fn open(self) -> bool {
        &&& !self.sem.closed
        &&& forall|j: int|
            0 <= j < self.sem.w().nodes.len() ==> (#[trigger] self.sem.w().nodes[j]).value
                != SIGNAL_CLOSED
    }

    /// What every operation keeps: the permits of the semaphore and those of
    /// the guards are all the permits.
    pub open spec fn ok(self) -> bool {
        &&& self.sem.ok()
        &&& self.sem.quiet()
        &&& self.sem.owed == 0
        &&& self.open()
        &&& 0 < self.max <= MAX_READERS
        &&& self.sem.total() + self.held() == self.max
        &&& self.writing == (self.data is None)
    }

    /// The permits that a read or a write takes.
    pub open spec fn cost(self, write: bool) -> usize {
        if write {
            self.max as usize
        } else {
            1
        }
    }

    /// The state after a read guard, or a write guard, was handed out.
    pub open spec fn entered(self, write: bool) -> RwView<T> {
        if write {
            RwView { data: None, writing: true, ..self }
        } else {
            RwView { readers: self.readers + 1, ..self }
        }
    }
}

/// A read guard: shared access to the protected value.
pub struct RwLockReadGuard {
    of: Ghost<int>,
}

impl RwLockReadGuard {
    /// The mark of the lock that it is a guard of.
    pub closed spec fn source(&self) -> int {
        self.of@
    }
}

/// A write guard: exclusive access to the protected value, which it carries.
pub struct RwLockWriteGuard<T> {
    data: T,
    of: Ghost<int>,
}

impl<T> View for RwLockWriteGuard<T> {
    type V = T;

    closed spec fn view(&self) -> T {
        self.data
    }
}

impl<T> RwLockWriteGuard<T> {
    /// The mark of the lock that it is a guard of.
    pub closed spec fn source(&self) -> int {
        self.of@
    }

    /// The protected value, to change.
    pub fn deref_mut(&mut self) -> (r: &mut T)
        ensures
            *r == old(self)@,
            final(self)@ == *final(r),
            final(self).source() == old(self).source(),
    {
        &mut self.data
    }
}

impl<T> core::ops::Deref for RwLockWriteGuard<T> {
    type Target = T;

    /// The protected value.
    fn deref(&self) -> (r: &T)
        ensures
            *r == self@,
    {
        &self.data
    }
}

/// A drain signals nobody but with the signal that grants.
proof fn lemma_drained_open(v: SemView)
    requires
        v.ok(),
        v.quiet(),
        !v.closed,
        forall|j: int|
            0 <= j < v.w().nodes.len() ==> (#[trigger] v.w().nodes[j]).value != SIGNAL_CLOSED,
    ensures
        !v.drained().closed,
        forall|j: int|
            0 <= j < v.drained().w().nodes.len() ==> (#[trigger] v.drained().w().nodes[j]).value
                != SIGNAL_CLOSED,
{
    lemma_served(v.w(), v.permits, 0);
    assert forall|j: int| 0 <= j < v.drained().w().nodes.len() implies (
    #[trigger] v.drained().w().nodes[j]).value != SIGNAL_CLOSED by {
        assert(v.w().nodes[j].value != SIGNAL_CLOSED);
    }
}

/// Neither does a release.
proof fn lemma_released_open(v: SemView, n: nat)
    requires
        v.ok(),
        v.quiet(),
        v.added(n).ok(),
        !v.closed,
        forall|j: int|
            0 <= j < v.w().nodes.len() ==> (#[trigger] v.w().nodes[j]).value != SIGNAL_CLOSED,
    ensures
        !v.released(n).closed,
        forall|j: int|
            0 <= j < v.released(n).w().nodes.len() ==> (#[trigger] v.released(
                n,
            ).w().nodes[j]).value != SIGNAL_CLOSED,
{
    if n > 0 && v.flag {
        lemma_drained_open(v.added(n));
    }
}

/// More permits than before keep what every turn keeps, with a drain owed to
/// whoever waits.
proof fn lemma_added_ok(v: SemView, n: nat)
    requires
        v.ok(),
        v.quiet(),
        v.permits + n <= MAX_PERMITS,
    ensures
        v.added(n).ok(),
{
}

/// A request that was signaled was given its permits, so they are not with
/// guards.
proof fn lemma_granted<T>(v: RwView<T>, entry: usize, n: usize, write: bool)
    requires
        v.ok(),
        v.sem.asked(entry, n),
        n == v.cost(write),
    ensures
        v.sem.node(entry).value == SIGNAL_SIGNALED ==> n <= v.sem.total() && (write ==> !v.writing
            && v.readers == 0 && v.data is Some),
{
    lemma_total_bounds(v.sem.w().nodes, entry as int);
    assert(crate::sem_core::sem_node_ok(v.sem.w().nodes[entry as int]));
}

/// Dropping a request fails nobody.
proof fn lemma_dropped_open(v: SemView, id: usize, n: usize)
    requires
        v.ok(),
        v.quiet(),
        v.droppable(id, n),
        !v.closed,
        v.owed == 0,
        v.permits + v.node(id).granted <= MAX_PERMITS,
        forall|j: int|
            0 <= j < v.w().nodes.len() ==> (#[trigger] v.w().nodes[j]).value != SIGNAL_CLOSED,
    ensures
        !v.dropped(id).closed,
        v.dropped(id).owed == 0,
        forall|j: int|
            0 <= j < v.dropped(id).w().nodes.len() ==> (#[trigger] v.dropped(id).w().nodes[j]).value
                != SIGNAL_CLOSED,
{
    assert forall|j: int| 0 <= j < v.dropped(id).w().nodes.len() implies (#[trigger] v.dropped(
        id,
    ).w().nodes[j]).value != SIGNAL_CLOSED by {
        assert(v.w().nodes[j].value != SIGNAL_CLOSED);
    }
}

/// How a blocking acquisition starts.
pub enum Enter<G> {
    /// Access is granted.
    Ready(G),
    /// The thread has to wait.
    Wait(SyncWaiter),
}

/// What a waiting thread does next.
pub enum EnterStep<G> {
    /// Pause or park, and look again.
    Again(SyncStep),
    /// Access is granted.
    Done(G),
}

/// A reader-writer lock.
pub struct RwLockInternal<T> {
    sem: SemCore,
    max_readers: usize,
    data: Option<T>,
    readers: Ghost<nat>,
    writing: Ghost<bool>,
    id: Ghost<int>,
}

impl<T> View for RwLockInternal<T> {
    type V = RwView<T>;

    closed spec fn view(&self) -> RwView<T> {
        RwView {
            sem: self.sem@,
            max: self.max_readers as nat,
            data: self.data,
            readers: self.readers@,
            writing: self.writing@,
            id: self.id@,
        }
    }
}

impl<T> RwLockInternal<T> {
    /// The representation behind the view.
    pub closed spec fn inv(&self) -> bool {
        self.sem.inv()
    }

    /// The address of the structure that the line stands in.
    pub closed spec fn structure(&self) -> Option<usize> {
        self.sem.structure()
    }

    /// There is a structure exactly while somebody waits.
    pub proof fn lemma_structure(&self)
        requires
            self.wf(),
        ensures
            (self.structure() is Some) == (self@.sem.line().len() > 0),
    {
        self.sem.lemma_structure();
    }

    /// Well-formedness, kept by every operation.
    pub open spec fn wf(&self) -> bool {
        self@.ok() && self.inv()
    }

    /// A lock for at most `max_readers` readers at a time.
    pub fn with_max_readers(data: T, max_readers: usize) -> (r: Self)
        requires
            0 < max_readers <= MAX_READERS,
        ensures
            r.wf(),
            r.structure() is None,
            r@ == RwView::fresh(data, max_readers as nat, r@.id),
    {
        RwLockInternal {
            sem: SemCore::new(max_readers),
            max_readers,
            data: Some(data),
            readers: Ghost(0),
            writing: Ghost(false),
            id: Ghost(arbitrary()),
        }
    }

    /// Takes the permits of a read or a write, if they are there and nobody is
    /// in line.
    fn try_enter(&mut self, write: bool) -> (r: bool)
        requires
            old(self).wf(),
        ensures
            final(self).structure() == old(self).structure(),
            final(self).inv(),
            r == old(self)@.sem.grantable(old(self)@.cost(write)),
            final(self)@ == if r {
                RwView {
                    sem: SemView {
                        permits: (old(self)@.sem.permits - old(self)@.cost(write)) as nat,
                        ..old(self)@.sem
                    },
                    ..old(self)@
                }
            } else {
                old(self)@
            },
            final(self)@.sem.ok(),
    {
        let n: usize = if write {
            self.max_readers
        } else {
            1
        };
        self.sem.try_acquire(n).is_ok()
    }

    /// Hands out a read guard.
    fn make_read(&mut self) -> (r: RwLockReadGuard)
        ensures
            final(self).structure() == old(self).structure(),
            final(self).inv() == old(self).inv(),
            final(self)@ == old(self)@.entered(false),
            r.source() == old(self)@.id,
    {
        proof {
            self.readers = Ghost(self.readers@ + 1);
        }
        RwLockReadGuard { of: Ghost(self.id@) }
    }

    /// Hands out a write guard.
    fn make_write(&mut self) -> (r: RwLockWriteGuard<T>)
        requires
            old(self)@.data is Some,
        ensures
            final(self).structure() == old(self).structure(),
            final(self).inv() == old(self).inv(),
            final(self)@ == old(self)@.entered(true),
            Some(r@) == old(self)@.data,
            r.source() == old(self)@.id,
    {
        let data = self.data.take().unwrap();
        proof {
            self.writing = Ghost(true);
        }
        RwLockWriteGuard { data, of: Ghost(self.id@) }
    }

    /// Attempts to get shared access without waiting.
    pub fn try_read(&mut self) -> (r: Option<RwLockReadGuard>)
        requires
            old(self).wf(),
        ensures
            final(self).wf(),
            final(self).structure() == old(self).structure(),
            (r is Some) == old(self)@.sem.grantable(1),
            r matches Some(guard) ==> guard.source() == old(self)@.id,
            final(self)@ == if r is Some {
                RwView {
                    sem: SemView { permits: (old(self)@.sem.permits - 1) as nat, ..old(self)@.sem },
                    ..old(self)@.entered(false)
                }
            } else {
                old(self)@
            },
            old(self)@.sem.keeps(final(self)@.sem, None),
    {
        if self.try_enter(false) {
            Some(self.make_read())
        } else {
            None
        }
    }

    /// Attempts to get exclusive access without waiting.
    pub fn try_write(&mut self) -> (r: Option<RwLockWriteGuard<T>>)
        requires
            old(self).wf(),
        ensures
            final(self).wf(),
            final(self).structure() == old(self).structure(),
            (r is Some) == old(self)@.sem.grantable(old(self)@.max as usize),
            r matches Some(guard) ==> Some(guard@) == old(self)@.data && guard.source()
                == old(self)@.id,
            final(self)@ == if r is Some {
                RwView {
                    sem: SemView {
                        permits: (old(self)@.sem.permits - old(self)@.max) as nat,
                        ..old(self)@.sem
                    },
                    ..old(self)@.entered(true)
                }
            } else {
                old(self)@
            },
            old(self)@.sem.keeps(final(self)@.sem, None),
    {
        if self.try_enter(true) {
            Some(self.make_write())
        } else {
            None
        }
    }

    /// Starts a blocking read.
    pub fn read(&mut self, thread: usize, pool: &mut QueuePool) -> (r: Enter<RwLockReadGuard>)
        requires
            old(self).wf(),
            old(pool)@.serves(old(self).structure()),
        ensures
            final(self).wf(),
            match r {
                Enter::Ready(guard) => guard.source() == old(self)@.id
                    && old(self)@.sem.grantable(1) && final(self)@ == (RwView {
                    sem: SemView {
                        permits: (old(self)@.sem.permits - old(self)@.cost(false)) as nat,
                        ..old(self)@.sem
                    },
                    ..old(self)@.entered(false)
                }),
                Enter::Wait(waiter) => !old(self)@.sem.grantable(1)
                    && old(self)@.sem.acquire_spec(
                    1,
                    thread,
                    Acquire::Wait(waiter),
                    final(self)@.sem,
                ) && final(self)@ == (RwView { sem: final(self)@.sem, ..old(self)@ })
                    && final(self)@.sem.sync_waits(waiter@.entry, 1),
            },
            old(self)@.sem.keeps(final(self)@.sem, None),
            traded(old(pool)@, old(self).structure(), final(pool)@, final(self).structure()),
    {
        match self.sem.acquire_sync(1, thread, pool) {
            Acquire::Ready(_) => Enter::Ready(self.make_read()),
            Acquire::Wait(waiter) => Enter::Wait(waiter),
        }
    }

    /// One look of a thread that waits to read.
    pub fn read_step(
        &mut self,
        waiter: &mut SyncWaiter,
        pool: &mut QueuePool,
    ) -> (r: EnterStep<RwLockReadGuard>)
        requires
            old(self).wf(),
            old(self)@.sem.sync_waits(old(waiter)@.entry, 1),
            old(pool)@.lends(old(self).structure()),
        ensures
            final(self).wf(),
            final(waiter)@ == old(waiter)@.after_step(
                old(self)@.sem.node(old(waiter)@.entry).value,
            ),
            match r {
                EnterStep::Done(guard) => guard.source() == old(self)@.id
                    && old(self)@.sem.node(old(waiter)@.entry).value
                    == SIGNAL_SIGNALED && final(self)@ == (RwView {
                    sem: old(self)@.sem.with_node(old(waiter)@.entry, SignalView::dead()),
                    ..old(self)@.entered(false)
                }),
                EnterStep::Again(step) => old(self)@.sem.node(old(waiter)@.entry).value
                    != SIGNAL_SIGNALED && step == old(waiter)@.step(
                    old(self)@.sem.node(old(waiter)@.entry).value,
                ) && final(self)@ == (RwView {
                    sem: SemView {
                        queue: after_sync_step(old(self)@.sem.queue, old(waiter)@),
                        ..old(self)@.sem
                    },
                    ..old(self)@
                }),
            },
            r is Again ==> final(self)@.sem.sync_waits(old(waiter)@.entry, 1),
            old(self)@.sem.keeps(final(self)@.sem, Some(old(waiter)@.entry)),
            returned(old(pool)@, old(self).structure(), final(pool)@, final(self).structure()),
    {
        let ghost before = self@;
        let ghost entry = waiter@.entry;
        proof {
            assert(before.sem.w().nodes[entry as int].value != SIGNAL_CLOSED);
            lemma_granted(before, entry, 1, false);
        }
        match self.sem.acquire_step(waiter, 1, pool) {
            AcquireStep::Done(_, _) => EnterStep::Done(self.make_read()),
            AcquireStep::Again(step) => EnterStep::Again(step),
        }
    }

    /// Polls a request to read.
    pub fn poll_read(
        &mut self,
        entry: usize,
        waker: usize,
        pool: &mut QueuePool,
    ) -> (r: Poll<RwLockReadGuard>)
        requires
            old(self).wf(),
            old(self)@.sem.pollable(entry, 1),
            old(pool)@.serves(old(self).structure()),
        ensures
            final(self).wf(),
            (r is Ready) == (old(self)@.sem.poll_result(entry, 1) is Ready),
            r matches Poll::Ready(guard) ==> guard.source() == old(self)@.id,
            final(self)@ == (RwView {
                sem: old(self)@.sem.polled(entry, 1, waker),
                ..if r is Ready {
                    old(self)@.entered(false)
                } else {
                    old(self)@
                }
            }),
            r is Pending ==> final(self)@.sem.pollable(entry, 1),
            final(self)@.sem.droppable(entry, 1),
            old(self)@.sem.keeps(final(self)@.sem, Some(entry)),
            traded(old(pool)@, old(self).structure(), final(pool)@, final(self).structure()),
    {
        let ghost before = self@;
        proof {
            assert(before.sem.w().nodes[entry as int].value != SIGNAL_CLOSED);
            lemma_granted(before, entry, 1, false);
        }
        match self.sem.poll_acquire(entry, 1, waker, pool).0 {
            Poll::Ready(_) => Poll::Ready(self.make_read()),
            Poll::Pending => Poll::Pending,
        }
    }

    /// Drops a request to read, in whatever state it is.
    pub fn drop_read_request(&mut self, entry: usize, pool: &mut QueuePool) -> (r: Withdrawn)
        requires
            old(self).wf(),
            old(self)@.sem.droppable(entry, 1),
            old(pool)@.lends(old(self).structure()),
        ensures
            final(self).wf(),
            (r is InFlight) == old(self)@.sem.w().popped.contains(entry),
            final(self)@ == (RwView { sem: old(self)@.sem.dropped(entry), ..old(self)@ }),
            r matches Withdrawn::Done(wakes) ==> wakes@ == old(self)@.sem.drop_wakes(entry),
            r is InFlight ==> final(self)@.sem.droppable(entry, 1),
            old(self)@.sem.keeps(final(self)@.sem, Some(entry)),
            returned(old(pool)@, old(self).structure(), final(pool)@, final(self).structure()),
    {
        let ghost before = self@;
        proof {
            lemma_total_bounds(before.sem.w().nodes, entry as int);
            lemma_dropped_open(before.sem, entry, 1);
        }
        self.sem.drop_acquire(entry, 1, pool)
    }

    /// Starts a blocking write.
    pub fn write(&mut self, thread: usize, pool: &mut QueuePool) -> (r: Enter<RwLockWriteGuard<T>>)
        requires
            old(self).wf(),
            old(pool)@.serves(old(self).structure()),
        ensures
            final(self).wf(),
            match r {
                Enter::Ready(guard) => guard.source() == old(self)@.id
                    && old(self)@.sem.grantable(old(self)@.max as usize) && final(self)@ == (RwView {
                    sem: SemView {
                        permits: (old(self)@.sem.permits - old(self)@.cost(true)) as nat,
                        ..old(self)@.sem
                    },
                    ..old(self)@.entered(true)
                }) && Some(guard@) == old(self)@.data,
                Enter::Wait(waiter) => !old(self)@.sem.grantable(old(self)@.max as usize)
                    && old(self)@.sem.acquire_spec(
                    old(self)@.max as usize,
                    thread,
                    Acquire::Wait(waiter),
                    final(self)@.sem,
                ) && final(self)@ == (RwView { sem: final(self)@.sem, ..old(self)@ })
                    && final(self)@.sem.sync_waits(waiter@.entry, old(self)@.max as usize),
            },
            old(self)@.sem.keeps(final(self)@.sem, None),
            traded(old(pool)@, old(self).structure(), final(pool)@, final(self).structure()),
    {
        match self.sem.acquire_sync(self.max_readers, thread, pool) {
            Acquire::Ready(_) => Enter::Ready(self.make_write()),
            Acquire::Wait(waiter) => Enter::Wait(waiter),
        }
    }

    /// One look of a thread that waits to write.
    pub fn write_step(
        &mut self,
        waiter: &mut SyncWaiter,
        pool: &mut QueuePool,
    ) -> (r: EnterStep<RwLockWriteGuard<T>>)
        requires
            old(self).wf(),
            old(self)@.sem.sync_waits(old(waiter)@.entry, old(self)@.max as usize),
            old(pool)@.lends(old(self).structure()),
        ensures
            final(self).wf(),
            final(waiter)@ == old(waiter)@.after_step(
                old(self)@.sem.node(old(waiter)@.entry).value,
            ),
            match r {
                EnterStep::Done(guard) => guard.source() == old(self)@.id
                    && old(self)@.sem.node(old(waiter)@.entry).value
                    == SIGNAL_SIGNALED && final(self)@ == (RwView {
                    sem: old(self)@.sem.with_node(old(waiter)@.entry, SignalView::dead()),
                    ..old(self)@.entered(true)
                }) && Some(guard@) == old(self)@.data,
                EnterStep::Again(step) => old(self)@.sem.node(old(waiter)@.entry).value
                    != SIGNAL_SIGNALED && step == old(waiter)@.step(
                    old(self)@.sem.node(old(waiter)@.entry).value,
                ) && final(self)@ == (RwView {
                    sem: SemView {
                        queue: after_sync_step(old(self)@.sem.queue, old(waiter)@),
                        ..old(self)@.sem
                    },
                    ..old(self)@
                }),
            },
            r is Again ==> final(self)@.sem.sync_waits(old(waiter)@.entry, old(self)@.max as usize),
            old(self)@.sem.keeps(final(self)@.sem, Some(old(waiter)@.entry)),
            returned(old(pool)@, old(self).structure(), final(pool)@, final(self).structure()),
    {
        let ghost before = self@;
        let ghost entry = waiter@.entry;
        proof {
            assert(before.sem.w().nodes[entry as int].value != SIGNAL_CLOSED);
            lemma_granted(before, entry, before.max as usize, true);
        }
        match self.sem.acquire_step(waiter, self.max_readers, pool) {
            AcquireStep::Done(_, _) => EnterStep::Done(self.make_write()),
            AcquireStep::Again(step) => EnterStep::Again(step),
        }
    }

    /// Polls a request to write.
    pub fn poll_write(
        &mut self,
        entry: usize,
        waker: usize,
        pool: &mut QueuePool,
    ) -> (r: Poll<RwLockWriteGuard<T>>)
        requires
            old(self).wf(),
            old(self)@.sem.pollable(entry, old(self)@.max as usize),
            old(pool)@.serves(old(self).structure()),
        ensures
            final(self).wf(),
            (r is Ready) == (old(self)@.sem.poll_result(entry, old(self)@.max as usize) is Ready),
            final(self)@ == (RwView {
                sem: old(self)@.sem.polled(entry, old(self)@.max as usize, waker),
                ..if r is Ready {
                    old(self)@.entered(true)
                } else {
                    old(self)@
                }
            }),
            r matches Poll::Ready(guard) ==> Some(guard@) == old(self)@.data && guard.source()
                == old(self)@.id,
            r is Pending ==> final(self)@.sem.pollable(entry, old(self)@.max as usize),
            final(self)@.sem.droppable(entry, old(self)@.max as usize),
            old(self)@.sem.keeps(final(self)@.sem, Some(entry)),
            traded(old(pool)@, old(self).structure(), final(pool)@, final(self).structure()),
    {
        let ghost before = self@;
        proof {
            assert(before.sem.w().nodes[entry as int].value != SIGNAL_CLOSED);
            lemma_granted(before, entry, before.max as usize, true);
        }
        match self.sem.poll_acquire(entry, self.max_readers, waker, pool).0 {
            Poll::Ready(_) => Poll::Ready(self.make_write()),
            Poll::Pending => Poll::Pending,
        }
    }

    /// Drops a request to write, in whatever state it is.
    pub fn drop_write_request(&mut self, entry: usize, pool: &mut QueuePool) -> (r: Withdrawn)
        requires
            old(self).wf(),
            old(self)@.sem.droppable(entry, old(self)@.max as usize),
            old(pool)@.lends(old(self).structure()),
        ensures
            final(self).wf(),
            (r is InFlight) == old(self)@.sem.w().popped.contains(entry),
            final(self)@ == (RwView { sem: old(self)@.sem.dropped(entry), ..old(self)@ }),
            r matches Withdrawn::Done(wakes) ==> wakes@ == old(self)@.sem.drop_wakes(entry),
            r is InFlight ==> final(self)@.sem.droppable(entry, old(self)@.max as usize),
            old(self)@.sem.keeps(final(self)@.sem, Some(entry)),
            returned(old(pool)@, old(self).structure(), final(pool)@, final(self).structure()),
    {
        let ghost before = self@;
        proof {
            lemma_total_bounds(before.sem.w().nodes, entry as int);
            lemma_dropped_open(before.sem, entry, before.max as usize);
        }
        self.sem.drop_acquire(entry, self.max_readers, pool)
    }

    /// Makes a request to read or to write, for a task.
    pub fn request(&mut self) -> (entry: usize)
        requires
            old(self).wf(),
        ensures
            final(self).wf(),
            final(self).structure() == old(self).structure(),
            old(self)@.sem.w().vacant(entry),
            final(self)@ == (RwView {
                sem: old(self)@.sem.with_new(entry, SignalView::fresh_none()),
                ..old(self)@
            }),
            final(self)@.sem.pollable(entry, 1),
            final(self)@.sem.pollable(entry, old(self)@.max as usize),
            old(self)@.sem.keeps(final(self)@.sem, None),
    {
        let ghost before = self@.sem;
        let entry: usize = self.sem.prepare_async();
        proof {
            start_keeps_requests(before, entry, 1, 0);
        }
        entry
    }

    /// The protected value, for a reader.
    pub fn data(&self, guard: &RwLockReadGuard) -> (r: &T)
        requires
            self.wf(),
            self@.readers > 0,
            guard.source() == self@.id,
        ensures
            Some(*r) == self@.data,
    {
        self.data.as_ref().unwrap()
    }

    /// Drops a read guard. Returns whom to wake.
    pub fn release_read(&mut self, guard: RwLockReadGuard, pool: &mut QueuePool) -> (r: Vec<Wake>)
        requires
            old(self).wf(),
            old(self)@.readers > 0,
            guard.source() == old(self)@.id,
            old(pool)@.lends(old(self).structure()),
        ensures
            final(self).wf(),
            final(self)@ == (RwView {
                sem: old(self)@.sem.released(1),
                readers: (old(self)@.readers - 1) as nat,
                ..old(self)@
            }),
            r@ == old(self)@.sem.release_wakes(1),
            old(self)@.sem.keeps(final(self)@.sem, None),
            returned(old(pool)@, old(self).structure(), final(pool)@, final(self).structure()),
    {
        proof {
            lemma_added_ok(self@.sem, 1);
            lemma_released_open(self@.sem, 1);
            self.readers = Ghost((self.readers@ - 1) as nat);
        }
        self.sem.release(1, pool)
    }

    /// Drops a write guard. Returns whom to wake.
    pub fn release_write(
        &mut self,
        guard: RwLockWriteGuard<T>,
        pool: &mut QueuePool,
    ) -> (r: Vec<Wake>)
        requires
            old(self).wf(),
            old(self)@.writing,
            guard.source() == old(self)@.id,
            old(pool)@.lends(old(self).structure()),
        ensures
            final(self).wf(),
            final(self)@ == (RwView {
                sem: old(self)@.sem.released(old(self)@.max),
                data: Some(guard@),
                writing: false,
                ..old(self)@
            }),
            r@ == old(self)@.sem.release_wakes(old(self)@.max),
            old(self)@.sem.keeps(final(self)@.sem, None),
            returned(old(pool)@, old(self).structure(), final(pool)@, final(self).structure()),
    {
        proof {
            lemma_added_ok(self@.sem, self@.max);
            lemma_released_open(self@.sem, self@.max);
            self.writing = Ghost(false);
        }
        self.data = Some(guard.data);
        self.sem.release(self.max_readers, pool)
    }

    /// Turns a write guard into a read guard, with no gap in which another
    /// writer could get in. Returns whom to wake.
    pub fn downgrade(
        &mut self,
        guard: RwLockWriteGuard<T>,
        pool: &mut QueuePool,
    ) -> (r: (RwLockReadGuard, Vec<Wake>))
        requires
            old(self).wf(),
            old(self)@.writing,
            guard.source() == old(self)@.id,
            old(pool)@.lends(old(self).structure()),
        ensures
            final(self).wf(),
            final(self)@ == (RwView {
                sem: old(self)@.sem.released((old(self)@.max - 1) as nat),
                data: Some(guard@),
                writing: false,
                readers: 1,
                ..old(self)@
            }),
            r.0.source() == old(self)@.id,
            r.1@ == old(self)@.sem.release_wakes((old(self)@.max - 1) as nat),
            old(self)@.sem.keeps(final(self)@.sem, None),
            returned(old(pool)@, old(self).structure(), final(pool)@, final(self).structure()),
    {
        proof {
            lemma_added_ok(self@.sem, (self@.max - 1) as nat);
            lemma_released_open(self@.sem, (self@.max - 1) as nat);
            self.writing = Ghost(false);
        }
        self.data = Some(guard.data);
        let wakes = self.sem.release(self.max_readers - 1, pool);
        (self.make_read(), wakes)
    }

    /// The protected value, to change, while no write guard is out. A read guard
    /// that is still out would see the change.
    pub fn get_mut(&mut self) -> (r: &mut T)
        requires
            old(self).wf(),
            !old(self)@.writing,
        ensures
            Some(*r) == old(self)@.data,
            final(self)@ == (RwView { data: Some(*final(r)), ..old(self)@ }),
            final(self).wf(),
            final(self).structure() == old(self).structure(),
    {
        self.data.as_mut().unwrap()
    }

    /// Takes the lock apart.
    pub fn into_inner(self) -> (r: T)
        requires
            self.wf(),
            !self@.writing,
        ensures
            Some(r) == self@.data,
    {
        self.data.unwrap()
    }
}

/// Readers and a writer exclude each other, and a writer is alone: while a
/// write guard is out there is no read guard, and neither reading nor writing
/// can be granted.
pub proof fn readers_exclude_writer<T>(v: RwView<T>)
    requires
        v.ok(),
    ensures
        v.writing ==> v.readers == 0 && v.data is None && v.sem.total() == 0
            && !v.sem.grantable(1) && !v.sem.grantable(v.max as usize),
        v.readers > 0 ==> !v.writing && v.data is Some && !v.sem.grantable(v.max as usize),
        v.readers <= v.max,
{
}

/// Access that was granted to a waiter and not yet taken over excludes in the
/// same way.
pub proof fn granted_access_excludes<T>(v: RwView<T>, entry: usize, write: bool)
    requires
        v.ok(),
        v.sem.asked(entry, v.cost(write)),
        v.sem.node(entry).value == SIGNAL_SIGNALED,
    ensures
        !v.writing,
        write ==> v.readers == 0,
        v.data is Some,
{
    lemma_granted(v, entry, v.cost(write), write);
}

/// A writer in line is not overtaken: whoever comes after it has to wait, a
/// reader like a writer.
pub proof fn writer_is_not_overtaken<T>(v: RwView<T>)
    requires
        v.ok(),
        v.sem.line().len() > 0,
    ensures
        !v.sem.grantable(1),
        !v.sem.grantable(v.max as usize),
{
}

/// Waiting makes sense: when somebody is in line, access is with somebody
/// else, be it guards or waiters that were granted it.
pub proof fn no_idle_lock<T>(v: RwView<T>)
    requires
        v.ok(),
        v.sem.line().len() > 0,
    ensures
        v.sem.node(v.sem.line()[0]).aux > v.sem.permits,
{
}

} // verus!
