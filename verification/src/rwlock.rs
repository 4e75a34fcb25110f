//! Reader-writer locks, for threads ([`RwLock`]) and for tasks
//! ([`AsyncRwLock`]). Both are the same underneath and turn into each other.
use vstd::prelude::*;

use crate::pool::{returned, traded, QueuePool};
use crate::rwlock_core::{
    Enter, EnterStep, RwLockInternal, RwLockReadGuard, RwLockWriteGuard, RwView, MAX_READERS,
};
use crate::sem_core::SemView;
use crate::sem_ops::Acquire;
use crate::signal::{Poll, SignalView, Wake, Withdrawn, SIGNAL_SIGNALED};
use crate::sync_wait::{after_sync_step, SyncWaiter};

verus! {

/// A request for shared access, made by a task.
#[derive(Debug)]
pub struct AsyncReadRequest {
    entry: usize,
}

impl View for AsyncReadRequest {
    type V = usize;

    closed spec fn view(&self) -> usize {
        self.entry
    }
}

/// A request for exclusive access, made by a task.
#[derive(Debug)]
pub struct AsyncWriteRequest {
    entry: usize,
}

impl View for AsyncWriteRequest {
    type V = usize;

    closed spec fn view(&self) -> usize {
        self.entry
    }
}

/// The state after access was granted at once.
pub open spec fn entered_now<T>(v: RwView<T>, write: bool) -> RwView<T> {
    RwView {
        sem: SemView { permits: (v.sem.permits - v.cost(write)) as nat, ..v.sem },
        ..v.entered(write)
    }
}

/// The state after a waiter took over the access that it was granted.
pub open spec fn entered_later<T>(v: RwView<T>, entry: usize, write: bool) -> RwView<T> {
    RwView { sem: v.sem.with_node(entry, SignalView::dead()), ..v.entered(write) }
}

/// A reader-writer lock for threads. It is fair: access is granted to those who
/// wait in the order in which they came, so that writers do not starve.
pub struct RwLock<T> {
    internal: RwLockInternal<T>,
}

impl<T> View for RwLock<T> {
    type V = RwView<T>;

    closed spec fn view(&self) -> RwView<T> {
        self.internal@
    }
}

impl<T> RwLock<T> {
    /// The representation behind the view.
    pub closed spec fn inv(&self) -> bool {
        self.internal.inv()
    }

    /// The address of the structure that the line stands in.
    pub closed spec fn structure(&self) -> Option<usize> {
        self.internal.structure()
    }

    /// There is a structure exactly while somebody waits.
    pub proof fn lemma_structure(&self)
        requires
            self.wf(),
        ensures
            (self.structure() is Some) == (self@.sem.line().len() > 0),
    {
        self.internal.lemma_structure();
    }

    /// Well-formedness, kept by every method.
    pub open spec fn wf(&self) -> bool {
        self@.ok() && self.inv()
    }

    /// A lock that protects `data`.
    pub fn new(data: T) -> (r: Self)
        ensures
            r.wf(),
            r.structure() is None,
            r@ == RwView::fresh(data, MAX_READERS as nat, r@.id),
    {
        Self::with_max_readers(data, MAX_READERS)
    }

    /// A lock that protects `data`, for at most `max_readers` readers at a time.
    pub fn with_max_readers(data: T, max_readers: usize) -> (r: Self)
        requires
            0 < max_readers <= MAX_READERS,
        ensures
            r.wf(),
            r.structure() is None,
            r@ == RwView::fresh(data, max_readers as nat, r@.id),
    {
        RwLock { internal: RwLockInternal::with_max_readers(data, max_readers) }
    }

    /// Attempts to get shared access without waiting.
    pub fn try_read(&mut self) -> (r: Option<RwLockReadGuard>)
        requires
            old(self).wf(),
        ensures
            final(self).wf(),
            final(self).structure() == old(self).structure(),
            (r is Some) == old(self)@.sem.grantable(1),
            r matches Some(guard) ==> guard.source() == old(self)@.id,
            final(self)@ == if r is Some {
                entered_now(old(self)@, false)
            } else {
                old(self)@
            },
            old(self)@.sem.keeps(final(self)@.sem, None),
    {
        self.internal.try_read()
    }

    /// Starts a blocking read.
    pub fn read(&mut self, thread: usize, pool: &mut QueuePool) -> (r: Enter<RwLockReadGuard>)
        requires
            old(self).wf(),
            old(pool)@.serves(old(self).structure()),
        ensures
            final(self).wf(),
            (r is Ready) == old(self)@.sem.grantable(1),
            match r {
                Enter::Ready(guard) => guard.source() == old(self)@.id && final(self)@
                    == entered_now(old(self)@, false),
                Enter::Wait(waiter) => old(self)@.sem.acquire_spec(
                    1,
                    thread,
                    Acquire::Wait(waiter),
                    final(self)@.sem,
                ) && final(self)@ == (RwView { sem: final(self)@.sem, ..old(self)@ })
                    && final(self)@.sem.sync_waits(waiter@.entry, 1),
            },
            old(self)@.sem.keeps(final(self)@.sem, None),
            traded(old(pool)@, old(self).structure(), final(pool)@, final(self).structure()),
    {
        self.internal.read(thread, pool)
    }

    /// One look of a thread that waits to read.
    pub fn read_step(
        &mut self,
        waiter: &mut SyncWaiter,
        pool: &mut QueuePool,
    ) -> (r: EnterStep<RwLockReadGuard>)
        requires
            old(self).wf(),
            old(self)@.sem.sync_waits(old(waiter)@.entry, 1),
            old(pool)@.lends(old(self).structure()),
        ensures
            final(self).wf(),
            final(waiter)@ == old(waiter)@.after_step(
                old(self)@.sem.node(old(waiter)@.entry).value,
            ),
            match r {
                EnterStep::Done(guard) => old(self)@.sem.node(old(waiter)@.entry).value
                    == SIGNAL_SIGNALED && guard.source() == old(self)@.id && final(self)@
                    == entered_later(old(self)@, old(waiter)@.entry, false),
                EnterStep::Again(step) => old(self)@.sem.node(old(waiter)@.entry).value
                    != SIGNAL_SIGNALED && step == old(waiter)@.step(
                    old(self)@.sem.node(old(waiter)@.entry).value,
                ) && final(self)@ == (RwView {
                    sem: SemView {
                        queue: after_sync_step(old(self)@.sem.queue, old(waiter)@),
                        ..old(self)@.sem
                    },
                    ..old(self)@
                }),
            },
            r is Again ==> final(self)@.sem.sync_waits(old(waiter)@.entry, 1),
            old(self)@.sem.keeps(final(self)@.sem, Some(old(waiter)@.entry)),
            returned(old(pool)@, old(self).structure(), final(pool)@, final(self).structure()),
    {
        self.internal.read_step(waiter, pool)
    }

    /// Makes a request for shared access.
    pub fn read_async(&mut self) -> (r: AsyncReadRequest)
        requires
            old(self).wf(),
        ensures
            final(self).wf(),
            final(self).structure() == old(self).structure(),
            old(self)@.sem.w().vacant(r@),
            final(self)@ == (RwView {
                sem: old(self)@.sem.with_new(r@, SignalView::fresh_none()),
                ..old(self)@
            }),
            final(self)@.sem.pollable(r@, 1),
            old(self)@.sem.keeps(final(self)@.sem, None),
    {
        AsyncReadRequest { entry: self.internal.request() }
    }

    /// Polls a request for shared access.
    pub fn poll_read(
        &mut self,
        request: &AsyncReadRequest,
        waker: usize,
        pool: &mut QueuePool,
    ) -> (r: Poll<RwLockReadGuard>)
        requires
            old(self).wf(),
            old(self)@.sem.pollable(request@, 1),
            old(pool)@.serves(old(self).structure()),
        ensures
            final(self).wf(),
            (r is Ready) == (old(self)@.sem.poll_result(request@, 1) is Ready),
            r matches Poll::Ready(guard) ==> guard.source() == old(self)@.id,
            final(self)@ == (RwView {
                sem: old(self)@.sem.polled(request@, 1, waker),
                ..if r is Ready {
                    old(self)@.entered(false)
                } else {
                    old(self)@
                }
            }),
            r is Pending ==> final(self)@.sem.pollable(request@, 1),
            final(self)@.sem.droppable(request@, 1),
            old(self)@.sem.keeps(final(self)@.sem, Some(request@)),
            traded(old(pool)@, old(self).structure(), final(pool)@, final(self).structure()),
    {
        self.internal.poll_read(request.entry, waker, pool)
    }

    /// Drops a request for shared access, in whatever state it is.
    pub fn drop_read_request(
        &mut self,
        request: &AsyncReadRequest,
        pool: &mut QueuePool,
    ) -> (r: Withdrawn)
        requires
            old(self).wf(),
            old(self)@.sem.droppable(request@, 1),
            old(pool)@.lends(old(self).structure()),
        ensures
            final(self).wf(),
            (r is InFlight) == old(self)@.sem.w().popped.contains(request@),
            final(self)@ == (RwView { sem: old(self)@.sem.dropped(request@), ..old(self)@ }),
            r matches Withdrawn::Done(wakes) ==> wakes@ == old(self)@.sem.drop_wakes(request@),
            r is InFlight ==> final(self)@.sem.droppable(request@, 1),
            old(self)@.sem.keeps(final(self)@.sem, Some(request@)),
            returned(old(pool)@, old(self).structure(), final(pool)@, final(self).structure()),
    {
        self.internal.drop_read_request(request.entry, pool)
    }

    /// Drops a read guard. Returns whom to wake.
    pub fn release_read(&mut self, guard: RwLockReadGuard, pool: &mut QueuePool) -> (r: Vec<Wake>)
        requires
            old(self).wf(),
            old(self)@.readers > 0,
            guard.source() == old(self)@.id,
            old(pool)@.lends(old(self).structure()),
        ensures
            final(self).wf(),
            final(self)@ == (RwView {
                sem: old(self)@.sem.released(1),
                readers: (old(self)@.readers - 1) as nat,
                ..old(self)@
            }),
            r@ == old(self)@.sem.release_wakes(1),
            old(self)@.sem.keeps(final(self)@.sem, None),
            returned(old(pool)@, old(self).structure(), final(pool)@, final(self).structure()),
    {
        self.internal.release_read(guard, pool)
    }

    /// Attempts to get exclusive access without waiting.
    pub fn try_write(&mut self) -> (r: Option<RwLockWriteGuard<T>>)
        requires
            old(self).wf(),
        ensures
            final(self).wf(),
            final(self).structure() == old(self).structure(),
            (r is Some) == old(self)@.sem.grantable(old(self)@.max as usize),
            r matches Some(guard)
                ==> guard.source() == old(self)@.id && Some(guard@) == old(self)@.data,
            final(self)@ == if r is Some {
                entered_now(old(self)@, true)
            } else {
                old(self)@
            },
            old(self)@.sem.keeps(final(self)@.sem, None),
    {
        self.internal.try_write()
    }

    /// Starts a blocking write.
    pub fn write(&mut self, thread: usize, pool: &mut QueuePool) -> (r: Enter<RwLockWriteGuard<T>>)
        requires
            old(self).wf(),
            old(pool)@.serves(old(self).structure()),
        ensures
            final(self).wf(),
            (r is Ready) == old(self)@.sem.grantable(old(self)@.max as usize),
            match r {
                Enter::Ready(guard) => guard.source() == old(self)@.id && final(self)@
                    == entered_now(old(self)@, true) && Some(guard@) == old(self)@.data,
                Enter::Wait(waiter) => old(self)@.sem.acquire_spec(
                    old(self)@.max as usize,
                    thread,
                    Acquire::Wait(waiter),
                    final(self)@.sem,
                ) && final(self)@ == (RwView { sem: final(self)@.sem, ..old(self)@ })
                    && final(self)@.sem.sync_waits(waiter@.entry, old(self)@.max as usize),
            },
            old(self)@.sem.keeps(final(self)@.sem, None),
            traded(old(pool)@, old(self).structure(), final(pool)@, final(self).structure()),
    {
        self.internal.write(thread, pool)
    }

    /// One look of a thread that waits to write.
    pub fn write_step(
        &mut self,
        waiter: &mut SyncWaiter,
        pool: &mut QueuePool,
    ) -> (r: EnterStep<RwLockWriteGuard<T>>)
        requires
            old(self).wf(),
            old(self)@.sem.sync_waits(old(waiter)@.entry, old(self)@.max as usize),
            old(pool)@.lends(old(self).structure()),
        ensures
            final(self).wf(),
            final(waiter)@ == old(waiter)@.after_step(
                old(self)@.sem.node(old(waiter)@.entry).value,
            ),
            match r {
                EnterStep::Done(guard) => old(self)@.sem.node(old(waiter)@.entry).value
                    == SIGNAL_SIGNALED && guard.source() == old(self)@.id && final(self)@
                    == entered_later(old(self)@, old(waiter)@.entry, true)
                        && Some(guard@) == old(self)@.data,
                EnterStep::Again(step) => old(self)@.sem.node(old(waiter)@.entry).value
                    != SIGNAL_SIGNALED && step == old(waiter)@.step(
                    old(self)@.sem.node(old(waiter)@.entry).value,
                ) && final(self)@ == (RwView {
                    sem: SemView {
                        queue: after_sync_step(old(self)@.sem.queue, old(waiter)@),
                        ..old(self)@.sem
                    },
                    ..old(self)@
                }),
            },
            r is Again ==> final(self)@.sem.sync_waits(old(waiter)@.entry, old(self)@.max as usize),
            old(self)@.sem.keeps(final(self)@.sem, Some(old(waiter)@.entry)),
            returned(old(pool)@, old(self).structure(), final(pool)@, final(self).structure()),
    {
        self.internal.write_step(waiter, pool)
    }

    /// Makes a request for exclusive access.
    pub fn write_async(&mut self) -> (r: AsyncWriteRequest)
        requires
            old(self).wf(),
        ensures
            final(self).wf(),
            final(self).structure() == old(self).structure(),
            old(self)@.sem.w().vacant(r@),
            final(self)@ == (RwView {
                sem: old(self)@.sem.with_new(r@, SignalView::fresh_none()),
                ..old(self)@
            }),
            final(self)@.sem.pollable(r@, old(self)@.max as usize),
            old(self)@.sem.keeps(final(self)@.sem, None),
    {
        AsyncWriteRequest { entry: self.internal.request() }
    }

    /// Polls a request for exclusive access.
    pub fn poll_write(
        &mut self,
        request: &AsyncWriteRequest,
        waker: usize,
        pool: &mut QueuePool,
    ) -> (r: Poll<
        RwLockWriteGuard<T>,
    >)
        requires
            old(self).wf(),
            old(self)@.sem.pollable(request@, old(self)@.max as usize),
            old(pool)@.serves(old(self).structure()),
        ensures
            final(self).wf(),
            (r is Ready) == (old(self)@.sem.poll_result(request@, old(self)@.max as usize) is Ready),
            r matches Poll::Ready(guard)
                ==> guard.source() == old(self)@.id && Some(guard@) == old(self)@.data,
            final(self)@ == (RwView {
                sem: old(self)@.sem.polled(request@, old(self)@.max as usize, waker),
                ..if r is Ready {
                    old(self)@.entered(true)
                } else {
                    old(self)@
                }
            }),
            r is Pending ==> final(self)@.sem.pollable(request@, old(self)@.max as usize),
            final(self)@.sem.droppable(request@, old(self)@.max as usize),
            old(self)@.sem.keeps(final(self)@.sem, Some(request@)),
            traded(old(pool)@, old(self).structure(), final(pool)@, final(self).structure()),
    {
        self.internal.poll_write(request.entry, waker, pool)
    }

    /// Drops a request for exclusive access, in whatever state it is.
    pub fn drop_write_request(
        &mut self,
        request: &AsyncWriteRequest,
        pool: &mut QueuePool,
    ) -> (r: Withdrawn)
        requires
            old(self).wf(),
            old(self)@.sem.droppable(request@, old(self)@.max as usize),
            old(pool)@.lends(old(self).structure()),
        ensures
            final(self).wf(),
            (r is InFlight) == old(self)@.sem.w().popped.contains(request@),
            final(self)@ == (RwView { sem: old(self)@.sem.dropped(request@), ..old(self)@ }),
            r matches Withdrawn::Done(wakes) ==> wakes@ == old(self)@.sem.drop_wakes(request@),
            r is InFlight ==> final(self)@.sem.droppable(request@, old(self)@.max as usize),
            old(self)@.sem.keeps(final(self)@.sem, Some(request@)),
            returned(old(pool)@, old(self).structure(), final(pool)@, final(self).structure()),
    {
        self.internal.drop_write_request(request.entry, pool)
    }

    /// Drops a write guard. Returns whom to wake.
    pub fn release_write(
        &mut self,
        guard: RwLockWriteGuard<T>,
        pool: &mut QueuePool,
    ) -> (r: Vec<Wake>)
        requires
            old(self).wf(),
            old(self)@.writing,
            guard.source() == old(self)@.id,
            old(pool)@.lends(old(self).structure()),
        ensures
            final(self).wf(),
            final(self)@ == (RwView {
                sem: old(self)@.sem.released(old(self)@.max),
                data: Some(guard@),
                writing: false,
                ..old(self)@
            }),
            r@ == old(self)@.sem.release_wakes(old(self)@.max),
            old(self)@.sem.keeps(final(self)@.sem, None),
            returned(old(pool)@, old(self).structure(), final(pool)@, final(self).structure()),
    {
        self.internal.release_write(guard, pool)
    }

    /// Turns a write guard into a read guard, with no gap in which another
    /// writer could get in. Returns whom to wake.
    pub fn downgrade(
        &mut self,
        guard: RwLockWriteGuard<T>,
        pool: &mut QueuePool,
    ) -> (r: (RwLockReadGuard, Vec<Wake>))
        requires
            old(self).wf(),
            old(self)@.writing,
            guard.source() == old(self)@.id,
            old(pool)@.lends(old(self).structure()),
        ensures
            final(self).wf(),
            final(self)@ == (RwView {
                sem: old(self)@.sem.released((old(self)@.max - 1) as nat),
                data: Some(guard@),
                writing: false,
                readers: 1,
                ..old(self)@
            }),
            r.0.source() == old(self)@.id,
            r.1@ == old(self)@.sem.release_wakes((old(self)@.max - 1) as nat),
            old(self)@.sem.keeps(final(self)@.sem, None),
            returned(old(pool)@, old(self).structure(), final(pool)@, final(self).structure()),
    {
        self.internal.downgrade(guard, pool)
    }

    /// The protected value, for a reader.
    pub fn data(&self, guard: &RwLockReadGuard) -> (r: &T)
        requires
            self.wf(),
            self@.readers > 0,
            guard.source() == self@.id,
        ensures
            Some(*r) == self@.data,
    {
        self.internal.data(guard)
    }

    /// The protected value, to change, while no write guard is out. Whoever has
    /// the lock to itself uses no read guard either; one that was leaked would
    /// see the change.
    pub fn get_mut(&mut self) -> (r: &mut T)
        requires
            old(self).wf(),
            !old(self)@.writing,
        ensures
            Some(*r) == old(self)@.data,
            final(self)@ == (RwView { data: Some(*final(r)), ..old(self)@ }),
            final(self).wf(),
            final(self).structure() == old(self).structure(),
    {
        self.internal.get_mut()
    }

    /// Takes the lock apart.
    pub fn into_inner(self) -> (r: T)
        requires
            self.wf(),
            !self@.writing,
        ensures
            Some(r) == self@.data,
    {
        self.internal.into_inner()
    }

    /// The same lock for tasks.
    pub fn to_async(self) -> (r: AsyncRwLock<T>)
        ensures
            r.structure() == self.structure(),
            r@ == self@,
            r.inv() == self.inv(),
    {
        AsyncRwLock { internal: self.internal }
    }
}

impl<T: Default> Default for RwLock<T> {
    /// A lock that protects a default value.
    fn default() -> (r: Self)
        ensures
            r.wf(),
            r.structure() is None,
            exists|data: T| #[trigger]
                T::default.ensures((), data) && r@ == RwView::fresh(data, MAX_READERS as nat, r@.id),
    {
        Self::new(T::default())
    }
}

impl<T> From<T> for RwLock<T> {
    /// A lock that protects `data`.
    fn from(data: T) -> (r: Self)
        ensures
            r.wf(),
            r.structure() is None,
            r@ == RwView::fresh(data, MAX_READERS as nat, r@.id),
    {
        Self::new(data)
    }
}

/// A lock that is made from a value is known by its view.
impl<T> vstd::std_specs::convert::FromSpecImpl<T> for RwLock<T> {
    open spec fn obeys_from_spec() -> bool {
        false
    }

    open spec fn from_spec(data: T) -> Self {
        arbitrary()
    }
}

/// A reader-writer lock for tasks. It is fair: access is granted to those who
/// wait in the order in which they came, so that writers do not starve.
pub struct AsyncRwLock<T> {
    internal: RwLockInternal<T>,
}

impl<T> View for AsyncRwLock<T> {
    type V = RwView<T>;

    closed spec fn view(&self) -> RwView<T> {
        self.internal@
    }
}

impl<T> AsyncRwLock<T> {
    /// The representation behind the view.
    pub closed spec fn inv(&self) -> bool {
        self.internal.inv()
    }

    /// The address of the structure that the line stands in.
    pub closed spec fn structure(&self) -> Option<usize> {
        self.internal.structure()
    }

    /// There is a structure exactly while somebody waits.
    pub proof fn lemma_structure(&self)
        requires
            self.wf(),
        ensures
            (self.structure() is Some) == (self@.sem.line().len() > 0),
    {
        self.internal.lemma_structure();
    }

    /// Well-formedness, kept by every method.
    pub open spec fn wf(&self) -> bool {
        self@.ok() && self.inv()
    }

    /// A lock that protects `data`.
    pub fn new(data: T) -> (r: Self)
        ensures
            r.wf(),
            r.structure() is None,
            r@ == RwView::fresh(data, MAX_READERS as nat, r@.id),
    {
        Self::with_max_readers(data, MAX_READERS)
    }

    /// A lock that protects `data`, for at most `max_readers` readers at a time.
    pub fn with_max_readers(data: T, max_readers: usize) -> (r: Self)
        requires
            0 < max_readers <= MAX_READERS,
        ensures
            r.wf(),
            r.structure() is None,
            r@ == RwView::fresh(data, max_readers as nat, r@.id),
    {
        AsyncRwLock { internal: RwLockInternal::with_max_readers(data, max_readers) }
    }

    /// Attempts to get shared access without waiting.
    pub fn try_read(&mut self) -> (r: Option<RwLockReadGuard>)
        requires
            old(self).wf(),
        ensures
            final(self).wf(),
            final(self).structure() == old(self).structure(),
            (r is Some) == old(self)@.sem.grantable(1),
            r matches Some(guard) ==> guard.source() == old(self)@.id,
            final(self)@ == if r is Some {
                entered_now(old(self)@, false)
            } else {
                old(self)@
            },
            old(self)@.sem.keeps(final(self)@.sem, None),
    {
        self.internal.try_read()
    }

    /// Starts a blocking read.
    pub fn read_sync(&mut self, thread: usize, pool: &mut QueuePool) -> (r: Enter<RwLockReadGuard>)
        requires
            old(self).wf(),
            old(pool)@.serves(old(self).structure()),
        ensures
            final(self).wf(),
            (r is Ready) == old(self)@.sem.grantable(1),
            match r {
                Enter::Ready(guard) => guard.source() == old(self)@.id && final(self)@
                    == entered_now(old(self)@, false),
                Enter::Wait(waiter) => old(self)@.sem.acquire_spec(
                    1,
                    thread,
                    Acquire::Wait(waiter),
                    final(self)@.sem,
                ) && final(self)@ == (RwView { sem: final(self)@.sem, ..old(self)@ })
                    && final(self)@.sem.sync_waits(waiter@.entry, 1),
            },
            old(self)@.sem.keeps(final(self)@.sem, None),
            traded(old(pool)@, old(self).structure(), final(pool)@, final(self).structure()),
    {
        self.internal.read(thread, pool)
    }

    /// One look of a thread that waits to read.
    pub fn read_step(
        &mut self,
        waiter: &mut SyncWaiter,
        pool: &mut QueuePool,
    ) -> (r: EnterStep<RwLockReadGuard>)
        requires
            old(self).wf(),
            old(self)@.sem.sync_waits(old(waiter)@.entry, 1),
            old(pool)@.lends(old(self).structure()),
        ensures
            final(self).wf(),
            final(waiter)@ == old(waiter)@.after_step(
                old(self)@.sem.node(old(waiter)@.entry).value,
            ),
            match r {
                EnterStep::Done(guard) => old(self)@.sem.node(old(waiter)@.entry).value
                    == SIGNAL_SIGNALED && guard.source() == old(self)@.id && final(self)@
                    == entered_later(old(self)@, old(waiter)@.entry, false),
                EnterStep::Again(step) => old(self)@.sem.node(old(waiter)@.entry).value
                    != SIGNAL_SIGNALED && step == old(waiter)@.step(
                    old(self)@.sem.node(old(waiter)@.entry).value,
                ) && final(self)@ == (RwView {
                    sem: SemView {
                        queue: after_sync_step(old(self)@.sem.queue, old(waiter)@),
                        ..old(self)@.sem
                    },
                    ..old(self)@
                }),
            },
            r is Again ==> final(self)@.sem.sync_waits(old(waiter)@.entry, 1),
            old(self)@.sem.keeps(final(self)@.sem, Some(old(waiter)@.entry)),
            returned(old(pool)@, old(self).structure(), final(pool)@, final(self).structure()),
    {
        self.internal.read_step(waiter, pool)
    }

    /// Makes a request for shared access.
    pub fn read(&mut self) -> (r: AsyncReadRequest)
        requires
            old(self).wf(),
        ensures
            final(self).wf(),
            final(self).structure() == old(self).structure(),
            old(self)@.sem.w().vacant(r@),
            final(self)@ == (RwView {
                sem: old(self)@.sem.with_new(r@, SignalView::fresh_none()),
                ..old(self)@
            }),
            final(self)@.sem.pollable(r@, 1),
            old(self)@.sem.keeps(final(self)@.sem, None),
    {
        AsyncReadRequest { entry: self.internal.request() }
    }

    /// Polls a request for shared access.
    pub fn poll_read(
        &mut self,
        request: &AsyncReadRequest,
        waker: usize,
        pool: &mut QueuePool,
    ) -> (r: Poll<RwLockReadGuard>)
        requires
            old(self).wf(),
            old(self)@.sem.pollable(request@, 1),
            old(pool)@.serves(old(self).structure()),
        ensures
            final(self).wf(),
            (r is Ready) == (old(self)@.sem.poll_result(request@, 1) is Ready),
            r matches Poll::Ready(guard) ==> guard.source() == old(self)@.id,
            final(self)@ == (RwView {
                sem: old(self)@.sem.polled(request@, 1, waker),
                ..if r is Ready {
                    old(self)@.entered(false)
                } else {
                    old(self)@
                }
            }),
            r is Pending ==> final(self)@.sem.pollable(request@, 1),
            final(self)@.sem.droppable(request@, 1),
            old(self)@.sem.keeps(final(self)@.sem, Some(request@)),
            traded(old(pool)@, old(self).structure(), final(pool)@, final(self).structure()),
    {
        self.internal.poll_read(request.entry, waker, pool)
    }

    /// Drops a request for shared access, in whatever state it is.
    pub fn drop_read_request(
        &mut self,
        request: &AsyncReadRequest,
        pool: &mut QueuePool,
    ) -> (r: Withdrawn)
        requires
            old(self).wf(),
            old(self)@.sem.droppable(request@, 1),
            old(pool)@.lends(old(self).structure()),
        ensures
            final(self).wf(),
            (r is InFlight) == old(self)@.sem.w().popped.contains(request@),
            final(self)@ == (RwView { sem: old(self)@.sem.dropped(request@), ..old(self)@ }),
            r matches Withdrawn::Done(wakes) ==> wakes@ == old(self)@.sem.drop_wakes(request@),
            r is InFlight ==> final(self)@.sem.droppable(request@, 1),
            old(self)@.sem.keeps(final(self)@.sem, Some(request@)),
            returned(old(pool)@, old(self).structure(), final(pool)@, final(self).structure()),
    {
        self.internal.drop_read_request(request.entry, pool)
    }

    /// Drops a read guard. Returns whom to wake.
    pub fn release_read(&mut self, guard: RwLockReadGuard, pool: &mut QueuePool) -> (r: Vec<Wake>)
        requires
            old(self).wf(),
            old(self)@.readers > 0,
            guard.source() == old(self)@.id,
            old(pool)@.lends(old(self).structure()),
        ensures
            final(self).wf(),
            final(self)@ == (RwView {
                sem: old(self)@.sem.released(1),
                readers: (old(self)@.readers - 1) as nat,
                ..old(self)@
            }),
            r@ == old(self)@.sem.release_wakes(1),
            old(self)@.sem.keeps(final(self)@.sem, None),
            returned(old(pool)@, old(self).structure(), final(pool)@, final(self).structure()),
    {
        self.internal.release_read(guard, pool)
    }

    /// Attempts to get exclusive access without waiting.
    pub fn try_write(&mut self) -> (r: Option<RwLockWriteGuard<T>>)
        requires
            old(self).wf(),
        ensures
            final(self).wf(),
            final(self).structure() == old(self).structure(),
            (r is Some) == old(self)@.sem.grantable(old(self)@.max as usize),
            r matches Some(guard)
                ==> guard.source() == old(self)@.id && Some(guard@) == old(self)@.data,
            final(self)@ == if r is Some {
                entered_now(old(self)@, true)
            } else {
                old(self)@
            },
            old(self)@.sem.keeps(final(self)@.sem, None),
    {
        self.internal.try_write()
    }

    /// Starts a blocking write.
    pub fn write_sync(
        &mut self,
        thread: usize,
        pool: &mut QueuePool,
    ) -> (r: Enter<RwLockWriteGuard<T>>)
        requires
            old(self).wf(),
            old(pool)@.serves(old(self).structure()),
        ensures
            final(self).wf(),
            (r is Ready) == old(self)@.sem.grantable(old(self)@.max as usize),
            match r {
                Enter::Ready(guard) => guard.source() == old(self)@.id && final(self)@
                    == entered_now(old(self)@, true) && Some(guard@) == old(self)@.data,
                Enter::Wait(waiter) => old(self)@.sem.acquire_spec(
                    old(self)@.max as usize,
                    thread,
                    Acquire::Wait(waiter),
                    final(self)@.sem,
                ) && final(self)@ == (RwView { sem: final(self)@.sem, ..old(self)@ })
                    && final(self)@.sem.sync_waits(waiter@.entry, old(self)@.max as usize),
            },
            old(self)@.sem.keeps(final(self)@.sem, None),
            traded(old(pool)@, old(self).structure(), final(pool)@, final(self).structure()),
    {
        self.internal.write(thread, pool)
    }

    /// One look of a thread that waits to write.
    pub fn write_step(
        &mut self,
        waiter: &mut SyncWaiter,
        pool: &mut QueuePool,
    ) -> (r: EnterStep<RwLockWriteGuard<T>>)
        requires
            old(self).wf(),
            old(self)@.sem.sync_waits(old(waiter)@.entry, old(self)@.max as usize),
            old(pool)@.lends(old(self).structure()),
        ensures
            final(self).wf(),
            final(waiter)@ == old(waiter)@.after_step(
                old(self)@.sem.node(old(waiter)@.entry).value,
            ),
            match r {
                EnterStep::Done(guard) => old(self)@.sem.node(old(waiter)@.entry).value
                    == SIGNAL_SIGNALED && guard.source() == old(self)@.id && final(self)@
                    == entered_later(old(self)@, old(waiter)@.entry, true)
                        && Some(guard@) == old(self)@.data,
                EnterStep::Again(step) => old(self)@.sem.node(old(waiter)@.entry).value
                    != SIGNAL_SIGNALED && step == old(waiter)@.step(
                    old(self)@.sem.node(old(waiter)@.entry).value,
                ) && final(self)@ == (RwView {
                    sem: SemView {
                        queue: after_sync_step(old(self)@.sem.queue, old(waiter)@),
                        ..old(self)@.sem
                    },
                    ..old(self)@
                }),
            },
            r is Again ==> final(self)@.sem.sync_waits(old(waiter)@.entry, old(self)@.max as usize),
            old(self)@.sem.keeps(final(self)@.sem, Some(old(waiter)@.entry)),
            returned(old(pool)@, old(self).structure(), final(pool)@, final(self).structure()),
    {
        self.internal.write_step(waiter, pool)
    }

    /// Makes a request for exclusive access.
    pub fn write(&mut self) -> (r: AsyncWriteRequest)
        requires
            old(self).wf(),
        ensures
            final(self).wf(),
            final(self).structure() == old(self).structure(),
            old(self)@.sem.w().vacant(r@),
            final(self)@ == (RwView {
                sem: old(self)@.sem.with_new(r@, SignalView::fresh_none()),
                ..old(self)@
            }),
            final(self)@.sem.pollable(r@, old(self)@.max as usize),
            old(self)@.sem.keeps(final(self)@.sem, None),
    {
        AsyncWriteRequest { entry: self.internal.request() }
    }

    /// Polls a request for exclusive access.
    pub fn poll_write(
        &mut self,
        request: &AsyncWriteRequest,
        waker: usize,
        pool: &mut QueuePool,
    ) -> (r: Poll<
        RwLockWriteGuard<T>,
    >)
        requires
            old(self).wf(),
            old(self)@.sem.pollable(request@, old(self)@.max as usize),
            old(pool)@.serves(old(self).structure()),
        ensures
            final(self).wf(),
            (r is Ready) == (old(self)@.sem.poll_result(request@, old(self)@.max as usize) is Ready),
            r matches Poll::Ready(guard)
                ==> guard.source() == old(self)@.id && Some(guard@) == old(self)@.data,
            final(self)@ == (RwView {
                sem: old(self)@.sem.polled(request@, old(self)@.max as usize, waker),
                ..if r is Ready {
                    old(self)@.entered(true)
                } else {
                    old(self)@
                }
            }),
            r is Pending ==> final(self)@.sem.pollable(request@, old(self)@.max as usize),
            final(self)@.sem.droppable(request@, old(self)@.max as usize),
            old(self)@.sem.keeps(final(self)@.sem, Some(request@)),
            traded(old(pool)@, old(self).structure(), final(pool)@, final(self).structure()),
    {
        self.internal.poll_write(request.entry, waker, pool)
    }

    /// Drops a request for exclusive access, in whatever state it is.
    pub fn drop_write_request(
        &mut self,
        request: &AsyncWriteRequest,
        pool: &mut QueuePool,
    ) -> (r: Withdrawn)
        requires
            old(self).wf(),
            old(self)@.sem.droppable(request@, old(self)@.max as usize),
            old(pool)@.lends(old(self).structure()),
        ensures
            final(self).wf(),
            (r is InFlight) == old(self)@.sem.w().popped.contains(request@),
            final(self)@ == (RwView { sem: old(self)@.sem.dropped(request@), ..old(self)@ }),
            r matches Withdrawn::Done(wakes) ==> wakes@ == old(self)@.sem.drop_wakes(request@),
            r is InFlight ==> final(self)@.sem.droppable(request@, old(self)@.max as usize),
            old(self)@.sem.keeps(final(self)@.sem, Some(request@)),
            returned(old(pool)@, old(self).structure(), final(pool)@, final(self).structure()),
    {
        self.internal.drop_write_request(request.entry, pool)
    }

    /// Drops a write guard. Returns whom to wake.
    pub fn release_write(
        &mut self,
        guard: RwLockWriteGuard<T>,
        pool: &mut QueuePool,
    ) -> (r: Vec<Wake>)
        requires
            old(self).wf(),
            old(self)@.writing,
            guard.source() == old(self)@.id,
            old(pool)@.lends(old(self).structure()),
        ensures
            final(self).wf(),
            final(self)@ == (RwView {
                sem: old(self)@.sem.released(old(self)@.max),
                data: Some(guard@),
                writing: false,
                ..old(self)@
            }),
            r@ == old(self)@.sem.release_wakes(old(self)@.max),
            old(self)@.sem.keeps(final(self)@.sem, None),
            returned(old(pool)@, old(self).structure(), final(pool)@, final(self).structure()),
    {
        self.internal.release_write(guard, pool)
    }

    /// Turns a write guard into a read guard, with no gap in which another
    /// writer could get in. Returns whom to wake.
    pub fn downgrade(
        &mut self,
        guard: RwLockWriteGuard<T>,
        pool: &mut QueuePool,
    ) -> (r: (RwLockReadGuard, Vec<Wake>))
        requires
            old(self).wf(),
            old(self)@.writing,
            guard.source() == old(self)@.id,
            old(pool)@.lends(old(self).structure()),
        ensures
            final(self).wf(),
            final(self)@ == (RwView {
                sem: old(self)@.sem.released((old(self)@.max - 1) as nat),
                data: Some(guard@),
                writing: false,
                readers: 1,
                ..old(self)@
            }),
            r.0.source() == old(self)@.id,
            r.1@ == old(self)@.sem.release_wakes((old(self)@.max - 1) as nat),
            old(self)@.sem.keeps(final(self)@.sem, None),
            returned(old(pool)@, old(self).structure(), final(pool)@, final(self).structure()),
    {
        self.internal.downgrade(guard, pool)
    }

    /// The protected value, for a reader.
    pub fn data(&self, guard: &RwLockReadGuard) -> (r: &T)
        requires
            self.wf(),
            self@.readers > 0,
            guard.source() == self@.id,
        ensures
            Some(*r) == self@.data,
    {
        self.internal.data(guard)
    }

    /// The protected value, to change, while no write guard is out. Whoever has
    /// the lock to itself uses no read guard either; one that was leaked would
    /// see the change.
    pub fn get_mut(&mut self) -> (r: &mut T)
        requires
            old(self).wf(),
            !old(self)@.writing,
        ensures
            Some(*r) == old(self)@.data,
            final(self)@ == (RwView { data: Some(*final(r)), ..old(self)@ }),
            final(self).wf(),
            final(self).structure() == old(self).structure(),
    {
        self.internal.get_mut()
    }

    /// Takes the lock apart.
    pub fn into_inner(self) -> (r: T)
        requires
            self.wf(),
            !self@.writing,
        ensures
            Some(r) == self@.data,
    {
        self.internal.into_inner()
    }

    /// The same lock for threads.
    pub fn to_sync(self) -> (r: RwLock<T>)
        ensures
            r.structure() == self.structure(),
            r@ == self@,
            r.inv() == self.inv(),
    {
        RwLock { internal: self.internal }
    }
}

impl<T: Default> Default for AsyncRwLock<T> {
    /// A lock that protects a default value.
    fn default() -> (r: Self)
        ensures
            r.wf(),
            r.structure() is None,
            exists|data: T| #[trigger]
                T::default.ensures((), data) && r@ == RwView::fresh(data, MAX_READERS as nat, r@.id),
    {
        Self::new(T::default())
    }
}

impl<T> From<T> for AsyncRwLock<T> {
    /// A lock that protects `data`.
    fn from(data: T) -> (r: Self)
        ensures
            r.wf(),
            r.structure() is None,
            r@ == RwView::fresh(data, MAX_READERS as nat, r@.id),
    {
        Self::new(data)
    }
}

/// A lock that is made from a value is known by its view.
impl<T> vstd::std_specs::convert::FromSpecImpl<T> for AsyncRwLock<T> {
    open spec fn obeys_from_spec() -> bool {
        false
    }

    open spec fn from_spec(data: T) -> Self {
        arbitrary()
    }
}

} // verus!
