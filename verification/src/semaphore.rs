//! Counting semaphores, for threads ([`Semaphore`]) and for tasks
//! ([`AsyncSemaphore`]). Both are the same underneath and turn into each other.
use vstd::prelude::*;

use crate::pool::{returned, traded, QueuePool};
use crate::sem_core::{AcquireError, SemCore, SemView, TryAcquireError};
use crate::sem_laws::start_keeps_requests;
use crate::sem_ops::{Acquire, AcquireStep};
use crate::sem_word::MAX_PERMITS;
use crate::signal::{Poll, SignalView, Wake, Withdrawn, SIGNAL_CLOSED, SIGNAL_SIGNALED};
use crate::sync_wait::{after_sync_step, Stage, SyncStep, SyncWaiter, SyncWaiterView};

verus! {

/// Permits that were acquired and have to be released.
pub struct SemaphorePermit {
    permits: usize,
    of: Ghost<int>,
}

impl SemaphorePermit {
    /// How many permits.
    pub closed spec fn count(&self) -> nat {
        self.permits as nat
    }

    /// The mark of the semaphore that they are from.
    pub closed spec fn source(&self) -> int {
        self.of@
    }

    /// How many permits this is.
    pub fn num_permits(&self) -> (r: usize)
        ensures
            r == self.count(),
    {
        self.permits
    }

    /// Gives the permits up for good: they do not go back to the semaphore.
    /// What is left holds none.
    pub fn forget(self) -> (r: SemaphorePermit)
        ensures
            r.count() == 0,
            r.source() == self.source(),
    {
        SemaphorePermit { permits: 0, of: self.of }
    }

    /// Splits `n` permits off, if there are that many.
    pub fn split(&mut self, n: usize) -> (r: Option<SemaphorePermit>)
        ensures
            (r is Some) == (n <= old(self).count()),
            final(self).source() == old(self).source(),
            match r {
                Some(part) => part.count() == n && part.source() == old(self).source()
                    && final(self).count() == old(self).count() - n,
                None => final(self).count() == old(self).count(),
            },
    {
        if n > self.permits {
            return None;
        }
        self.permits = self.permits - n;
        Some(SemaphorePermit { permits: n, of: Ghost(self.of@) })
    }

    /// Adds permits of the same semaphore. A caller that cannot know whether they
    /// are has to find out at run time.
    pub fn merge(&mut self, other: SemaphorePermit)
        requires
            old(self).source() == other.source(),
            old(self).count() + other.count() <= usize::MAX,
        ensures
            final(self).count() == old(self).count() + other.count(),
            final(self).source() == old(self).source(),
    {
        self.permits = self.permits + other.permits;
    }
}

/// A request for permits, made by a task.
#[derive(Debug)]
pub struct AsyncAcquireRequest {
    entry: usize,
    permits: usize,
}

impl AsyncAcquireRequest {
    /// The node that the task waits on.
    pub closed spec fn entry(&self) -> usize {
        self.entry
    }

    /// How many permits the task wants.
    pub closed spec fn wants(&self) -> usize {
        self.permits
    }
}

/// A thread that waits for permits.
#[derive(Debug)]
pub struct SyncAcquire {
    waiter: SyncWaiter,
    permits: usize,
}

impl SyncAcquire {
    /// How the thread waits.
    pub closed spec fn waiter(&self) -> SyncWaiterView {
        self.waiter@
    }

    /// How many permits the thread wants.
    pub closed spec fn wants(&self) -> usize {
        self.permits
    }
}

/// How a blocking acquisition starts.
pub enum AcquireStart {
    /// It is decided.
    Ready(Result<SemaphorePermit, AcquireError>),
    /// The thread has to wait.
    Wait(SyncAcquire),
}

/// How a blocking acquisition goes on.
pub enum AcquireProgress {
    /// Pause or park, and look again.
    Again(SyncStep),
    /// It is decided; wake these.
    Done(Result<SemaphorePermit, AcquireError>, Vec<Wake>),
}

impl SemView {
    /// What an attempt to take `n` permits returns, and the state after it.
    pub open spec fn try_spec(
        self,
        id: int,
        n: usize,
        r: Result<SemaphorePermit, TryAcquireError>,
        after: SemView,
    ) -> bool {
        if self.closed {
            r == Err::<SemaphorePermit, TryAcquireError>(TryAcquireError::Closed) && after == self
        } else if !self.grantable(n) {
            r == Err::<SemaphorePermit, TryAcquireError>(TryAcquireError::NoPermits) && after
                == self
        } else {
            r is Ok && r->Ok_0.count() == n && r->Ok_0.source() == id && after == (SemView {
                permits: (self.permits - n) as nat,
                ..self
            })
        }
    }

    /// How a blocking acquisition of `n` permits starts, and the state after
    /// it.
    pub open spec fn start_spec(
        self,
        id: int,
        n: usize,
        thread: usize,
        r: AcquireStart,
        after: SemView,
    ) -> bool {
        if self.closed {
            r == AcquireStart::Ready(Err(AcquireError::the())) && after == self
        } else if self.grantable(n) {
            r is Ready && r->Ready_0 is Ok && r->Ready_0->Ok_0.count() == n
                && r->Ready_0->Ok_0.source() == id && after == (SemView {
                permits: (self.permits - n) as nat,
                ..self
            })
        } else {
            r matches AcquireStart::Wait(wait) && wait.wants() == n && wait.waiter().spins == 0
                && wait.waiter().stage == (if self.line().len() == 0 {
                Stage::Spinning
            } else {
                Stage::Arming
            }) && self.w().vacant(wait.waiter().entry) && after == self.with_new(
                wait.waiter().entry,
                SignalView { aux: n, ..SignalView::fresh_sync(thread) },
            ).enqueued(wait.waiter().entry)
        }
    }

    /// What was assigned to a request before the closing fits back into the
    /// stock.
    pub open spec fn may_settle(self, entry: usize) -> bool {
        self.node(entry).value == SIGNAL_CLOSED ==> self.permits + self.node(entry).granted
            <= MAX_PERMITS
    }

    /// How a blocking acquisition of `n` permits goes on, and the state after
    /// it.
    pub open spec fn progress_spec(
        self,
        id: int,
        n: usize,
        waiter: SyncWaiterView,
        r: AcquireProgress,
        after: SemView,
    ) -> bool {
        let node = self.node(waiter.entry);
        let gone = self.with_node(waiter.entry, SignalView::dead());
        match node.value {
            SIGNAL_SIGNALED => r matches AcquireProgress::Done(result, wakes) && result is Ok
                && result->Ok_0.count() == n && result->Ok_0.source() == id && wakes@.len() == 0
                && after == gone,
            SIGNAL_CLOSED => r matches AcquireProgress::Done(result, wakes) && result == Err::<
                SemaphorePermit,
                AcquireError,
            >(AcquireError::the()) && wakes@ == gone.release_wakes(node.granted) && after
                == gone.released(node.granted),
            _ => r == AcquireProgress::Again(waiter.step(node.value)) && after == (SemView {
                queue: after_sync_step(self.queue, waiter),
                ..self
            }),
        }
    }

    /// A new request, and the state after it was made.
    pub open spec fn request_spec(self, r: AsyncAcquireRequest, after: SemView) -> bool {
        &&& self.w().vacant(r.entry())
        &&& after == self.with_new(r.entry(), SignalView::fresh_none())
        &&& after.pollable(r.entry(), r.wants())
    }
}

/// Whether the permits that a waiter on a closed semaphore gives back fit.
fn can_settle(core: &SemCore, entry: usize, n: usize) -> (r: bool)
    requires
        core.wf(),
        core@.asked(entry, n),
    ensures
        r == core@.may_settle(entry),
{
    let stock: usize = core.available_permits();
    core.value(entry) != SIGNAL_CLOSED || stock <= MAX_PERMITS && core.assigned(entry, n)
        <= MAX_PERMITS - stock
}

/// A counting semaphore for threads. It is fair: permits go to those who wait in
/// the order in which they came.
pub struct Semaphore {
    core: SemCore,
    id: Ghost<int>,
}

impl View for Semaphore {
    type V = SemView;

    closed spec fn view(&self) -> SemView {
        self.core@
    }
}

impl Semaphore {
    /// The most permits a semaphore can hold.
    pub const MAX_PERMITS: usize = MAX_PERMITS;

    /// The representation behind the view.
    pub closed spec fn inv(&self) -> bool {
        self.core.inv()
    }

    /// The address of the structure that the line stands in.
    pub closed spec fn structure(&self) -> Option<usize> {
        self.core.structure()
    }

    /// There is a structure exactly while somebody waits.
    pub proof fn lemma_structure(&self)
        requires
            self.wf(),
        ensures
            (self.structure() is Some) == (self@.line().len() > 0),
    {
        self.core.lemma_structure();
    }

    /// A mark that the semaphore keeps and that its permits carry. Nothing is
    /// said of its value: that permits carry it is only known of permits that
    /// were got from this semaphore. That another semaphore has another mark is
    /// not said either; whoever holds permits of several tells them apart at run
    /// time.
    pub closed spec fn id(&self) -> int {
        self.id@
    }

    /// Well-formedness, kept by every method.
    pub open spec fn wf(&self) -> bool {
        self@.ok() && self@.quiet() && self@.owed == 0 && self@.sweeps == 0 && self.inv()
    }

    /// A semaphore with `permits` permits.
    pub fn new(permits: usize) -> (r: Self)
        requires
            permits <= MAX_PERMITS,
        ensures
            r.wf(),
            r.structure() is None,
            r@ == SemView::fresh(permits as nat),
            r@.total() == permits,
    {
        Semaphore { core: SemCore::new(permits), id: Ghost(arbitrary()) }
    }

    /// The number of permits available.
    pub fn available_permits(&self) -> (r: usize)
        ensures
            r == self@.permits,
    {
        self.core.available_permits()
    }

    /// Adds `n` permits, and hands them to those who wait. Returns whom to wake.
    pub fn add_permits(&mut self, n: usize, pool: &mut QueuePool) -> (r: Vec<Wake>)
        requires
            old(self).wf(),
            old(self)@.permits + n <= MAX_PERMITS,
            old(pool)@.lends(old(self).structure()),
        ensures
            final(self).wf(),
            final(self).id() == old(self).id(),
            final(self)@ == old(self)@.released(n as nat),
            r@ == old(self)@.release_wakes(n as nat),
            final(self)@.total() == old(self)@.total() + n,
            old(self)@.keeps(final(self)@, None),
            returned(old(pool)@, old(self).structure(), final(pool)@, final(self).structure()),
    {
        self.core.release(n, pool)
    }

    /// Removes up to `n` permits; returns how many.
    pub fn forget_permits(&mut self, n: usize) -> (r: usize)
        requires
            old(self).wf(),
        ensures
            final(self).wf(),
            final(self).structure() == old(self).structure(),
            final(self).id() == old(self).id(),
            r == if old(self)@.permits < n {
                old(self)@.permits
            } else {
                n as nat
            },
            final(self)@ == (SemView { permits: (old(self)@.permits - r) as nat, ..old(self)@ }),
            final(self)@.total() == old(self)@.total() - r,
            old(self)@.keeps(final(self)@, None),
    {
        self.core.forget_permits(n)
    }

    /// Closes the semaphore: whoever waits fails, and so does whoever comes.
    /// Permits that are out can still be released. Returns whom to wake.
    pub fn close(&mut self, pool: &mut QueuePool) -> (r: Vec<Wake>)
        requires
            old(self).wf(),
            old(pool)@.lends(old(self).structure()),
        ensures
            final(self).wf(),
            final(self).id() == old(self).id(),
            final(self)@ == old(self)@.shut(),
            r@ == old(self)@.shut_wakes(),
            final(self)@.total() == old(self)@.total(),
            old(self)@.keeps(final(self)@, None),
            returned(old(pool)@, old(self).structure(), final(pool)@, final(self).structure()),
    {
        self.core.close(pool)
    }

    /// Whether the semaphore has been closed.
    pub fn is_closed(&self) -> (r: bool)
        ensures
            r == self@.closed,
    {
        self.core.is_closed()
    }

    /// Attempts to acquire one permit without waiting.
    pub fn try_acquire(&mut self) -> (r: Result<SemaphorePermit, TryAcquireError>)
        requires
            old(self).wf(),
        ensures
            final(self).wf(),
            final(self).structure() == old(self).structure(),
            final(self).id() == old(self).id(),
            old(self)@.try_spec(old(self).id(), 1, r, final(self)@),
            final(self)@.total() == if r is Ok {
                old(self)@.total() - 1
            } else {
                old(self)@.total() as int
            },
            old(self)@.keeps(final(self)@, None),
    {
        self.try_acquire_many(1)
    }

    /// Attempts to acquire `n` permits without waiting.
    pub fn try_acquire_many(&mut self, n: usize) -> (r: Result<SemaphorePermit, TryAcquireError>)
        requires
            old(self).wf(),
        ensures
            final(self).wf(),
            final(self).structure() == old(self).structure(),
            final(self).id() == old(self).id(),
            old(self)@.try_spec(old(self).id(), n, r, final(self)@),
            final(self)@.total() == if r is Ok {
                old(self)@.total() - n
            } else {
                old(self)@.total() as int
            },
            old(self)@.keeps(final(self)@, None),
    {
        match self.core.try_acquire(n) {
            Ok(()) => Ok(SemaphorePermit { permits: n, of: Ghost(self.id@) }),
            Err(e) => Err(e),
        }
    }

    /// Releases permits. Returns whom to wake.
    pub fn release(&mut self, permit: SemaphorePermit, pool: &mut QueuePool) -> (r: Vec<Wake>)
        requires
            old(self).wf(),
            permit.source() == old(self).id(),
            old(self)@.permits + permit.count() <= MAX_PERMITS,
            old(pool)@.lends(old(self).structure()),
        ensures
            final(self).wf(),
            final(self).id() == old(self).id(),
            final(self)@ == old(self)@.released(permit.count()),
            r@ == old(self)@.release_wakes(permit.count()),
            final(self)@.total() == old(self)@.total() + permit.count(),
            old(self)@.keeps(final(self)@, None),
            returned(old(pool)@, old(self).structure(), final(pool)@, final(self).structure()),
    {
        self.core.release(permit.permits, pool)
    }

    /// Starts a blocking acquisition of one permit.
    pub fn acquire(&mut self, thread: usize, pool: &mut QueuePool) -> (r: AcquireStart)
        requires
            old(self).wf(),
            old(pool)@.serves(old(self).structure()),
        ensures
            final(self).wf(),
            final(self).id() == old(self).id(),
            old(self)@.start_spec(old(self).id(), 1, thread, r, final(self)@),
            final(self)@.total() == if r is Ready && r->Ready_0 is Ok {
                old(self)@.total() - 1
            } else {
                old(self)@.total() as int
            },
            r matches AcquireStart::Wait(wait) ==> final(self)@.sync_waits(
                wait.waiter().entry,
                wait.wants(),
            ),
            old(self)@.keeps(final(self)@, None),
            traded(old(pool)@, old(self).structure(), final(pool)@, final(self).structure()),
    {
        self.acquire_many(1, thread, pool)
    }

    /// Starts a blocking acquisition of `n` permits.
    pub fn acquire_many(
        &mut self,
        n: usize,
        thread: usize,
        pool: &mut QueuePool,
    ) -> (r: AcquireStart)
        requires
            old(self).wf(),
            old(self)@.closed || n <= MAX_PERMITS,
            old(pool)@.serves(old(self).structure()),
        ensures
            final(self).wf(),
            final(self).id() == old(self).id(),
            old(self)@.start_spec(old(self).id(), n, thread, r, final(self)@),
            final(self)@.total() == if r is Ready && r->Ready_0 is Ok {
                old(self)@.total() - n
            } else {
                old(self)@.total() as int
            },
            r matches AcquireStart::Wait(wait) ==> final(self)@.sync_waits(
                wait.waiter().entry,
                wait.wants(),
            ),
            old(self)@.keeps(final(self)@, None),
            traded(old(pool)@, old(self).structure(), final(pool)@, final(self).structure()),
    {
        match self.core.acquire_sync(n, thread, pool) {
            Acquire::Ready(Ok(())) => AcquireStart::Ready(
                Ok(SemaphorePermit { permits: n, of: Ghost(self.id@) }),
            ),
            Acquire::Ready(Err(e)) => AcquireStart::Ready(Err(e)),
            Acquire::Wait(waiter) => AcquireStart::Wait(SyncAcquire { waiter, permits: n }),
        }
    }

    /// One look of a thread that waits for permits.
    pub fn wait_step(
        &mut self,
        wait: &mut SyncAcquire,
        pool: &mut QueuePool,
    ) -> (r: AcquireProgress)
        requires
            old(self).wf(),
            old(self)@.sync_waits(old(wait).waiter().entry, old(wait).wants()),
            old(self)@.may_settle(old(wait).waiter().entry),
            old(pool)@.lends(old(self).structure()),
        ensures
            final(self).wf(),
            final(self).id() == old(self).id(),
            final(wait).wants() == old(wait).wants(),
            final(wait).waiter() == old(wait).waiter().after_step(
                old(self)@.node(old(wait).waiter().entry).value,
            ),
            old(self)@.progress_spec(
                old(self).id(),
                old(wait).wants(),
                old(wait).waiter(),
                r,
                final(self)@,
            ),
            final(self)@.total() == if r is Done && r->Done_0 is Ok {
                old(self)@.total() - old(wait).wants()
            } else {
                old(self)@.total() as int
            },
            r is Again ==> final(self)@.sync_waits(old(wait).waiter().entry, old(wait).wants()),
            old(self)@.keeps(final(self)@, Some(old(wait).waiter().entry)),
            returned(old(pool)@, old(self).structure(), final(pool)@, final(self).structure()),
    {
        let n: usize = wait.permits;
        match self.core.acquire_step(&mut wait.waiter, n, pool) {
            AcquireStep::Again(step) => AcquireProgress::Again(step),
            AcquireStep::Done(Ok(()), wakes) => AcquireProgress::Done(
                Ok(SemaphorePermit { permits: n, of: Ghost(self.id@) }),
                wakes,
            ),
            AcquireStep::Done(Err(e), wakes) => AcquireProgress::Done(Err(e), wakes),
        }
    }

    /// Makes a request for one permit.
    pub fn acquire_async(&mut self) -> (r: AsyncAcquireRequest)
        requires
            old(self).wf(),
        ensures
            final(self).wf(),
            final(self).structure() == old(self).structure(),
            final(self).id() == old(self).id(),
            r.wants() == 1,
            old(self)@.request_spec(r, final(self)@),
            old(self)@.keeps(final(self)@, None),
    {
        self.acquire_many_async(1)
    }

    /// Makes a request for `n` permits.
    pub fn acquire_many_async(&mut self, n: usize) -> (r: AsyncAcquireRequest)
        requires
            old(self).wf(),
        ensures
            final(self).wf(),
            final(self).structure() == old(self).structure(),
            final(self).id() == old(self).id(),
            r.wants() == n,
            old(self)@.request_spec(r, final(self)@),
            old(self)@.keeps(final(self)@, None),
    {
        let ghost before = self@;
        let entry: usize = self.core.prepare_async();
        proof {
            start_keeps_requests(before, entry, n, 0);
        }
        AsyncAcquireRequest { entry, permits: n }
    }

    /// How many permits are assigned to a request and not yet taken over.
    pub fn assigned(&self, request: &AsyncAcquireRequest) -> (r: usize)
        requires
            self.wf(),
            self@.asked(request.entry(), request.wants()),
        ensures
            r == self@.node(request.entry()).granted,
    {
        self.core.assigned(request.entry, request.permits)
    }

    /// Whether a poll of a request leaves no more permits in stock than a
    /// semaphore can hold.
    pub fn can_settle(&self, request: &AsyncAcquireRequest) -> (r: bool)
        requires
            self.wf(),
            self@.asked(request.entry(), request.wants()),
        ensures
            r == self@.may_settle(request.entry()),
    {
        can_settle(&self.core, request.entry, request.permits)
    }

    /// The same of the next step of a thread that waits.
    pub fn can_settle_sync(&self, wait: &SyncAcquire) -> (r: bool)
        requires
            self.wf(),
            self@.asked(wait.waiter().entry, wait.wants()),
        ensures
            r == self@.may_settle(wait.waiter().entry),
    {
        can_settle(&self.core, wait.waiter.entry(), wait.permits)
    }

    /// Polls a request. Returns whom to wake, too.
    pub fn poll(
        &mut self,
        request: &AsyncAcquireRequest,
        waker: usize,
        pool: &mut QueuePool,
    ) -> (r: (
        Poll<Result<SemaphorePermit, AcquireError>>,
        Vec<Wake>,
    ))
        requires
            old(self).wf(),
            old(self)@.pollable(request.entry(), request.wants()),
            old(self)@.closed || request.wants() <= MAX_PERMITS,
            old(self)@.may_settle(request.entry()),
            old(pool)@.serves(old(self).structure()),
        ensures
            final(self).wf(),
            final(self).id() == old(self).id(),
            final(self)@ == old(self)@.polled(request.entry(), request.wants(), waker),
            r.1@ == old(self)@.poll_wakes(request.entry()),
            match old(self)@.poll_result(request.entry(), request.wants()) {
                Poll::Pending => r.0 is Pending,
                Poll::Ready(Ok(())) => r.0 is Ready && r.0->0 is Ok && r.0->0->Ok_0.count()
                    == request.wants() && r.0->0->Ok_0.source() == old(self).id(),
                Poll::Ready(Err(e)) => r.0 == Poll::Ready(
                    Err::<SemaphorePermit, AcquireError>(e),
                ),
            },
            final(self)@.total() == if r.0 is Ready && r.0->0 is Ok {
                old(self)@.total() - request.wants()
            } else {
                old(self)@.total() as int
            },
            r.0 is Pending ==> final(self)@.pollable(request.entry(), request.wants()),
            final(self)@.droppable(request.entry(), request.wants()),
            old(self)@.keeps(final(self)@, Some(request.entry())),
            traded(old(pool)@, old(self).structure(), final(pool)@, final(self).structure()),
    {
        let (result, wakes) = self.core.poll_acquire(request.entry, request.permits, waker, pool);
        match result {
            Poll::Pending => (Poll::Pending, wakes),
            Poll::Ready(Ok(())) => (
                Poll::Ready(Ok(SemaphorePermit { permits: request.permits, of: Ghost(self.id@) })),
                wakes,
            ),
            Poll::Ready(Err(e)) => (Poll::Ready(Err(e)), wakes),
        }
    }

    /// Drops a request, in whatever state it is: it leaves the line, and what
    /// was assigned to it goes back.
    pub fn drop_request(
        &mut self,
        request: &AsyncAcquireRequest,
        pool: &mut QueuePool,
    ) -> (r: Withdrawn)
        requires
            old(self).wf(),
            old(self)@.droppable(request.entry(), request.wants()),
            !old(self)@.w().popped.contains(request.entry()) ==> old(self)@.permits + old(
                self)@.node(request.entry()).granted <= MAX_PERMITS,
            old(pool)@.lends(old(self).structure()),
        ensures
            final(self).wf(),
            final(self).id() == old(self).id(),
            (r is InFlight) == old(self)@.w().popped.contains(request.entry()),
            final(self)@ == old(self)@.dropped(request.entry()),
            r matches Withdrawn::Done(wakes) ==> wakes@ == old(self)@.drop_wakes(request.entry()),
            final(self)@.total() == old(self)@.total(),
            r is InFlight ==> final(self)@.droppable(request.entry(), request.wants()),
            old(self)@.keeps(final(self)@, Some(request.entry())),
            returned(old(pool)@, old(self).structure(), final(pool)@, final(self).structure()),
    {
        self.core.drop_acquire(request.entry, request.permits, pool)
    }

    /// The same semaphore as a semaphore for tasks.
    pub fn to_async(self) -> (r: AsyncSemaphore)
        ensures
            r.structure() == self.structure(),
            r@ == self@,
            r.inv() == self.inv(),
            r.id() == self.id(),
    {
        AsyncSemaphore { core: self.core, id: self.id }
    }
}

/// A counting semaphore for tasks. It is fair: permits go to those who wait in
/// the order in which they came.
pub struct AsyncSemaphore {
    core: SemCore,
    id: Ghost<int>,
}

impl View for AsyncSemaphore {
    type V = SemView;

    closed spec fn view(&self) -> SemView {
        self.core@
    }
}

impl AsyncSemaphore {
    /// The most permits a semaphore can hold.
    pub const MAX_PERMITS: usize = MAX_PERMITS;

    /// The representation behind the view.
    pub closed spec fn inv(&self) -> bool {
        self.core.inv()
    }

    /// The address of the structure that the line stands in.
    pub closed spec fn structure(&self) -> Option<usize> {
        self.core.structure()
    }

    /// There is a structure exactly while somebody waits.
    pub proof fn lemma_structure(&self)
        requires
            self.wf(),
        ensures
            (self.structure() is Some) == (self@.line().len() > 0),
    {
        self.core.lemma_structure();
    }

    /// A mark that the semaphore keeps and that its permits carry. Nothing is
    /// said of its value: that permits carry it is only known of permits that
    /// were got from this semaphore. That another semaphore has another mark is
    /// not said either; whoever holds permits of several tells them apart at run
    /// time.
    pub closed spec fn id(&self) -> int {
        self.id@
    }

    /// Well-formedness, kept by every method.
    pub open spec fn wf(&self) -> bool {
        self@.ok() && self@.quiet() && self@.owed == 0 && self@.sweeps == 0 && self.inv()
    }

    /// A semaphore with `permits` permits.
    pub fn new(permits: usize) -> (r: Self)
        requires
            permits <= MAX_PERMITS,
        ensures
            r.wf(),
            r.structure() is None,
            r@ == SemView::fresh(permits as nat),
            r@.total() == permits,
    {
        AsyncSemaphore { core: SemCore::new(permits), id: Ghost(arbitrary()) }
    }

    /// The number of permits available.
    pub fn available_permits(&self) -> (r: usize)
        ensures
            r == self@.permits,
    {
        self.core.available_permits()
    }

    /// Adds `n` permits, and hands them to those who wait. Returns whom to wake.
    pub fn add_permits(&mut self, n: usize, pool: &mut QueuePool) -> (r: Vec<Wake>)
        requires
            old(self).wf(),
            old(self)@.permits + n <= MAX_PERMITS,
            old(pool)@.lends(old(self).structure()),
        ensures
            final(self).wf(),
            final(self).id() == old(self).id(),
            final(self)@ == old(self)@.released(n as nat),
            r@ == old(self)@.release_wakes(n as nat),
            final(self)@.total() == old(self)@.total() + n,
            old(self)@.keeps(final(self)@, None),
            returned(old(pool)@, old(self).structure(), final(pool)@, final(self).structure()),
    {
        self.core.release(n, pool)
    }

    /// Removes up to `n` permits; returns how many.
    pub fn forget_permits(&mut self, n: usize) -> (r: usize)
        requires
            old(self).wf(),
        ensures
            final(self).wf(),
            final(self).structure() == old(self).structure(),
            final(self).id() == old(self).id(),
            r == if old(self)@.permits < n {
                old(self)@.permits
            } else {
                n as nat
            },
            final(self)@ == (SemView { permits: (old(self)@.permits - r) as nat, ..old(self)@ }),
            final(self)@.total() == old(self)@.total() - r,
            old(self)@.keeps(final(self)@, None),
    {
        self.core.forget_permits(n)
    }

    /// Closes the semaphore: whoever waits fails, and so does whoever comes.
    /// Permits that are out can still be released. Returns whom to wake.
    pub fn close(&mut self, pool: &mut QueuePool) -> (r: Vec<Wake>)
        requires
            old(self).wf(),
            old(pool)@.lends(old(self).structure()),
        ensures
            final(self).wf(),
            final(self).id() == old(self).id(),
            final(self)@ == old(self)@.shut(),
            r@ == old(self)@.shut_wakes(),
            final(self)@.total() == old(self)@.total(),
            old(self)@.keeps(final(self)@, None),
            returned(old(pool)@, old(self).structure(), final(pool)@, final(self).structure()),
    {
        self.core.close(pool)
    }

    /// Whether the semaphore has been closed.
    pub fn is_closed(&self) -> (r: bool)
        ensures
            r == self@.closed,
    {
        self.core.is_closed()
    }

    /// Attempts to acquire one permit without waiting.
    pub fn try_acquire(&mut self) -> (r: Result<SemaphorePermit, TryAcquireError>)
        requires
            old(self).wf(),
        ensures
            final(self).wf(),
            final(self).structure() == old(self).structure(),
            final(self).id() == old(self).id(),
            old(self)@.try_spec(old(self).id(), 1, r, final(self)@),
            final(self)@.total() == if r is Ok {
                old(self)@.total() - 1
            } else {
                old(self)@.total() as int
            },
            old(self)@.keeps(final(self)@, None),
    {
        self.try_acquire_many(1)
    }

    /// Attempts to acquire `n` permits without waiting.
    pub fn try_acquire_many(&mut self, n: usize) -> (r: Result<SemaphorePermit, TryAcquireError>)
        requires
            old(self).wf(),
        ensures
            final(self).wf(),
            final(self).structure() == old(self).structure(),
            final(self).id() == old(self).id(),
            old(self)@.try_spec(old(self).id(), n, r, final(self)@),
            final(self)@.total() == if r is Ok {
                old(self)@.total() - n
            } else {
                old(self)@.total() as int
            },
            old(self)@.keeps(final(self)@, None),
    {
        match self.core.try_acquire(n) {
            Ok(()) => Ok(SemaphorePermit { permits: n, of: Ghost(self.id@) }),
            Err(e) => Err(e),
        }
    }

    /// Releases permits. Returns whom to wake.
    pub fn release(&mut self, permit: SemaphorePermit, pool: &mut QueuePool) -> (r: Vec<Wake>)
        requires
            old(self).wf(),
            permit.source() == old(self).id(),
            old(self)@.permits + permit.count() <= MAX_PERMITS,
            old(pool)@.lends(old(self).structure()),
        ensures
            final(self).wf(),
            final(self).id() == old(self).id(),
            final(self)@ == old(self)@.released(permit.count()),
            r@ == old(self)@.release_wakes(permit.count()),
            final(self)@.total() == old(self)@.total() + permit.count(),
            old(self)@.keeps(final(self)@, None),
            returned(old(pool)@, old(self).structure(), final(pool)@, final(self).structure()),
    {
        self.core.release(permit.permits, pool)
    }

    /// Starts a blocking acquisition of one permit.
    pub fn acquire_sync(&mut self, thread: usize, pool: &mut QueuePool) -> (r: AcquireStart)
        requires
            old(self).wf(),
            old(pool)@.serves(old(self).structure()),
        ensures
            final(self).wf(),
            final(self).id() == old(self).id(),
            old(self)@.start_spec(old(self).id(), 1, thread, r, final(self)@),
            final(self)@.total() == if r is Ready && r->Ready_0 is Ok {
                old(self)@.total() - 1
            } else {
                old(self)@.total() as int
            },
            r matches AcquireStart::Wait(wait) ==> final(self)@.sync_waits(
                wait.waiter().entry,
                wait.wants(),
            ),
            old(self)@.keeps(final(self)@, None),
            traded(old(pool)@, old(self).structure(), final(pool)@, final(self).structure()),
    {
        self.acquire_many_sync(1, thread, pool)
    }

    /// Starts a blocking acquisition of `n` permits.
    pub fn acquire_many_sync(
        &mut self,
        n: usize,
        thread: usize,
        pool: &mut QueuePool,
    ) -> (r: AcquireStart)
        requires
            old(self).wf(),
            old(self)@.closed || n <= MAX_PERMITS,
            old(pool)@.serves(old(self).structure()),
        ensures
            final(self).wf(),
            final(self).id() == old(self).id(),
            old(self)@.start_spec(old(self).id(), n, thread, r, final(self)@),
            final(self)@.total() == if r is Ready && r->Ready_0 is Ok {
                old(self)@.total() - n
            } else {
                old(self)@.total() as int
            },
            r matches AcquireStart::Wait(wait) ==> final(self)@.sync_waits(
                wait.waiter().entry,
                wait.wants(),
            ),
            old(self)@.keeps(final(self)@, None),
            traded(old(pool)@, old(self).structure(), final(pool)@, final(self).structure()),
    {
        match self.core.acquire_sync(n, thread, pool) {
            Acquire::Ready(Ok(())) => AcquireStart::Ready(
                Ok(SemaphorePermit { permits: n, of: Ghost(self.id@) }),
            ),
            Acquire::Ready(Err(e)) => AcquireStart::Ready(Err(e)),
            Acquire::Wait(waiter) => AcquireStart::Wait(SyncAcquire { waiter, permits: n }),
        }
    }

    /// One look of a thread that waits for permits.
    pub fn wait_step(
        &mut self,
        wait: &mut SyncAcquire,
        pool: &mut QueuePool,
    ) -> (r: AcquireProgress)
        requires
            old(self).wf(),
            old(self)@.sync_waits(old(wait).waiter().entry, old(wait).wants()),
            old(self)@.may_settle(old(wait).waiter().entry),
            old(pool)@.lends(old(self).structure()),
        ensures
            final(self).wf(),
            final(self).id() == old(self).id(),
            final(wait).wants() == old(wait).wants(),
            final(wait).waiter() == old(wait).waiter().after_step(
                old(self)@.node(old(wait).waiter().entry).value,
            ),
            old(self)@.progress_spec(
                old(self).id(),
                old(wait).wants(),
                old(wait).waiter(),
                r,
                final(self)@,
            ),
            final(self)@.total() == if r is Done && r->Done_0 is Ok {
                old(self)@.total() - old(wait).wants()
            } else {
                old(self)@.total() as int
            },
            r is Again ==> final(self)@.sync_waits(old(wait).waiter().entry, old(wait).wants()),
            old(self)@.keeps(final(self)@, Some(old(wait).waiter().entry)),
            returned(old(pool)@, old(self).structure(), final(pool)@, final(self).structure()),
    {
        let n: usize = wait.permits;
        match self.core.acquire_step(&mut wait.waiter, n, pool) {
            AcquireStep::Again(step) => AcquireProgress::Again(step),
            AcquireStep::Done(Ok(()), wakes) => AcquireProgress::Done(
                Ok(SemaphorePermit { permits: n, of: Ghost(self.id@) }),
                wakes,
            ),
            AcquireStep::Done(Err(e), wakes) => AcquireProgress::Done(Err(e), wakes),
        }
    }

    /// Makes a request for one permit.
    pub fn acquire(&mut self) -> (r: AsyncAcquireRequest)
        requires
            old(self).wf(),
        ensures
            final(self).wf(),
            final(self).structure() == old(self).structure(),
            final(self).id() == old(self).id(),
            r.wants() == 1,
            old(self)@.request_spec(r, final(self)@),
            old(self)@.keeps(final(self)@, None),
    {
        self.acquire_many(1)
    }

    /// Makes a request for `n` permits.
    pub fn acquire_many(&mut self, n: usize) -> (r: AsyncAcquireRequest)
        requires
            old(self).wf(),
        ensures
            final(self).wf(),
            final(self).structure() == old(self).structure(),
            final(self).id() == old(self).id(),
            r.wants() == n,
            old(self)@.request_spec(r, final(self)@),
            old(self)@.keeps(final(self)@, None),
    {
        let ghost before = self@;
        let entry: usize = self.core.prepare_async();
        proof {
            start_keeps_requests(before, entry, n, 0);
        }
        AsyncAcquireRequest { entry, permits: n }
    }

    /// How many permits are assigned to a request and not yet taken over.
    pub fn assigned(&self, request: &AsyncAcquireRequest) -> (r: usize)
        requires
            self.wf(),
            self@.asked(request.entry(), request.wants()),
        ensures
            r == self@.node(request.entry()).granted,
    {
        self.core.assigned(request.entry, request.permits)
    }

    /// Whether a poll of a request leaves no more permits in stock than a
    /// semaphore can hold.
    pub fn can_settle(&self, request: &AsyncAcquireRequest) -> (r: bool)
        requires
            self.wf(),
            self@.asked(request.entry(), request.wants()),
        ensures
            r == self@.may_settle(request.entry()),
    {
        can_settle(&self.core, request.entry, request.permits)
    }

    /// The same of the next step of a thread that waits.
    pub fn can_settle_sync(&self, wait: &SyncAcquire) -> (r: bool)
        requires
            self.wf(),
            self@.asked(wait.waiter().entry, wait.wants()),
        ensures
            r == self@.may_settle(wait.waiter().entry),
    {
        can_settle(&self.core, wait.waiter.entry(), wait.permits)
    }

    /// Polls a request. Returns whom to wake, too.
    pub fn poll(
        &mut self,
        request: &AsyncAcquireRequest,
        waker: usize,
        pool: &mut QueuePool,
    ) -> (r: (
        Poll<Result<SemaphorePermit, AcquireError>>,
        Vec<Wake>,
    ))
        requires
            old(self).wf(),
            old(self)@.pollable(request.entry(), request.wants()),
            old(self)@.closed || request.wants() <= MAX_PERMITS,
            old(self)@.may_settle(request.entry()),
            old(pool)@.serves(old(self).structure()),
        ensures
            final(self).wf(),
            final(self).id() == old(self).id(),
            final(self)@ == old(self)@.polled(request.entry(), request.wants(), waker),
            r.1@ == old(self)@.poll_wakes(request.entry()),
            match old(self)@.poll_result(request.entry(), request.wants()) {
                Poll::Pending => r.0 is Pending,
                Poll::Ready(Ok(())) => r.0 is Ready && r.0->0 is Ok && r.0->0->Ok_0.count()
                    == request.wants() && r.0->0->Ok_0.source() == old(self).id(),
                Poll::Ready(Err(e)) => r.0 == Poll::Ready(
                    Err::<SemaphorePermit, AcquireError>(e),
                ),
            },
            final(self)@.total() == if r.0 is Ready && r.0->0 is Ok {
                old(self)@.total() - request.wants()
            } else {
                old(self)@.total() as int
            },
            r.0 is Pending ==> final(self)@.pollable(request.entry(), request.wants()),
            final(self)@.droppable(request.entry(), request.wants()),
            old(self)@.keeps(final(self)@, Some(request.entry())),
            traded(old(pool)@, old(self).structure(), final(pool)@, final(self).structure()),
    {
        let (result, wakes) = self.core.poll_acquire(request.entry, request.permits, waker, pool);
        match result {
            Poll::Pending => (Poll::Pending, wakes),
            Poll::Ready(Ok(())) => (
                Poll::Ready(Ok(SemaphorePermit { permits: request.permits, of: Ghost(self.id@) })),
                wakes,
            ),
            Poll::Ready(Err(e)) => (Poll::Ready(Err(e)), wakes),
        }
    }

    /// Drops a request, in whatever state it is: it leaves the line, and what
    /// was assigned to it goes back.
    pub fn drop_request(
        &mut self,
        request: &AsyncAcquireRequest,
        pool: &mut QueuePool,
    ) -> (r: Withdrawn)
        requires
            old(self).wf(),
            old(self)@.droppable(request.entry(), request.wants()),
            !old(self)@.w().popped.contains(request.entry()) ==> old(self)@.permits + old(
                self)@.node(request.entry()).granted <= MAX_PERMITS,
            old(pool)@.lends(old(self).structure()),
        ensures
            final(self).wf(),
            final(self).id() == old(self).id(),
            (r is InFlight) == old(self)@.w().popped.contains(request.entry()),
            final(self)@ == old(self)@.dropped(request.entry()),
            r matches Withdrawn::Done(wakes) ==> wakes@ == old(self)@.drop_wakes(request.entry()),
            final(self)@.total() == old(self)@.total(),
            r is InFlight ==> final(self)@.droppable(request.entry(), request.wants()),
            old(self)@.keeps(final(self)@, Some(request.entry())),
            returned(old(pool)@, old(self).structure(), final(pool)@, final(self).structure()),
    {
        self.core.drop_acquire(request.entry, request.permits, pool)
    }

    /// The same semaphore as a semaphore for threads.
    pub fn to_sync(self) -> (r: Semaphore)
        ensures
            r.structure() == self.structure(),
            r@ == self@,
            r.inv() == self.inv(),
            r.id() == self.id(),
    {
        Semaphore { core: self.core, id: self.id }
    }
}

} // verus!
