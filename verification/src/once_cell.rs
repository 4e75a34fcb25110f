//! Cells that are initialized once, for threads ([`OnceCell`]) and for tasks
//! ([`AsyncOnceCell`]). Both are the same underneath and turn into each other.
use vstd::prelude::*;

use crate::once_core::{OnceCellInternal, OnceView, Phase};
use crate::once_ops::{drop_initializer_keeps_requests, GetOrInit, OnceStep, SetError, Step};
use crate::pool::{returned, traded, QueuePool};
use crate::signal::{Poll, SignalView, Wake, Withdrawn, SIGNAL_RETRY, SIGNAL_SIGNALED};
use crate::sync_wait::{after_sync_step, SyncWaiter};

verus! {

/// A task's request for the value, with an initializer that may fail.
#[derive(Debug)]
pub struct AsyncGetOrTryInit {
    entry: usize,
    initializing: bool,
}

impl AsyncGetOrTryInit {
    /// The node that the task waits on.
    pub closed spec fn entry(&self) -> usize {
        self.entry
    }

    /// The task has the role of the initializer.
    pub closed spec fn initializing(&self) -> bool {
        self.initializing
    }

    /// Whether the task has the role of the initializer.
    pub fn is_initializing(&self) -> (r: bool)
        ensures
            r == self.initializing(),
    {
        self.initializing
    }
}

/// A task's request for the value, with an initializer that does not fail.
#[derive(Debug)]
pub struct AsyncGetOrInit {
    /// The request.
    pub request: AsyncGetOrTryInit,
}

/// A request that has the role, or may be polled.
pub open spec fn valid_request<T>(v: OnceView<T>, request: &AsyncGetOrTryInit) -> bool {
    if request.initializing() {
        v.phase is Running && v.finished(request.entry())
    } else {
        v.droppable(request.entry())
    }
}

/// A cell for threads that is initialized once.
pub struct OnceCell<T> {
    internal: OnceCellInternal<T>,
}

impl<T> View for OnceCell<T> {
    type V = OnceView<T>;

    closed spec fn view(&self) -> OnceView<T> {
        self.internal@
    }
}

impl<T> OnceCell<T> {
    /// The representation behind the view.
    pub closed spec fn inv(&self) -> bool {
        self.internal.inv()
    }

    /// The address of the structure that the line stands in.
    pub closed spec fn structure(&self) -> Option<usize> {
        self.internal.structure()
    }

    /// There is a structure exactly while somebody waits.
    pub proof fn lemma_structure(&self)
        requires
            self.wf(),
        ensures
            (self.structure() is Some) == (self@.line().len() > 0),
    {
        self.internal.lemma_structure();
    }

    /// Well-formedness, kept by every method.
    pub open spec fn wf(&self) -> bool {
        self@.ok() && self@.settled() && self.inv()
    }

    /// An empty cell.
    pub fn new() -> (r: Self)
        ensures
            r.wf(),
            r.structure() is None,
            r@ == OnceView::<T>::fresh(None),
    {
        Self::new_with(None)
    }

    /// A cell that holds `value`, or an empty one.
    pub fn new_with(value: Option<T>) -> (r: Self)
        ensures
            r.wf(),
            r.structure() is None,
            r@ == OnceView::fresh(value),
    {
        OnceCell { internal: OnceCellInternal::new_with(value) }
    }

    /// The value, if it is there.
    pub fn get(&self) -> (r: Option<&T>)
        requires
            self.wf(),
        ensures
            (r is Some) == (self@.phase is Ready),
            r matches Some(v) ==> self@.value == Some(*v),
    {
        self.internal.get()
    }

    /// The value, to change, if it is there.
    pub fn get_mut(&mut self) -> (r: Option<&mut T>)
        requires
            old(self).wf(),
        ensures
            final(self).structure() == old(self).structure(),
            (r is Some) == (old(self)@.phase is Ready),
            match r {
                Some(v) => old(self)@.value == Some(*v) && final(self)@ == (OnceView {
                    value: Some(*final(v)),
                    ..old(self)@
                }),
                None => final(self)@ == old(self)@,
            },
            final(self).inv(),
    {
        self.internal.get_mut()
    }

    /// Whether the value is there.
    pub fn initialized(&self) -> (r: bool)
        ensures
            r == (self@.phase is Ready),
    {
        self.internal.is_ready()
    }

    /// Stores `value` if the cell is empty and nobody is initializing it.
    /// Returns whom to wake.
    pub fn set(&mut self, value: T, pool: &mut QueuePool) -> (r: Result<Vec<Wake>, SetError<T>>)
        requires
            old(self).wf(),
            old(pool)@.lends(old(self).structure()),
        ensures
            final(self).wf(),
            match old(self)@.phase {
                Phase::Empty => r is Ok && r->Ok_0@ == old(self)@.complete_wakes() && final(self)@
                    == old(self)@.completed(value),
                Phase::Ready => r == Err::<Vec<Wake>, SetError<T>>(
                    SetError::AlreadyInitializedError(value),
                ) && final(self)@ == old(self)@,
                Phase::Running => r == Err::<Vec<Wake>, SetError<T>>(
                    SetError::InitializingError(value),
                ) && final(self)@ == old(self)@,
            },
            old(self)@.keeps(final(self)@, None),
            returned(old(pool)@, old(self).structure(), final(pool)@, final(self).structure()),
    {
        self.internal.set(value, pool)
    }

    /// Takes the value out, if it is there, leaving an empty cell. Nobody else
    /// is using the cell.
    pub fn take(&mut self) -> (r: Option<T>)
        requires
            old(self).wf(),
            forall|id: usize| !#[trigger] old(self)@.w().live(id),
        ensures
            final(self).wf(),
            final(self).structure() == old(self).structure(),
            r == old(self)@.value,
            final(self)@ == if r is Some {
                OnceView { phase: Phase::Empty, value: None, ..old(self)@ }
            } else {
                old(self)@
            },
    {
        self.internal.take()
    }

    /// Takes the cell apart.
    pub fn into_inner(self) -> (r: Option<T>)
        requires
            self.wf(),
            forall|id: usize| !#[trigger] self@.w().live(id),
        ensures
            r == self@.value,
    {
        let mut cell = self;
        cell.take()
    }

    /// One go of getting the value: it is there, or `f` makes it, or the thread
    /// has to wait for another initializer. If `f` unwinds, the cell is as empty
    /// as it was. A caller that lets others at the cell while its initializer
    /// runs uses `try_begin_init`, `complete` and `abort` instead.
    pub fn get_or_init<F: FnOnce() -> T>(
        &mut self,
        f: F,
        thread: usize,
        pool: &mut QueuePool,
    ) -> (r: Result<
        Vec<Wake>,
        (F, SyncWaiter),
    >)
        requires
            old(self).wf(),
            f.requires(()),
            old(pool)@.serves(old(self).structure()),
        ensures
            final(self).wf(),
            match old(self)@.phase {
                Phase::Ready => r is Ok && r->Ok_0@.len() == 0 && final(self)@ == old(self)@,
                Phase::Empty => r is Ok && final(self)@.value is Some && f.ensures(
                    (),
                    final(self)@.value->0,
                ) && final(self)@ == old(self)@.completed(final(self)@.value->0) && r->Ok_0@
                    == old(self)@.complete_wakes(),
                Phase::Running => r matches Err(kept) && kept.0 == f && kept.1@.stage is Arming
                    && kept.1@.spins == 0 && old(self)@.w().vacant(kept.1@.entry) && final(self)@
                    == old(self)@.with_new(
                    kept.1@.entry,
                    SignalView::fresh_sync(thread),
                ).enqueued(kept.1@.entry),
            },
            r matches Err(kept) ==> final(self)@.sync_waits(kept.1@.entry),
            old(self)@.keeps(final(self)@, None),
            traded(old(pool)@, old(self).structure(), final(pool)@, final(self).structure()),
    {
        self.internal.get_or_init_sync(f, thread, pool)
    }

    /// The same with an initializer that may fail; the first in line is then
    /// offered to take over.
    pub fn get_or_try_init<E, F: FnOnce() -> Result<T, E>>(
        &mut self,
        f: F,
        thread: usize,
        pool: &mut QueuePool,
    ) -> (r:
        GetOrInit<F, E>)
        requires
            old(self).wf(),
            f.requires(()),
            old(pool)@.serves(old(self).structure()),
        ensures
            final(self).wf(),
            match old(self)@.phase {
                Phase::Ready => r is Ready && r->Ready_0@.len() == 0 && final(self)@ == old(self)@,
                Phase::Empty => match r {
                    GetOrInit::Ready(wakes) => final(self)@.value is Some && f.ensures(
                        (),
                        Ok(final(self)@.value->0),
                    ) && final(self)@ == old(self)@.completed(final(self)@.value->0) && wakes@
                        == old(self)@.complete_wakes(),
                    GetOrInit::Failed(e, wakes) => f.ensures((), Err(e)) && final(self)@
                        == old(self)@.aborted() && wakes@ == old(self)@.offer_wakes(),
                    GetOrInit::Wait(_, _) => false,
                },
                Phase::Running => r matches GetOrInit::Wait(kept, waiter) && kept == f
                    && waiter@.stage is Arming && waiter@.spins == 0 && old(self)@.w().vacant(
                    waiter@.entry,
                ) && final(self)@ == old(self)@.with_new(
                    waiter@.entry,
                    SignalView::fresh_sync(thread),
                ).enqueued(waiter@.entry),
            },
            r matches GetOrInit::Wait(_, waiter) ==> final(self)@.sync_waits(waiter@.entry),
            old(self)@.keeps(final(self)@, None),
            traded(old(pool)@, old(self).structure(), final(pool)@, final(self).structure()),
    {
        self.internal.get_or_try_init_sync(f, thread, pool)
    }

    /// Queues a thread up while an initializer is running.
    pub fn queue_up(&mut self, thread: usize, pool: &mut QueuePool) -> (r: SyncWaiter)
        requires
            old(self).wf(),
            old(self)@.phase is Running,
            old(pool)@.serves(old(self).structure()),
        ensures
            final(self).wf(),
            r@.stage is Arming,
            r@.spins == 0,
            old(self)@.w().vacant(r@.entry),
            final(self)@ == old(self)@.with_new(r@.entry, SignalView::fresh_sync(thread)).enqueued(
                r@.entry,
            ),
            final(self)@.sync_waits(r@.entry),
            old(self)@.keeps(final(self)@, None),
            traded(old(pool)@, old(self).structure(), final(pool)@, final(self).structure()),
    {
        self.internal.queue_up(thread, pool)
    }

    /// One look of a thread that waits for the value. One that was offered the
    /// role of the initializer takes it if the cell is empty.
    pub fn wait_step(&mut self, waiter: &mut SyncWaiter) -> (r: OnceStep)
        requires
            old(self).wf(),
            old(self)@.sync_waits(old(waiter)@.entry),
        ensures
            final(self).wf(),
            final(self).structure() == old(self).structure(),
            final(waiter)@ == old(waiter)@.after_step(old(self)@.node(old(waiter)@.entry).value),
            match old(self)@.node(old(waiter)@.entry).value {
                SIGNAL_SIGNALED => r == OnceStep::Done(Step::ValueReady) && final(self)@
                    == old(self)@.with_node(old(waiter)@.entry, SignalView::dead()),
                SIGNAL_RETRY => r == match old(self)@.phase {
                    Phase::Ready => OnceStep::Done(Step::ValueReady),
                    Phase::Empty => OnceStep::Done(Step::Initializing),
                    Phase::Running => OnceStep::Restart,
                } && final(self)@ == (OnceView {
                    phase: if old(self)@.phase is Empty {
                        Phase::Running
                    } else {
                        old(self)@.phase
                    },
                    heirs: old(self)@.heirs.remove(old(waiter)@.entry),
                    ..old(self)@.with_node(old(waiter)@.entry, SignalView::dead())
                }),
                _ => r == OnceStep::Again(
                    old(waiter)@.step(old(self)@.node(old(waiter)@.entry).value),
                ) && final(self)@ == (OnceView {
                    queue: after_sync_step(old(self)@.queue, old(waiter)@),
                    ..old(self)@
                }),
            },
            r is Again ==> final(self)@.sync_waits(old(waiter)@.entry),
            old(self)@.keeps(final(self)@, Some(old(waiter)@.entry)),
    {
        self.internal.wait_step(waiter)
    }

    /// Takes the role of the initializer, if the cell is empty.
    pub fn try_begin_init(&mut self) -> (r: Result<(), Phase>)
        requires
            old(self).wf(),
        ensures
            final(self).wf(),
            final(self).structure() == old(self).structure(),
            r == if old(self)@.phase is Empty {
                Ok(())
            } else {
                Err(old(self)@.phase)
            },
            final(self)@ == if r is Ok {
                OnceView { phase: Phase::Running, ..old(self)@ }
            } else {
                old(self)@
            },
            old(self)@.keeps(final(self)@, None),
    {
        self.internal.try_begin_init()
    }

    /// Stores the initializer's value. Returns whom to wake.
    pub fn complete(&mut self, value: T, pool: &mut QueuePool) -> (r: Vec<Wake>)
        requires
            old(self).wf(),
            old(self)@.phase is Running,
            old(pool)@.lends(old(self).structure()),
        ensures
            final(self).wf(),
            final(self)@ == old(self)@.completed(value),
            r@ == old(self)@.complete_wakes(),
            old(self)@.keeps(final(self)@, None),
            returned(old(pool)@, old(self).structure(), final(pool)@, final(self).structure()),
    {
        self.internal.write_and_complete(value, pool)
    }

    /// Gives the role up after a failed or cancelled initialization. Returns
    /// whom to wake.
    pub fn abort(&mut self, pool: &mut QueuePool) -> (r: Vec<Wake>)
        requires
            old(self).wf(),
            old(self)@.phase is Running,
            old(pool)@.lends(old(self).structure()),
        ensures
            final(self).wf(),
            final(self)@ == old(self)@.aborted(),
            r@ == old(self)@.offer_wakes(),
            old(self)@.keeps(final(self)@, None),
            returned(old(pool)@, old(self).structure(), final(pool)@, final(self).structure()),
    {
        self.internal.abort(pool)
    }

    /// Makes a task's request for the value.
    pub fn get_or_init_async(&mut self) -> (r: AsyncGetOrInit)
        requires
            old(self).wf(),
        ensures
            final(self).wf(),
            final(self).structure() == old(self).structure(),
            !r.request.initializing(),
            old(self)@.w().vacant(r.request.entry()),
            final(self)@ == old(self)@.with_new(r.request.entry(), SignalView::fresh_none()),
            final(self)@.pollable(r.request.entry()),
            old(self)@.keeps(final(self)@, None),
    {
        AsyncGetOrInit { request: self.get_or_try_init_async() }
    }

    /// The same, with an initializer that may fail.
    pub fn get_or_try_init_async(&mut self) -> (r: AsyncGetOrTryInit)
        requires
            old(self).wf(),
        ensures
            final(self).wf(),
            final(self).structure() == old(self).structure(),
            !r.initializing(),
            old(self)@.w().vacant(r.entry()),
            final(self)@ == old(self)@.with_new(r.entry(), SignalView::fresh_none()),
            final(self)@.pollable(r.entry()),
            old(self)@.keeps(final(self)@, None),
    {
        AsyncGetOrTryInit { entry: self.internal.prepare_async(), initializing: false }
    }

    /// Polls a request that does not have the role. If it gets the role, the
    /// task has to run its initializer, and then complete or abort.
    pub fn poll_wait(
        &mut self,
        request: &mut AsyncGetOrTryInit,
        waker: usize,
        pool: &mut QueuePool,
    ) -> (r: Poll<Step>)
        requires
            old(self).wf(),
            !old(request).initializing(),
            old(self)@.pollable(old(request).entry()),
            old(pool)@.serves(old(self).structure()),
        ensures
            final(self).wf(),
            final(request).entry() == old(request).entry(),
            final(request).initializing() == (r == Poll::Ready(Step::Initializing)),
            r == old(self)@.poll_result(old(request).entry()),
            final(self)@ == old(self)@.polled(old(request).entry(), waker),
            r is Pending ==> final(self)@.pollable(old(request).entry()),
            valid_request(final(self)@, final(request)),
            old(self)@.keeps(final(self)@, Some(old(request).entry())),
            traded(old(pool)@, old(self).structure(), final(pool)@, final(self).structure()),
    {
        let r = self.internal.poll_wait(request.entry, waker, pool);
        if let Poll::Ready(Step::Initializing) = r {
            request.initializing = true;
        }
        r
    }

    /// Stores the value that a request's initializer made. Returns whom to
    /// wake.
    pub fn finish(
        &mut self,
        request: &mut AsyncGetOrTryInit,
        value: T,
        pool: &mut QueuePool,
    ) -> (r: Vec<Wake>)
        requires
            old(self).wf(),
            old(request).initializing(),
            valid_request(old(self)@, old(request)),
            old(pool)@.lends(old(self).structure()),
        ensures
            final(self).wf(),
            final(request).entry() == old(request).entry(),
            !final(request).initializing(),
            final(self)@ == old(self)@.completed(value),
            r@ == old(self)@.complete_wakes(),
            valid_request(final(self)@, final(request)),
            old(self)@.keeps(final(self)@, None),
            returned(old(pool)@, old(self).structure(), final(pool)@, final(self).structure()),
    {
        request.initializing = false;
        self.internal.write_and_complete(value, pool)
    }

    /// Ends a request whose initializer failed. Returns whom to wake.
    pub fn fail(&mut self, request: &mut AsyncGetOrTryInit, pool: &mut QueuePool) -> (r: Vec<Wake>)
        requires
            old(self).wf(),
            old(request).initializing(),
            valid_request(old(self)@, old(request)),
            old(pool)@.lends(old(self).structure()),
        ensures
            final(self).wf(),
            final(request).entry() == old(request).entry(),
            !final(request).initializing(),
            final(self)@ == old(self)@.aborted(),
            r@ == old(self)@.offer_wakes(),
            valid_request(final(self)@, final(request)),
            old(self)@.keeps(final(self)@, None),
            returned(old(pool)@, old(self).structure(), final(pool)@, final(self).structure()),
    {
        request.initializing = false;
        self.internal.abort(pool)
    }

    /// Drops a request, in whatever state it is. One that has the role gives it
    /// up, and an heir passes the offer on.
    pub fn drop_request(
        &mut self,
        request: &AsyncGetOrTryInit,
        pool: &mut QueuePool,
    ) -> (r: Withdrawn)
        requires
            old(self).wf(),
            valid_request(old(self)@, request),
            old(pool)@.lends(old(self).structure()),
        ensures
            final(self).wf(),
            (r is InFlight) == old(self)@.w().popped.contains(request.entry()),
            final(self)@ == if request.initializing() {
                old(self)@.aborted().with_node(request.entry(), SignalView::dead())
            } else {
                old(self)@.dropped(request.entry())
            },
            r matches Withdrawn::Done(wakes) ==> wakes@ == if request.initializing() {
                old(self)@.offer_wakes()
            } else if old(self)@.node(request.entry()).value == SIGNAL_RETRY {
                old(self)@.with_node(request.entry(), SignalView::dead()).offer_wakes()
            } else {
                Seq::<Wake>::empty()
            },
            r is InFlight ==> valid_request(final(self)@, request),
            old(self)@.keeps(final(self)@, Some(request.entry())),
            returned(old(pool)@, old(self).structure(), final(pool)@, final(self).structure()),
    {
        if branches::unlikely(request.initializing) {
            let ghost before = self@;
            let wakes = self.internal.abort(pool);
            proof {
                drop_initializer_keeps_requests(before, request.entry);
                if before.line().len() > 0 {
                    assert(before.line().contains(before.line()[0]));
                    assert forall|i: int| 0 <= i < self@.line().len() implies #[trigger] self@.line()[i]
                        == before.line()[i + 1] by {}
                    assert(before.line().take(1)[0] == before.line()[0]);
                }
            }
            self.internal.discard(request.entry);
            return Withdrawn::Done(wakes);
        }
        self.internal.drop_request(request.entry, pool)
    }

    /// The same cell for tasks.
    pub fn to_async(self) -> (r: AsyncOnceCell<T>)
        ensures
            r.structure() == self.structure(),
            r@ == self@,
            r.inv() == self.inv(),
    {
        AsyncOnceCell { internal: self.internal }
    }
}

impl<T> Default for OnceCell<T> {
    fn default() -> (r: Self)
        ensures
            r.wf(),
            r.structure() is None,
            r@ == OnceView::<T>::fresh(None),
    {
        OnceCell::new()
    }
}

impl<T> From<T> for OnceCell<T> {
    /// A cell that holds `value`.
    fn from(value: T) -> (r: Self)
        ensures
            r.wf(),
            r.structure() is None,
            r@ == OnceView::fresh(Some(value)),
    {
        Self::new_with(Some(value))
    }
}

/// A cell that is made from a value is known by its view.
impl<T> vstd::std_specs::convert::FromSpecImpl<T> for OnceCell<T> {
    open spec fn obeys_from_spec() -> bool {
        false
    }

    open spec fn from_spec(value: T) -> Self {
        arbitrary()
    }
}

/// A cell for tasks that is initialized once.
pub struct AsyncOnceCell<T> {
    internal: OnceCellInternal<T>,
}

impl<T> View for AsyncOnceCell<T> {
    type V = OnceView<T>;

    closed spec fn view(&self) -> OnceView<T> {
        self.internal@
    }
}

impl<T> AsyncOnceCell<T> {
    /// The representation behind the view.
    pub closed spec fn inv(&self) -> bool {
        self.internal.inv()
    }

    /// The address of the structure that the line stands in.
    pub closed spec fn structure(&self) -> Option<usize> {
        self.internal.structure()
    }

    /// There is a structure exactly while somebody waits.
    pub proof fn lemma_structure(&self)
        requires
            self.wf(),
        ensures
            (self.structure() is Some) == (self@.line().len() > 0),
    {
        self.internal.lemma_structure();
    }

    /// Well-formedness, kept by every method.
    pub open spec fn wf(&self) -> bool {
        self@.ok() && self@.settled() && self.inv()
    }

    /// An empty cell.
    pub fn new() -> (r: Self)
        ensures
            r.wf(),
            r.structure() is None,
            r@ == OnceView::<T>::fresh(None),
    {
        Self::new_with(None)
    }

    /// A cell that holds `value`, or an empty one.
    pub fn new_with(value: Option<T>) -> (r: Self)
        ensures
            r.wf(),
            r.structure() is None,
            r@ == OnceView::fresh(value),
    {
        AsyncOnceCell { internal: OnceCellInternal::new_with(value) }
    }

    /// The value, if it is there.
    pub fn get(&self) -> (r: Option<&T>)
        requires
            self.wf(),
        ensures
            (r is Some) == (self@.phase is Ready),
            r matches Some(v) ==> self@.value == Some(*v),
    {
        self.internal.get()
    }

    /// The value, to change, if it is there.
    pub fn get_mut(&mut self) -> (r: Option<&mut T>)
        requires
            old(self).wf(),
        ensures
            final(self).structure() == old(self).structure(),
            (r is Some) == (old(self)@.phase is Ready),
            match r {
                Some(v) => old(self)@.value == Some(*v) && final(self)@ == (OnceView {
                    value: Some(*final(v)),
                    ..old(self)@
                }),
                None => final(self)@ == old(self)@,
            },
            final(self).inv(),
    {
        self.internal.get_mut()
    }

    /// Whether the value is there.
    pub fn initialized(&self) -> (r: bool)
        ensures
            r == (self@.phase is Ready),
    {
        self.internal.is_ready()
    }

    /// Stores `value` if the cell is empty and nobody is initializing it.
    /// Returns whom to wake.
    pub fn set(&mut self, value: T, pool: &mut QueuePool) -> (r: Result<Vec<Wake>, SetError<T>>)
        requires
            old(self).wf(),
            old(pool)@.lends(old(self).structure()),
        ensures
            final(self).wf(),
            match old(self)@.phase {
                Phase::Empty => r is Ok && r->Ok_0@ == old(self)@.complete_wakes() && final(self)@
                    == old(self)@.completed(value),
                Phase::Ready => r == Err::<Vec<Wake>, SetError<T>>(
                    SetError::AlreadyInitializedError(value),
                ) && final(self)@ == old(self)@,
                Phase::Running => r == Err::<Vec<Wake>, SetError<T>>(
                    SetError::InitializingError(value),
                ) && final(self)@ == old(self)@,
            },
            old(self)@.keeps(final(self)@, None),
            returned(old(pool)@, old(self).structure(), final(pool)@, final(self).structure()),
    {
        self.internal.set(value, pool)
    }

    /// Takes the value out, if it is there, leaving an empty cell. Nobody else
    /// is using the cell.
    pub fn take(&mut self) -> (r: Option<T>)
        requires
            old(self).wf(),
            forall|id: usize| !#[trigger] old(self)@.w().live(id),
        ensures
            final(self).wf(),
            final(self).structure() == old(self).structure(),
            r == old(self)@.value,
            final(self)@ == if r is Some {
                OnceView { phase: Phase::Empty, value: None, ..old(self)@ }
            } else {
                old(self)@
            },
    {
        self.internal.take()
    }

    /// Takes the cell apart.
    pub fn into_inner(self) -> (r: Option<T>)
        requires
            self.wf(),
            forall|id: usize| !#[trigger] self@.w().live(id),
        ensures
            r == self@.value,
    {
        let mut cell = self;
        cell.take()
    }

    /// One go of getting the value: it is there, or `f` makes it, or the thread
    /// has to wait for another initializer. If `f` unwinds, the cell is as empty
    /// as it was. A caller that lets others at the cell while its initializer
    /// runs uses `try_begin_init`, `complete` and `abort` instead.
    pub fn get_or_init_sync<F: FnOnce() -> T>(
        &mut self,
        f: F,
        thread: usize,
        pool: &mut QueuePool,
    ) -> (r: Result<
        Vec<Wake>,
        (F, SyncWaiter),
    >)
        requires
            old(self).wf(),
            f.requires(()),
            old(pool)@.serves(old(self).structure()),
        ensures
            final(self).wf(),
            match old(self)@.phase {
                Phase::Ready => r is Ok && r->Ok_0@.len() == 0 && final(self)@ == old(self)@,
                Phase::Empty => r is Ok && final(self)@.value is Some && f.ensures(
                    (),
                    final(self)@.value->0,
                ) && final(self)@ == old(self)@.completed(final(self)@.value->0) && r->Ok_0@
                    == old(self)@.complete_wakes(),
                Phase::Running => r matches Err(kept) && kept.0 == f && kept.1@.stage is Arming
                    && kept.1@.spins == 0 && old(self)@.w().vacant(kept.1@.entry) && final(self)@
                    == old(self)@.with_new(
                    kept.1@.entry,
                    SignalView::fresh_sync(thread),
                ).enqueued(kept.1@.entry),
            },
            r matches Err(kept) ==> final(self)@.sync_waits(kept.1@.entry),
            old(self)@.keeps(final(self)@, None),
            traded(old(pool)@, old(self).structure(), final(pool)@, final(self).structure()),
    {
        self.internal.get_or_init_sync(f, thread, pool)
    }

    /// The same with an initializer that may fail; the first in line is then
    /// offered to take over.
    pub fn get_or_try_init_sync<E, F: FnOnce() -> Result<T, E>>(
        &mut self,
        f: F,
        thread: usize,
        pool: &mut QueuePool,
    ) -> (r:
        GetOrInit<F, E>)
        requires
            old(self).wf(),
            f.requires(()),
            old(pool)@.serves(old(self).structure()),
        ensures
            final(self).wf(),
            match old(self)@.phase {
                Phase::Ready => r is Ready && r->Ready_0@.len() == 0 && final(self)@ == old(self)@,
                Phase::Empty => match r {
                    GetOrInit::Ready(wakes) => final(self)@.value is Some && f.ensures(
                        (),
                        Ok(final(self)@.value->0),
                    ) && final(self)@ == old(self)@.completed(final(self)@.value->0) && wakes@
                        == old(self)@.complete_wakes(),
                    GetOrInit::Failed(e, wakes) => f.ensures((), Err(e)) && final(self)@
                        == old(self)@.aborted() && wakes@ == old(self)@.offer_wakes(),
                    GetOrInit::Wait(_, _) => false,
                },
                Phase::Running => r matches GetOrInit::Wait(kept, waiter) && kept == f
                    && waiter@.stage is Arming && waiter@.spins == 0 && old(self)@.w().vacant(
                    waiter@.entry,
                ) && final(self)@ == old(self)@.with_new(
                    waiter@.entry,
                    SignalView::fresh_sync(thread),
                ).enqueued(waiter@.entry),
            },
            r matches GetOrInit::Wait(_, waiter) ==> final(self)@.sync_waits(waiter@.entry),
            old(self)@.keeps(final(self)@, None),
            traded(old(pool)@, old(self).structure(), final(pool)@, final(self).structure()),
    {
        self.internal.get_or_try_init_sync(f, thread, pool)
    }

    /// Queues a thread up while an initializer is running.
    pub fn queue_up(&mut self, thread: usize, pool: &mut QueuePool) -> (r: SyncWaiter)
        requires
            old(self).wf(),
            old(self)@.phase is Running,
            old(pool)@.serves(old(self).structure()),
        ensures
            final(self).wf(),
            r@.stage is Arming,
            r@.spins == 0,
            old(self)@.w().vacant(r@.entry),
            final(self)@ == old(self)@.with_new(r@.entry, SignalView::fresh_sync(thread)).enqueued(
                r@.entry,
            ),
            final(self)@.sync_waits(r@.entry),
            old(self)@.keeps(final(self)@, None),
            traded(old(pool)@, old(self).structure(), final(pool)@, final(self).structure()),
    {
        self.internal.queue_up(thread, pool)
    }

    /// One look of a thread that waits for the value. One that was offered the
    /// role of the initializer takes it if the cell is empty.
    pub fn wait_step(&mut self, waiter: &mut SyncWaiter) -> (r: OnceStep)
        requires
            old(self).wf(),
            old(self)@.sync_waits(old(waiter)@.entry),
        ensures
            final(self).wf(),
            final(self).structure() == old(self).structure(),
            final(waiter)@ == old(waiter)@.after_step(old(self)@.node(old(waiter)@.entry).value),
            match old(self)@.node(old(waiter)@.entry).value {
                SIGNAL_SIGNALED => r == OnceStep::Done(Step::ValueReady) && final(self)@
                    == old(self)@.with_node(old(waiter)@.entry, SignalView::dead()),
                SIGNAL_RETRY => r == match old(self)@.phase {
                    Phase::Ready => OnceStep::Done(Step::ValueReady),
                    Phase::Empty => OnceStep::Done(Step::Initializing),
                    Phase::Running => OnceStep::Restart,
                } && final(self)@ == (OnceView {
                    phase: if old(self)@.phase is Empty {
                        Phase::Running
                    } else {
                        old(self)@.phase
                    },
                    heirs: old(self)@.heirs.remove(old(waiter)@.entry),
                    ..old(self)@.with_node(old(waiter)@.entry, SignalView::dead())
                }),
                _ => r == OnceStep::Again(
                    old(waiter)@.step(old(self)@.node(old(waiter)@.entry).value),
                ) && final(self)@ == (OnceView {
                    queue: after_sync_step(old(self)@.queue, old(waiter)@),
                    ..old(self)@
                }),
            },
            r is Again ==> final(self)@.sync_waits(old(waiter)@.entry),
            old(self)@.keeps(final(self)@, Some(old(waiter)@.entry)),
    {
        self.internal.wait_step(waiter)
    }

    /// Takes the role of the initializer, if the cell is empty.
    pub fn try_begin_init(&mut self) -> (r: Result<(), Phase>)
        requires
            old(self).wf(),
        ensures
            final(self).wf(),
            final(self).structure() == old(self).structure(),
            r == if old(self)@.phase is Empty {
                Ok(())
            } else {
                Err(old(self)@.phase)
            },
            final(self)@ == if r is Ok {
                OnceView { phase: Phase::Running, ..old(self)@ }
            } else {
                old(self)@
            },
            old(self)@.keeps(final(self)@, None),
    {
        self.internal.try_begin_init()
    }

    /// Stores the initializer's value. Returns whom to wake.
    pub fn complete(&mut self, value: T, pool: &mut QueuePool) -> (r: Vec<Wake>)
        requires
            old(self).wf(),
            old(self)@.phase is Running,
            old(pool)@.lends(old(self).structure()),
        ensures
            final(self).wf(),
            final(self)@ == old(self)@.completed(value),
            r@ == old(self)@.complete_wakes(),
            old(self)@.keeps(final(self)@, None),
            returned(old(pool)@, old(self).structure(), final(pool)@, final(self).structure()),
    {
        self.internal.write_and_complete(value, pool)
    }

    /// Gives the role up after a failed or cancelled initialization. Returns
    /// whom to wake.
    pub fn abort(&mut self, pool: &mut QueuePool) -> (r: Vec<Wake>)
        requires
            old(self).wf(),
            old(self)@.phase is Running,
            old(pool)@.lends(old(self).structure()),
        ensures
            final(self).wf(),
            final(self)@ == old(self)@.aborted(),
            r@ == old(self)@.offer_wakes(),
            old(self)@.keeps(final(self)@, None),
            returned(old(pool)@, old(self).structure(), final(pool)@, final(self).structure()),
    {
        self.internal.abort(pool)
    }

    /// Makes a task's request for the value.
    pub fn get_or_init(&mut self) -> (r: AsyncGetOrInit)
        requires
            old(self).wf(),
        ensures
            final(self).wf(),
            final(self).structure() == old(self).structure(),
            !r.request.initializing(),
            old(self)@.w().vacant(r.request.entry()),
            final(self)@ == old(self)@.with_new(r.request.entry(), SignalView::fresh_none()),
            final(self)@.pollable(r.request.entry()),
            old(self)@.keeps(final(self)@, None),
    {
        AsyncGetOrInit { request: self.get_or_try_init() }
    }

    /// The same, with an initializer that may fail.
    pub fn get_or_try_init(&mut self) -> (r: AsyncGetOrTryInit)
        requires
            old(self).wf(),
        ensures
            final(self).wf(),
            final(self).structure() == old(self).structure(),
            !r.initializing(),
            old(self)@.w().vacant(r.entry()),
            final(self)@ == old(self)@.with_new(r.entry(), SignalView::fresh_none()),
            final(self)@.pollable(r.entry()),
            old(self)@.keeps(final(self)@, None),
    {
        AsyncGetOrTryInit { entry: self.internal.prepare_async(), initializing: false }
    }

    /// Polls a request that does not have the role. If it gets the role, the
    /// task has to run its initializer, and then complete or abort.
    pub fn poll_wait(
        &mut self,
        request: &mut AsyncGetOrTryInit,
        waker: usize,
        pool: &mut QueuePool,
    ) -> (r: Poll<Step>)
        requires
            old(self).wf(),
            !old(request).initializing(),
            old(self)@.pollable(old(request).entry()),
            old(pool)@.serves(old(self).structure()),
        ensures
            final(self).wf(),
            final(request).entry() == old(request).entry(),
            final(request).initializing() == (r == Poll::Ready(Step::Initializing)),
            r == old(self)@.poll_result(old(request).entry()),
            final(self)@ == old(self)@.polled(old(request).entry(), waker),
            r is Pending ==> final(self)@.pollable(old(request).entry()),
            valid_request(final(self)@, final(request)),
            old(self)@.keeps(final(self)@, Some(old(request).entry())),
            traded(old(pool)@, old(self).structure(), final(pool)@, final(self).structure()),
    {
        let r = self.internal.poll_wait(request.entry, waker, pool);
        if let Poll::Ready(Step::Initializing) = r {
            request.initializing = true;
        }
        r
    }

    /// Stores the value that a request's initializer made. Returns whom to
    /// wake.
    pub fn finish(
        &mut self,
        request: &mut AsyncGetOrTryInit,
        value: T,
        pool: &mut QueuePool,
    ) -> (r: Vec<Wake>)
        requires
            old(self).wf(),
            old(request).initializing(),
            valid_request(old(self)@, old(request)),
            old(pool)@.lends(old(self).structure()),
        ensures
            final(self).wf(),
            final(request).entry() == old(request).entry(),
            !final(request).initializing(),
            final(self)@ == old(self)@.completed(value),
            r@ == old(self)@.complete_wakes(),
            valid_request(final(self)@, final(request)),
            old(self)@.keeps(final(self)@, None),
            returned(old(pool)@, old(self).structure(), final(pool)@, final(self).structure()),
    {
        request.initializing = false;
        self.internal.write_and_complete(value, pool)
    }

    /// Ends a request whose initializer failed. Returns whom to wake.
    pub fn fail(&mut self, request: &mut AsyncGetOrTryInit, pool: &mut QueuePool) -> (r: Vec<Wake>)
        requires
            old(self).wf(),
            old(request).initializing(),
            valid_request(old(self)@, old(request)),
            old(pool)@.lends(old(self).structure()),
        ensures
            final(self).wf(),
            final(request).entry() == old(request).entry(),
            !final(request).initializing(),
            final(self)@ == old(self)@.aborted(),
            r@ == old(self)@.offer_wakes(),
            valid_request(final(self)@, final(request)),
            old(self)@.keeps(final(self)@, None),
            returned(old(pool)@, old(self).structure(), final(pool)@, final(self).structure()),
    {
        request.initializing = false;
        self.internal.abort(pool)
    }

    /// Drops a request, in whatever state it is. One that has the role gives it
    /// up, and an heir passes the offer on.
    pub fn drop_request(
        &mut self,
        request: &AsyncGetOrTryInit,
        pool: &mut QueuePool,
    ) -> (r: Withdrawn)
        requires
            old(self).wf(),
            valid_request(old(self)@, request),
            old(pool)@.lends(old(self).structure()),
        ensures
            final(self).wf(),
            (r is InFlight) == old(self)@.w().popped.contains(request.entry()),
            final(self)@ == if request.initializing() {
                old(self)@.aborted().with_node(request.entry(), SignalView::dead())
            } else {
                old(self)@.dropped(request.entry())
            },
            r matches Withdrawn::Done(wakes) ==> wakes@ == if request.initializing() {
                old(self)@.offer_wakes()
            } else if old(self)@.node(request.entry()).value == SIGNAL_RETRY {
                old(self)@.with_node(request.entry(), SignalView::dead()).offer_wakes()
            } else {
                Seq::<Wake>::empty()
            },
            r is InFlight ==> valid_request(final(self)@, request),
            old(self)@.keeps(final(self)@, Some(request.entry())),
            returned(old(pool)@, old(self).structure(), final(pool)@, final(self).structure()),
    {
        if branches::unlikely(request.initializing) {
            let ghost before = self@;
            let wakes = self.internal.abort(pool);
            proof {
                drop_initializer_keeps_requests(before, request.entry);
                if before.line().len() > 0 {
                    assert(before.line().contains(before.line()[0]));
                    assert forall|i: int| 0 <= i < self@.line().len() implies #[trigger] self@.line()[i]
                        == before.line()[i + 1] by {}
                    assert(before.line().take(1)[0] == before.line()[0]);
                }
            }
            self.internal.discard(request.entry);
            return Withdrawn::Done(wakes);
        }
        self.internal.drop_request(request.entry, pool)
    }

    /// The same cell for threads.
    pub fn to_sync(self) -> (r: OnceCell<T>)
        ensures
            r.structure() == self.structure(),
            r@ == self@,
            r.inv() == self.inv(),
    {
        OnceCell { internal: self.internal }
    }
}

impl<T> Default for AsyncOnceCell<T> {
    fn default() -> (r: Self)
        ensures
            r.wf(),
            r.structure() is None,
            r@ == OnceView::<T>::fresh(None),
    {
        AsyncOnceCell::new()
    }
}

impl<T> From<T> for AsyncOnceCell<T> {
    /// A cell that holds `value`.
    fn from(value: T) -> (r: Self)
        ensures
            r.wf(),
            r.structure() is None,
            r@ == OnceView::fresh(Some(value)),
    {
        Self::new_with(Some(value))
    }
}

/// A cell that is made from a value is known by its view.
impl<T> vstd::std_specs::convert::FromSpecImpl<T> for AsyncOnceCell<T> {
    open spec fn obeys_from_spec() -> bool {
        false
    }

    open spec fn from_spec(value: T) -> Self {
        arbitrary()
    }
}

} // verus!
