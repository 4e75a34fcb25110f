//! The operations of a once-cell, each run from start to end with no other
//! thread in between.
use vstd::prelude::*;

use crate::keeps::{
    lemma_keeps_first, lemma_keeps_joined, lemma_keeps_left, lemma_keeps_node, lemma_keeps_queued,
    lemma_keeps_signaled, lemma_keeps_twice, lemma_node_ok,
};
use crate::once_core::{OnceCellInternal, OnceView, Phase};
use crate::pool::{returned, traded, visited, QueuePool};
use crate::queue_word::Word;
use crate::sem_core::{pay, waiting};
use crate::signal::{
    Poll, SignalView, Wake, WakerSlot, Withdrawn, SIGNAL_INIT_WAITING, SIGNAL_RETRY,
    SIGNAL_RETURNED, SIGNAL_SIGNALED, SIGNAL_UNINIT,
};
use crate::sync_wait::{after_sync_step, SyncStep, SyncWaiter};
use crate::wait_queue::{LockAttempt, WaitQueueView};
use crate::waiters::{lemma_remove, WaitersView};

verus! {

/// Error returned by setting a cell that cannot be set, with the rejected
/// value.
#[derive(Debug, PartialEq, Eq, Clone, Copy)]
pub enum SetError<T> {
    /// The cell was already initialized.
    AlreadyInitializedError(T),
    /// An initializer was running.
    InitializingError(T),
}

impl<T> SetError<T> {
    /// The value that could not be stored.
    pub fn into_inner(self) -> (r: T)
        ensures
            r == match self {
                SetError::AlreadyInitializedError(v) => v,
                SetError::InitializingError(v) => v,
            },
    {
        match self {
            SetError::AlreadyInitializedError(v) => v,
            SetError::InitializingError(v) => v,
        }
    }

    /// The error's message.
    pub fn message(&self) -> (r: &'static str)
        ensures
            r@ == match self {
                SetError::AlreadyInitializedError(_) => "cell already initialized"@,
                SetError::InitializingError(_) => "cell is being initialized"@,
            },
    {
        match self {
            SetError::AlreadyInitializedError(_) => "cell already initialized",
            SetError::InitializingError(_) => "cell is being initialized",
        }
    }
}

/// How an attempt to queue up ended.
#[derive(Debug, PartialEq, Eq, Clone, Copy, Structural)]
pub enum OnceOutcome {
    /// The state changed before parking; look at it again.
    State,
    /// The entry was pushed to the wait queue.
    Enqueued,
}

/// What a caller that wants the value is to do.
#[derive(Debug, PartialEq, Eq, Clone, Copy, Structural)]
pub enum Step {
    /// The value is there.
    ValueReady,
    /// The caller is the initializer now.
    Initializing,
}

/// How a blocking `get_or_try_init` goes on.
#[derive(Debug)]
pub enum GetOrInit<F, E> {
    /// The value is there; wake these.
    Ready(Vec<Wake>),
    /// The initializer failed; wake these.
    Failed(E, Vec<Wake>),
    /// Somebody else is initializing; keep the initializer and wait.
    Wait(F, SyncWaiter),
}

/// What a thread that waits for the value does next.
#[derive(Debug, PartialEq, Eq, Clone, Copy, Structural)]
pub enum OnceStep {
    /// Pause or park, and look again.
    Again(SyncStep),
    /// The wait is over.
    Done(Step),
    /// The wait is over, but somebody else is initializing again.
    Restart,
}

impl<T> OnceView<T> {
    /// No thread is in the middle of an operation.
    pub open spec fn settled(self) -> bool {
        self.quiet() && self.drains == 0 && self.offers == 0
    }

    /// The state after the waiters became `w`.
    pub open spec fn with_waiters(self, w: WaitersView) -> OnceView<T> {
        OnceView {
            queue: WaitQueueView {
                door: if w.line.len() > 0 {
                    Word::Queue
                } else {
                    Word::Unlocked
                },
                waiters: w,
            },
            ..self
        }
    }

    /// The state after `entry` joined the line.
    pub open spec fn enqueued(self, entry: usize) -> OnceView<T> {
        self.with_waiters(self.w().pushed(entry))
    }

    /// The state after the value was stored: everybody in line is released.
    pub open spec fn completed(self, value: T) -> OnceView<T> {
        OnceView {
            phase: Phase::Ready,
            value: Some(value),
            ..self.with_waiters(
                self.w().popped_front(self.line().len() as int).after_signals(
                    self.line(),
                    SIGNAL_SIGNALED,
                ),
            )
        }
    }

    /// Whom to wake after that.
    pub open spec fn complete_wakes(self) -> Seq<Wake> {
        self.w().wakes(self.line())
    }

    /// The state after the first in line, if anybody, was offered the role.
    pub open spec fn offered(self) -> OnceView<T> {
        if self.line().len() == 0 {
            self
        } else {
            OnceView {
                heirs: self.heirs.insert(self.line()[0]),
                ..self.with_waiters(
                    self.w().popped_front(1).after_signal(self.line()[0], SIGNAL_RETRY),
                )
            }
        }
    }

    /// Whom to wake after that.
    pub open spec fn offer_wakes(self) -> Seq<Wake> {
        if self.line().len() == 0 {
            Seq::empty()
        } else {
            seq![self.node(self.line()[0]).wake()]
        }
    }

    /// The state after an initializer gave up: the cell is empty, and the first
    /// in line was offered the role.
    pub open spec fn aborted(self) -> OnceView<T> {
        (OnceView { phase: Phase::Empty, ..self }).offered()
    }

    /// `id` is the node of a thread that waits.
    pub open spec fn sync_waits(self, id: usize) -> bool {
        &&& self.w().live(id)
        &&& if self.w().idle(id) {
            self.node(id).value == SIGNAL_SIGNALED || self.node(id).value == SIGNAL_RETRY
        } else {
            waiting(self.node(id))
        }
    }

    /// A request that may be polled: fresh, queued (or its signal on its way),
    /// released, or offered the role.
    pub open spec fn pollable(self, id: usize) -> bool {
        &&& self.w().live(id)
        &&& match self.node(id).value {
            SIGNAL_UNINIT => self.node(id).waker is Empty && self.w().idle(id),
            SIGNAL_INIT_WAITING => !self.w().idle(id),
            SIGNAL_SIGNALED => self.w().idle(id),
            SIGNAL_RETRY => self.w().idle(id),
            _ => false,
        }
    }

    /// A request that need not be polled any more.
    pub open spec fn finished(self, id: usize) -> bool {
        self.w().idle(id) && self.node(id).value == SIGNAL_RETURNED
    }

    /// A request that may be dropped: one that may be polled, or a finished
    /// one.
    pub open spec fn droppable(self, id: usize) -> bool {
        self.pollable(id) || self.finished(id)
    }

    /// Everybody who waits or has a request, `but` aside, can go on in `after`
    /// as if nothing had happened.
    pub open spec fn keeps(self, after: OnceView<T>, but: Option<usize>) -> bool {
        &&& forall|id: usize|
            self.pollable(id) && but != Some(id) ==> #[trigger] after.pollable(id)
        &&& forall|id: usize|
            self.finished(id) && but != Some(id) ==> #[trigger] after.finished(id)
        &&& forall|id: usize|
            self.droppable(id) && but != Some(id) ==> #[trigger] after.droppable(id)
        &&& forall|id: usize|
            self.sync_waits(id) && but != Some(id) ==> #[trigger] after.sync_waits(id)
    }

    /// The node of a task that waits.
    pub open spec fn armed(self, waker: usize) -> SignalView {
        SignalView {
            value: SIGNAL_INIT_WAITING,
            waker: WakerSlot::Async(waker),
            ..SignalView::fresh_none()
        }
    }

    /// The state after a fresh request, or one that was offered the role, looked
    /// at the cell.
    pub open spec fn looked(self, id: usize, waker: usize) -> OnceView<T> {
        let returned = SignalView { value: SIGNAL_RETURNED, ..SignalView::fresh_none() };
        match self.phase {
            Phase::Ready => self.with_node(id, returned),
            Phase::Empty => OnceView { phase: Phase::Running, ..self.with_node(id, returned) },
            Phase::Running => self.with_node(id, self.armed(waker)).enqueued(id),
        }
    }

    /// The state after a request was polled.
    pub open spec fn polled(self, id: usize, waker: usize) -> OnceView<T> {
        let node = self.node(id);
        match node.value {
            SIGNAL_SIGNALED => self.with_node(id, SignalView { value: SIGNAL_RETURNED, ..node }),
            SIGNAL_INIT_WAITING => self.with_node(
                id,
                SignalView { waker: WakerSlot::Async(waker), ..node },
            ),
            SIGNAL_RETRY => (OnceView { heirs: self.heirs.remove(id), ..self }).looked(id, waker),
            _ => self.looked(id, waker),
        }
    }

    /// What that poll returns.
    pub open spec fn poll_result(self, id: usize) -> Poll<Step> {
        match self.node(id).value {
            SIGNAL_SIGNALED => Poll::Ready(Step::ValueReady),
            SIGNAL_INIT_WAITING => Poll::Pending,
            _ => match self.phase {
                Phase::Ready => Poll::Ready(Step::ValueReady),
                Phase::Empty => Poll::Ready(Step::Initializing),
                Phase::Running => Poll::Pending,
            },
        }
    }

    /// The state after a request that is not the initializer was dropped: a
    /// waiter leaves the line, and an heir passes the offer on.
    pub open spec fn dropped(self, id: usize) -> OnceView<T> {
        if self.w().popped.contains(id) {
            self
        } else if self.line().contains(id) {
            self.with_waiters(self.w().removed(id).with_node(id, SignalView::dead()))
        } else if self.node(id).value == SIGNAL_RETRY {
            (OnceView {
                heirs: self.heirs.remove(id),
                ..self.with_node(id, SignalView::dead())
            }).offered()
        } else {
            self.with_node(id, SignalView::dead())
        }
    }
}

impl<T> OnceCellInternal<T> {
    /// Stores the value and releases everybody. The caller is the initializer.
    /// Returns whom to wake.
    pub fn write_and_complete(&mut self, value: T, pool: &mut QueuePool) -> (r: Vec<Wake>)
        requires
            old(self).wf(),
            old(self)@.quiet(),
            old(self)@.phase is Running,
            old(pool)@.lends(old(self).structure()),
        ensures
            final(self).wf(),
            final(self)@ == old(self)@.completed(value),
            r@ == old(self)@.complete_wakes(),
            old(self)@.keeps(final(self)@, None),
            returned(old(pool)@, old(self).structure(), final(pool)@, final(self).structure()),
    {
        proof {
            complete_keeps_requests(self@, value);
        }
        let ghost before = self@;
        self.publish(value);
        if self.begin_wake_all() != LockAttempt::Held {
            proof {
                assert(before.line() =~= Seq::<usize>::empty());
                assert(before.w().popped_front(0).after_signals(
                    before.line(),
                    SIGNAL_SIGNALED,
                ) =~= before.w());
                assert(self@ =~= before.completed(value));
                assert(before.complete_wakes() =~= Seq::<Wake>::empty());
            }
            return Vec::new();
        }
        let chain = self.pop_all();
        let ghost ids = chain@;
        self.end(pool);
        proof {
            assert(self@.w().nodes =~= before.w().nodes);
            assert(self@.w().wakes(ids) =~= before.w().wakes(ids));
        }
        let wakes = self.signal_all(chain);
        assert(self@ =~= before.completed(value));
        wakes
    }

    /// Offers the role to the first in line. Returns whom to wake.
    pub fn wake_one_retry(&mut self, pool: &mut QueuePool) -> (r: Vec<Wake>)
        requires
            old(self).wf(),
            old(self)@.quiet(),
            old(pool)@.lends(old(self).structure()),
        ensures
            final(self).wf(),
            final(self)@ == (OnceView { offers: pay(old(self)@.offers), ..old(self)@.offered() }),
            r@ == old(self)@.offer_wakes(),
            returned(old(pool)@, old(self).structure(), final(pool)@, final(self).structure()),
    {
        let ghost before = self@;
        let mut wakes: Vec<Wake> = Vec::new();
        if self.begin_wake_one() != LockAttempt::Held {
            return wakes;
        }
        if let Some(node) = self.pop_heir(pool) {
            let wake = self.offer(node);
            wakes.push(wake);
        }
        assert(self@ =~= (OnceView { offers: pay(before.offers), ..before.offered() }));
        wakes
    }

    /// Gives the role up after a failed or cancelled initialization, and offers
    /// it to the first in line. Returns whom to wake.
    pub fn abort(&mut self, pool: &mut QueuePool) -> (r: Vec<Wake>)
        requires
            old(self).wf(),
            old(self)@.quiet(),
            old(self)@.phase is Running,
            old(pool)@.lends(old(self).structure()),
        ensures
            final(self).wf(),
            final(self)@ == old(self)@.aborted(),
            r@ == old(self)@.offer_wakes(),
            old(self)@.keeps(final(self)@, None),
            returned(old(pool)@, old(self).structure(), final(pool)@, final(self).structure()),
    {
        proof {
            offer_keeps_requests(self@);
        }
        let ghost before = self@;
        self.step_down();
        let wakes = self.wake_one_retry(pool);
        assert(self@ =~= before.aborted());
        wakes
    }

    /// Stores `value` if the cell is empty. Returns whom to wake.
    pub fn set(&mut self, value: T, pool: &mut QueuePool) -> (r: Result<Vec<Wake>, SetError<T>>)
        requires
            old(self).wf(),
            old(self)@.quiet(),
            old(pool)@.lends(old(self).structure()),
        ensures
            final(self).wf(),
            match old(self)@.phase {
                Phase::Empty => r is Ok && r->Ok_0@ == old(self)@.complete_wakes() && final(self)@
                    == old(self)@.completed(value),
                Phase::Ready => r == Err::<Vec<Wake>, SetError<T>>(
                    SetError::AlreadyInitializedError(value),
                ) && final(self)@ == old(self)@,
                Phase::Running => r == Err::<Vec<Wake>, SetError<T>>(
                    SetError::InitializingError(value),
                ) && final(self)@ == old(self)@,
            },
            old(self)@.keeps(final(self)@, None),
            returned(old(pool)@, old(self).structure(), final(pool)@, final(self).structure()),
    {
        proof {
            complete_keeps_requests(self@, value);
        }
        match self.try_begin_init() {
            Ok(()) => Ok(self.write_and_complete(value, pool)),
            Err(Phase::Ready) => Err(SetError::AlreadyInitializedError(value)),
            Err(_) => Err(SetError::InitializingError(value)),
        }
    }

    /// Queues `entry` up while an initializer is running.
    pub fn enqueue_or_state(&mut self, entry: usize, pool: &mut QueuePool) -> (r: OnceOutcome)
        requires
            old(self).wf(),
            old(self)@.quiet(),
            old(self)@.w().idle(entry),
            waiting(old(self)@.node(entry)),
            old(pool)@.serves(old(self).structure()),
        ensures
            final(self).wf(),
            (r is Enqueued) == (old(self)@.phase is Running),
            final(self)@ == if r is Enqueued {
                old(self)@.enqueued(entry)
            } else {
                old(self)@
            },
            if !(r is Enqueued) {
                visited(old(pool)@, old(self).structure(), final(pool)@, final(self).structure())
            } else {
                traded(old(pool)@, old(self).structure(), final(pool)@, final(self).structure())
            },
    {
        let ghost before = self@;
        proof {
            self.lemma_structure();
        }
        self.begin_enqueue(pool);
        proof {
            self.lemma_structure();
        }
        if !self.fresh() {
            self.end(pool);
            proof {
                self.lemma_structure();
            }
            assert(self@ =~= before);
            return OnceOutcome::State;
        }
        self.push_entry(entry);
        self.end(pool);
        proof {
            self.lemma_structure();
        }
        assert(self@ =~= before.enqueued(entry));
        OnceOutcome::Enqueued
    }

    /// Queues a thread up while an initializer is running.
    pub fn queue_up(&mut self, thread: usize, pool: &mut QueuePool) -> (r: SyncWaiter)
        requires
            old(self).wf(),
            old(self)@.quiet(),
            old(self)@.phase is Running,
            old(pool)@.serves(old(self).structure()),
        ensures
            final(self).wf(),
            r@.stage is Arming,
            r@.spins == 0,
            old(self)@.w().vacant(r@.entry),
            final(self)@ == old(self)@.with_new(r@.entry, SignalView::fresh_sync(thread)).enqueued(
                r@.entry,
            ),
            final(self)@.sync_waits(r@.entry),
            old(self)@.keeps(final(self)@, None),
            traded(old(pool)@, old(self).structure(), final(pool)@, final(self).structure()),
    {
        let ghost before = self@;
        let entry: usize = self.prepare_sync(thread);
        proof {
            lemma_joined(before, entry, thread);
        }
        self.enqueue_or_state(entry, pool);
        SyncWaiter::new(entry, false)
    }

    /// One go of a blocking `get_or_try_init`: the value is there, or `f` makes
    /// it, or the thread has to wait for another initializer.
    ///
    /// The cell is not touched before `f` returns: if `f` unwinds, the cell is
    /// as empty as it was. A caller that lets others at the cell while its
    /// initializer runs takes the role with `try_begin_init`, and ends with
    /// `write_and_complete`, or with `abort` if the initializer fails or unwinds.
    pub fn get_or_try_init_sync<E, F: FnOnce() -> Result<T, E>>(
        &mut self,
        f: F,
        thread: usize,
        pool: &mut QueuePool,
    ) -> (r: GetOrInit<F, E>)
        requires
            old(self).wf(),
            old(self)@.quiet(),
            f.requires(()),
            old(pool)@.serves(old(self).structure()),
        ensures
            final(self).wf(),
            match old(self)@.phase {
                Phase::Ready => r is Ready && r->Ready_0@.len() == 0 && final(self)@ == old(self)@,
                Phase::Empty => match r {
                    GetOrInit::Ready(wakes) => final(self)@.value is Some && f.ensures(
                        (),
                        Ok(final(self)@.value->0),
                    ) && final(self)@ == old(self)@.completed(final(self)@.value->0) && wakes@
                        == old(self)@.complete_wakes(),
                    GetOrInit::Failed(e, wakes) => f.ensures((), Err(e)) && final(self)@
                        == old(self)@.aborted() && wakes@ == old(self)@.offer_wakes(),
                    GetOrInit::Wait(_, _) => false,
                },
                Phase::Running => r matches GetOrInit::Wait(kept, waiter) && kept == f
                    && waiter@.stage is Arming && waiter@.spins == 0 && old(self)@.w().vacant(
                    waiter@.entry,
                ) && final(self)@ == old(self)@.with_new(
                    waiter@.entry,
                    SignalView::fresh_sync(thread),
                ).enqueued(waiter@.entry),
            },
            r matches GetOrInit::Wait(_, waiter) ==> final(self)@.sync_waits(waiter@.entry),
            old(self)@.keeps(final(self)@, None),
            traded(old(pool)@, old(self).structure(), final(pool)@, final(self).structure()),
    {
        let ghost before = self@;
        match self.phase() {
            Phase::Ready => GetOrInit::Ready(Vec::new()),
            Phase::Empty => {
                match f() {
                    Ok(value) => {
                        let _ = self.try_begin_init();
                        let wakes = self.write_and_complete(value, pool);
                        assert(self@ =~= before.completed(value));
                        proof {
                            complete_keeps_requests(before, value);
                        }
                        GetOrInit::Ready(wakes)
                    },
                    Err(e) => {
                        let _ = self.try_begin_init();
                        let wakes = self.abort(pool);
                        assert(self@ =~= before.aborted());
                        proof {
                            offer_keeps_requests(before);
                        }
                        GetOrInit::Failed(e, wakes)
                    },
                }
            },
            Phase::Running => GetOrInit::Wait(f, self.queue_up(thread, pool)),
        }
    }

    /// One go of a blocking `get_or_init`, whose initializer cannot fail. Returns
    /// the initializer with the wait if the thread has to wait, and whom to wake
    /// otherwise. As above, an initializer that unwinds leaves the cell empty.
    pub fn get_or_init_sync<F: FnOnce() -> T>(
        &mut self,
        f: F,
        thread: usize,
        pool: &mut QueuePool,
    ) -> (r: Result<
        Vec<Wake>,
        (F, SyncWaiter),
    >)
        requires
            old(self).wf(),
            old(self)@.quiet(),
            f.requires(()),
            old(pool)@.serves(old(self).structure()),
        ensures
            final(self).wf(),
            match old(self)@.phase {
                Phase::Ready => r is Ok && r->Ok_0@.len() == 0 && final(self)@ == old(self)@,
                Phase::Empty => r is Ok && final(self)@.value is Some && f.ensures(
                    (),
                    final(self)@.value->0,
                ) && final(self)@ == old(self)@.completed(final(self)@.value->0) && r->Ok_0@
                    == old(self)@.complete_wakes(),
                Phase::Running => r matches Err(kept) && kept.0 == f && kept.1@.stage is Arming
                    && kept.1@.spins == 0 && old(self)@.w().vacant(kept.1@.entry) && final(self)@
                    == old(self)@.with_new(
                    kept.1@.entry,
                    SignalView::fresh_sync(thread),
                ).enqueued(kept.1@.entry),
            },
            r matches Err(kept) ==> final(self)@.sync_waits(kept.1@.entry),
            old(self)@.keeps(final(self)@, None),
            traded(old(pool)@, old(self).structure(), final(pool)@, final(self).structure()),
    {
        let ghost before = self@;
        match self.phase() {
            Phase::Ready => Ok(Vec::new()),
            Phase::Empty => {
                let value = f();
                let _ = self.try_begin_init();
                let wakes = self.write_and_complete(value, pool);
                assert(self@ =~= before.completed(value));
                proof {
                    complete_keeps_requests(before, value);
                }
                Ok(wakes)
            },
            Phase::Running => Err((f, self.queue_up(thread, pool))),
        }
    }

    /// One look of a thread that waits for the value. One that was offered the
    /// role takes it if the cell is empty.
    pub fn wait_step(&mut self, waiter: &mut SyncWaiter) -> (r: OnceStep)
        requires
            old(self).wf(),
            old(self)@.sync_waits(old(waiter)@.entry),
        ensures
            final(self).wf(),
            final(self).structure() == old(self).structure(),
            final(waiter)@ == old(waiter)@.after_step(old(self)@.node(old(waiter)@.entry).value),
            match old(self)@.node(old(waiter)@.entry).value {
                SIGNAL_SIGNALED => r == OnceStep::Done(Step::ValueReady) && final(self)@
                    == old(self)@.with_node(old(waiter)@.entry, SignalView::dead()),
                SIGNAL_RETRY => r == match old(self)@.phase {
                    Phase::Ready => OnceStep::Done(Step::ValueReady),
                    Phase::Empty => OnceStep::Done(Step::Initializing),
                    Phase::Running => OnceStep::Restart,
                } && final(self)@ == (OnceView {
                    phase: if old(self)@.phase is Empty {
                        Phase::Running
                    } else {
                        old(self)@.phase
                    },
                    heirs: old(self)@.heirs.remove(old(waiter)@.entry),
                    ..old(self)@.with_node(old(waiter)@.entry, SignalView::dead())
                }),
                _ => r == OnceStep::Again(
                    old(waiter)@.step(old(self)@.node(old(waiter)@.entry).value),
                ) && final(self)@ == (OnceView {
                    queue: after_sync_step(old(self)@.queue, old(waiter)@),
                    ..old(self)@
                }),
            },
            r is Again ==> final(self)@.sync_waits(old(waiter)@.entry),
            old(self)@.keeps(final(self)@, Some(old(waiter)@.entry)),
    {
        let ghost before = self@;
        let entry: usize = waiter.entry();
        let step = self.sync_step(waiter);
        proof {
            lemma_keeps_node(before.w(), entry, self@.node(entry), answers());
            lemma_keeps(before, self@, Some(entry));
        }
        match step {
            SyncStep::Signaled(value) => {
                assert(self@ =~= before);
                proof {
                    lemma_keeps_node(before.w(), entry, SignalView::dead(), answers());
                    lemma_keeps(before, before.with_node(entry, SignalView::dead()), Some(entry));
                }
                if value == SIGNAL_RETRY {
                    let phase = self.accept(entry);
                    self.discard(entry);
                    assert(self@ =~= (OnceView {
                        phase: if before.phase is Empty {
                            Phase::Running
                        } else {
                            before.phase
                        },
                        heirs: before.heirs.remove(entry),
                        ..before.with_node(entry, SignalView::dead())
                    }));
                    return match phase {
                        Phase::Ready => OnceStep::Done(Step::ValueReady),
                        Phase::Empty => OnceStep::Done(Step::Initializing),
                        Phase::Running => OnceStep::Restart,
                    };
                }
                self.discard(entry);
                OnceStep::Done(Step::ValueReady)
            },
            _ => OnceStep::Again(step),
        }
    }

    /// Polls a request that is not the initializer.
    pub fn poll_wait(&mut self, entry: usize, waker: usize, pool: &mut QueuePool) -> (r: Poll<Step>)
        requires
            old(self).wf(),
            old(self)@.quiet(),
            old(self)@.pollable(entry),
            old(pool)@.serves(old(self).structure()),
        ensures
            final(self).wf(),
            r == old(self)@.poll_result(entry),
            final(self)@ == old(self)@.polled(entry, waker),
            r is Pending ==> final(self)@.pollable(entry),
            r is Ready ==> final(self)@.finished(entry),
            old(self)@.keeps(final(self)@, Some(entry)),
            traded(old(pool)@, old(self).structure(), final(pool)@, final(self).structure()),
    {
        proof {
            poll_keeps_requests(self@, entry, waker);
        }
        let ghost before = self@;
        proof {
            if before.line().contains(entry) {
                assert(waiting(before.node(before.line()[before.line().index_of(entry)])));
            }
            if before.w().popped.contains(entry) {
                assert(waiting(before.node(entry)));
            }
        }
        let sig_val: usize = self.value(entry);
        if sig_val == SIGNAL_SIGNALED {
            self.complete_request(entry);
            return Poll::Ready(Step::ValueReady);
        }
        if sig_val == SIGNAL_INIT_WAITING {
            self.arm(entry, waker);
            assert(self@ =~= before.polled(entry, waker));
            return Poll::Pending;
        }
        let phase = if sig_val == SIGNAL_RETRY {
            self.accept(entry)
        } else {
            match self.try_begin_init() {
                Ok(()) => Phase::Empty,
                Err(actual) => actual,
            }
        };
        match phase {
            Phase::Ready => {
                self.complete_request(entry);
                assert(self@ =~= before.polled(entry, waker));
                Poll::Ready(Step::ValueReady)
            },
            Phase::Empty => {
                self.complete_request(entry);
                assert(self@ =~= before.polled(entry, waker));
                Poll::Ready(Step::Initializing)
            },
            Phase::Running => {
                self.arm(entry, waker);
                self.enqueue_or_state(entry, pool);
                assert(self@ =~= before.polled(entry, waker));
                Poll::Pending
            },
        }
    }

    /// Drops a request that is not the initializer, in whatever state it is.
    pub fn drop_request(&mut self, entry: usize, pool: &mut QueuePool) -> (r: Withdrawn)
        requires
            old(self).wf(),
            old(self)@.quiet(),
            old(self)@.droppable(entry),
            old(pool)@.lends(old(self).structure()),
        ensures
            final(self).wf(),
            (r is InFlight) == old(self)@.w().popped.contains(entry),
            final(self)@ == old(self)@.dropped(entry),
            r matches Withdrawn::Done(wakes) ==> wakes@ == if old(self)@.node(entry).value
                == SIGNAL_RETRY {
                old(self)@.with_node(entry, SignalView::dead()).offer_wakes()
            } else {
                Seq::<Wake>::empty()
            },
            r is InFlight ==> final(self)@.droppable(entry),
            old(self)@.keeps(final(self)@, Some(entry)),
            returned(old(pool)@, old(self).structure(), final(pool)@, final(self).structure()),
    {
        proof {
            drop_keeps_requests(self@, entry);
        }
        let ghost before = self@;
        proof {
            if before.line().contains(entry) {
                assert(waiting(before.node(before.line()[before.line().index_of(entry)])));
            }
            if before.w().popped.contains(entry) {
                assert(waiting(before.node(entry)));
            }
        }
        let value: usize = self.value(entry);
        if value == SIGNAL_RETRY {
            self.decline(entry);
            let ghost gone = self@;
            let wakes = self.wake_one_retry(pool);
            proof {
                assert(gone.offer_wakes() =~= before.with_node(
                    entry,
                    SignalView::dead(),
                ).offer_wakes());
                assert(self@ =~= before.dropped(entry));
            }
            return Withdrawn::Done(wakes);
        }
        if value == SIGNAL_INIT_WAITING {
            return self.cancel_wait(entry, pool);
        }
        self.discard(entry);
        Withdrawn::Done(Vec::new())
    }

    fn cancel_wait(&mut self, entry: usize, pool: &mut QueuePool) -> (r: Withdrawn)
        requires
            old(self).wf(),
            old(self)@.quiet(),
            old(self)@.w().live(entry),
            old(self)@.node(entry).value == SIGNAL_INIT_WAITING,
            !old(self)@.w().idle(entry),
            old(pool)@.lends(old(self).structure()),
        ensures
            final(self).wf(),
            (r is InFlight) == old(self)@.w().popped.contains(entry),
            final(self)@ == old(self)@.dropped(entry),
            r matches Withdrawn::Done(wakes) ==> wakes@ == Seq::<Wake>::empty(),
            returned(old(pool)@, old(self).structure(), final(pool)@, final(self).structure()),
    {
        let ghost before = self@;
        proof {
            if before.line().contains(entry) {
                lemma_remove(before.line(), entry);
                assert(waiting(before.node(before.line()[before.line().index_of(entry)])));
            }
        }
        if self.begin_remove() == LockAttempt::Held {
            let found = self.remove_entry(entry);
            self.end(pool);
            if found {
                self.discard(entry);
                assert(self@ =~= before.dropped(entry));
                return Withdrawn::Done(Vec::new());
            }
            assert(self@ =~= before);
        }
        Withdrawn::InFlight
    }
}

/// What a waiter is told.
spec fn answers() -> Set<usize> {
    set![SIGNAL_SIGNALED, SIGNAL_RETRY]
}

/// Whoever is left alone by the waiters' account is left alone.
proof fn lemma_keeps<T>(v: OnceView<T>, after: OnceView<T>, but: Option<usize>)
    requires
        v.w().keeps(after.w(), but, answers()),
    ensures
        v.keeps(after, but),
{
}

/// A thread that begins to wait disturbs nobody.
proof fn lemma_joined<T>(v: OnceView<T>, id: usize, thread: usize)
    requires
        !v.w().live(id),
        id <= v.w().nodes.len(),
    ensures
        v.keeps(v.with_new(id, SignalView::fresh_sync(thread)).enqueued(id), None),
        v.with_new(id, SignalView::fresh_sync(thread)).enqueued(id).sync_waits(id),
{
    lemma_keeps_joined(v.w(), id, SignalView::fresh_sync(thread), answers());
    lemma_keeps(v, v.with_new(id, SignalView::fresh_sync(thread)).enqueued(id), None);
}

/// Storing the value answers everybody in line and leaves the rest alone.
pub proof fn complete_keeps_requests<T>(v: OnceView<T>, value: T)
    requires
        v.ok(),
    ensures
        v.keeps(v.completed(value), None),
{
    assert(v.line().take(v.line().len() as int) =~= v.line());
    lemma_keeps_signaled(v.w(), v.line().len() as int, SIGNAL_SIGNALED, answers());
    lemma_keeps(v, v.completed(value), None);
}

/// Offering the role answers the first in line and leaves the rest alone.
pub proof fn offer_keeps_requests<T>(v: OnceView<T>)
    requires
        v.w().ok(),
    ensures
        v.keeps(v.offered(), None),
        v.keeps(v.aborted(), None),
{
    if v.line().len() > 0 {
        lemma_keeps_first(v.w(), SIGNAL_RETRY, answers());
    }
    lemma_keeps(v, v.offered(), None);
    lemma_keeps(v, v.aborted(), None);
}

/// Polling one request disturbs no other, and the request can be polled again
/// unless it is finished.
pub proof fn poll_keeps_requests<T>(v: OnceView<T>, id: usize, waker: usize)
    requires
        v.ok(),
        v.pollable(id),
    ensures
        v.keeps(v.polled(id, waker), Some(id)),
        if v.poll_result(id) is Pending {
            v.polled(id, waker).pollable(id)
        } else {
            v.polled(id, waker).finished(id)
        },
{
    let w = v.w();
    let after = v.polled(id, waker);
    let value = v.node(id).value;
    if value != SIGNAL_SIGNALED && value != SIGNAL_INIT_WAITING && v.phase is Running {
        assert(after.w() =~= w.with_node(id, v.armed(waker)).pushed(id));
        lemma_keeps_queued(w, id, v.armed(waker), answers());
    } else {
        lemma_keeps_node(w, id, after.node(id), answers());
        assert(after.w() =~= w.with_node(id, after.node(id)));
    }
    lemma_keeps(v, after, Some(id));
}

/// Dropping one request disturbs no other.
pub proof fn drop_keeps_requests<T>(v: OnceView<T>, id: usize)
    requires
        v.ok(),
        v.droppable(id),
    ensures
        v.keeps(v.dropped(id), Some(id)),
        v.w().popped.contains(id) ==> v.dropped(id).droppable(id),
{
    let w = v.w();
    let dead = w.with_node(id, SignalView::dead());
    lemma_keeps_node(w, id, SignalView::dead(), answers());
    if w.popped.contains(id) {
        lemma_keeps_node(w, id, v.node(id), answers());
        assert(w.with_node(id, v.node(id)) =~= w);
    } else if w.line.contains(id) {
        lemma_keeps_left(w, id, answers());
    } else if v.node(id).value == SIGNAL_RETRY && w.line.len() > 0 {
        lemma_node_ok(w, id, SignalView::dead());
        lemma_keeps_first(dead, SIGNAL_RETRY, answers());
        lemma_keeps_twice(w, dead, v.dropped(id).w(), Some(id), None, Some(id), answers());
    }
    lemma_keeps(v, v.dropped(id), Some(id));
}

/// Dropping the initializer's request disturbs no other.
pub proof fn drop_initializer_keeps_requests<T>(v: OnceView<T>, id: usize)
    requires
        v.ok(),
        v.finished(id),
    ensures
        v.keeps(v.aborted().with_node(id, SignalView::dead()), Some(id)),
{
    let w = v.w();
    let mid = v.aborted();
    let after = mid.with_node(id, SignalView::dead());
    offer_keeps_requests(v);
    assert(mid.finished(id));
    if w.line.len() > 0 {
        lemma_keeps_first(w, SIGNAL_RETRY, answers());
    } else {
        lemma_keeps_node(w, id, v.node(id), answers());
        assert(w.with_node(id, v.node(id)) =~= w);
    }
    lemma_keeps_node(mid.w(), id, SignalView::dead(), answers());
    if w.line.len() > 0 {
        lemma_keeps_twice(w, mid.w(), after.w(), None, Some(id), Some(id), answers());
    } else {
        lemma_keeps_twice(w, mid.w(), after.w(), Some(id), Some(id), Some(id), answers());
    }
    lemma_keeps(v, after, Some(id));
}

/// A cell that is ready stays ready, with its value, whatever else happens but
/// taking the value out.
pub proof fn ready_is_final<T>(v: OnceView<T>, id: usize, waker: usize)
    requires
        v.ok(),
        v.phase is Ready,
    ensures
        v.polled(id, waker).phase is Ready,
        v.polled(id, waker).value == v.value,
        v.dropped(id).phase is Ready,
        v.dropped(id).value == v.value,
        v.offered().phase is Ready,
        v.offered().value == v.value,
{
}

/// There is at most one initializer: while one runs, nobody gets the role and
/// the cell cannot be set.
pub proof fn one_initializer<T>(v: OnceView<T>, id: usize)
    requires
        v.ok(),
        v.phase is Running,
        v.pollable(id),
    ensures
        v.poll_result(id) != Poll::Ready(Step::Initializing),
        v.value is None,
{
}

/// Nobody waits in vain: between operations, if somebody is in line, an
/// initializer is running or one that was in line has been offered the role.
pub proof fn no_stranded_waiter<T>(v: OnceView<T>)
    requires
        v.ok(),
        v.settled(),
        v.line().len() > 0,
    ensures
        v.phase is Running || v.heirs.len() > 0,
        !(v.phase is Ready),
{
}

/// An initializer that gives up hands its role to the one that has waited
/// longest, who takes it with its next look, unless somebody was quicker.
pub proof fn failed_init_is_handed_on<T>(v: OnceView<T>)
    requires
        v.ok(),
        v.settled(),
        v.phase is Running,
        v.line().len() > 0,
    ensures
        v.aborted().phase is Empty,
        v.aborted().node(v.line()[0]).value == SIGNAL_RETRY,
        v.aborted().heirs.contains(v.line()[0]),
        v.aborted().poll_result(v.line()[0]) == Poll::Ready(Step::Initializing),
        v.aborted().line() == v.line().skip(1),
{
    assert(v.w().live(v.line()[0]));
}

/// The initializer's value reaches everybody: those in line are released, and
/// find it.
pub proof fn value_reaches_everybody<T>(v: OnceView<T>, value: T)
    requires
        v.ok(),
        v.settled(),
        v.phase is Running,
    ensures
        v.completed(value).value == Some(value),
        v.completed(value).line().len() == 0,
        forall|i: int|
            0 <= i < v.line().len() ==> v.completed(value).node(#[trigger] v.line()[i]).value
                == SIGNAL_SIGNALED && v.completed(value).poll_result(v.line()[i]) == Poll::Ready(
                Step::ValueReady,
            ),
{
    assert forall|i: int| 0 <= i < v.line().len() implies v.completed(value).node(
        #[trigger] v.line()[i],
    ).value == SIGNAL_SIGNALED by {
        assert(v.w().live(v.line()[i]));
        assert(v.line().contains(v.line()[i]));
    }
}

/// An heir that is dropped passes the offer on: the next in line gets it.
pub proof fn dropped_heir_passes_on<T>(v: OnceView<T>, id: usize)
    requires
        v.ok(),
        v.settled(),
        v.pollable(id),
        v.node(id).value == SIGNAL_RETRY,
        v.line().len() > 0,
    ensures
        v.dropped(id).heirs.contains(v.line()[0]),
        v.dropped(id).node(v.line()[0]).value == SIGNAL_RETRY,
        !v.dropped(id).heirs.contains(id),
{
    assert(v.w().live(v.line()[0]));
    assert(v.line().contains(v.line()[0]));
}

} // verus!
