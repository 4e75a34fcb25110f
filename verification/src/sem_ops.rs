//! The operations of a semaphore, each run from start to end with no other
//! thread in between.
use vstd::prelude::*;

use crate::pool::{returned, traded, visited, QueuePool};
use crate::queue_word::Word;
use crate::sem_core::{
    armed, completed, left_over, lemma_served, pay, sem_node_ok, serve, served, waiting,
    AcquireError, EnqueueResult, EnqueueTurn, SemCore, SemView, TryAcquireError,
};
use crate::sem_laws::{
    close_keeps_requests, drain_keeps_requests, drop_keeps_requests, node_keeps_requests,
    poll_keeps_requests, release_keeps_requests, settle_keeps_requests, start_keeps_requests,
};
use crate::sem_word::MAX_PERMITS;
use crate::signal::{
    Poll, SignalView, Wake, WakerSlot, Withdrawn, SIGNAL_CLOSED, SIGNAL_INIT_WAITING,
    SIGNAL_RETURNED, SIGNAL_SIGNALED, SIGNAL_UNINIT,
};
use crate::sync_wait::{after_sync_step, Stage, SyncStep, SyncWaiter, SyncWaiterView};
use crate::wait_queue::{LockAttempt, WaitQueueView};
use crate::waiters::lemma_remove;

verus! {

impl SemView {
    /// How many waiters the permits in stock suffice for.
    pub open spec fn serves(self) -> int {
        served(self.w(), self.permits, 0) as int
    }

    /// The state after the stock was handed to the line: the first waiters are
    /// served in full and signaled; the next one gets what is left; if there
    /// is no next one, what is left stays in stock.
    pub open spec fn drained(self) -> SemView {
        let w = self.w();
        let k = self.serves();
        let left = left_over(w, self.permits, 0);
        let short = k < w.line.len();
        if w.line.len() == 0 {
            SemView { owed: pay(self.owed), ..self }
        } else {
            SemView {
                permits: if short {
                    0
                } else {
                    left
                },
                flag: short,
                queue: WaitQueueView {
                    door: if short {
                        Word::Queue
                    } else {
                        Word::Unlocked
                    },
                    waiters: serve(
                        w,
                        k,
                        if short {
                            left
                        } else {
                            0
                        },
                    ).after_signals(w.line.take(k), SIGNAL_SIGNALED),
                },
                owed: pay(self.owed),
                ..self
            }
        }
    }

    /// Whom to wake after that.
    pub open spec fn drain_wakes(self) -> Seq<Wake> {
        self.w().wakes(self.line().take(self.serves()))
    }

    /// The state with `n` more permits, and one more thread that owes a drain
    /// if the waiter flag is set.
    pub open spec fn added(self, n: nat) -> SemView {
        SemView {
            permits: self.permits + n,
            owed: if self.flag {
                self.owed + 1
            } else {
                self.owed
            },
            ..self
        }
    }

    /// The state after a release of `n` permits.
    pub open spec fn released(self, n: nat) -> SemView {
        if n > 0 && self.flag {
            self.added(n).drained()
        } else {
            SemView { permits: self.permits + n, ..self }
        }
    }

    /// Whom to wake after that.
    pub open spec fn release_wakes(self, n: nat) -> Seq<Wake> {
        if n > 0 && self.flag {
            self.added(n).drain_wakes()
        } else {
            Seq::empty()
        }
    }

    /// The state after `entry` joined the line.
    pub open spec fn enqueued(self, entry: usize) -> SemView {
        SemView {
            flag: true,
            queue: WaitQueueView { door: Word::Queue, waiters: self.w().pushed(entry) },
            ..self
        }
    }

    /// `n` permits can be taken at once: they are there, and nobody is ahead.
    pub open spec fn grantable(self, n: usize) -> bool {
        !self.closed && self.line().len() == 0 && self.permits >= n
    }

    /// The state after the semaphore was closed.
    pub open spec fn shut(self) -> SemView {
        if self.closed || self.line().len() == 0 {
            SemView { closed: true, ..self }
        } else {
            SemView {
                closed: true,
                flag: false,
                queue: WaitQueueView {
                    door: Word::Unlocked,
                    waiters: self.w().popped_front(self.line().len() as int).after_signals(
                        self.line(),
                        SIGNAL_CLOSED,
                    ),
                },
                ..self
            }
        }
    }

    /// Whom to wake after that.
    pub open spec fn shut_wakes(self) -> Seq<Wake> {
        if self.closed {
            Seq::empty()
        } else {
            self.w().wakes(self.line())
        }
    }

    /// A request that may be polled: fresh, queued (or its signal on its way),
    /// or answered.
    pub open spec fn pollable(self, id: usize, n: usize) -> bool {
        &&& self.asked(id, n)
        &&& match self.node(id).value {
            SIGNAL_UNINIT => self.node(id).waker is Empty && self.w().idle(id),
            SIGNAL_INIT_WAITING => !self.w().idle(id),
            SIGNAL_SIGNALED => self.w().idle(id),
            SIGNAL_CLOSED => self.w().idle(id),
            _ => false,
        }
    }

    /// What a poll of the request returns.
    pub open spec fn poll_result(self, id: usize, n: usize) -> Poll<Result<(), AcquireError>> {
        match self.node(id).value {
            SIGNAL_INIT_WAITING => Poll::Pending,
            SIGNAL_SIGNALED => Poll::Ready(Ok(())),
            SIGNAL_CLOSED => Poll::Ready(Err(AcquireError::the())),
            _ => if self.closed {
                Poll::Ready(Err(AcquireError::the()))
            } else if self.grantable(n) {
                Poll::Ready(Ok(()))
            } else {
                Poll::Pending
            },
        }
    }

    /// The state after that poll.
    pub open spec fn polled(self, id: usize, n: usize, waker: usize) -> SemView {
        let node = self.node(id);
        let done = self.with_node(id, completed(node));
        match node.value {
            SIGNAL_INIT_WAITING => self.with_node(
                id,
                SignalView { waker: WakerSlot::Async(waker), ..node },
            ),
            SIGNAL_SIGNALED => done,
            SIGNAL_CLOSED => done.released(node.granted),
            _ => if self.closed {
                done
            } else if self.grantable(n) {
                SemView { permits: (self.permits - n) as nat, ..done }
            } else {
                self.with_node(id, armed(n, waker)).enqueued(id)
            },
        }
    }

    /// Whom to wake after that poll.
    pub open spec fn poll_wakes(self, id: usize) -> Seq<Wake> {
        if self.node(id).value == SIGNAL_CLOSED {
            self.with_node(id, completed(self.node(id))).release_wakes(self.node(id).granted)
        } else {
            Seq::empty()
        }
    }

    /// How a blocking acquisition of `n` permits starts, and the state after
    /// it.
    pub open spec fn acquire_spec(
        self,
        n: usize,
        thread: usize,
        r: Acquire,
        after: SemView,
    ) -> bool {
        if self.closed {
            r == Acquire::Ready(Err(AcquireError::the())) && after == self
        } else if self.grantable(n) {
            r == Acquire::Ready(Ok(())) && after == (SemView {
                permits: (self.permits - n) as nat,
                ..self
            })
        } else {
            &&& r matches Acquire::Wait(waiter) && waiter@.stage == (if self.line().len() == 0 {
                Stage::Spinning
            } else {
                Stage::Arming
            }) && waiter@.spins == 0 && self.w().vacant(waiter@.entry) && after == self.with_new(
                waiter@.entry,
                SignalView { aux: n, ..SignalView::fresh_sync(thread) },
            ).enqueued(waiter@.entry)
        }
    }

    /// `id` is the node of a thread that waits for `n` permits.
    pub open spec fn sync_waits(self, id: usize, n: usize) -> bool {
        &&& self.asked(id, n)
        &&& if self.w().idle(id) {
            self.node(id).value == SIGNAL_SIGNALED || self.node(id).value == SIGNAL_CLOSED
        } else {
            waiting(self.node(id))
        }
    }

    /// The state after a waiting thread looked: one that was answered is gone,
    /// and gives back what it was assigned if the semaphore was closed.
    pub open spec fn looked(self, waiter: SyncWaiterView) -> SemView {
        let node = self.node(waiter.entry);
        let gone = self.with_node(waiter.entry, SignalView::dead());
        match node.value {
            SIGNAL_SIGNALED => gone,
            SIGNAL_CLOSED => gone.released(node.granted),
            _ => SemView { queue: after_sync_step(self.queue, waiter), ..self },
        }
    }

    /// What a waiting thread does next, and the state after it.
    pub open spec fn step_spec(
        self,
        waiter: SyncWaiterView,
        r: AcquireStep,
        after: SemView,
    ) -> bool {
        let node = self.node(waiter.entry);
        let gone = self.with_node(waiter.entry, SignalView::dead());
        &&& after == self.looked(waiter)
        &&& match node.value {
            SIGNAL_SIGNALED => {
                &&& r matches AcquireStep::Done(result, wakes) && result == Ok::<
                    (),
                    AcquireError,
                >(()) && wakes@.len() == 0
            },
            SIGNAL_CLOSED => {
                &&& r matches AcquireStep::Done(result, wakes) && result == Err::<
                    (),
                    AcquireError,
                >(AcquireError::the()) && wakes@ == gone.release_wakes(node.granted)
            },
            _ => r == AcquireStep::Again(waiter.step(node.value)),
        }
    }

    /// The same, with the permits: if it is decided at once, they are taken at
    /// once or none is.
    pub open spec fn started(
        self,
        n: usize,
        thread: usize,
        r: Acquire,
        after: SemView,
    ) -> bool {
        &&& self.acquire_spec(n, thread, r, after)
        &&& after.total() == if r == Acquire::Ready(Ok(())) {
            self.total() - n
        } else {
            self.total() as int
        }
    }

    /// What a waiting thread does next, with the permits: it takes all it asked
    /// for along, or none.
    pub open spec fn stepped(
        self,
        waiter: SyncWaiterView,
        n: usize,
        r: AcquireStep,
        after: SemView,
    ) -> bool {
        &&& self.step_spec(waiter, r, after)
        &&& after.total() == if self.node(waiter.entry).value == SIGNAL_SIGNALED {
            self.total() - n
        } else {
            self.total() as int
        }
    }

    /// A request that may be dropped: fresh, queued (or its signal on its way),
    /// answered, or completed.
    pub open spec fn droppable(self, id: usize, n: usize) -> bool {
        &&& self.asked(id, n)
        &&& if self.w().idle(id) {
            match self.node(id).value {
                SIGNAL_UNINIT => self.node(id).waker is Empty,
                SIGNAL_SIGNALED => true,
                SIGNAL_CLOSED => true,
                SIGNAL_RETURNED => true,
                _ => false,
            }
        } else {
            self.node(id).value == SIGNAL_INIT_WAITING
        }
    }

    /// Everybody who waits or has a request, `but` aside, can go on in `after`
    /// as if nothing had happened.
    pub open spec fn keeps(self, after: SemView, but: Option<usize>) -> bool {
        &&& forall|id: usize, n: usize|
            self.pollable(id, n) && but != Some(id) ==> #[trigger] after.pollable(id, n)
        &&& forall|id: usize, n: usize|
            self.droppable(id, n) && but != Some(id) ==> #[trigger] after.droppable(id, n)
        &&& forall|id: usize, n: usize|
            self.sync_waits(id, n) && but != Some(id) ==> #[trigger] after.sync_waits(id, n)
    }

    /// The state after a waiter in line left it and gave its node back.
    pub open spec fn left_line(self, id: usize) -> SemView {
        let w = self.w().removed(id);
        SemView {
            flag: w.line.len() > 0,
            queue: WaitQueueView {
                door: if w.line.len() > 0 {
                    Word::Queue
                } else {
                    Word::Unlocked
                },
                waiters: w.with_node(id, SignalView::dead()),
            },
            ..self
        }
    }

    /// Leaving the line puts somebody else at its head.
    pub open spec fn passes_head(self, id: usize) -> bool {
        self.line().len() > 1 && self.line()[0] == id
    }

    /// The state after a request was dropped: a waiter leaves the line, and
    /// whatever was assigned to it goes back and on to the next in line.
    pub open spec fn dropped(self, id: usize) -> SemView {
        let granted = self.node(id).granted;
        if self.w().popped.contains(id) {
            self
        } else if self.line().contains(id) {
            if granted > 0 {
                self.left_line(id).released(granted)
            } else if self.passes_head(id) {
                (SemView { owed: self.owed + 1, ..self.left_line(id) }).drained()
            } else {
                self.left_line(id)
            }
        } else {
            self.with_node(id, SignalView::dead()).released(granted)
        }
    }

    /// Whom to wake after that.
    pub open spec fn drop_wakes(self, id: usize) -> Seq<Wake> {
        let granted = self.node(id).granted;
        if self.w().popped.contains(id) {
            Seq::empty()
        } else if self.line().contains(id) {
            if granted > 0 {
                self.left_line(id).release_wakes(granted)
            } else if self.passes_head(id) {
                self.left_line(id).drain_wakes()
            } else {
                Seq::empty()
            }
        } else {
            self.with_node(id, SignalView::dead()).release_wakes(granted)
        }
    }
}

/// How a blocking acquisition starts.
#[derive(Debug)]
pub enum Acquire {
    /// It is decided.
    Ready(Result<(), AcquireError>),
    /// The thread has to wait.
    Wait(SyncWaiter),
}

/// What a thread that waits for permits does next.
#[derive(Debug)]
pub enum AcquireStep {
    /// Pause or park, and look again.
    Again(SyncStep),
    /// It is decided; wake these.
    Done(Result<(), AcquireError>, Vec<Wake>),
}

impl SemCore {
    /// Hands the permits in stock to the line, in order. Returns whom to
    /// wake.
    pub fn drain(&mut self, pool: &mut QueuePool) -> (r: Vec<Wake>)
        requires
            old(self).wf(),
            old(self)@.quiet(),
            old(pool)@.lends(old(self).structure()),
        ensures
            final(self).wf(),
            final(self)@ == old(self)@.drained(),
            r@ == old(self)@.drain_wakes(),
            final(self)@.total() == old(self)@.total(),
            old(self)@.keeps(final(self)@, None),
            returned(old(pool)@, old(self).structure(), final(pool)@, final(self).structure()),
    {
        proof {
            drain_keeps_requests(self@);
        }
        let ghost before = self@;
        let attempt = self.begin_drain();
        if attempt != LockAttempt::Held {
            assert(before.drain_wakes() =~= Seq::<Wake>::empty());
            return Vec::new();
        }
        let available: usize = self.take_all();
        let ghost taken = self@;
        let (chain, rest) = self.serve(available);
        proof {
            lemma_served(before.w(), available as nat, 0);
            assert(taken.w() =~= before.w());
        }
        let ghost done = self@;
        let ghost k = before.serves();
        let ghost ids = chain@;
        self.give_back(rest);
        self.end(pool);
        proof {
            assert forall|i: int| 0 <= i < ids.len() implies before.line().contains(
                #[trigger] ids[i],
            ) && before.line().index_of(ids[i]) == i && before.w().live(ids[i]) by {
                assert(before.line()[i] == ids[i]);
                assert(before.line()[before.line().index_of(ids[i])] == ids[i]);
            }
            assert forall|i: int| 0 <= i < ids.len() implies self@.node(#[trigger] ids[i]).aux
                == 0 by {
                assert(before.line().index_of(ids[i]) == i);
            }
            assert(self@.w().wakes(ids) =~= before.w().wakes(ids)) by {
                assert forall|i: int| 0 <= i < ids.len() implies self@.w().nodes[(
                #[trigger] ids[i]) as int].wake() == before.w().nodes[ids[i] as int].wake() by {
                    assert(before.line().index_of(ids[i]) == i);
                }
            }
        }
        let wakes = self.signal_all(chain, SIGNAL_SIGNALED);
        assert(self@ =~= before.drained());
        wakes
    }

    /// Adds `n` permits to the stock and hands them to queued waiters. Returns
    /// whom to wake.
    pub fn release(&mut self, n: usize, pool: &mut QueuePool) -> (r: Vec<Wake>)
        requires
            old(self).wf(),
            old(self)@.quiet(),
            old(self)@.permits + n <= MAX_PERMITS,
            old(pool)@.lends(old(self).structure()),
        ensures
            final(self).wf(),
            final(self)@ == old(self)@.released(n as nat),
            r@ == old(self)@.release_wakes(n as nat),
            final(self)@.total() == old(self)@.total() + n,
            old(self)@.keeps(final(self)@, None),
            returned(old(pool)@, old(self).structure(), final(pool)@, final(self).structure()),
    {
        proof {
            release_keeps_requests(self@, n as nat);
        }
        if n == 0 {
            return Vec::new();
        }
        if self.add(n) {
            self.drain(pool)
        } else {
            Vec::new()
        }
    }

    /// Retries the acquisition with the queue held, and queues `entry` up if
    /// the permits are still not there.
    pub fn enqueue_or_acquire(
        &mut self,
        entry: usize,
        n: usize,
        pool: &mut QueuePool,
    ) -> (r: EnqueueResult)
        requires
            old(self).wf(),
            old(self)@.quiet(),
            n <= MAX_PERMITS,
            old(self)@.w().idle(entry),
            waiting(old(self)@.node(entry)),
            old(self)@.node(entry).granted == 0,
            old(self)@.node(entry).aux == n,
            old(pool)@.serves(old(self).structure()),
        ensures
            final(self).wf(),
            r == if old(self)@.closed {
                EnqueueResult::Closed
            } else if old(self)@.grantable(n) {
                EnqueueResult::Acquired
            } else {
                EnqueueResult::Enqueued(old(self)@.line().len() == 0)
            },
            final(self)@ == match r {
                EnqueueResult::Closed => old(self)@,
                EnqueueResult::Acquired => (SemView {
                    permits: (old(self)@.permits - n) as nat,
                    ..old(self)@
                }),
                EnqueueResult::Enqueued(_) => old(self)@.enqueued(entry),
            },
            if !(r is Enqueued) {
                visited(old(pool)@, old(self).structure(), final(pool)@, final(self).structure())
            } else {
                traded(old(pool)@, old(self).structure(), final(pool)@, final(self).structure())
            },
    {
        let ghost before = self@;
        proof {
            self.lemma_structure();
        }
        self.begin_enqueue(pool);
        proof {
            self.lemma_structure();
        }
        let cur: usize = self.mark();
        // No other thread comes in between, so the first look is the last.
        let turn = self.attempt(cur, n);
        match turn {
            EnqueueTurn::Closed => {
                self.end(pool);
                proof {
                    self.lemma_structure();
                }
                assert(self@ =~= before);
                EnqueueResult::Closed
            },
            EnqueueTurn::Acquired => {
                self.end(pool);
                proof {
                    self.lemma_structure();
                }
                assert(self@ =~= (SemView { permits: (before.permits - n) as nat, ..before }));
                EnqueueResult::Acquired
            },
            _ => {
                let first = self.push_entry(entry);
                self.end(pool);
                proof {
                    self.lemma_structure();
                }
                assert(self@ =~= before.enqueued(entry));
                EnqueueResult::Enqueued(first)
            },
        }
    }

    /// Closes the semaphore: fails all queued waiters and future acquires.
    /// Returns whom to wake.
    pub fn close(&mut self, pool: &mut QueuePool) -> (r: Vec<Wake>)
        requires
            old(self).wf(),
            old(self)@.quiet(),
            old(pool)@.lends(old(self).structure()),
        ensures
            final(self).wf(),
            final(self)@ == old(self)@.shut(),
            r@ == old(self)@.shut_wakes(),
            final(self)@.total() == old(self)@.total(),
            old(self)@.keeps(final(self)@, None),
            returned(old(pool)@, old(self).structure(), final(pool)@, final(self).structure()),
    {
        proof {
            close_keeps_requests(self@);
        }
        let ghost before = self@;
        if !self.start_close() {
            proof {
                assert(self@ =~= before.shut());
                assert(before.shut_wakes() =~= Seq::<Wake>::empty());
            }
            return Vec::new();
        }
        let attempt = self.begin_sweep();
        if attempt != LockAttempt::Held {
            return Vec::new();
        }
        let chain = self.pop_all();
        let ghost ids = chain@;
        self.end(pool);
        proof {
            assert(self@.w().nodes =~= before.w().nodes);
            assert(self@.w().wakes(ids) =~= before.w().wakes(ids));
        }
        let wakes = self.signal_all(chain, SIGNAL_CLOSED);
        assert(self@ =~= before.shut());
        wakes
    }

    /// Starts a blocking acquisition of `n` permits.
    pub fn acquire_sync(&mut self, n: usize, thread: usize, pool: &mut QueuePool) -> (r: Acquire)
        requires
            old(self).wf(),
            old(self)@.quiet(),
            old(self)@.closed || n <= MAX_PERMITS,
            old(pool)@.serves(old(self).structure()),
        ensures
            final(self).wf(),
            old(self)@.started(n, thread, r, final(self)@),
            r matches Acquire::Wait(waiter) ==> final(self)@.sync_waits(waiter@.entry, n),
            old(self)@.keeps(final(self)@, None),
            traded(old(pool)@, old(self).structure(), final(pool)@, final(self).structure()),
    {
        if branches::likely(self.try_acquire(n).is_ok()) {
            return Acquire::Ready(Ok(()));
        }
        self.acquire_sync_slow(n, thread, pool)
    }

    fn acquire_sync_slow(&mut self, n: usize, thread: usize, pool: &mut QueuePool) -> (r: Acquire)
        requires
            old(self).wf(),
            old(self)@.quiet(),
            old(self)@.closed || n <= MAX_PERMITS,
            old(pool)@.serves(old(self).structure()),
        ensures
            final(self).wf(),
            old(self)@.started(n, thread, r, final(self)@),
            r matches Acquire::Wait(waiter) ==> final(self)@.sync_waits(waiter@.entry, n),
            old(self)@.keeps(final(self)@, None),
            traded(old(pool)@, old(self).structure(), final(pool)@, final(self).structure()),
    {
        match self.try_acquire(n) {
            Ok(()) => return Acquire::Ready(Ok(())),
            Err(TryAcquireError::Closed) => return Acquire::Ready(Err(AcquireError::new())),
            Err(TryAcquireError::NoPermits) => {},
        }
        let ghost before = self@;
        let entry: usize = self.prepare_sync(n, thread);
        proof {
            start_keeps_requests(before, entry, n, thread);
        }
        let first = match self.enqueue_or_acquire(entry, n, pool) {
            EnqueueResult::Acquired => {
                self.discard(entry);
                return Acquire::Ready(Ok(()));
            },
            EnqueueResult::Closed => {
                self.discard(entry);
                return Acquire::Ready(Err(AcquireError::new()));
            },
            EnqueueResult::Enqueued(first) => first,
        };
        Acquire::Wait(SyncWaiter::new(entry, first))
    }

    /// One look of a thread that waits for `n` permits.
    pub fn acquire_step(
        &mut self,
        waiter: &mut SyncWaiter,
        n: usize,
        pool: &mut QueuePool,
    ) -> (r: AcquireStep)
        requires
            old(self).wf(),
            old(self)@.quiet(),
            old(self)@.sync_waits(old(waiter)@.entry, n),
            old(self)@.node(old(waiter)@.entry).value == SIGNAL_CLOSED
                ==> old(self)@.permits + old(self)@.node(old(waiter)@.entry).granted <= MAX_PERMITS,
            old(pool)@.lends(old(self).structure()),
        ensures
            final(self).wf(),
            final(waiter)@ == old(waiter)@.after_step(old(self)@.node(old(waiter)@.entry).value),
            old(self)@.stepped(old(waiter)@, n, r, final(self)@),
            r is Again ==> final(self)@.sync_waits(old(waiter)@.entry, n),
            old(self)@.keeps(final(self)@, Some(old(waiter)@.entry)),
            returned(old(pool)@, old(self).structure(), final(pool)@, final(self).structure()),
    {
        let ghost before = self@;
        let entry: usize = waiter.entry();
        let step = self.sync_step(waiter);
        proof {
            node_keeps_requests(before, entry, self@.node(entry));
            assert(self@ =~= before.with_node(entry, self@.node(entry)));
        }
        match step {
            SyncStep::Signaled(value) => {
                assert(self@ =~= before);
                let (result, wakes) = self.finish_sync(entry, n, value, pool);
                AcquireStep::Done(result, wakes)
            },
            _ => AcquireStep::Again(step),
        }
    }

    /// Ends a blocking acquisition whose signal is there. A thread that was
    /// failed by the closing gives back what it was assigned before.
    pub fn finish_sync(
        &mut self,
        entry: usize,
        n: usize,
        value: usize,
        pool: &mut QueuePool,
    ) -> (r: (
        Result<(), AcquireError>,
        Vec<Wake>,
    ))
        requires
            old(self).wf(),
            old(self)@.quiet(),
            old(self)@.asked(entry, n),
            old(self)@.w().idle(entry),
            value == old(self)@.node(entry).value,
            value == SIGNAL_SIGNALED || value == SIGNAL_CLOSED,
            value == SIGNAL_CLOSED ==> old(self)@.permits + old(self)@.node(entry).granted
                <= MAX_PERMITS,
            old(pool)@.lends(old(self).structure()),
        ensures
            final(self).wf(),
            value == SIGNAL_SIGNALED ==> r.0 == Ok::<(), AcquireError>(()) && r.1@.len() == 0
                && final(self)@ == old(self)@.with_node(entry, SignalView::dead())
                && final(self)@.total() == old(self)@.total() - n,
            value == SIGNAL_CLOSED ==> r.0 == Err::<(), AcquireError>(AcquireError::the()) && r.1@
                == old(self)@.with_node(entry, SignalView::dead()).release_wakes(
                old(self)@.node(entry).granted,
            ) && final(self)@ == old(self)@.with_node(entry, SignalView::dead()).released(
                old(self)@.node(entry).granted,
            ) && final(self)@.total() == old(self)@.total(),
            old(self)@.keeps(final(self)@, Some(entry)),
            returned(old(pool)@, old(self).structure(), final(pool)@, final(self).structure()),
    {
        proof {
            assert(sem_node_ok(self@.w().nodes[entry as int]));
            node_keeps_requests(self@, entry, SignalView::dead());
            settle_keeps_requests(self@, entry, SignalView::dead(), self@.node(entry).granted);
        }
        let remaining: usize = self.remaining(entry);
        self.discard(entry);
        if branches::likely(value == SIGNAL_SIGNALED) {
            (Ok(()), Vec::new())
        } else {
            let wakes = self.release(n - remaining, pool);
            (Err(AcquireError::new()), wakes)
        }
    }

    /// Polls a request for `n` permits.
    pub fn poll_acquire(
        &mut self,
        entry: usize,
        n: usize,
        waker: usize,
        pool: &mut QueuePool,
    ) -> (r: (
        Poll<Result<(), AcquireError>>,
        Vec<Wake>,
    ))
        requires
            old(self).wf(),
            old(self)@.quiet(),
            old(self)@.pollable(entry, n),
            old(self)@.closed || n <= MAX_PERMITS,
            old(self)@.node(entry).value == SIGNAL_CLOSED
                ==> old(self)@.permits + old(self)@.node(entry).granted <= MAX_PERMITS,
            old(pool)@.serves(old(self).structure()),
        ensures
            final(self).wf(),
            r.0 == old(self)@.poll_result(entry, n),
            r.1@ == old(self)@.poll_wakes(entry),
            final(self)@ == old(self)@.polled(entry, n, waker),
            final(self)@.total() == if r.0 == Poll::Ready(Ok::<(), AcquireError>(())) {
                old(self)@.total() - n
            } else {
                old(self)@.total() as int
            },
            r.0 is Pending ==> final(self)@.pollable(entry, n),
            final(self)@.droppable(entry, n),
            old(self)@.keeps(final(self)@, Some(entry)),
            traded(old(pool)@, old(self).structure(), final(pool)@, final(self).structure()),
    {
        proof {
            poll_keeps_requests(self@, entry, n, waker);
        }
        let ghost before = self@;
        proof {
            assert(sem_node_ok(self@.w().nodes[entry as int]));
            if before.line().contains(entry) {
                assert(waiting(before.node(before.line()[before.line().index_of(entry)])));
            }
        }
        let mut sig_val: usize = self.value(entry);
        if sig_val == SIGNAL_INIT_WAITING {
            match self.rearm(entry, waker) {
                Poll::Pending => return (Poll::Pending, Vec::new()),
                Poll::Ready(value) => sig_val = value,
            }
        }
        if branches::likely(sig_val >= SIGNAL_SIGNALED) {
            let remaining: usize = self.remaining(entry);
            self.complete(entry);
            if branches::unlikely(sig_val == SIGNAL_CLOSED) {
                let wakes = self.release(n - remaining, pool);
                return (Poll::Ready(Err(AcquireError::new())), wakes);
            }
            return (Poll::Ready(Ok(())), Vec::new());
        }
        match self.try_acquire(n) {
            Ok(()) => {
                self.complete(entry);
                assert(self@ =~= before.polled(entry, n, waker));
                return (Poll::Ready(Ok(())), Vec::new());
            },
            Err(TryAcquireError::Closed) => {
                self.complete(entry);
                return (Poll::Ready(Err(AcquireError::new())), Vec::new());
            },
            Err(TryAcquireError::NoPermits) => {},
        }
        self.arm(entry, n, waker);
        match self.enqueue_or_acquire(entry, n, pool) {
            EnqueueResult::Acquired => {
                self.complete(entry);
                (Poll::Ready(Ok(())), Vec::new())
            },
            EnqueueResult::Closed => {
                self.complete(entry);
                (Poll::Ready(Err(AcquireError::new())), Vec::new())
            },
            EnqueueResult::Enqueued(_) => (Poll::Pending, Vec::new()),
        }
    }

    /// Drops a request for `n` permits, in whatever state it is.
    pub fn drop_acquire(&mut self, entry: usize, n: usize, pool: &mut QueuePool) -> (r: Withdrawn)
        requires
            old(self).wf(),
            old(self)@.quiet(),
            old(self)@.droppable(entry, n),
            !old(self)@.w().popped.contains(entry)
                ==> old(self)@.permits + old(self)@.node(entry).granted <= MAX_PERMITS,
            old(pool)@.lends(old(self).structure()),
        ensures
            final(self).wf(),
            (r is InFlight) == old(self)@.w().popped.contains(entry),
            final(self)@ == old(self)@.dropped(entry),
            r matches Withdrawn::Done(wakes) ==> wakes@ == old(self)@.drop_wakes(entry),
            final(self)@.total() == old(self)@.total(),
            r is InFlight ==> final(self)@.droppable(entry, n),
            old(self)@.keeps(final(self)@, Some(entry)),
            returned(old(pool)@, old(self).structure(), final(pool)@, final(self).structure()),
    {
        proof {
            drop_keeps_requests(self@, entry, n);
        }
        let ghost before = self@;
        proof {
            assert(sem_node_ok(self@.w().nodes[entry as int]));
            if before.line().contains(entry) {
                assert(waiting(before.node(before.line()[before.line().index_of(entry)])));
            }
        }
        let value: usize = self.value(entry);
        if value == SIGNAL_INIT_WAITING {
            return self.cancel_acquire(entry, n, pool);
        }
        let granted: usize = if value == SIGNAL_SIGNALED {
            n
        } else if value == SIGNAL_CLOSED {
            n - self.remaining(entry)
        } else {
            0
        };
        self.discard(entry);
        Withdrawn::Done(self.release(granted, pool))
    }

    fn cancel_acquire(&mut self, entry: usize, n: usize, pool: &mut QueuePool) -> (r: Withdrawn)
        requires
            old(self).wf(),
            old(self)@.quiet(),
            old(self)@.asked(entry, n),
            old(self)@.node(entry).value == SIGNAL_INIT_WAITING,
            !old(self)@.w().idle(entry),
            !old(self)@.w().popped.contains(entry)
                ==> old(self)@.permits + old(self)@.node(entry).granted <= MAX_PERMITS,
            old(pool)@.lends(old(self).structure()),
        ensures
            final(self).wf(),
            (r is InFlight) == old(self)@.w().popped.contains(entry),
            final(self)@ == old(self)@.dropped(entry),
            r matches Withdrawn::Done(wakes) ==> wakes@ == old(self)@.drop_wakes(entry),
            final(self)@.total() == old(self)@.total(),
            returned(old(pool)@, old(self).structure(), final(pool)@, final(self).structure()),
    {
        let ghost before = self@;
        proof {
            assert(sem_node_ok(self@.w().nodes[entry as int]));
        }
        let attempt = self.begin_cancel();
        if attempt == LockAttempt::Held {
            let (found, head_changed) = self.remove_entry(entry);
            if found {
                proof {
                    let k = before.line().index_of(entry);
                    lemma_remove(before.line(), entry);
                    if before.node(entry).granted > 0 && k > 0 {
                        assert(before.node(before.line()[k]).granted == 0);
                    }
                    if before.line()[0] == entry {
                        assert(k == 0);
                    }
                }
                let granted: usize = n - self.remaining(entry);
                self.end(pool);
                self.discard(entry);
                assert(self@.permits == before.permits);
                let ghost left = before.left_line(entry);
                assert(self@ =~= (SemView { owed: self@.owed, ..left }));
                if granted > 0 {
                    if self.redistribute(granted, head_changed) {
                        assert(self@ =~= left.added(granted as nat));
                        return Withdrawn::Done(self.drain(pool));
                    }
                    assert(self@ =~= before.dropped(entry));
                    return Withdrawn::Done(Vec::new());
                }
                if head_changed {
                    return Withdrawn::Done(self.drain(pool));
                }
                return Withdrawn::Done(Vec::new());
            }
            self.end(pool);
            assert(self@ =~= before);
        }
        Withdrawn::InFlight
    }
}

} // verus!
