//! The operations of a mutex, each run from start to end with no other thread
//! in between.
use vstd::prelude::*;

use crate::mutex_core::{
    MutexGuard, MutexInternal, MutexView, OpenTurn, Owner, RemoveTurn, UnlockTurn,
};
use crate::keeps::{
    lemma_keeps_first, lemma_keeps_joined, lemma_keeps_left, lemma_keeps_node, lemma_keeps_queued,
    lemma_keeps_twice, lemma_node_ok,
};
use crate::pool::{returned, traded, QueuePool};
use crate::queue_word::Word;
use crate::sem_core::waiting;
use crate::signal::{
    Poll, SignalView, Wake, WakerSlot, Withdrawn, SIGNAL_INIT_WAITING, SIGNAL_RETURNED,
    SIGNAL_SIGNALED, SIGNAL_UNINIT,
};
use crate::sync_wait::{Stage, SyncStep, SyncWaiter, SyncWaiterView};
use crate::waiters::lemma_remove;

verus! {

/// How a blocking lock starts.
pub enum Lock<T> {
    /// The lock was free.
    Ready(MutexGuard<T>),
    /// The thread has to wait.
    Wait(SyncWaiter),
}

/// What a thread that waits for the lock does next.
pub enum LockStep<T> {
    /// Pause or park, and look again.
    Again(SyncStep),
    /// It has the lock.
    Done(MutexGuard<T>),
}

impl<T> MutexView<T> {
    /// The state after `entry` joined the line.
    pub open spec fn enqueued(self, entry: usize) -> MutexView<T> {
        MutexView { door: Word::Queue, waiters: self.waiters.pushed(entry), ..self }
    }

    /// The state after the guard was dropped with the value `data`: the first
    /// in line owns the lock, or nobody does.
    pub open spec fn unlocked(self, data: T) -> MutexView<T> {
        if self.line().len() == 0 {
            MutexView { door: Word::Unlocked, data: Some(data), owner: Owner::Nobody, ..self }
        } else {
            MutexView {
                waiters: self.waiters.popped_front(1).after_signal(
                    self.line()[0],
                    SIGNAL_SIGNALED,
                ),
                data: Some(data),
                owner: Owner::Granted(self.line()[0]),
                ..self
            }
        }
    }

    /// Whom to wake after that.
    pub open spec fn unlock_wakes(self) -> Seq<Wake> {
        if self.line().len() == 0 {
            Seq::empty()
        } else {
            seq![self.node(self.line()[0]).wake()]
        }
    }

    /// `id` is the node of a thread that waits for the lock.
    pub open spec fn sync_waits(self, id: usize) -> bool {
        &&& self.waiters.live(id)
        &&& self.node(id).value == SIGNAL_SIGNALED || waiting(self.node(id))
            && !self.waiters.idle(id)
    }

    /// A request that may be polled: fresh, queued (or its signal on its way),
    /// or owning the lock.
    pub open spec fn pollable(self, id: usize) -> bool {
        &&& self.waiters.live(id)
        &&& match self.node(id).value {
            SIGNAL_UNINIT => self.node(id).waker is Empty && self.waiters.idle(id),
            SIGNAL_INIT_WAITING => !self.waiters.idle(id),
            SIGNAL_SIGNALED => true,
            _ => false,
        }
    }

    /// A request that has been polled and not completed.
    pub open spec fn pending(self, id: usize) -> bool {
        self.pollable(id) && self.node(id).value != SIGNAL_UNINIT
    }

    /// A request that may be dropped: one that may be polled, or a completed
    /// one.
    pub open spec fn droppable(self, id: usize) -> bool {
        self.pollable(id) || self.waiters.idle(id) && self.node(id).value == SIGNAL_RETURNED
    }

    /// Everybody who waits or has a request, `but` aside, can go on in `after`
    /// as if nothing had happened.
    pub open spec fn keeps(self, after: MutexView<T>, but: Option<usize>) -> bool {
        &&& forall|id: usize|
            self.pollable(id) && but != Some(id) ==> #[trigger] after.pollable(id)
        &&& forall|id: usize|
            self.pending(id) && but != Some(id) ==> #[trigger] after.pending(id)
        &&& forall|id: usize|
            self.droppable(id) && but != Some(id) ==> #[trigger] after.droppable(id)
        &&& forall|id: usize|
            self.sync_waits(id) && but != Some(id) ==> #[trigger] after.sync_waits(id)
    }

    /// The node of a request once it is completed.
    pub open spec fn returned(self, id: usize) -> SignalView {
        SignalView { value: SIGNAL_RETURNED, ..self.node(id) }
    }

    /// The node of a task that waits.
    pub open spec fn armed(self, id: usize, waker: usize) -> SignalView {
        SignalView {
            value: SIGNAL_INIT_WAITING,
            waker: WakerSlot::Async(waker),
            ..self.node(id)
        }
    }

    /// The state after a request was dropped: a waiter leaves the line, and a
    /// lock that it owned is handed on.
    pub open spec fn dropped(self, id: usize) -> MutexView<T> {
        if self.waiters.popped.contains(id) {
            self
        } else if self.line().contains(id) {
            MutexView {
                waiters: self.waiters.removed(id).with_node(id, SignalView::dead()),
                ..self
            }
        } else if self.node(id).value == SIGNAL_SIGNALED {
            self.with_node(id, SignalView::dead()).unlocked(self.data->0)
        } else {
            self.with_node(id, SignalView::dead())
        }
    }
}

impl<T> MutexInternal<T> {
    /// Starts a blocking lock.
    pub fn lock(&mut self, thread: usize, pool: &mut QueuePool) -> (r: Lock<T>)
        requires
            old(self).wf(),
            old(self)@.quiet(),
            old(pool)@.serves(old(self).structure()),
        ensures
            final(self).wf(),
            lock_spec(old(self)@, thread, r, final(self)@),
            r matches Lock::Wait(waiter) ==> final(self)@.sync_waits(waiter@.entry),
            old(self)@.keeps(final(self)@, None),
            traded(old(pool)@, old(self).structure(), final(pool)@, final(self).structure()),
    {
        if let Some(guard) = self.try_lock() {
            return Lock::Ready(guard);
        }
        self.lock_slow(thread, pool)
    }

    fn lock_slow(&mut self, thread: usize, pool: &mut QueuePool) -> (r: Lock<T>)
        requires
            old(self).wf(),
            old(self)@.quiet(),
            old(pool)@.serves(old(self).structure()),
        ensures
            final(self).wf(),
            lock_spec(old(self)@, thread, r, final(self)@),
            r matches Lock::Wait(waiter) ==> final(self)@.sync_waits(waiter@.entry),
            old(self)@.keeps(final(self)@, None),
            traded(old(pool)@, old(self).structure(), final(pool)@, final(self).structure()),
    {
        match self.try_lock() {
            Some(guard) => Lock::Ready(guard),
            None => Lock::Wait(self.queue_up(thread, pool)),
        }
    }

    /// Queues a thread up for a lock that is not free.
    pub fn queue_up(&mut self, thread: usize, pool: &mut QueuePool) -> (r: SyncWaiter)
        requires
            old(self).wf(),
            old(self)@.quiet(),
            !(old(self)@.owner is Nobody),
            old(pool)@.serves(old(self).structure()),
        ensures
            final(self).wf(),
            lock_spec(old(self)@, thread, Lock::Wait(r), final(self)@),
            final(self)@.sync_waits(r@.entry),
            old(self)@.keeps(final(self)@, None),
            traded(old(pool)@, old(self).structure(), final(pool)@, final(self).structure()),
    {
        let ghost before = self@;
        self.open_queue(pool);
        let entry: usize = self.prepare_sync(thread);
        let first = self.push_and_publish(entry);
        proof {
            assert(self@ =~= before.with_new(entry, SignalView::fresh_sync(thread)).enqueued(
                entry,
            ));
            lemma_joined(before, entry, SignalView::fresh_sync(thread));
        }
        SyncWaiter::new(entry, first)
    }

    /// One look of a thread that waits for the lock.
    pub fn lock_step(&mut self, waiter: &mut SyncWaiter) -> (r: LockStep<T>)
        requires
            old(self).wf(),
            old(self)@.sync_waits(old(waiter)@.entry),
        ensures
            final(self).wf(),
            final(self).structure() == old(self).structure(),
            final(waiter)@ == old(waiter)@.after_step(old(self)@.node(old(waiter)@.entry).value),
            look_spec(old(self)@, old(waiter)@, r, final(self)@),
            r is Again ==> final(self)@.sync_waits(old(waiter)@.entry),
            old(self)@.keeps(final(self)@, Some(old(waiter)@.entry)),
    {
        let ghost before = self@;
        let entry: usize = waiter.entry();
        let step = self.sync_step(waiter);
        match step {
            SyncStep::Signaled(_) => {
                assert(self@ =~= before);
                let guard = self.claim(entry);
                self.discard(entry);
                assert(self@ =~= before.guarded().with_node(entry, SignalView::dead()));
                proof {
                    lemma_keeps_node(before.waiters, entry, SignalView::dead(), answers());
                    lemma_keeps(before, self@, Some(entry));
                }
                LockStep::Done(guard)
            },
            _ => {
                proof {
                    lemma_keeps_node(before.waiters, entry, self@.node(entry), answers());
                    lemma_keeps(before, self@, Some(entry));
                }
                LockStep::Again(step)
            },
        }
    }

    /// Polls a request for the lock.
    pub fn poll(
        &mut self,
        entry: usize,
        waker: usize,
        pool: &mut QueuePool,
    ) -> (r: Poll<MutexGuard<T>>)
        requires
            old(self).wf(),
            old(self)@.quiet(),
            old(self)@.pollable(entry),
            old(pool)@.serves(old(self).structure()),
        ensures
            final(self).wf(),
            poll_spec(old(self)@, entry, waker, r, final(self)@),
            r is Pending ==> final(self)@.pending(entry),
            final(self)@.droppable(entry),
            old(self)@.keeps(final(self)@, Some(entry)),
            traded(old(pool)@, old(self).structure(), final(pool)@, final(self).structure()),
    {
        let ghost before = self@;
        let sig_val: usize = self.value(entry);
        if branches::likely(sig_val >= SIGNAL_SIGNALED) {
            let guard = self.claim(entry);
            proof {
                lemma_keeps_node(before.waiters, entry, before.returned(entry), answers());
                lemma_keeps(before, self@, Some(entry));
            }
            return Poll::Ready(guard);
        }
        if branches::unlikely(sig_val == SIGNAL_INIT_WAITING) {
            self.arm(entry, waker);
            proof {
                lemma_keeps_node(before.waiters, entry, before.armed(entry, waker), answers());
                lemma_keeps(before, self@, Some(entry));
            }
            return Poll::Pending;
        }
        match self.open_queue(pool) {
            OpenTurn::Acquired(guard) => {
                self.complete(entry);
                proof {
                    lemma_keeps_node(before.waiters, entry, before.returned(entry), answers());
                    lemma_keeps(before, self@, Some(entry));
                }
                Poll::Ready(guard)
            },
            _ => {
                self.arm(entry, waker);
                self.push_and_publish(entry);
                assert(self@ =~= before.with_node(entry, before.armed(entry, waker)).enqueued(
                    entry,
                ));
                proof {
                    lemma_queued(before, entry, waker);
                }
                Poll::Pending
            },
        }
    }

    /// Drops a guard. Returns whom to wake.
    pub fn unlock(&mut self, guard: MutexGuard<T>, pool: &mut QueuePool) -> (r: Vec<Wake>)
        requires
            old(self).wf(),
            old(self)@.quiet(),
            old(self)@.owner is Guard,
            guard.source() == old(self)@.id,
            old(pool)@.lends(old(self).structure()),
        ensures
            final(self).wf(),
            final(self)@ == old(self)@.unlocked(guard@),
            r@ == old(self)@.unlock_wakes(),
            old(self)@.keeps(final(self)@, None),
            returned(old(pool)@, old(self).structure(), final(pool)@, final(self).structure()),
    {
        proof {
            unlock_keeps_requests(self@, guard@);
        }
        if self.begin_unlock(guard) == UnlockTurn::Done {
            return Vec::new();
        }
        self.unlock_slow(pool)
    }

    /// Hands the lock on to the first in line, or frees it.
    fn unlock_slow(&mut self, pool: &mut QueuePool) -> (r: Vec<Wake>)
        requires
            old(self).wf(),
            old(self)@.hold is Free,
            old(self)@.owner is Releasing,
            old(pool)@.lends(old(self).structure()),
        ensures
            final(self).wf(),
            final(self)@ == old(self)@.unlocked(old(self)@.data->0),
            r@ == old(self)@.unlock_wakes(),
            returned(old(pool)@, old(self).structure(), final(pool)@, final(self).structure()),
    {
        let ghost before = self@;
        self.take_queue();
        let mut wakes: Vec<Wake> = Vec::new();
        match self.hand_over(pool) {
            Some(entry) => {
                proof {
                    assert(before.line().take(1).contains(entry)) by {
                        assert(before.line().take(1)[0] == entry);
                    }
                }
                let wake = self.signal(entry);
                wakes.push(wake);
                assert(self@ =~= before.unlocked(before.data->0));
            },
            None => {
                assert(self@ =~= before.unlocked(before.data->0));
            },
        }
        wakes
    }

    /// Takes a waiter out of the line, wherever it stands. Returns whether it
    /// was in line.
    fn remove_from_queue(&mut self, entry: usize) -> (r: bool)
        requires
            old(self).wf(),
            old(self)@.quiet(),
        ensures
            final(self).wf(),
            final(self).structure() == old(self).structure(),
            r == old(self)@.line().contains(entry),
            r ==> final(self)@.waiters.idle(entry),
            final(self)@ == (MutexView {
                waiters: old(self)@.waiters.removed(entry),
                ..old(self)@
            }),
    {
        if self.begin_remove() == RemoveTurn::Held {
            self.remove_and_publish(entry)
        } else {
            false
        }
    }

    /// Drops a request for the lock, in whatever state it is.
    pub fn drop_request(&mut self, entry: usize, pool: &mut QueuePool) -> (r: Withdrawn)
        requires
            old(self).wf(),
            old(self)@.quiet(),
            old(self)@.droppable(entry),
            old(pool)@.lends(old(self).structure()),
        ensures
            final(self).wf(),
            (r is InFlight) == old(self)@.waiters.popped.contains(entry),
            final(self)@ == old(self)@.dropped(entry),
            r matches Withdrawn::Done(wakes) ==> wakes@ == if old(self)@.node(entry).value
                == SIGNAL_SIGNALED {
                old(self)@.unlock_wakes()
            } else {
                Seq::<Wake>::empty()
            },
            r is InFlight ==> final(self)@.droppable(entry),
            old(self)@.keeps(final(self)@, Some(entry)),
            returned(old(pool)@, old(self).structure(), final(pool)@, final(self).structure()),
    {
        let ghost before = self@;
        proof {
            drop_keeps_requests(before, entry);
            if before.line().contains(entry) {
                assert(waiting(before.node(before.line()[before.line().index_of(entry)])));
            }
        }
        let value: usize = self.value(entry);
        if value == SIGNAL_INIT_WAITING {
            if !self.remove_from_queue(entry) {
                return Withdrawn::InFlight;
            }
            self.discard(entry);
            assert(self@ =~= before.dropped(entry));
            return Withdrawn::Done(Vec::new());
        }
        if value == SIGNAL_SIGNALED {
            // The lock is ours: take it, and give it up again.
            let guard = self.claim(entry);
            self.discard(entry);
            let wakes = self.unlock(guard, pool);
            proof {
                if before.line().len() > 0 {
                    assert(before.line()[0] != entry) by {
                        assert(before.line().contains(before.line()[0]));
                    }
                }
                assert(self@ =~= before.dropped(entry));
            }
            return Withdrawn::Done(wakes);
        }
        self.discard(entry);
        Withdrawn::Done(Vec::new())
    }
}

/// What a waiter for the lock is told.
spec fn answers() -> Set<usize> {
    set![SIGNAL_SIGNALED]
}

/// Whoever is left alone by the waiters' account is left alone.
proof fn lemma_keeps<T>(v: MutexView<T>, after: MutexView<T>, but: Option<usize>)
    requires
        v.waiters.keeps(after.waiters, but, answers()),
    ensures
        v.keeps(after, but),
{
}

/// Nobody is disturbed by a waiter that is new and joins the line,
proof fn lemma_joined<T>(v: MutexView<T>, id: usize, node: SignalView)
    requires
        !v.waiters.live(id),
        id <= v.waiters.nodes.len(),
        waiting(node),
        node.live,
    ensures
        v.keeps(v.with_new(id, node).enqueued(id), None),
        v.with_new(id, node).enqueued(id).sync_waits(id),
{
    lemma_keeps_joined(v.waiters, id, node, answers());
    lemma_keeps(v, v.with_new(id, node).enqueued(id), None);
}

/// nor by a request that joins it,
proof fn lemma_queued<T>(v: MutexView<T>, id: usize, waker: usize)
    requires
        v.waiters.live(id),
    ensures
        v.keeps(v.with_node(id, v.armed(id, waker)).enqueued(id), Some(id)),
        v.with_node(id, v.armed(id, waker)).enqueued(id).pending(id),
{
    lemma_keeps_queued(v.waiters, id, v.armed(id, waker), answers());
    lemma_keeps(v, v.with_node(id, v.armed(id, waker)).enqueued(id), Some(id));
}

/// nor by an unlock, which answers the first in line.
pub proof fn unlock_keeps_requests<T>(v: MutexView<T>, data: T)
    requires
        v.ok(),
    ensures
        v.keeps(v.unlocked(data), None),
{
    if v.line().len() > 0 {
        lemma_keeps_first(v.waiters, SIGNAL_SIGNALED, answers());
    }
    lemma_keeps(v, v.unlocked(data), None);
}

/// Dropping one request disturbs no other.
pub proof fn drop_keeps_requests<T>(v: MutexView<T>, id: usize)
    requires
        v.ok(),
        v.quiet(),
        v.droppable(id),
    ensures
        v.keeps(v.dropped(id), Some(id)),
        v.waiters.popped.contains(id) ==> v.dropped(id).droppable(id),
{
    let w = v.waiters;
    let dead = w.with_node(id, SignalView::dead());
    lemma_keeps_node(w, id, SignalView::dead(), answers());
    if w.popped.contains(id) {
        lemma_keeps_node(w, id, v.node(id), answers());
        assert(w.with_node(id, v.node(id)) =~= w);
    } else if w.line.contains(id) {
        lemma_keeps_left(w, id, answers());
    } else if v.node(id).value == SIGNAL_SIGNALED && w.line.len() > 0 {
        lemma_node_ok(w, id, SignalView::dead());
        lemma_keeps_first(dead, SIGNAL_SIGNALED, answers());
        lemma_keeps_twice(w, dead, v.dropped(id).waiters, Some(id), None, Some(id), answers());
    }
    lemma_keeps(v, v.dropped(id), Some(id));
}

/// How a blocking lock starts, and the state after it.
pub open spec fn lock_spec<T>(
    v: MutexView<T>,
    thread: usize,
    r: Lock<T>,
    after: MutexView<T>,
) -> bool {
    match r {
        Lock::Ready(guard) => v.owner is Nobody && Some(guard@) == v.data && guard.source() == v.id
            && after == v.guarded(),
        Lock::Wait(waiter) => !(v.owner is Nobody) && waiter@.spins == 0 && waiter@.stage == (
        if v.line().len() == 0 {
            Stage::Spinning
        } else {
            Stage::Arming
        }) && v.waiters.vacant(waiter@.entry) && after == v.with_new(
            waiter@.entry,
            SignalView::fresh_sync(thread),
        ).enqueued(waiter@.entry),
    }
}

/// What a thread that waits for the lock does next, and the state after it: it
/// has the lock if it was signaled, and otherwise pauses or parks.
pub open spec fn look_spec<T>(
    v: MutexView<T>,
    waiter: SyncWaiterView,
    r: LockStep<T>,
    after: MutexView<T>,
) -> bool {
    let node = v.node(waiter.entry);
    match r {
        LockStep::Done(guard) => node.value == SIGNAL_SIGNALED && Some(guard@) == v.data
            && guard.source() == v.id && after == v.guarded().with_node(
            waiter.entry,
            SignalView::dead(),
        ),
        LockStep::Again(step) => node.value != SIGNAL_SIGNALED && step == waiter.step(node.value)
            && after == v.with_node(
            waiter.entry,
            (SignalView { value: waiter.value_after(node.value), ..node }),
        ),
    }
}

/// What a poll of the request `id` returns, and the state after it: the request
/// has the lock if it was signaled or comes to a free lock, and otherwise waits
/// in line.
pub open spec fn poll_spec<T>(
    v: MutexView<T>,
    id: usize,
    waker: usize,
    r: Poll<MutexGuard<T>>,
    after: MutexView<T>,
) -> bool {
    let node = v.node(id);
    &&& (r is Ready) == (node.value == SIGNAL_SIGNALED || node.value == SIGNAL_UNINIT
        && v.owner is Nobody)
    &&& match r {
        Poll::Ready(guard) => Some(guard@) == v.data && guard.source() == v.id && after
            == v.guarded().with_node(id, v.returned(id)),
        Poll::Pending => after == if node.value == SIGNAL_INIT_WAITING {
            v.with_node(id, v.armed(id, waker))
        } else {
            v.with_node(id, v.armed(id, waker)).enqueued(id)
        },
    }
}

/// Mutual exclusion: while a guard is out, no waiter has been given the lock,
/// and it is not free; otherwise at most one waiter has been given it.
pub proof fn mutual_exclusion<T>(v: MutexView<T>, a: usize, b: usize)
    requires
        v.ok(),
        v.waiters.live(a),
        v.waiters.live(b),
        v.waiters.popped.contains(a) || v.node(a).value == SIGNAL_SIGNALED,
        v.waiters.popped.contains(b) || v.node(b).value == SIGNAL_SIGNALED,
    ensures
        a == b,
        !(v.owner is Guard),
        !(v.owner is Nobody),
        v.data is Some,
{
}

/// Nobody waits at a free lock: when no thread is in the middle of an
/// operation and somebody is in line, a guard or a waiter that was signaled
/// owns the lock, and will hand it on.
pub proof fn no_stranded_waiter<T>(v: MutexView<T>)
    requires
        v.ok(),
        v.quiet(),
        v.line().len() > 0,
    ensures
        v.owner is Guard || v.owner is Granted,
        v.door is Queue,
{
}

/// The lock goes down the line in order: the first in line gets it from
/// whoever unlocks, with the value that was left in it, and everybody else
/// moves up by one.
pub proof fn handed_on_in_order<T>(v: MutexView<T>, data: T)
    requires
        v.ok(),
        v.quiet(),
        v.owner is Guard,
        v.line().len() > 0,
    ensures
        v.unlocked(data).owner == Owner::Granted(v.line()[0]),
        v.unlocked(data).node(v.line()[0]).value == SIGNAL_SIGNALED,
        v.unlocked(data).line() == v.line().skip(1),
        v.unlocked(data).data == Some(data),
        !(v.unlocked(data).owner is Nobody),
{
    assert(v.waiters.live(v.line()[0]));
}

/// Whoever unlocks with nobody in line leaves a free lock behind.
pub proof fn freed_when_nobody_waits<T>(v: MutexView<T>, data: T)
    requires
        v.ok(),
        v.quiet(),
        v.owner is Guard,
        v.line().len() == 0,
    ensures
        v.unlocked(data).owner is Nobody,
        v.unlocked(data).door is Unlocked,
        v.unlocked(data).data == Some(data),
{
}

/// Cancelling is safe: a request that is dropped while it waits leaves the
/// line, and everybody else keeps their place, signal and owner.
pub proof fn cancel_leaves_others<T>(v: MutexView<T>, id: usize, other: usize)
    requires
        v.ok(),
        v.quiet(),
        v.droppable(id),
        v.line().contains(id),
        other != id,
        v.waiters.live(other),
    ensures
        v.dropped(id).owner == v.owner,
        v.dropped(id).data == v.data,
        v.dropped(id).node(other) == v.node(other),
        v.dropped(id).line().contains(other) == v.line().contains(other),
        !v.dropped(id).line().contains(id),
{
    lemma_remove(v.line(), id);
    if v.waiters.popped.contains(id) {
        assert(!v.line().contains(id));
    }
}

/// Dropping a request that was given the lock hands the lock on: it never
/// stays with a request that is gone.
pub proof fn dropped_owner_hands_on<T>(v: MutexView<T>, id: usize)
    requires
        v.ok(),
        v.quiet(),
        v.waiters.live(id),
        v.node(id).value == SIGNAL_SIGNALED,
    ensures
        v.dropped(id).owner == if v.line().len() == 0 {
            Owner::Nobody
        } else {
            Owner::Granted(v.line()[0])
        },
        v.dropped(id).data == v.data,
{
    if v.line().contains(id) {
        assert(waiting(v.node(v.line()[v.line().index_of(id)])));
    }
    if v.waiters.popped.contains(id) {
        assert(waiting(v.node(id)));
    }
}

} // verus!
