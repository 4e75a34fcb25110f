//! What the turns at a barrier do, seen from outside.
use vstd::prelude::*;

use crate::barrier_core::{ArriveOutcome, BarrierCore, BarrierView};
use crate::barrier_ops::RoundOutcome;
use crate::barrier_word::{generation, most_parties, ARRIVED_MASK, HALF};
use crate::generations::{born, lemma_older, older};
use crate::lines::{answered_front, came, ended, lemma_front, went, wrote};
use crate::pool::{fetched_and_returned, QueuePool};
use crate::pool_calls::{accounts, lemma_accounts};
use crate::signal::{Poll, Wake, WakerSlot, SIGNAL_ALL, SIGNAL_INIT_WAITING, SIGNAL_SIGNALED};
use crate::sync_wait::{SyncStep, SyncWaiter};
use crate::turns::{
    appends, came_with_thread, leaves, lemma_taken_out, lemma_tells, lemma_withdraws, taken_out,
    takes, tells, withdraws,
};
use crate::wait_calls::looks;
use crate::wait_queue::{LockAttempt, PoppedChain};

verus! {

/// Nothing but the queue has changed.
pub open spec fn rest_same(v: BarrierView, after: BarrierView) -> bool {
    &&& after.generation == v.generation
    &&& after.arrived == v.arrived
    &&& after.n == v.n
    &&& after.owed == v.owed
}

/// `BarrierCore::begin_enqueue`: the queue is got, fetched from the pool if there is
/// none, or somebody else has it.
pub proof fn begin_enqueue(s: &mut BarrierCore, pool: &mut QueuePool, r: LockAttempt)
    requires
        s.wf(),
        call_ensures(BarrierCore::begin_enqueue, (s, pool), r),
    ensures
        takes(old(s)@.queue, true, r, final(s)@.queue),
        rest_same(old(s)@, final(s)@),
        accounts(old(pool)@, old(s).structure(), final(pool)@, final(s).structure()),
{
    lemma_accounts(pool@, s.structure(), final(pool)@, final(s).structure());
}

/// `BarrierCore::begin_remove`: the queue is got, if there is one and nobody else has it.
pub proof fn begin_remove(s: &mut BarrierCore, r: LockAttempt)
    requires
        s.wf(),
        call_ensures(BarrierCore::begin_remove, (s,), r),
    ensures
        takes(old(s)@.queue, false, r, final(s)@.queue),
        rest_same(old(s)@, final(s)@),
{
}

/// `BarrierCore::begin_release`: the same, and unless somebody else has the queue the
/// caller owes the line one look less.
pub proof fn begin_release(s: &mut BarrierCore, r: LockAttempt)
    requires
        s.wf(),
        call_ensures(BarrierCore::begin_release, (s,), r),
    ensures
        takes(old(s)@.queue, false, r, final(s)@.queue),
        rest_same(old(s)@, (BarrierView { owed: old(s)@.owed, ..final(s)@ })),
        final(s)@.owed == if r is Busy || old(s)@.owed == 0 {
            old(s)@.owed as int
        } else {
            old(s)@.owed - 1
        },
{
}

/// `BarrierCore::end`: see [`leaves`]. What is given up is back in the pool.
pub proof fn end(s: &mut BarrierCore, pool: &mut QueuePool)
    requires
        s.wf(),
        !(s@.hold is Free),
        call_ensures(BarrierCore::end, (s, pool), ()),
    ensures
        leaves(old(s)@.queue, final(s)@.queue),
        rest_same(old(s)@, final(s)@),
        accounts(old(pool)@, old(s).structure(), final(pool)@, final(s).structure()),
{
    lemma_accounts(pool@, s.structure(), final(pool)@, final(s).structure());
}

/// `BarrierCore::prepare_async` and `prepare_sync`: a new node; nothing else happens.
pub proof fn prepare(s: &mut BarrierCore, thread: usize, entry: usize)
    requires
        s.wf(),
    ensures
        call_ensures(BarrierCore::prepare_async, (s,), entry) ==> came(
            old(s)@.queue.waiters,
            final(s)@.queue.waiters,
            entry,
        ) && rest_same(old(s)@, final(s)@),
        call_ensures(BarrierCore::prepare_sync, (s, thread), entry) ==> came_with_thread(
            old(s)@.queue.waiters,
            final(s)@.queue.waiters,
            entry,
            thread,
        ) && rest_same(old(s)@, final(s)@),
{
    let w = s@.queue.waiters;
    if w.popped.contains(entry) {
        assert(w.live(entry));
    }
}

/// `BarrierCore::value`: what was told.
pub proof fn value(s: &BarrierCore, entry: usize, r: usize)
    requires
        call_ensures(BarrierCore::value, (s, entry), r),
    ensures
        r == s@.queue.waiters.nodes[entry as int].value,
{
}

/// `BarrierCore::discard`: the node is free; nothing else happens.
pub proof fn discard(s: &mut BarrierCore, entry: usize)
    requires
        s.wf(),
        s@.w().idle(entry),
        call_ensures(BarrierCore::discard, (s, entry), ()),
    ensures
        went(old(s)@.queue.waiters, final(s)@.queue.waiters, entry),
        rest_same(old(s)@, final(s)@),
{
}

/// `BarrierCore::complete`: the request is over; nothing else happens.
pub proof fn complete(s: &mut BarrierCore, entry: usize)
    requires
        s.wf(),
        s@.w().idle(entry),
        call_ensures(BarrierCore::complete, (s, entry), ()),
    ensures
        ended(old(s)@.queue.waiters, final(s)@.queue.waiters, entry),
        rest_same(old(s)@, final(s)@),
{
}

/// `BarrierCore::sync_step`: an answer is handed out as it is; a thread that parks has
/// announced that; nothing else is written.
pub proof fn sync_step(s: &mut BarrierCore, waiter: &mut SyncWaiter, r: SyncStep)
    requires
        s.wf(),
        s@.w().live(waiter@.entry),
        waiter@.stage is Parked ==> s@.node(waiter@.entry).value >= SIGNAL_INIT_WAITING,
        call_ensures(BarrierCore::sync_step, (s, waiter), r),
    ensures
        rest_same(old(s)@, final(s)@),
        match r {
            SyncStep::Signaled(value) => {
                &&& value == old(s)@.queue.waiters.nodes[old(waiter)@.entry as int].value
                &&& value >= SIGNAL_SIGNALED
                &&& final(waiter)@ == old(waiter)@
                &&& final(s)@.queue.waiters == old(s)@.queue.waiters
            },
            SyncStep::Pause(_) => {
                &&& looks(old(waiter)@, r, final(waiter)@)
                &&& final(s)@.queue.waiters == old(s)@.queue.waiters
            },
            SyncStep::Park => {
                &&& looks(old(waiter)@, r, final(waiter)@)
                &&& wrote(
                    old(s)@.queue.waiters,
                    final(s)@.queue.waiters,
                    old(waiter)@.entry,
                    SIGNAL_INIT_WAITING,
                    old(s)@.queue.waiters.nodes[old(waiter)@.entry as int].waker,
                )
            },
        },
{
    if !(r is Park) {
        assert(final(s)@.queue.waiters.nodes =~= s@.queue.waiters.nodes);
    }
}

/// `BarrierCore::signal_all`: see [`tells`].
pub proof fn signal_all(s: &mut BarrierCore, chain: PoppedChain, value: usize, r: Vec<Wake>)
    requires
        s.wf(),
        s@.w().owns_chain(chain@),
        call_ensures(BarrierCore::signal_all, (s, chain, value), r),
    ensures
        tells(old(s)@.queue.waiters, final(s)@.queue.waiters, chain@, value, r@),
        rest_same(old(s)@, final(s)@),
{
    lemma_tells(s@.queue.waiters, chain@, value);
}

/// `BarrierCore::remove_entry`: see [`withdraws`].
pub proof fn remove_entry(s: &mut BarrierCore, entry: usize, r: bool)
    requires
        s.wf(),
        call_ensures(BarrierCore::remove_entry, (s, entry), r),
    ensures
        withdraws(old(s)@.queue.waiters, final(s)@.queue.waiters, entry, r),
        rest_same(old(s)@, final(s)@),
{
    lemma_withdraws(s@.queue.waiters, entry);
}

/// `BarrierCore::arm`: the task waits from now on, to be woken with this waker.
pub proof fn arm(s: &mut BarrierCore, entry: usize, waker: usize)
    requires
        s.wf(),
        s@.w().live(entry),
        call_ensures(BarrierCore::arm, (s, entry, waker), ()),
    ensures
        wrote(
            old(s)@.queue.waiters,
            final(s)@.queue.waiters,
            entry,
            SIGNAL_INIT_WAITING,
            WakerSlot::Async(waker),
        ),
        rest_same(old(s)@, final(s)@),
{
}

/// `BarrierCore::rearm`: a waker that is still there is replaced; one that is gone means
/// that the answer is there, and nothing is written.
pub proof fn rearm(s: &mut BarrierCore, entry: usize, waker: usize, r: Poll<usize>)
    requires
        s.wf(),
        s@.w().live(entry),
        call_ensures(BarrierCore::rearm, (s, entry, waker), r),
    ensures
        (r is Ready) == (old(s)@.queue.waiters.nodes[entry as int].waker is Empty),
        match r {
            Poll::Ready(value) => value == old(s)@.queue.waiters.nodes[entry as int].value
                && final(s)@ == old(s)@,
            Poll::Pending => wrote(
                old(s)@.queue.waiters,
                final(s)@.queue.waiters,
                entry,
                old(s)@.queue.waiters.nodes[entry as int].value,
                WakerSlot::Async(waker),
            ) && rest_same(old(s)@, final(s)@),
        },
{
}

/// `BarrierCore::push_entry`: see [`appends`]. The waiter waits for a later generation
/// than `generation`.
pub proof fn push_entry(s: &mut BarrierCore, entry: usize, generation: usize)
    requires
        s.wf(),
        s@.w().idle(entry),
        call_ensures(BarrierCore::push_entry, (s, entry, generation), ()),
    ensures
        appends(old(s)@.queue.waiters, final(s)@.queue.waiters, entry),
        final(s)@.queue.waiters.nodes[entry as int].aux == generation,
        final(s)@.queue.waiters.nodes[entry as int].value
            == old(s)@.queue.waiters.nodes[entry as int].value,
        final(s)@.queue.waiters.nodes[entry as int].waker
            == old(s)@.queue.waiters.nodes[entry as int].waker,
        rest_same(old(s)@, final(s)@),
{
}

/// `BarrierCore::pop_older`: everybody of an older generation is out of the line, in
/// order, and nobody of the current one.
pub proof fn pop_older(s: &mut BarrierCore, chain: PoppedChain)
    requires
        s.wf(),
        call_ensures(BarrierCore::pop_older, (s,), chain),
    ensures
        taken_out(old(s)@.queue.waiters, final(s)@.queue.waiters, chain@.len() as int),
        forall|i: int|
            0 <= i < chain@.len() ==> #[trigger] chain@[i] == old(s)@.queue.waiters.line[i]
                && old(s)@.queue.waiters.nodes[chain@[i] as int].aux != old(s)@.generation,
        forall|i: int|
            0 <= i < final(s)@.queue.waiters.line.len()
                ==> final(s)@.queue.waiters.nodes[#[trigger] final(s)@.queue.waiters.line[i] as int].aux
                == old(s)@.generation,
        rest_same(old(s)@, final(s)@),
{
    let v = s@;
    let w = v.w();
    let k = older(w, v.generation, 0) as int;
    lemma_older(w, v.generation, 0);
    lemma_taken_out(w, k);
    let line = final(s)@.w().line;
    assert forall|i: int| 0 <= i < line.len() implies w.nodes[#[trigger] line[i] as int].aux
        == v.generation by {
        assert(born(w, k) == v.generation);
        if i > 0 {
            assert(born(w, i + k) == v.generation);
        }
    }
}

/// `generation`: the upper half of the word, whatever the lower half holds.
pub proof fn word_generation(g: usize, arrived: usize, r: usize)
    requires
        g <= ARRIVED_MASK,
        arrived <= ARRIVED_MASK,
        call_ensures(generation, ((g << HALF) | arrived,), r),
    ensures
        r == g,
{
    crate::barrier_word::generation_ignores_arrivals(g, arrived);
}

/// `BarrierCore::arrive`: the last to arrive leads the round of that generation and
/// begins the next one, with nobody there; any other arrival is counted.
pub proof fn arrive(s: &mut BarrierCore, r: ArriveOutcome)
    requires
        s.wf(),
        call_ensures(BarrierCore::arrive, (s,), r),
    ensures
        final(s)@.queue == old(s)@.queue,
        final(s)@.n == old(s)@.n,
        match r {
            ArriveOutcome::Leader { generation } => {
                &&& generation == old(s)@.generation
                &&& old(s)@.arrived + 1 == old(s)@.n
                &&& final(s)@.arrived == 0
                &&& final(s)@.owed == old(s)@.owed + 1
                &&& if final(s)@.generation == 0 {
                    generation == most_parties()
                } else {
                    final(s)@.generation == generation + 1
                }
            },
            ArriveOutcome::Wait { generation } => {
                &&& generation == old(s)@.generation
                &&& old(s)@.arrived + 1 < old(s)@.n
                &&& final(s)@.arrived == old(s)@.arrived + 1
                &&& final(s)@.owed == old(s)@.owed
                &&& final(s)@.generation == generation
            },
        },
{
    crate::barrier_word::lemma_most_parties();
}

/// `BarrierCore::withdraw`: an arrival is taken back exactly while its round is still
/// forming.
pub proof fn withdraw(s: &mut BarrierCore, generation: usize, r: bool)
    requires
        s.wf(),
        generation == s@.generation ==> s@.arrived > 0,
        call_ensures(BarrierCore::withdraw, (s, generation), r),
    ensures
        r == (generation == old(s)@.generation),
        final(s)@.arrived + if r {
            1int
        } else {
            0
        } == old(s)@.arrived,
        final(s)@.generation == old(s)@.generation,
        final(s)@.n == old(s)@.n,
        final(s)@.owed == old(s)@.owed,
        final(s)@.queue == old(s)@.queue,
{
}

/// An arrival that has to wait and is taken back leaves no trace.
pub proof fn arrived_and_withdrawn(
    s: &mut BarrierCore,
    generation: usize,
    s1: &mut BarrierCore,
    r: bool,
)
    requires
        s.wf(),
        call_ensures(BarrierCore::arrive, (s,), (ArriveOutcome::Wait { generation })),
        *s1 == *final(s),
        call_ensures(BarrierCore::withdraw, (s1, generation), r),
    ensures
        r,
        rest_same(old(s)@, final(s1)@),
        final(s1)@.queue == old(s)@.queue,
{
}

/// `BarrierCore::fresh` and `round`: the generation of the round that is forming, and of
/// the one that a waiter waits for.
pub proof fn fresh(s: &mut BarrierCore, r: usize, s1: &BarrierCore, entry: usize, round: usize)
    requires
        s.wf(),
        call_ensures(BarrierCore::fresh, (s,), r),
        call_ensures(BarrierCore::round, (s1, entry), round),
    ensures
        r == old(s)@.generation,
        rest_same(old(s)@, final(s)@),
        final(s)@.queue == old(s)@.queue,
        round == s1@.queue.waiters.nodes[entry as int].aux,
{
}

/// `BarrierCore::release_waiters`: everybody whose round is over is released and woken,
/// in order, and nobody else.
pub proof fn release_waiters(s: &mut BarrierCore, pool: &mut QueuePool, r: Vec<Wake>)
    requires
        s.wf(),
        call_ensures(BarrierCore::release_waiters, (s, pool), r),
    ensures
        answered_front(
            old(s)@.queue.waiters,
            final(s)@.queue.waiters,
            r@.len() as int,
            SIGNAL_ALL,
            r@,
        ),
        forall|i: int|
            0 <= i < r@.len()
                ==> old(s)@.queue.waiters.nodes[#[trigger] old(s)@.queue.waiters.line[i] as int].aux
                != old(s)@.generation,
        forall|i: int|
            r@.len() <= i < old(s)@.queue.waiters.line.len()
                ==> old(s)@.queue.waiters.nodes[#[trigger] old(s)@.queue.waiters.line[i] as int].aux
                == old(s)@.generation,
        final(s)@.generation == old(s)@.generation,
        final(s)@.arrived == old(s)@.arrived,
        final(s)@.n == old(s)@.n,
{
    let v = s@;
    let w = v.w();
    let k = older(w, v.generation, 0) as int;
    lemma_older(w, v.generation, 0);
    lemma_front(w, k, SIGNAL_ALL);
    assert forall|i: int| k <= i < w.line.len() implies w.nodes[#[trigger] w.line[i] as int].aux
        == v.generation by {
        assert(born(w, k) == v.generation);
        if i > k {
            assert(born(w, i) == v.generation);
        }
    }
}

/// `BarrierCore::enqueue_or_complete`: nobody queues up for a round that is over.
pub proof fn enqueue_or_complete(
    s: &mut BarrierCore,
    entry: usize,
    generation: usize,
    pool: &mut QueuePool,
    r: RoundOutcome,
)
    requires
        s.wf(),
        s@.w().idle(entry),
        call_ensures(BarrierCore::enqueue_or_complete, (s, entry, generation, pool), r),
        pool@.serves(s.structure()),
    ensures
        rest_same(old(s)@, final(s)@),
        match r {
            RoundOutcome::Completed => {
                &&& generation != old(s)@.generation
                &&& final(s)@.queue == old(s)@.queue
            },
            RoundOutcome::Enqueued => {
                &&& generation == old(s)@.generation
                &&& appends(old(s)@.queue.waiters, final(s)@.queue.waiters, entry)
                &&& final(s)@.queue.waiters.nodes[entry as int].aux == generation
            },
        },
        !(r is Completed) ==> accounts(
            old(pool)@,
            old(s).structure(),
            final(pool)@,
            final(s).structure(),
        ),
        r is Completed ==> final(s).structure() == old(s).structure() && final(pool)@.out
            == old(pool)@.out,
{
    if r is Completed {
        if s.structure() is None {
            fetched_and_returned(pool@);
        }
    } else {
        lemma_accounts(pool@, s.structure(), final(pool)@, final(s).structure());
    }
}

} // verus!
