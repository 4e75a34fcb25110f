//! What the turns at a notifier do, seen from outside.
use vstd::prelude::*;

use crate::generations::{born, lemma_older, older};
use crate::lines::{came, ended, went, wrote};
use crate::notify_core::{generation, NotifyCore, NotifyView, WaitTurn, GEN_LAST};
use crate::notify_ops::WaitOutcome;
use crate::pool::{fetched_and_returned, QueuePool};
use crate::pool_calls::{accounts, lemma_accounts};
use crate::signal::{Wake, WakerSlot, SIGNAL_INIT_WAITING, SIGNAL_SIGNALED};
use crate::sync_wait::{SyncStep, SyncWaiter};
use crate::turns::{
    appends, came_with_thread, leaves, lemma_taken_out, lemma_tells, lemma_tells_one,
    lemma_withdraws, taken_out, takes, tells, withdraws,
};
use crate::wait_calls::looks;
use crate::wait_queue::{LockAttempt, PoppedChain};

verus! {

/// Nothing but the queue has changed.
pub open spec fn rest_same(v: NotifyView, after: NotifyView) -> bool {
    &&& after.generation == v.generation
    &&& after.permit == v.permit
    &&& after.flag == v.flag
    &&& after.owed == v.owed
}

/// `NotifyCore::begin_enqueue`: the queue is got, fetched from the pool if there is none,
/// or somebody else has it.
pub proof fn begin_enqueue(s: &mut NotifyCore, pool: &mut QueuePool, r: LockAttempt)
    requires
        s.wf(),
        call_ensures(NotifyCore::begin_enqueue, (s, pool), r),
    ensures
        takes(old(s)@.queue, true, r, final(s)@.queue),
        rest_same(old(s)@, final(s)@),
        accounts(old(pool)@, old(s).structure(), final(pool)@, final(s).structure()),
{
    lemma_accounts(pool@, s.structure(), final(pool)@, final(s).structure());
}

/// `NotifyCore::begin_one`: the queue is got, if there is one and nobody else has it.
pub proof fn begin_one(s: &mut NotifyCore, r: LockAttempt)
    requires
        s.wf(),
        call_ensures(NotifyCore::begin_one, (s,), r),
    ensures
        takes(old(s)@.queue, false, r, final(s)@.queue),
        rest_same(old(s)@, final(s)@),
{
}

/// `NotifyCore::begin_remove`: the queue is got, if there is one and nobody else has it.
pub proof fn begin_remove(s: &mut NotifyCore, r: LockAttempt)
    requires
        s.wf(),
        call_ensures(NotifyCore::begin_remove, (s,), r),
    ensures
        takes(old(s)@.queue, false, r, final(s)@.queue),
        rest_same(old(s)@, final(s)@),
{
}

/// `NotifyCore::begin_all`: the same, and unless somebody else has the queue the caller
/// owes the line one look less.
pub proof fn begin_all(s: &mut NotifyCore, r: LockAttempt)
    requires
        s.wf(),
        call_ensures(NotifyCore::begin_all, (s,), r),
    ensures
        takes(old(s)@.queue, false, r, final(s)@.queue),
        rest_same(old(s)@, (NotifyView { owed: old(s)@.owed, ..final(s)@ })),
        final(s)@.owed == if r is Busy || old(s)@.owed == 0 {
            old(s)@.owed as int
        } else {
            old(s)@.owed - 1
        },
{
}

/// `NotifyCore::end`: see [`leaves`]. What is given up is back in the pool, and the
/// waiter flag says whether somebody is in line.
pub proof fn end(s: &mut NotifyCore, pool: &mut QueuePool)
    requires
        s.wf(),
        !(s@.hold is Free),
        call_ensures(NotifyCore::end, (s, pool), ()),
    ensures
        leaves(old(s)@.queue, final(s)@.queue),
        rest_same(old(s)@, (NotifyView { flag: old(s)@.flag, ..final(s)@ })),
        final(s)@.flag == (final(s)@.queue.waiters.line.len() > 0),
        accounts(old(pool)@, old(s).structure(), final(pool)@, final(s).structure()),
{
    lemma_accounts(pool@, s.structure(), final(pool)@, final(s).structure());
}

/// `NotifyCore::prepare_async` and `prepare_sync`: a new node; nothing else happens.
pub proof fn prepare(s: &mut NotifyCore, thread: usize, entry: usize)
    requires
        s.wf(),
    ensures
        call_ensures(NotifyCore::prepare_async, (s,), entry) ==> came(
            old(s)@.queue.waiters,
            final(s)@.queue.waiters,
            entry,
        ) && rest_same(old(s)@, final(s)@),
        call_ensures(NotifyCore::prepare_sync, (s, thread), entry) ==> came_with_thread(
            old(s)@.queue.waiters,
            final(s)@.queue.waiters,
            entry,
            thread,
        ) && rest_same(old(s)@, final(s)@),
{
    let w = s@.queue.waiters;
    if w.popped.contains(entry) {
        assert(w.live(entry));
    }
}

/// `NotifyCore::value`: what was told.
pub proof fn value(s: &NotifyCore, entry: usize, r: usize)
    requires
        call_ensures(NotifyCore::value, (s, entry), r),
    ensures
        r == s@.queue.waiters.nodes[entry as int].value,
{
}

/// `NotifyCore::discard`: the node is free; nothing else happens.
pub proof fn discard(s: &mut NotifyCore, entry: usize)
    requires
        s.wf(),
        s@.w().idle(entry),
        call_ensures(NotifyCore::discard, (s, entry), ()),
    ensures
        went(old(s)@.queue.waiters, final(s)@.queue.waiters, entry),
        rest_same(old(s)@, final(s)@),
{
}

/// `NotifyCore::complete`: the request is over; nothing else happens.
pub proof fn complete(s: &mut NotifyCore, entry: usize)
    requires
        s.wf(),
        s@.w().idle(entry),
        call_ensures(NotifyCore::complete, (s, entry), ()),
    ensures
        ended(old(s)@.queue.waiters, final(s)@.queue.waiters, entry),
        rest_same(old(s)@, final(s)@),
{
}

/// `NotifyCore::sync_step`: an answer is handed out as it is; a thread that parks has
/// announced that; nothing else is written.
pub proof fn sync_step(s: &mut NotifyCore, waiter: &mut SyncWaiter, r: SyncStep)
    requires
        s.wf(),
        s@.w().live(waiter@.entry),
        waiter@.stage is Parked ==> s@.node(waiter@.entry).value >= SIGNAL_INIT_WAITING,
        call_ensures(NotifyCore::sync_step, (s, waiter), r),
    ensures
        rest_same(old(s)@, final(s)@),
        match r {
            SyncStep::Signaled(value) => {
                &&& value == old(s)@.queue.waiters.nodes[old(waiter)@.entry as int].value
                &&& value >= SIGNAL_SIGNALED
                &&& final(waiter)@ == old(waiter)@
                &&& final(s)@.queue.waiters == old(s)@.queue.waiters
            },
            SyncStep::Pause(_) => {
                &&& looks(old(waiter)@, r, final(waiter)@)
                &&& final(s)@.queue.waiters == old(s)@.queue.waiters
            },
            SyncStep::Park => {
                &&& looks(old(waiter)@, r, final(waiter)@)
                &&& wrote(
                    old(s)@.queue.waiters,
                    final(s)@.queue.waiters,
                    old(waiter)@.entry,
                    SIGNAL_INIT_WAITING,
                    old(s)@.queue.waiters.nodes[old(waiter)@.entry as int].waker,
                )
            },
        },
{
    if !(r is Park) {
        assert(final(s)@.queue.waiters.nodes =~= s@.queue.waiters.nodes);
    }
}

/// `NotifyCore::signal_all`: see [`tells`].
pub proof fn signal_all(s: &mut NotifyCore, chain: PoppedChain, value: usize, r: Vec<Wake>)
    requires
        s.wf(),
        s@.w().owns_chain(chain@),
        call_ensures(NotifyCore::signal_all, (s, chain, value), r),
    ensures
        tells(old(s)@.queue.waiters, final(s)@.queue.waiters, chain@, value, r@),
        rest_same(old(s)@, final(s)@),
{
    lemma_tells(s@.queue.waiters, chain@, value);
}

/// `NotifyCore::remove_entry`: see [`withdraws`].
pub proof fn remove_entry(s: &mut NotifyCore, entry: usize, r: bool)
    requires
        s.wf(),
        call_ensures(NotifyCore::remove_entry, (s, entry), r),
    ensures
        withdraws(old(s)@.queue.waiters, final(s)@.queue.waiters, entry, r),
        rest_same(old(s)@, final(s)@),
{
    lemma_withdraws(s@.queue.waiters, entry);
}

/// `NotifyCore::arm`: the task waits from now on, to be woken with this waker.
pub proof fn arm(s: &mut NotifyCore, entry: usize, waker: usize)
    requires
        s.wf(),
        s@.w().live(entry),
        call_ensures(NotifyCore::arm, (s, entry, waker), ()),
    ensures
        wrote(
            old(s)@.queue.waiters,
            final(s)@.queue.waiters,
            entry,
            SIGNAL_INIT_WAITING,
            WakerSlot::Async(waker),
        ),
        rest_same(old(s)@, final(s)@),
{
}

/// `NotifyCore::push_entry`: see [`appends`]. The waiter waits for a later generation
/// than `captured`.
pub proof fn push_entry(s: &mut NotifyCore, entry: usize, captured: usize)
    requires
        s.wf(),
        s@.w().idle(entry),
        call_ensures(NotifyCore::push_entry, (s, entry, captured), ()),
    ensures
        appends(old(s)@.queue.waiters, final(s)@.queue.waiters, entry),
        final(s)@.queue.waiters.nodes[entry as int].aux == captured,
        final(s)@.queue.waiters.nodes[entry as int].value
            == old(s)@.queue.waiters.nodes[entry as int].value,
        final(s)@.queue.waiters.nodes[entry as int].waker
            == old(s)@.queue.waiters.nodes[entry as int].waker,
        rest_same(old(s)@, final(s)@),
{
}

/// `NotifyCore::pop_older`: everybody of an older generation is out of the line, in
/// order, and nobody of the current one.
pub proof fn pop_older(s: &mut NotifyCore, chain: PoppedChain)
    requires
        s.wf(),
        call_ensures(NotifyCore::pop_older, (s,), chain),
    ensures
        taken_out(old(s)@.queue.waiters, final(s)@.queue.waiters, chain@.len() as int),
        forall|i: int|
            0 <= i < chain@.len() ==> #[trigger] chain@[i] == old(s)@.queue.waiters.line[i]
                && old(s)@.queue.waiters.nodes[chain@[i] as int].aux != old(s)@.generation,
        forall|i: int|
            0 <= i < final(s)@.queue.waiters.line.len()
                ==> final(s)@.queue.waiters.nodes[#[trigger] final(s)@.queue.waiters.line[i] as int].aux
                == old(s)@.generation,
        rest_same(old(s)@, final(s)@),
{
    let v = s@;
    let w = v.w();
    let k = older(w, v.generation, 0) as int;
    lemma_older(w, v.generation, 0);
    lemma_taken_out(w, k);
    let line = final(s)@.w().line;
    assert forall|i: int| 0 <= i < line.len() implies w.nodes[#[trigger] line[i] as int].aux
        == v.generation by {
        assert(born(w, k) == v.generation);
        if i > 0 {
            assert(born(w, i + k) == v.generation);
        }
    }
}

/// `generation`: the bits above the flags, as a number.
pub proof fn word_generation(word: usize, r: usize)
    requires
        call_ensures(generation, (word,), r),
    ensures
        8 * r <= word < 8 * (r + 1),
{
}

/// `NotifyCore::current`: the generation.
pub proof fn current(s: &NotifyCore, r: usize)
    requires
        call_ensures(NotifyCore::current, (s,), r),
    ensures
        r == s@.generation,
{
}

/// `NotifyCore::try_complete`: a wait is over if a generation has begun since, which
/// leaves a kept notification alone, or else by using one up.
pub proof fn try_complete(s: &mut NotifyCore, captured: usize, r: bool)
    requires
        s.wf(),
        call_ensures(NotifyCore::try_complete, (s, captured), r),
    ensures
        final(s)@.queue == old(s)@.queue,
        final(s)@.generation == old(s)@.generation,
        final(s)@.flag == old(s)@.flag,
        final(s)@.owed == old(s)@.owed,
        old(s)@.generation != captured ==> r && final(s)@.permit == old(s)@.permit,
        old(s)@.generation == captured ==> r == old(s)@.permit && !final(s)@.permit,
{
}

/// `NotifyCore::mark` and `attempt`: with the queue in hand a wait that is over by what
/// the state says is over, and one that is not has to queue up. A state that has changed
/// since is looked at again.
pub proof fn marked(
    s: &mut NotifyCore,
    cur: usize,
    s1: &mut NotifyCore,
    captured: usize,
    r: WaitTurn,
)
    requires
        s.wf(),
        s@.hold is Enqueue,
        call_ensures(NotifyCore::mark, (s,), cur),
        *s1 == *final(s),
        call_ensures(NotifyCore::attempt, (s1, cur, captured), r),
    ensures
        final(s)@.flag,
        rest_same(old(s)@, (NotifyView { flag: old(s)@.flag, ..final(s)@ })),
        final(s)@.queue == old(s)@.queue,
        final(s1)@.queue == old(s)@.queue,
        final(s1)@.generation == old(s)@.generation,
        final(s1)@.flag,
        match r {
            WaitTurn::Completed => if old(s)@.generation != captured {
                final(s1)@.permit == old(s)@.permit
            } else {
                old(s)@.permit && !final(s1)@.permit
            },
            WaitTurn::Queue => old(s)@.generation == captured && !old(s)@.permit
                && !final(s1)@.permit,
            WaitTurn::Retry(_) => false,
        },
{
}

/// `NotifyCore::attempt`: what is not the state any more is not acted upon.
pub proof fn attempt(s: &mut NotifyCore, cur: usize, captured: usize, r: WaitTurn)
    requires
        s.wf(),
        call_ensures(NotifyCore::attempt, (s, cur, captured), r),
    ensures
        final(s)@.queue == old(s)@.queue,
        final(s)@.generation == old(s)@.generation,
        final(s)@.flag == old(s)@.flag,
        final(s)@.owed == old(s)@.owed,
        final(s)@.permit != old(s)@.permit ==> r is Completed && old(s)@.permit
            && old(s)@.generation == captured,
        r is Completed ==> final(s)@.permit != old(s)@.permit || !(8 * captured <= cur < 8 * (
        captured + 1)),
        r matches WaitTurn::Retry(actual) ==> {
            &&& actual != cur
            &&& old(s)@.word_is(actual)
            &&& final(s)@.permit == old(s)@.permit
        },
        r is Queue ==> 8 * captured <= cur < 8 * (captured + 1),
{
}

/// `NotifyCore::store_permit`: kept exactly if the waiter flag is not set; there is never
/// more than one.
pub proof fn store_permit(s: &mut NotifyCore, r: bool)
    requires
        s.wf(),
        call_ensures(NotifyCore::store_permit, (s,), r),
    ensures
        r == !old(s)@.flag,
        r ==> final(s)@.permit,
        !r ==> final(s)@.permit == old(s)@.permit,
        rest_same(old(s)@, (NotifyView { permit: old(s)@.permit, ..final(s)@ })),
        final(s)@.queue == old(s)@.queue,
{
}

/// `NotifyCore::pop_one`: the one that has waited longest is out of the line.
pub proof fn pop_one(s: &mut NotifyCore, r: Option<usize>)
    requires
        s.wf(),
        call_ensures(NotifyCore::pop_one, (s,), r),
    ensures
        rest_same(old(s)@, final(s)@),
        match r {
            Some(id) => id == old(s)@.queue.waiters.line[0] && taken_out(
                old(s)@.queue.waiters,
                final(s)@.queue.waiters,
                1,
            ),
            None => old(s)@.queue.waiters.line.len() == 0 && final(s)@ == old(s)@,
        },
{
    if r is Some {
        lemma_taken_out(s@.queue.waiters, 1);
    }
}

/// `NotifyCore::bump`: the next generation; the caller owes the line a look if the waiter
/// flag is set.
pub proof fn bump(s: &mut NotifyCore, r: bool)
    requires
        s.wf(),
        call_ensures(NotifyCore::bump, (s,), r),
    ensures
        r == old(s)@.flag,
        final(s)@.generation == if old(s)@.generation == GEN_LAST {
            0
        } else {
            old(s)@.generation + 1
        },
        final(s)@.generation != old(s)@.generation,
        final(s)@.permit == old(s)@.permit,
        final(s)@.flag == old(s)@.flag,
        final(s)@.owed == old(s)@.owed + if r {
            1int
        } else {
            0
        },
        final(s)@.queue == old(s)@.queue,
{
}

/// `NotifyCore::signal`: see [`tells`].
pub proof fn signal(s: &mut NotifyCore, entry: usize, value: usize, r: Wake)
    requires
        s.wf(),
        s@.w().popped.contains(entry),
        call_ensures(NotifyCore::signal, (s, entry, value), r),
    ensures
        tells(old(s)@.queue.waiters, final(s)@.queue.waiters, seq![entry], value, seq![r]),
        rest_same(old(s)@, final(s)@),
{
    lemma_tells_one(s@.queue.waiters, entry, value);
}

/// `NotifyCore::enqueue_or_complete`: a wait that is over does not queue up; any other
/// does, last in line.
pub proof fn enqueue_or_complete(
    s: &mut NotifyCore,
    entry: usize,
    captured: usize,
    pool: &mut QueuePool,
    r: WaitOutcome,
)
    requires
        s.wf(),
        s@.w().idle(entry),
        call_ensures(NotifyCore::enqueue_or_complete, (s, entry, captured, pool), r),
        pool@.serves(s.structure()),
    ensures
        final(s)@.generation == old(s)@.generation,
        if old(s)@.generation != captured {
            &&& r is Completed
            &&& final(s)@.permit == old(s)@.permit
            &&& final(s)@.queue.waiters == old(s)@.queue.waiters
        } else if old(s)@.permit {
            &&& r is Completed
            &&& !final(s)@.permit
            &&& final(s)@.queue.waiters == old(s)@.queue.waiters
        } else {
            &&& r is Enqueued
            &&& !final(s)@.permit
            &&& appends(old(s)@.queue.waiters, final(s)@.queue.waiters, entry)
            &&& final(s)@.queue.waiters.nodes[entry as int].aux == captured
        },
        !(r is Completed) ==> accounts(
            old(pool)@,
            old(s).structure(),
            final(pool)@,
            final(s).structure(),
        ),
        r is Completed ==> final(s).structure() == old(s).structure() && final(pool)@.out
            == old(pool)@.out,
{
    if r is Completed {
        if s.structure() is None {
            fetched_and_returned(pool@);
        }
    } else {
        lemma_accounts(pool@, s.structure(), final(pool)@, final(s).structure());
    }
}

} // verus!
