//! What the turns at a once-cell do, seen from outside.
use vstd::prelude::*;

use crate::lines::{came, ended, went, wrote};
use crate::once_core::{OnceCellInternal, OnceView, Phase};
use crate::once_ops::OnceOutcome;
use crate::pool::{fetched_and_returned, QueuePool};
use crate::pool_calls::{accounts, lemma_accounts};
use crate::signal::{
    Wake, WakerSlot, SIGNAL_INIT_WAITING, SIGNAL_RETRY, SIGNAL_SIGNALED, SIGNAL_UNINIT,
};
use crate::sync_wait::{SyncStep, SyncWaiter};
use crate::turns::{
    appends, came_with_thread, leaves, lemma_taken_out, lemma_tells, lemma_tells_one,
    lemma_withdraws, only_node, taken_out, takes, tells, withdraws,
};
use crate::wait_calls::looks;
use crate::wait_queue::{LockAttempt, PoppedChain};

verus! {

/// Nothing but the queue has changed.
pub open spec fn rest_same<T>(v: OnceView<T>, after: OnceView<T>) -> bool {
    &&& after.phase == v.phase
    &&& after.value == v.value
    &&& after.drains == v.drains
    &&& after.offers == v.offers
    &&& after.heirs == v.heirs
}

/// `OnceCellInternal::begin_enqueue`: the queue is got, fetched from the pool if there is
/// none, or somebody else has it.
pub proof fn begin_enqueue<T>(s: &mut OnceCellInternal<T>, pool: &mut QueuePool, r: LockAttempt)
    requires
        s.wf(),
        call_ensures(OnceCellInternal::<T>::begin_enqueue, (s, pool), r),
    ensures
        takes(old(s)@.queue, true, r, final(s)@.queue),
        rest_same(old(s)@, final(s)@),
        accounts(old(pool)@, old(s).structure(), final(pool)@, final(s).structure()),
{
    lemma_accounts(pool@, s.structure(), final(pool)@, final(s).structure());
}

/// `OnceCellInternal::begin_remove`: the queue is got, if there is one and nobody else
/// has it.
pub proof fn begin_remove<T>(s: &mut OnceCellInternal<T>, r: LockAttempt)
    requires
        s.wf(),
        call_ensures(OnceCellInternal::<T>::begin_remove, (s,), r),
    ensures
        takes(old(s)@.queue, false, r, final(s)@.queue),
        rest_same(old(s)@, final(s)@),
{
}

/// `OnceCellInternal::begin_wake_all`: the same, and unless somebody else has the queue
/// the caller owes the line one look less.
pub proof fn begin_wake_all<T>(s: &mut OnceCellInternal<T>, r: LockAttempt)
    requires
        s.wf(),
        call_ensures(OnceCellInternal::<T>::begin_wake_all, (s,), r),
    ensures
        takes(old(s)@.queue, false, r, final(s)@.queue),
        rest_same(old(s)@, (OnceView { drains: old(s)@.drains, ..final(s)@ })),
        final(s)@.drains == if r is Busy || old(s)@.drains == 0 {
            old(s)@.drains as int
        } else {
            old(s)@.drains - 1
        },
{
}

/// `OnceCellInternal::begin_wake_one`: the same, and unless somebody else has the queue
/// the caller owes the line one look less.
pub proof fn begin_wake_one<T>(s: &mut OnceCellInternal<T>, r: LockAttempt)
    requires
        s.wf(),
        call_ensures(OnceCellInternal::<T>::begin_wake_one, (s,), r),
    ensures
        takes(old(s)@.queue, false, r, final(s)@.queue),
        rest_same(old(s)@, (OnceView { offers: old(s)@.offers, ..final(s)@ })),
        final(s)@.offers == if r is Busy || old(s)@.offers == 0 {
            old(s)@.offers as int
        } else {
            old(s)@.offers - 1
        },
{
}

/// `OnceCellInternal::end`: see [`leaves`]. What is given up is back in the pool.
pub proof fn end<T>(s: &mut OnceCellInternal<T>, pool: &mut QueuePool)
    requires
        s.wf(),
        !(s@.hold is Free),
        call_ensures(OnceCellInternal::<T>::end, (s, pool), ()),
    ensures
        leaves(old(s)@.queue, final(s)@.queue),
        rest_same(old(s)@, final(s)@),
        accounts(old(pool)@, old(s).structure(), final(pool)@, final(s).structure()),
{
    lemma_accounts(pool@, s.structure(), final(pool)@, final(s).structure());
}

/// `OnceCellInternal::prepare_async` and `prepare_sync`: a new node; nothing else
/// happens.
pub proof fn prepare<T>(s: &mut OnceCellInternal<T>, thread: usize, entry: usize)
    requires
        s.wf(),
    ensures
        call_ensures(OnceCellInternal::<T>::prepare_async, (s,), entry) ==> came(
            old(s)@.queue.waiters,
            final(s)@.queue.waiters,
            entry,
        ) && rest_same(old(s)@, final(s)@),
        call_ensures(OnceCellInternal::<T>::prepare_sync, (s, thread), entry) ==> came_with_thread(
            old(s)@.queue.waiters,
            final(s)@.queue.waiters,
            entry,
            thread,
        ) && rest_same(old(s)@, final(s)@),
{
    let w = s@.queue.waiters;
    if w.popped.contains(entry) {
        assert(w.live(entry));
    }
}

/// `OnceCellInternal::value`: what was told.
pub proof fn value<T>(s: &OnceCellInternal<T>, entry: usize, r: usize)
    requires
        call_ensures(OnceCellInternal::<T>::value, (s, entry), r),
    ensures
        r == s@.queue.waiters.nodes[entry as int].value,
{
}

/// `OnceCellInternal::discard`: the node is free; nothing else happens.
pub proof fn discard<T>(s: &mut OnceCellInternal<T>, entry: usize)
    requires
        s.wf(),
        s@.w().idle(entry),
        call_ensures(OnceCellInternal::<T>::discard, (s, entry), ()),
    ensures
        went(old(s)@.queue.waiters, final(s)@.queue.waiters, entry),
        rest_same(old(s)@, final(s)@),
{
}

/// `OnceCellInternal::complete_request`: the request is over; nothing else happens.
pub proof fn complete<T>(s: &mut OnceCellInternal<T>, entry: usize)
    requires
        s.wf(),
        s@.w().idle(entry),
        call_ensures(OnceCellInternal::<T>::complete_request, (s, entry), ()),
    ensures
        ended(old(s)@.queue.waiters, final(s)@.queue.waiters, entry),
        rest_same(old(s)@, final(s)@),
{
}

/// `OnceCellInternal::sync_step`: an answer is handed out as it is; a thread that parks
/// has announced that; nothing else is written.
pub proof fn sync_step<T>(s: &mut OnceCellInternal<T>, waiter: &mut SyncWaiter, r: SyncStep)
    requires
        s.wf(),
        s@.w().live(waiter@.entry),
        waiter@.stage is Parked ==> s@.node(waiter@.entry).value >= SIGNAL_INIT_WAITING,
        call_ensures(OnceCellInternal::<T>::sync_step, (s, waiter), r),
    ensures
        rest_same(old(s)@, final(s)@),
        match r {
            SyncStep::Signaled(value) => {
                &&& value == old(s)@.queue.waiters.nodes[old(waiter)@.entry as int].value
                &&& value >= SIGNAL_SIGNALED
                &&& final(waiter)@ == old(waiter)@
                &&& final(s)@.queue.waiters == old(s)@.queue.waiters
            },
            SyncStep::Pause(_) => {
                &&& looks(old(waiter)@, r, final(waiter)@)
                &&& final(s)@.queue.waiters == old(s)@.queue.waiters
            },
            SyncStep::Park => {
                &&& looks(old(waiter)@, r, final(waiter)@)
                &&& wrote(
                    old(s)@.queue.waiters,
                    final(s)@.queue.waiters,
                    old(waiter)@.entry,
                    SIGNAL_INIT_WAITING,
                    old(s)@.queue.waiters.nodes[old(waiter)@.entry as int].waker,
                )
            },
        },
{
    if !(r is Park) {
        assert(final(s)@.queue.waiters.nodes =~= s@.queue.waiters.nodes);
    }
}

/// `OnceCellInternal::signal_all`: see [`tells`].
pub proof fn signal_all<T>(s: &mut OnceCellInternal<T>, chain: PoppedChain, r: Vec<Wake>)
    requires
        s.wf(),
        s@.w().owns_chain(chain@),
        call_ensures(OnceCellInternal::<T>::signal_all, (s, chain), r),
    ensures
        tells(old(s)@.queue.waiters, final(s)@.queue.waiters, chain@, SIGNAL_SIGNALED, r@),
        rest_same(old(s)@, final(s)@),
{
    lemma_tells(s@.queue.waiters, chain@, SIGNAL_SIGNALED);
}

/// `OnceCellInternal::remove_entry`: see [`withdraws`].
pub proof fn remove_entry<T>(s: &mut OnceCellInternal<T>, entry: usize, r: bool)
    requires
        s.wf(),
        call_ensures(OnceCellInternal::<T>::remove_entry, (s, entry), r),
    ensures
        withdraws(old(s)@.queue.waiters, final(s)@.queue.waiters, entry, r),
        rest_same(old(s)@, final(s)@),
{
    lemma_withdraws(s@.queue.waiters, entry);
}

/// `OnceCellInternal::arm`: the task waits from now on, to be woken with this waker.
pub proof fn arm<T>(s: &mut OnceCellInternal<T>, entry: usize, waker: usize)
    requires
        s.wf(),
        s@.w().live(entry),
        call_ensures(OnceCellInternal::<T>::arm, (s, entry, waker), ()),
    ensures
        wrote(
            old(s)@.queue.waiters,
            final(s)@.queue.waiters,
            entry,
            SIGNAL_INIT_WAITING,
            WakerSlot::Async(waker),
        ),
        rest_same(old(s)@, final(s)@),
{
}

/// `OnceCellInternal::try_begin_init`: the role, exactly at an empty cell.
pub proof fn try_begin_init<T>(s: &mut OnceCellInternal<T>, r: Result<(), Phase>)
    requires
        s.wf(),
        call_ensures(OnceCellInternal::<T>::try_begin_init, (s,), r),
    ensures
        match r {
            Ok(_) => old(s)@.phase is Empty && final(s)@.phase is Running,
            Err(phase) => !(phase is Empty) && phase == old(s)@.phase && final(s)@.phase == phase,
        },
        rest_same(old(s)@, (OnceView { phase: old(s)@.phase, ..final(s)@ })),
        final(s)@.queue == old(s)@.queue,
{
}

/// `OnceCellInternal::publish` and `step_down`: the value is there, or the cell is empty;
/// either way the line is owed a look.
pub proof fn publish<T>(s: &mut OnceCellInternal<T>, value: T)
    requires
        s.wf(),
        s@.phase is Running,
    ensures
        call_ensures(OnceCellInternal::<T>::publish, (s, value), ()) ==> {
            &&& final(s)@.phase is Ready
            &&& final(s)@.value == Some(value)
            &&& final(s)@.drains == old(s)@.drains + 1
            &&& final(s)@.offers == old(s)@.offers
            &&& final(s)@.heirs == old(s)@.heirs
            &&& final(s)@.queue == old(s)@.queue
        },
        call_ensures(OnceCellInternal::<T>::step_down, (s,), ()) ==> {
            &&& final(s)@.phase is Empty
            &&& final(s)@.value is None
            &&& final(s)@.drains == old(s)@.drains
            &&& final(s)@.offers == old(s)@.offers + 1
            &&& final(s)@.heirs == old(s)@.heirs
            &&& final(s)@.queue == old(s)@.queue
        },
{
}

/// `OnceCellInternal::pop_all`: everybody is out of the line, in order.
pub proof fn pop_all<T>(s: &mut OnceCellInternal<T>, chain: PoppedChain)
    requires
        s.wf(),
        call_ensures(OnceCellInternal::<T>::pop_all, (s,), chain),
    ensures
        chain@ == old(s)@.queue.waiters.line,
        taken_out(old(s)@.queue.waiters, final(s)@.queue.waiters, chain@.len() as int),
        final(s)@.queue.waiters.line.len() == 0,
        rest_same(old(s)@, final(s)@),
{
    lemma_taken_out(s@.queue.waiters, s@.queue.waiters.line.len() as int);
}

/// `OnceCellInternal::pop_heir`: the one that has waited longest is out of the line and
/// an heir, and the queue is left.
pub proof fn pop_heir<T>(s: &mut OnceCellInternal<T>, pool: &mut QueuePool, r: Option<usize>)
    requires
        s.wf(),
        call_ensures(OnceCellInternal::<T>::pop_heir, (s, pool), r),
    ensures
        rest_same(old(s)@, (OnceView { heirs: old(s)@.heirs, ..final(s)@ })),
        final(s)@.queue.door is Queue == (final(s)@.queue.waiters.line.len() > 0),
        match r {
            Some(id) => {
                &&& id == old(s)@.queue.waiters.line[0]
                &&& taken_out(old(s)@.queue.waiters, final(s)@.queue.waiters, 1)
                &&& final(s)@.heirs == old(s)@.heirs.insert(id)
            },
            None => {
                &&& old(s)@.queue.waiters.line.len() == 0
                &&& final(s)@.queue.waiters == old(s)@.queue.waiters
                &&& final(s)@.heirs == old(s)@.heirs
            },
        },
        accounts(old(pool)@, old(s).structure(), final(pool)@, final(s).structure()),
{
    if r is Some {
        lemma_taken_out(s@.queue.waiters, 1);
    }
    lemma_accounts(pool@, s.structure(), final(pool)@, final(s).structure());
}

/// `OnceCellInternal::fresh`: whether an initializer runs.
pub proof fn fresh<T>(s: &mut OnceCellInternal<T>, r: bool)
    requires
        s.wf(),
        call_ensures(OnceCellInternal::<T>::fresh, (s,), r),
    ensures
        r == (old(s)@.phase is Running),
        rest_same(old(s)@, final(s)@),
        final(s)@.queue == old(s)@.queue,
{
}

/// `OnceCellInternal::push_entry`: see [`appends`].
pub proof fn push_entry<T>(s: &mut OnceCellInternal<T>, entry: usize)
    requires
        s.wf(),
        s@.w().idle(entry),
        call_ensures(OnceCellInternal::<T>::push_entry, (s, entry), ()),
    ensures
        appends(old(s)@.queue.waiters, final(s)@.queue.waiters, entry),
        final(s)@.queue.waiters.nodes == old(s)@.queue.waiters.nodes,
        rest_same(old(s)@, final(s)@),
{
}

/// `OnceCellInternal::offer`: the heir is told to try, and woken.
pub proof fn offer<T>(s: &mut OnceCellInternal<T>, entry: usize, r: Wake)
    requires
        s.wf(),
        s@.w().popped.contains(entry),
        call_ensures(OnceCellInternal::<T>::offer, (s, entry), r),
    ensures
        tells(
            old(s)@.queue.waiters,
            final(s)@.queue.waiters,
            seq![entry],
            SIGNAL_RETRY,
            seq![r],
        ),
        rest_same(old(s)@, final(s)@),
{
    lemma_tells_one(s@.queue.waiters, entry, SIGNAL_RETRY);
}

/// `OnceCellInternal::accept`: an heir takes the role exactly at an empty cell, and is no
/// heir any more; its node is new.
pub proof fn accept<T>(s: &mut OnceCellInternal<T>, entry: usize, r: Phase)
    requires
        s.wf(),
        s@.w().idle(entry),
        call_ensures(OnceCellInternal::<T>::accept, (s, entry), r),
    ensures
        r == old(s)@.phase,
        r is Empty ==> final(s)@.phase is Running,
        !(r is Empty) ==> final(s)@.phase == r,
        final(s)@.value == old(s)@.value,
        final(s)@.drains == old(s)@.drains,
        final(s)@.offers == old(s)@.offers,
        !final(s)@.heirs.contains(entry),
        forall|id: usize|
            id != entry ==> #[trigger] final(s)@.heirs.contains(id) == old(s)@.heirs.contains(id),
        only_node(old(s)@.queue.waiters, final(s)@.queue.waiters, entry),
        final(s)@.queue.waiters.nodes[entry as int].value == SIGNAL_UNINIT,
        final(s)@.queue.waiters.nodes[entry as int].waker is Empty,
{
}

/// `OnceCellInternal::decline`: an heir is gone, and the line is owed an offer.
pub proof fn decline<T>(s: &mut OnceCellInternal<T>, entry: usize)
    requires
        s.wf(),
        s@.w().idle(entry),
        call_ensures(OnceCellInternal::<T>::decline, (s, entry), ()),
    ensures
        went(old(s)@.queue.waiters, final(s)@.queue.waiters, entry),
        final(s)@.phase == old(s)@.phase,
        final(s)@.value == old(s)@.value,
        final(s)@.drains == old(s)@.drains,
        final(s)@.offers == old(s)@.offers + 1,
        !final(s)@.heirs.contains(entry),
        forall|id: usize|
            id != entry ==> #[trigger] final(s)@.heirs.contains(id) == old(s)@.heirs.contains(id),
{
}

/// `OnceCellInternal::enqueue_or_state`: nobody queues up unless an initializer runs.
pub proof fn enqueue_or_state<T>(
    s: &mut OnceCellInternal<T>,
    entry: usize,
    pool: &mut QueuePool,
    r: OnceOutcome,
)
    requires
        s.wf(),
        s@.w().idle(entry),
        call_ensures(OnceCellInternal::<T>::enqueue_or_state, (s, entry, pool), r),
        pool@.serves(s.structure()),
    ensures
        rest_same(old(s)@, final(s)@),
        match r {
            OnceOutcome::Enqueued => {
                &&& old(s)@.phase is Running
                &&& appends(old(s)@.queue.waiters, final(s)@.queue.waiters, entry)
            },
            OnceOutcome::State => {
                &&& !(old(s)@.phase is Running)
                &&& final(s)@.queue == old(s)@.queue
            },
        },
        !(r is State) ==> accounts(
            old(pool)@,
            old(s).structure(),
            final(pool)@,
            final(s).structure(),
        ),
        r is State ==> final(s).structure() == old(s).structure() && final(pool)@.out
            == old(pool)@.out,
{
    if r is State {
        if s.structure() is None {
            fetched_and_returned(pool@);
        }
    } else {
        lemma_accounts(pool@, s.structure(), final(pool)@, final(s).structure());
    }
}

} // verus!
