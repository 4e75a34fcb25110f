//! What the turns at a semaphore do, seen from outside.
use vstd::prelude::*;

use crate::lines::{came, ended, same_for, went, wrote};
use crate::pool::{fetched_and_returned, QueuePool};
use crate::pool_calls::{accounts, lemma_accounts};
use crate::sem_core::{lemma_served, EnqueueResult, EnqueueTurn, SemCore, SemView, TryAcquireError};
use crate::sem_order::{lemma_served_needs, needs};
use crate::signal::{Poll, Wake, WakerSlot, SIGNAL_INIT_WAITING, SIGNAL_SIGNALED};
use crate::sync_wait::{SyncStep, SyncWaiter};
use crate::turns::{
    appends, came_with_thread, leaves, lemma_taken_out, lemma_tells, lemma_withdraws, only_node,
    taken_out, takes, tells, withdraws,
};
use crate::wait_calls::looks;
use crate::wait_queue::{LockAttempt, PoppedChain};
use crate::waiters::WaitersView;

verus! {

/// Nothing but the queue has changed.
pub open spec fn rest_same(v: SemView, after: SemView) -> bool {
    &&& after.permits == v.permits
    &&& after.flag == v.flag
    &&& after.closed == v.closed
    &&& after.owed == v.owed
    &&& after.sweeps == v.sweeps
}

/// `SemCore::begin_enqueue`: the queue is got, fetched from the pool if there is none, or
/// somebody else has it.
pub proof fn begin_enqueue(s: &mut SemCore, pool: &mut QueuePool, r: LockAttempt)
    requires
        s.wf(),
        call_ensures(SemCore::begin_enqueue, (s, pool), r),
    ensures
        takes(old(s)@.queue, true, r, final(s)@.queue),
        rest_same(old(s)@, final(s)@),
        accounts(old(pool)@, old(s).structure(), final(pool)@, final(s).structure()),
{
    lemma_accounts(pool@, s.structure(), final(pool)@, final(s).structure());
}

/// `SemCore::begin_cancel`: the queue is got, if there is one and nobody else has it.
pub proof fn begin_cancel(s: &mut SemCore, r: LockAttempt)
    requires
        s.wf(),
        call_ensures(SemCore::begin_cancel, (s,), r),
    ensures
        takes(old(s)@.queue, false, r, final(s)@.queue),
        rest_same(old(s)@, final(s)@),
{
}

/// `SemCore::begin_drain`: the same, and unless somebody else has the queue the caller
/// owes the line one look less.
pub proof fn begin_drain(s: &mut SemCore, r: LockAttempt)
    requires
        s.wf(),
        call_ensures(SemCore::begin_drain, (s,), r),
    ensures
        takes(old(s)@.queue, false, r, final(s)@.queue),
        rest_same(old(s)@, (SemView { owed: old(s)@.owed, ..final(s)@ })),
        final(s)@.owed == if r is Busy || old(s)@.owed == 0 {
            old(s)@.owed as int
        } else {
            old(s)@.owed - 1
        },
{
}

/// `SemCore::begin_sweep`: the same, and unless somebody else has the queue the caller
/// owes the line one look less.
pub proof fn begin_sweep(s: &mut SemCore, r: LockAttempt)
    requires
        s.wf(),
        call_ensures(SemCore::begin_sweep, (s,), r),
    ensures
        takes(old(s)@.queue, false, r, final(s)@.queue),
        rest_same(old(s)@, (SemView { sweeps: old(s)@.sweeps, ..final(s)@ })),
        final(s)@.sweeps == if r is Busy || old(s)@.sweeps == 0 {
            old(s)@.sweeps as int
        } else {
            old(s)@.sweeps - 1
        },
{
}

/// `SemCore::end`: see [`leaves`]. What is given up is back in the pool, and the waiter
/// flag says whether somebody is in line.
pub proof fn end(s: &mut SemCore, pool: &mut QueuePool)
    requires
        s.wf(),
        !(s@.hold is Free),
        call_ensures(SemCore::end, (s, pool), ()),
    ensures
        leaves(old(s)@.queue, final(s)@.queue),
        rest_same(old(s)@, (SemView { flag: old(s)@.flag, ..final(s)@ })),
        final(s)@.flag == (final(s)@.queue.waiters.line.len() > 0),
        accounts(old(pool)@, old(s).structure(), final(pool)@, final(s).structure()),
{
    lemma_accounts(pool@, s.structure(), final(pool)@, final(s).structure());
}

/// `SemCore::prepare_async` and `prepare_sync`: a new node; nothing else happens.
pub proof fn prepare(s: &mut SemCore, n: usize, thread: usize, entry: usize)
    requires
        s.wf(),
    ensures
        call_ensures(SemCore::prepare_async, (s,), entry) ==> came(
            old(s)@.queue.waiters,
            final(s)@.queue.waiters,
            entry,
        ) && rest_same(old(s)@, final(s)@),
        call_ensures(SemCore::prepare_sync, (s, n, thread), entry) ==> came_with_thread(
            old(s)@.queue.waiters,
            final(s)@.queue.waiters,
            entry,
            thread,
        ) && rest_same(old(s)@, final(s)@) && final(s)@.queue.waiters.nodes[entry as int].aux
            == n,
{
    let w = s@.queue.waiters;
    if w.popped.contains(entry) {
        assert(w.live(entry));
    }
}

/// `SemCore::value`: what was told.
pub proof fn value(s: &SemCore, entry: usize, r: usize)
    requires
        call_ensures(SemCore::value, (s, entry), r),
    ensures
        r == s@.queue.waiters.nodes[entry as int].value,
{
}

/// `SemCore::discard`: the node is free; nothing else happens.
pub proof fn discard(s: &mut SemCore, entry: usize)
    requires
        s.wf(),
        s@.w().idle(entry),
        call_ensures(SemCore::discard, (s, entry), ()),
    ensures
        went(old(s)@.queue.waiters, final(s)@.queue.waiters, entry),
        rest_same(old(s)@, final(s)@),
{
}

/// `SemCore::complete`: the request is over; nothing else happens.
pub proof fn complete(s: &mut SemCore, entry: usize)
    requires
        s.wf(),
        s@.w().idle(entry),
        call_ensures(SemCore::complete, (s, entry), ()),
    ensures
        ended(old(s)@.queue.waiters, final(s)@.queue.waiters, entry),
        rest_same(old(s)@, final(s)@),
{
}

/// `SemCore::sync_step`: an answer is handed out as it is; a thread that parks has
/// announced that; nothing else is written.
pub proof fn sync_step(s: &mut SemCore, waiter: &mut SyncWaiter, r: SyncStep)
    requires
        s.wf(),
        s@.w().live(waiter@.entry),
        waiter@.stage is Parked ==> s@.node(waiter@.entry).value >= SIGNAL_INIT_WAITING,
        call_ensures(SemCore::sync_step, (s, waiter), r),
    ensures
        rest_same(old(s)@, final(s)@),
        match r {
            SyncStep::Signaled(value) => {
                &&& value == old(s)@.queue.waiters.nodes[old(waiter)@.entry as int].value
                &&& value >= SIGNAL_SIGNALED
                &&& final(waiter)@ == old(waiter)@
                &&& final(s)@.queue.waiters == old(s)@.queue.waiters
            },
            SyncStep::Pause(_) => {
                &&& looks(old(waiter)@, r, final(waiter)@)
                &&& final(s)@.queue.waiters == old(s)@.queue.waiters
            },
            SyncStep::Park => {
                &&& looks(old(waiter)@, r, final(waiter)@)
                &&& wrote(
                    old(s)@.queue.waiters,
                    final(s)@.queue.waiters,
                    old(waiter)@.entry,
                    SIGNAL_INIT_WAITING,
                    old(s)@.queue.waiters.nodes[old(waiter)@.entry as int].waker,
                )
            },
        },
{
    if !(r is Park) {
        assert(final(s)@.queue.waiters.nodes =~= s@.queue.waiters.nodes);
    }
}

/// `SemCore::signal_all`: see [`tells`].
pub proof fn signal_all(s: &mut SemCore, chain: PoppedChain, value: usize, r: Vec<Wake>)
    requires
        s.wf(),
        s@.w().owns_chain(chain@),
        call_ensures(SemCore::signal_all, (s, chain, value), r),
    ensures
        tells(old(s)@.queue.waiters, final(s)@.queue.waiters, chain@, value, r@),
        rest_same(old(s)@, final(s)@),
{
    lemma_tells(s@.queue.waiters, chain@, value);
}

/// `SemCore::rearm`: a waker that is still there is replaced; one that is gone means that
/// the answer is there, and nothing is written.
pub proof fn rearm(s: &mut SemCore, entry: usize, waker: usize, r: Poll<usize>)
    requires
        s.wf(),
        s@.w().live(entry),
        call_ensures(SemCore::rearm, (s, entry, waker), r),
    ensures
        (r is Ready) == (old(s)@.queue.waiters.nodes[entry as int].waker is Empty),
        match r {
            Poll::Ready(value) => value == old(s)@.queue.waiters.nodes[entry as int].value
                && final(s)@ == old(s)@,
            Poll::Pending => wrote(
                old(s)@.queue.waiters,
                final(s)@.queue.waiters,
                entry,
                old(s)@.queue.waiters.nodes[entry as int].value,
                WakerSlot::Async(waker),
            ) && rest_same(old(s)@, final(s)@),
        },
{
}

/// `SemCore::try_acquire`: all or nothing, and nothing while the waiter flag is set.
pub proof fn try_acquire(s: &mut SemCore, n: usize, r: Result<(), TryAcquireError>)
    requires
        s.wf(),
        call_ensures(SemCore::try_acquire, (s, n), r),
    ensures
        final(s)@.queue == old(s)@.queue,
        rest_same(old(s)@, (SemView { permits: old(s)@.permits, ..final(s)@ })),
        match r {
            Ok(_) => !old(s)@.closed && !old(s)@.flag && final(s)@.permits + n
                == old(s)@.permits,
            Err(TryAcquireError::Closed) => old(s)@.closed && final(s)@.permits
                == old(s)@.permits,
            Err(TryAcquireError::NoPermits) => !old(s)@.closed && (old(s)@.flag
                || old(s)@.permits < n) && final(s)@.permits == old(s)@.permits,
        },
{
}

/// `SemCore::add` and `redistribute`: the permits are in stock, and somebody owes the
/// line a look exactly if the waiter flag is set or somebody owed one before.
pub proof fn add_permits(s: &mut SemCore, n: usize, owing: bool, r: bool)
    requires
        s.wf(),
        owing ==> s@.owed > 0,
    ensures
        call_ensures(SemCore::add, (s, n), r) ==> {
            &&& r == old(s)@.flag
            &&& final(s)@.permits == old(s)@.permits + n
            &&& final(s)@.owed == old(s)@.owed + if r {
                1int
            } else {
                0
            }
            &&& final(s)@.queue == old(s)@.queue
            &&& final(s)@.flag == old(s)@.flag && final(s)@.closed == old(s)@.closed
            &&& final(s)@.sweeps == old(s)@.sweeps
        },
        call_ensures(SemCore::redistribute, (s, n, owing), r) ==> {
            &&& r == old(s)@.flag
            &&& final(s)@.permits == old(s)@.permits + n
            &&& final(s)@.owed + if owing {
                1int
            } else {
                0
            } == old(s)@.owed + if r {
                1int
            } else {
                0
            }
            &&& final(s)@.queue == old(s)@.queue
            &&& final(s)@.flag == old(s)@.flag && final(s)@.closed == old(s)@.closed
            &&& final(s)@.sweeps == old(s)@.sweeps
        },
{
}

/// `SemCore::start_close`: closed for good; whoever closes it first owes the line a sweep
/// if the waiter flag is set.
pub proof fn start_close(s: &mut SemCore, r: bool, s1: &mut SemCore, again: bool)
    requires
        s.wf(),
        call_ensures(SemCore::start_close, (s,), r),
        *s1 == *final(s),
        call_ensures(SemCore::start_close, (s1,), again),
    ensures
        final(s)@.closed,
        r ==> old(s)@.flag && !old(s)@.closed,
        !r ==> !old(s)@.flag || old(s)@.closed,
        final(s)@.sweeps == old(s)@.sweeps + if r {
            1int
        } else {
            0
        },
        final(s)@.permits == old(s)@.permits,
        final(s)@.flag == old(s)@.flag,
        final(s)@.owed == old(s)@.owed,
        final(s)@.queue == old(s)@.queue,
        !again,
        final(s1)@.sweeps == final(s)@.sweeps,
{
}

/// `SemCore::take_all` and `give_back`: the stock is taken, and what is given back is in
/// stock again; no permit appears or gets lost.
pub proof fn take_all(s: &mut SemCore, r: usize, s1: &mut SemCore, n: usize)
    requires
        s.wf(),
        call_ensures(SemCore::take_all, (s,), r),
        call_ensures(SemCore::give_back, (s1, n), ()),
    ensures
        r == old(s)@.permits,
        final(s)@.permits == 0,
        final(s)@.queue == old(s)@.queue,
        rest_same(old(s)@, (SemView { permits: old(s)@.permits, ..final(s)@ })),
        final(s1)@.permits == old(s1)@.permits + n,
        final(s1)@.queue == old(s1)@.queue,
        rest_same(old(s1)@, (SemView { permits: old(s1)@.permits, ..final(s1)@ })),
        final(s)@.total() == old(s)@.total(),
        final(s1)@.total() == old(s1)@.total(),
{
}

/// `stock` permits are assigned to those in line: whoever is in the chain gets all that
/// it still needs and is out of the line, in order; the next one gets what is left, which
/// is not enough for it. Without a next one the rest is left over.
pub open spec fn assigns(
    before: WaitersView,
    stock: nat,
    after: WaitersView,
    chain: Seq<usize>,
    rest: nat,
) -> bool {
    let k = chain.len() as int;
    let short = k < before.line.len();
    let next = before.line[k];
    let was = before.nodes[next as int];
    let is = after.nodes[next as int];
    &&& k <= before.line.len()
    &&& after.line.len() == before.line.len() - k
    &&& forall|i: int| 0 <= i < after.line.len() ==> #[trigger] after.line[i] == before.line[i + k]
    &&& forall|i: int|
        0 <= i < k ==> {
            let id = #[trigger] chain[i];
            &&& id == before.line[i]
            &&& after.live(id) && after.popped.contains(id)
            &&& after.nodes[id as int].value == before.nodes[id as int].value
            &&& after.nodes[id as int].waker == before.nodes[id as int].waker
            &&& after.nodes[id as int].aux == 0
            &&& after.nodes[id as int].granted == before.nodes[id as int].granted
                + before.nodes[id as int].aux
        }
    &&& short ==> {
        &&& rest == 0
        &&& is.value == was.value && is.waker == was.waker
        &&& is.aux > 0
        &&& is.aux + is.granted == was.aux + was.granted
        &&& is.granted >= was.granted
    }
    &&& needs(before, k) + rest + (if short {
        is.granted - was.granted
    } else {
        0
    }) == stock
    &&& forall|id: usize|
        (forall|i: int| 0 <= i <= k && i < before.line.len() ==> #[trigger] before.line[i] != id)
            ==> #[trigger] same_for(before, after, id)
}

/// `SemCore::serve`: see [`assigns`].
pub proof fn serve(s: &mut SemCore, available: usize, r: (PoppedChain, usize))
    requires
        s.wf(),
        call_ensures(SemCore::serve, (s, available), r),
    ensures
        assigns(
            old(s)@.queue.waiters,
            available as nat,
            final(s)@.queue.waiters,
            r.0@,
            r.1 as nat,
        ),
        rest_same(old(s)@, final(s)@),
        final(s)@.total() == old(s)@.total(),
{
    let v = s@;
    let w = v.w();
    let stock = available as nat;
    let k = crate::sem_core::served(w, stock, 0) as int;
    let after = final(s)@.w();
    let chain = w.line.take(k);
    lemma_served(w, stock, 0);
    lemma_served_needs(w, stock, 0);
    assert(needs(w, 0) == 0);
    assert forall|i: int| 0 <= i < w.line.len() implies w.line.contains(#[trigger] w.line[i])
        && w.line.index_of(w.line[i]) == i && w.live(w.line[i]) && (chain.contains(w.line[i]) <==> i
        < k) by {
        assert(w.line[w.line.index_of(w.line[i])] == w.line[i]);
        if i < k {
            assert(chain[i] == w.line[i]);
        } else if chain.contains(w.line[i]) {
            assert(w.line[chain.index_of(w.line[i])] == w.line[i]);
        }
    }
    assert forall|i: int| 0 <= i < k implies {
        let id = #[trigger] chain[i];
        &&& id == w.line[i]
        &&& after.live(id) && after.popped.contains(id)
        &&& after.nodes[id as int].value == w.nodes[id as int].value
        &&& after.nodes[id as int].waker == w.nodes[id as int].waker
        &&& after.nodes[id as int].aux == 0
        &&& after.nodes[id as int].granted == w.nodes[id as int].granted + w.nodes[id as int].aux
    } by {
        assert(w.line.contains(w.line[i]));
        assert(chain.contains(chain[i]));
    }
    assert forall|id: usize|
        (forall|i: int|
            0 <= i <= k && i < w.line.len() ==> #[trigger] w.line[i] != id) implies #[trigger] same_for(
        w,
        after,
        id,
    ) by {
        if chain.contains(id) {
            assert(w.line[chain.index_of(id)] == id);
        }
        if w.line.contains(id) {
            assert(w.line[w.line.index_of(id)] == id);
        }
    }
}

/// `SemCore::mark` and `attempt`: with the queue in hand the permits are taken if they
/// are there and nobody is in line; a closed semaphore gives nothing; anybody else has to
/// queue up.
pub proof fn marked(s: &mut SemCore, cur: usize, s1: &mut SemCore, n: usize, r: EnqueueTurn)
    requires
        s.wf(),
        s@.hold is Enqueue,
        call_ensures(SemCore::mark, (s,), cur),
        *s1 == *final(s),
        call_ensures(SemCore::attempt, (s1, cur, n), r),
    ensures
        final(s)@.flag,
        rest_same(old(s)@, (SemView { flag: old(s)@.flag, ..final(s)@ })),
        final(s)@.queue == old(s)@.queue,
        final(s1)@.queue == old(s)@.queue,
        final(s1)@.closed == old(s)@.closed,
        final(s1)@.flag,
        match r {
            EnqueueTurn::Closed => old(s)@.closed && final(s1)@.permits == old(s)@.permits,
            EnqueueTurn::Acquired => !old(s)@.closed && old(s)@.queue.waiters.line.len() == 0
                && final(s1)@.permits + n == old(s)@.permits,
            EnqueueTurn::Queue => !old(s)@.closed && (old(s)@.queue.waiters.line.len() > 0
                || old(s)@.permits < n) && final(s1)@.permits == old(s)@.permits,
            EnqueueTurn::Retry(_) => false,
        },
{
}

/// `SemCore::attempt`: what is not the state any more is not acted upon.
pub proof fn attempt(s: &mut SemCore, cur: usize, n: usize, r: EnqueueTurn)
    requires
        s.wf(),
        call_ensures(SemCore::attempt, (s, cur, n), r),
    ensures
        final(s)@.queue == old(s)@.queue,
        rest_same(old(s)@, (SemView { permits: old(s)@.permits, ..final(s)@ })),
        match r {
            EnqueueTurn::Acquired => !old(s)@.closed && old(s)@.queue.waiters.line.len() == 0
                && final(s)@.permits + n == old(s)@.permits,
            EnqueueTurn::Retry(actual) => {
                &&& actual != cur
                &&& old(s)@.word_is(actual)
                &&& old(s)@.queue.waiters.line.len() == 0
                &&& final(s)@.permits == old(s)@.permits
            },
            _ => final(s)@.permits == old(s)@.permits,
        },
{
}

/// `SemCore::push_entry`: see [`appends`].
pub proof fn push_entry(s: &mut SemCore, entry: usize, first: bool)
    requires
        s.wf(),
        s@.w().idle(entry),
        call_ensures(SemCore::push_entry, (s, entry), first),
    ensures
        appends(old(s)@.queue.waiters, final(s)@.queue.waiters, entry),
        final(s)@.queue.waiters.nodes == old(s)@.queue.waiters.nodes,
        first == (old(s)@.queue.waiters.line.len() == 0),
        rest_same(old(s)@, final(s)@),
{
}

/// `SemCore::pop_all`: everybody is out of the line, in order.
pub proof fn pop_all(s: &mut SemCore, chain: PoppedChain)
    requires
        s.wf(),
        call_ensures(SemCore::pop_all, (s,), chain),
    ensures
        chain@ == old(s)@.queue.waiters.line,
        taken_out(old(s)@.queue.waiters, final(s)@.queue.waiters, chain@.len() as int),
        final(s)@.queue.waiters.line.len() == 0,
        rest_same(old(s)@, final(s)@),
{
    lemma_taken_out(s@.queue.waiters, s@.queue.waiters.line.len() as int);
}

/// `SemCore::remove_entry`: see [`withdraws`]. If somebody else is first now, the line is
/// owed a look.
pub proof fn remove_entry(s: &mut SemCore, entry: usize, r: (bool, bool))
    requires
        s.wf(),
        call_ensures(SemCore::remove_entry, (s, entry), r),
    ensures
        withdraws(old(s)@.queue.waiters, final(s)@.queue.waiters, entry, r.0),
        r.1 == (final(s)@.queue.waiters.line.len() > 0 && final(s)@.queue.waiters.line[0]
            != old(s)@.queue.waiters.line[0]),
        final(s)@.owed == old(s)@.owed + if r.1 {
            1int
        } else {
            0
        },
        rest_same(old(s)@, (SemView { owed: old(s)@.owed, ..final(s)@ })),
{
    let w = s@.w();
    lemma_withdraws(w, entry);
    if w.line.contains(entry) {
        let p = w.line.index_of(entry);
        assert(w.line[p] == entry);
        if w.line.len() > 1 {
            assert(w.line[0] != w.line[1]);
        }
        let now = final(s)@.w().line;
        if now.len() > 0 {
            assert(now[0] == if p == 0 {
                w.line[1]
            } else {
                w.line[0]
            });
        }
    }
}

/// `SemCore::arm`: the task waits for `n` permits from now on, to be woken with this
/// waker.
pub proof fn arm(s: &mut SemCore, entry: usize, n: usize, waker: usize)
    requires
        s.wf(),
        s@.w().idle(entry),
        call_ensures(SemCore::arm, (s, entry, n, waker), ()),
    ensures
        only_node(old(s)@.queue.waiters, final(s)@.queue.waiters, entry),
        ({
            let is = final(s)@.queue.waiters.nodes[entry as int];
            &&& is.value == SIGNAL_INIT_WAITING
            &&& is.waker == WakerSlot::Async(waker)
            &&& is.aux == n && is.granted == 0
        }),
        rest_same(old(s)@, final(s)@),
{
}

/// `SemCore::remaining`: what a waiter still needs.
pub proof fn remaining(s: &SemCore, entry: usize, r: usize)
    requires
        call_ensures(SemCore::remaining, (s, entry), r),
    ensures
        r == s@.queue.waiters.nodes[entry as int].aux,
{
}

/// `SemCore::complete` and `discard`: what was assigned to a request belongs to its owner
/// from then on.
pub proof fn handed_over(s: &mut SemCore, entry: usize)
    requires
        s.wf(),
        s@.w().idle(entry),
        call_ensures(SemCore::complete, (s, entry), ()) || call_ensures(
            SemCore::discard,
            (s, entry),
            (),
        ),
    ensures
        final(s)@.total() + old(s)@.queue.waiters.nodes[entry as int].granted
            == old(s)@.total(),
        final(s)@.queue.waiters.nodes[entry as int].granted == 0,
{
}

/// `SemCore::enqueue_or_acquire`: the permits if they are there and nobody is in line,
/// nothing at a closed semaphore, and the last place in line otherwise.
pub proof fn enqueue_or_acquire(
    s: &mut SemCore,
    entry: usize,
    n: usize,
    pool: &mut QueuePool,
    r: EnqueueResult,
)
    requires
        s.wf(),
        s@.w().idle(entry),
        call_ensures(SemCore::enqueue_or_acquire, (s, entry, n, pool), r),
        pool@.serves(s.structure()),
    ensures
        final(s)@.closed == old(s)@.closed,
        match r {
            EnqueueResult::Closed => old(s)@.closed && final(s)@.permits == old(s)@.permits
                && final(s)@.queue.waiters == old(s)@.queue.waiters,
            EnqueueResult::Acquired => !old(s)@.closed && old(s)@.queue.waiters.line.len() == 0
                && final(s)@.permits + n == old(s)@.permits && final(s)@.queue.waiters
                == old(s)@.queue.waiters,
            EnqueueResult::Enqueued(first) => {
                &&& !old(s)@.closed
                &&& old(s)@.queue.waiters.line.len() > 0 || old(s)@.permits < n
                &&& first == (old(s)@.queue.waiters.line.len() == 0)
                &&& final(s)@.permits == old(s)@.permits
                &&& appends(old(s)@.queue.waiters, final(s)@.queue.waiters, entry)
            },
        },
        r is Enqueued ==> accounts(
            old(pool)@,
            old(s).structure(),
            final(pool)@,
            final(s).structure(),
        ),
        !(r is Enqueued) ==> final(s).structure() == old(s).structure() && final(pool)@.out
            == old(pool)@.out,
{
    if !(r is Enqueued) {
        if s.structure() is None {
            fetched_and_returned(pool@);
        }
    } else {
        lemma_accounts(pool@, s.structure(), final(pool)@, final(s).structure());
    }
}

} // verus!
