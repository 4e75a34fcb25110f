//! What the calls of a semaphore do, seen from outside: who gets how many
//! permits, who is woken, and that none appears or gets lost.
use vstd::prelude::*;

use crate::lines::{
    answered_front, came, due, expects, gone, has_answer, joined, left, lemma_front,
    lemma_front_woken, lemma_left, lemma_nobody_woken, lemma_woken_without, newly_answered,
    same_but, same_for, went, woken, wrote,
};
use crate::pool::QueuePool;
use crate::pool_calls::{accounts, lemma_accounts};
use crate::sem_core::{sem_node_ok, AcquireError, SemView, TryAcquireError};
use crate::sem_order::needs;
use crate::sem_word::MAX_PERMITS;
use crate::semaphore::{
    AcquireProgress, AcquireStart, AsyncAcquireRequest, AsyncSemaphore, Semaphore,
    SemaphorePermit, SyncAcquire,
};
use crate::signal::{
    Poll, SignalView, Wake, WakerSlot, Withdrawn, SIGNAL_CLOSED, SIGNAL_INIT_WAITING,
    SIGNAL_RETURNED, SIGNAL_SIGNALED, SIGNAL_UNINIT,
};
use crate::sync_wait::SyncStep;
use crate::wait_calls::{begins, looks};
use crate::waiters::WaitersView;

verus! {

/// `stock` permits are handed to those in line: the first `k` get all they still need and
/// are told so, the next one gets what is left, which is not enough for it, and nobody
/// else gets anything. Without a next one the rest stays.
pub open spec fn shared(
    before: WaitersView,
    stock: nat,
    after: SemView,
    wakes: Seq<Wake>,
    k: int,
) -> bool {
    let now = after.queue.waiters;
    let short = k < before.line.len();
    let next = before.line[k];
    let was = before.nodes[next as int];
    let is = now.nodes[next as int];
    &&& 0 <= k <= before.line.len()
    &&& now.line.len() == before.line.len() - k
    &&& forall|i: int| 0 <= i < now.line.len() ==> #[trigger] now.line[i] == before.line[i + k]
    &&& forall|i: int|
        0 <= i < k ==> {
            let id = #[trigger] before.line[i];
            &&& now.live(id) && !now.popped.contains(id)
            &&& now.nodes[id as int].value == SIGNAL_SIGNALED
            &&& now.nodes[id as int].waker is Empty
            &&& now.nodes[id as int].aux == 0
            &&& now.nodes[id as int].granted == before.nodes[id as int].granted
                + before.nodes[id as int].aux
        }
    &&& short ==> {
        &&& now.live(next) && now.popped.contains(next) == before.popped.contains(next)
        &&& is.value == was.value && is.waker == was.waker
        &&& is.aux > 0
        &&& is.aux + is.granted == was.aux + was.granted
        &&& is.granted >= was.granted
        &&& after.permits == 0
    }
    &&& needs(before, k) + after.permits + (if short {
        is.granted - was.granted
    } else {
        0
    }) == stock
    &&& forall|id: usize|
        (forall|i: int| 0 <= i <= k && i < before.line.len() ==> #[trigger] before.line[i] != id)
            ==> #[trigger] same_for(before, now, id)
    &&& wakes.len() == k
    &&& forall|i: int|
        0 <= i < k ==> #[trigger] wakes[i] == due(before.nodes[before.line[i] as int])
}

/// `n` permits come back: they are handed to those in line, in order, or stay if nobody
/// waits. Whoever got all it waited for is woken.
pub open spec fn comes_back(v: SemView, n: nat, wakes: Seq<Wake>, after: SemView) -> bool {
    &&& after.closed == v.closed
    &&& after.total() == v.total() + n
    &&& woken(v.queue.waiters, after.queue.waiters, wakes)
    &&& if n == 0 || v.queue.waiters.line.len() == 0 {
        after.permits == v.permits + n && after.queue.waiters == v.queue.waiters && wakes.len()
            == 0
    } else {
        exists|k: int| #[trigger] shared(v.queue.waiters, v.permits + n, after, wakes, k)
    }
}

/// Nothing was taken or given.
pub open spec fn untouched(v: SemView, after: SemView) -> bool {
    &&& after.permits == v.permits
    &&& after.closed == v.closed
    &&& after.queue.waiters == v.queue.waiters
    &&& after.total() == v.total()
}

/// `n` permits can be had at once: the semaphore is open, nobody is in line, and they are
/// there.
pub open spec fn at_hand(v: SemView, n: usize) -> bool {
    !v.closed && v.queue.waiters.line.len() == 0 && n <= v.permits
}

/// The permits that are handed out are those that are taken out of the stock.
pub open spec fn hands_out(
    v: SemView,
    mark: int,
    n: usize,
    permit: SemaphorePermit,
    after: SemView,
) -> bool {
    &&& at_hand(v, n)
    &&& permit.count() == n
    &&& permit.source() == mark
    &&& after.permits + permit.count() == v.permits
    &&& after.total() + permit.count() == v.total()
    &&& after.closed == v.closed
}

/// An attempt to take `n` permits gives all of them or none.
pub open spec fn attempts(
    v: SemView,
    mark: int,
    n: usize,
    r: Result<SemaphorePermit, TryAcquireError>,
    after: SemView,
) -> bool {
    match r {
        Ok(permit) => hands_out(v, mark, n, permit, after) && after.queue.waiters
            == v.queue.waiters,
        Err(TryAcquireError::Closed) => v.closed && untouched(v, after),
        Err(TryAcquireError::NoPermits) => !v.closed && !at_hand(v, n) && untouched(v, after),
    }
}

/// A thread that wants `n` permits gets all of them at once, or fails at a closed
/// semaphore, or is last in line with nothing assigned to it.
pub open spec fn starts(
    v: SemView,
    mark: int,
    n: usize,
    thread: usize,
    r: AcquireStart,
    after: SemView,
) -> bool {
    let before = v.queue.waiters;
    let now = after.queue.waiters;
    match r {
        AcquireStart::Ready(Ok(permit)) => hands_out(v, mark, n, permit, after) && now == before,
        AcquireStart::Ready(Err(_)) => v.closed && untouched(v, after),
        AcquireStart::Wait(wait) => {
            let id = wait.waiter().entry;
            &&& !v.closed && !at_hand(v, n)
            &&& wait.wants() == n
            &&& begins(wait.waiter(), before.line.len() == 0)
            &&& !before.live(id)
            &&& joined(before, now, id, SIGNAL_UNINIT, WakerSlot::Sync(thread))
            &&& now.nodes[id as int].aux == n
            &&& now.nodes[id as int].granted == 0
            &&& after.permits == v.permits
            &&& after.closed == v.closed
            &&& after.total() == v.total()
        },
    }
}

/// A waiting thread gets all it asked for if it was served, or an error if the semaphore
/// was closed, and what was assigned to it is back; otherwise nothing happens but that it
/// announces that it parks before it does.
pub open spec fn goes_on(
    v: SemView,
    mark: int,
    id: usize,
    n: usize,
    r: AcquireProgress,
    after: SemView,
) -> bool {
    let before = v.queue.waiters;
    let now = after.queue.waiters;
    let node = before.nodes[id as int];
    &&& after.closed == v.closed
    &&& match r {
        AcquireProgress::Done(Ok(permit), wakes) => {
            &&& node.value == SIGNAL_SIGNALED
            &&& permit.count() == n
            &&& permit.source() == mark
            &&& after.total() + permit.count() == v.total()
            &&& after.permits == v.permits
            &&& went(before, now, id)
            &&& wakes@.len() == 0
        },
        AcquireProgress::Done(Err(_), wakes) => {
            &&& node.value == SIGNAL_CLOSED
            &&& v.closed
            &&& after.permits == v.permits + node.granted
            &&& after.total() == v.total()
            &&& went(before, now, id)
            &&& wakes@.len() == 0
        },
        AcquireProgress::Again(step) => {
            &&& !has_answer(node)
            &&& after.permits == v.permits
            &&& after.total() == v.total()
            &&& match step {
                SyncStep::Park => wrote(before, now, id, SIGNAL_INIT_WAITING, node.waker)
                    && now.nodes[id as int].aux == node.aux,
                SyncStep::Pause(_) => now == before,
                SyncStep::Signaled(_) => false,
            }
        },
    }
}

/// The request `id` is over and holds nothing.
pub open spec fn over(before: WaitersView, now: WaitersView, id: usize) -> bool {
    &&& now.live(id)
    &&& now.nodes[id as int].value == SIGNAL_RETURNED
    &&& now.nodes[id as int].granted == 0
    &&& now.line == before.line
    &&& now.popped == before.popped
    &&& same_but(before, now, id)
}

/// A poll gives all that the request asked for if it was served or finds it at hand, and
/// an error at a closed semaphore; any other request waits, a fresh one last in line,
/// with the waker of this poll.
pub open spec fn polls(
    v: SemView,
    mark: int,
    request: AsyncAcquireRequest,
    waker: usize,
    r: Poll<Result<SemaphorePermit, AcquireError>>,
    wakes: Seq<Wake>,
    after: SemView,
) -> bool {
    let before = v.queue.waiters;
    let now = after.queue.waiters;
    let id = request.entry();
    let n = request.wants();
    let node = before.nodes[id as int];
    &&& after.closed == v.closed
    &&& wakes.len() == 0
    &&& r matches Poll::Ready(Ok(permit)) ==> permit.count() == n && permit.source() == mark
        && after.total() + permit.count() == v.total()
    &&& !(r is Ready && r->0 is Ok) ==> after.total() == v.total()
    &&& if node.value == SIGNAL_SIGNALED {
        &&& r is Ready && r->0 is Ok
        &&& after.permits == v.permits
        &&& over(before, now, id)
    } else if node.value == SIGNAL_CLOSED {
        &&& r is Ready && r->0 is Err
        &&& after.permits == v.permits + node.granted
        &&& over(before, now, id)
    } else if expects(node) {
        &&& r is Pending
        &&& after.permits == v.permits
        &&& wrote(before, now, id, SIGNAL_INIT_WAITING, WakerSlot::Async(waker))
        &&& now.nodes[id as int].aux == node.aux
    } else if v.closed {
        &&& r is Ready && r->0 is Err
        &&& after.permits == v.permits
        &&& over(before, now, id)
    } else if at_hand(v, n) {
        &&& r is Ready && r->0 is Ok
        &&& after.permits + n == v.permits
        &&& over(before, now, id)
    } else {
        &&& r is Pending
        &&& after.permits == v.permits
        &&& joined(before, now, id, SIGNAL_INIT_WAITING, WakerSlot::Async(waker))
        &&& now.nodes[id as int].aux == n
        &&& now.nodes[id as int].granted == 0
    }
}

/// A request that is dropped is gone, and everything that was assigned to it goes to the
/// next in line or back into the stock. If it was first in line, its place is taken by
/// the next, who gets what it can get. Whoever that serves is woken.
pub open spec fn drops(v: SemView, id: usize, r: Withdrawn, after: SemView) -> bool {
    let before = v.queue.waiters;
    let now = after.queue.waiters;
    let granted = before.nodes[id as int].granted;
    &&& after.closed == v.closed
    &&& after.total() == v.total()
    &&& match r {
        Withdrawn::InFlight => before.popped.contains(id) && after == v,
        Withdrawn::Done(wakes) => {
            &&& !before.popped.contains(id)
            &&& !now.live(id)
            &&& woken(before, now, wakes@)
            &&& if before.line.contains(id) && before.line[0] != id {
                left(before, now, id) && after.permits == v.permits && wakes@.len() == 0
            } else {
                exists|mid: WaitersView|
                    {
                        &&& #[trigger] gone(before, mid, id)
                        &&& if mid.line.len() == 0 || mid.line == before.line && granted == 0 {
                            now == mid && after.permits == v.permits + granted && wakes@.len() == 0
                        } else {
                            exists|k: int| #[trigger]
                                shared(mid, v.permits + granted, after, wakes@, k)
                        }
                    }
            }
        },
    }
}

/// Closing fails and wakes everybody in line, in order, and touches no permit.
pub open spec fn closes(v: SemView, wakes: Seq<Wake>, after: SemView) -> bool {
    &&& after.closed
    &&& after.permits == v.permits
    &&& after.total() == v.total()
    &&& after.queue.waiters.line.len() == 0
    &&& answered_front(
        v.queue.waiters,
        after.queue.waiters,
        v.queue.waiters.line.len() as int,
        SIGNAL_CLOSED,
        wakes,
    )
    &&& woken(v.queue.waiters, after.queue.waiters, wakes)
}

/// Handing out the stock of a semaphore.
proof fn lemma_shared(v: SemView)
    requires
        v.w().ok(),
        v.line().len() > 0,
        forall|i: int|
            0 <= i < v.line().len() ==> crate::sem_core::waiting(v.node(#[trigger] v.line()[i])),
    ensures
        shared(v.w(), v.permits, v.drained(), v.drain_wakes(), v.serves()),
        woken(v.w(), v.drained().w(), v.drain_wakes()),
{
    let w = v.w();
    let k = v.serves();
    let after = v.drained();
    let now = after.w();
    let wakes = v.drain_wakes();
    let chain = w.line.take(k);
    let left = crate::sem_core::left_over(w, v.permits, 0);
    crate::sem_core::lemma_served(w, v.permits, 0);
    crate::sem_order::lemma_served_needs(w, v.permits, 0);
    assert(needs(w, 0) == 0);
    assert forall|i: int| 0 <= i < w.line.len() implies w.line.contains(#[trigger] w.line[i])
        && w.line.index_of(w.line[i]) == i && w.live(w.line[i]) && (chain.contains(w.line[i]) <==> i
        < k) by {
        assert(w.line[w.line.index_of(w.line[i])] == w.line[i]);
        if i < k {
            assert(chain[i] == w.line[i]);
        } else if chain.contains(w.line[i]) {
            let q = chain.index_of(w.line[i]);
            assert(w.line[q] == w.line[i]);
        }
    }
    assert forall|id: usize|
        (forall|i: int|
            0 <= i <= k && i < w.line.len() ==> #[trigger] w.line[i] != id) implies #[trigger] same_for(
        w,
        now,
        id,
    ) by {
        if chain.contains(id) {
            assert(w.line[chain.index_of(id)] == id);
        }
        if w.line.contains(id) {
            assert(w.line[w.line.index_of(id)] == id);
        }
        if chain.to_set().contains(id) {
            assert(chain.contains(id));
        }
    }
    assert forall|i: int| 0 <= i < k implies {
        let id = #[trigger] w.line[i];
        &&& now.live(id) && !now.popped.contains(id)
        &&& now.nodes[id as int].value == SIGNAL_SIGNALED
        &&& now.nodes[id as int].waker is Empty
        &&& now.nodes[id as int].aux == 0
        &&& now.nodes[id as int].granted == w.nodes[id as int].granted + w.nodes[id as int].aux
    } by {
        assert(chain.contains(w.line[i]));
    }
    if k < w.line.len() {
        let next = w.line[k];
        assert(!chain.contains(next));
        assert(now.popped.contains(next) == w.popped.contains(next)) by {
            if chain.to_set().contains(next) {
                assert(chain.contains(next));
            }
        }
    }
    assert(shared(w, v.permits, after, wakes, k));
    lemma_shared_woken(w, v.permits, after, wakes, k);
}

/// Whoever is served is woken.
proof fn lemma_shared_woken(w: WaitersView, stock: nat, after: SemView, wakes: Seq<Wake>, k: int)
    requires
        w.ok(),
        shared(w, stock, after, wakes, k),
        forall|i: int|
            0 <= i < w.line.len() ==> crate::sem_core::waiting(
                w.nodes[#[trigger] w.line[i] as int],
            ),
    ensures
        woken(w, after.queue.waiters, wakes),
{
    let now = after.queue.waiters;
    assert forall|id: usize| #[trigger]
        newly_answered(w, now, id) && due(w.nodes[id as int]) != Wake::Nobody implies wakes.contains(
        due(w.nodes[id as int]),
    ) by {
        assert(w.live(id));
        if forall|i: int| 0 <= i <= k && i < w.line.len() ==> #[trigger] w.line[i] != id {
            assert(same_for(w, now, id));
        } else {
            let i = choose|i: int| 0 <= i <= k && i < w.line.len() && #[trigger] w.line[i] == id;
            if i < k {
                assert(wakes[i] == due(w.nodes[id as int]));
            }
        }
    }
    assert forall|i: int|
        0 <= i < wakes.len() && #[trigger] wakes[i] != Wake::Nobody implies exists|id: usize| #[trigger]
        newly_answered(w, now, id) && due(w.nodes[id as int]) == wakes[i] by {
        let id = w.line[i];
        assert(w.live(id));
        assert(newly_answered(w, now, id));
    }
}

pub(crate) proof fn lemma_comes_back(v: SemView, n: nat)
    requires
        v.ok(),
        v.quiet(),
        v.released(n).total() == v.total() + n,
    ensures
        comes_back(v, n, v.release_wakes(n), v.released(n)),
{
    if n > 0 && v.line().len() > 0 {
        lemma_shared(v.added(n));
    } else {
        lemma_nobody_woken(v.w(), v.w(), 0);
        assert(v.release_wakes(n) =~= Seq::empty());
    }
}

proof fn lemma_closes(v: SemView)
    requires
        v.ok(),
        v.quiet(),
        v.sweeps == 0,
        v.shut().total() == v.total(),
    ensures
        closes(v, v.shut_wakes(), v.shut()),
{
    let w = v.w();
    let k = w.line.len() as int;
    lemma_front(w, k, SIGNAL_CLOSED);
    assert(w.line.take(k) =~= w.line);
    let front = w.popped_front(k).after_signals(w.line, SIGNAL_CLOSED);
    if k == 0 {
        assert(front.nodes =~= w.nodes);
        assert(front.popped =~= w.popped);
        assert(front =~= w);
        assert(v.shut_wakes() =~= w.wakes(w.line));
    }
    assert forall|i: int| 0 <= i < k implies expects(w.nodes[#[trigger] w.line[i] as int]) by {
        assert(crate::sem_core::waiting(v.node(v.line()[i])));
        assert(w.live(w.line[i]));
    }
    lemma_front_woken(w, v.shut().w(), k, SIGNAL_CLOSED, v.shut_wakes());
}

pub(crate) proof fn lemma_drops(v: SemView, id: usize, n: usize, r: Withdrawn)
    requires
        v.ok(),
        v.quiet(),
        v.owed == 0,
        v.droppable(id, n),
        v.dropped(id).total() == v.total(),
        (r is InFlight) == v.w().popped.contains(id),
        r matches Withdrawn::Done(wakes) ==> wakes@ == v.drop_wakes(id),
    ensures
        drops(v, id, r, v.dropped(id)),
{
    let w = v.w();
    let granted = v.node(id).granted;
    let after = v.dropped(id);
    if let Withdrawn::Done(wakes) = r {
        if w.line.contains(id) {
            let p = w.line.index_of(id);
            assert(w.line[p] == id);
            assert(w.live(w.line[p]));
            let mid = w.removed(id).with_node(id, SignalView::dead());
            lemma_left(w, id);
            assert(gone(w, mid, id));
            let least = v.left_line(id);
            crate::keeps::lemma_removed_ok(w, id);
            crate::keeps::lemma_node_ok(w.removed(id), id, SignalView::dead());
            crate::waiters::lemma_remove(w.line, id);
            assert(mid.line.len() == w.line.len() - 1);
            assert forall|i: int| 0 <= i < mid.line.len() implies crate::sem_core::waiting(
                mid.nodes[#[trigger] mid.line[i] as int],
            ) by {
                assert(mid.line.contains(mid.line[i]));
                assert(crate::sem_core::waiting(v.node(v.line()[w.line.index_of(mid.line[i])])));
            }
            if p > 0 {
                assert(v.node(v.line()[p]).granted == 0);
                assert(w.line[0] != id);
                assert(after.w() == mid);
                lemma_nobody_woken(w, mid, id);
                assert(wakes@ =~= Seq::empty());
            } else if mid.line.len() > 0 {
                if granted > 0 {
                    lemma_shared(least.added(granted));
                } else {
                    lemma_shared(SemView { owed: v.owed + 1, ..least });
                    assert(wakes@ =~= (SemView { owed: v.owed + 1, ..least }).drain_wakes());
                }
                lemma_woken_without(w, mid, after.w(), id, wakes@);
            } else {
                lemma_nobody_woken(w, mid, id);
                assert(wakes@ =~= Seq::empty());
            }
        } else {
            let mid = w.with_node(id, SignalView::dead());
            let least = v.with_node(id, SignalView::dead());
            assert(went(w, mid, id));
            assert(gone(w, mid, id));
            crate::keeps::lemma_node_ok(w, id, SignalView::dead());
            assert forall|i: int| 0 <= i < mid.line.len() implies crate::sem_core::waiting(
                mid.nodes[#[trigger] mid.line[i] as int],
            ) by {
                assert(w.line.contains(w.line[i]));
                assert(crate::sem_core::waiting(v.node(v.line()[i])));
            }
            if mid.line.len() > 0 && granted > 0 {
                lemma_shared(least.added(granted));
                lemma_woken_without(w, mid, after.w(), id, wakes@);
            } else {
                lemma_nobody_woken(w, mid, id);
                assert(wakes@ =~= Seq::empty());
            }
        }
    }
}

/// Splitting moves permits from one to the other: none appears or gets lost.
pub proof fn split(p: &mut SemaphorePermit, n: usize, r: Option<SemaphorePermit>)
    requires
        call_ensures(SemaphorePermit::split, (p, n), r),
    ensures
        match r {
            Some(part) => n <= old(p).count() && part.count() == n && final(p).count()
                + part.count() == old(p).count() && part.source() == old(p).source()
                && final(p).source() == old(p).source(),
            None => old(p).count() < n && final(p).count() == old(p).count() && final(p).source()
                == old(p).source(),
        },
{
}

/// Merging puts together what was apart, and undoes splitting.
pub proof fn merge(p: &mut SemaphorePermit, other: SemaphorePermit)
    requires
        call_ensures(SemaphorePermit::merge, (p, other), ()),
    ensures
        final(p).count() == old(p).count() + other.count(),
        final(p).source() == old(p).source(),
{
}

/// What is left of forgotten permits gives nothing back.
pub proof fn forget(p: SemaphorePermit, r: SemaphorePermit)
    requires
        call_ensures(SemaphorePermit::forget, (p,), r),
    ensures
        r.count() == 0,
        r.source() == p.source(),
{
}

/// The number of permits is what is handed out, split, merged and given back.
pub proof fn num_permits(p: &SemaphorePermit, r: usize)
    requires
        call_ensures(SemaphorePermit::num_permits, (p,), r),
    ensures
        r == p.count(),
{
}

/// `Semaphore::new`: as many permits as it is made with, open, and nobody waits.
pub proof fn new(n: usize, r: Semaphore)
    requires
        call_ensures(Semaphore::new, (n,), r),
    ensures
        r.wf(),
        r@.permits == n,
        !r@.closed,
        r@.queue.waiters.line.len() == 0,
        r@.total() == n,
{
}

/// `Semaphore::available_permits` and `is_closed` say how it is.
pub proof fn available_permits(s: &Semaphore, n: usize, closed: bool)
    requires
        call_ensures(Semaphore::available_permits, (s,), n),
        call_ensures(Semaphore::is_closed, (s,), closed),
    ensures
        n == s@.permits,
        closed == s@.closed,
{
}

/// `Semaphore::add_permits`: see [`comes_back`].
pub proof fn add_permits(s: &mut Semaphore, n: usize, pool: &mut QueuePool, r: Vec<Wake>)
    requires
        s.wf(),
        call_ensures(Semaphore::add_permits, (s, n, pool), r),
    ensures
        comes_back(old(s)@, n as nat, r@, final(s)@),
        final(s).id() == old(s).id(),
        accounts(
            old(pool)@,
            old(s).structure(),
            final(pool)@,
            final(s).structure(),
        ),
{
    lemma_accounts(pool@, s.structure(), final(pool)@, final(s).structure());
    lemma_comes_back(s@, n as nat);
}

/// `Semaphore::release`: see [`comes_back`].
pub proof fn release(
    s: &mut Semaphore,
    permit: SemaphorePermit,
    pool: &mut QueuePool,
    r: Vec<Wake>,
)
    requires
        s.wf(),
        call_ensures(Semaphore::release, (s, permit, pool), r),
    ensures
        comes_back(old(s)@, permit.count(), r@, final(s)@),
        final(s).id() == old(s).id(),
        accounts(
            old(pool)@,
            old(s).structure(),
            final(pool)@,
            final(s).structure(),
        ),
{
    lemma_accounts(pool@, s.structure(), final(pool)@, final(s).structure());
    lemma_comes_back(s@, permit.count());
}

/// `Semaphore::forget_permits`: as many as asked for, as far as there are, and what it
/// says is what is gone.
pub proof fn forget_permits(s: &mut Semaphore, n: usize, r: usize)
    requires
        s.wf(),
        call_ensures(Semaphore::forget_permits, (s, n), r),
    ensures
        r <= n,
        r < n ==> final(s)@.permits == 0,
        final(s)@.permits + r == old(s)@.permits,
        final(s)@.total() + r == old(s)@.total(),
        final(s)@.closed == old(s)@.closed,
        final(s)@.queue.waiters == old(s)@.queue.waiters,
        final(s).id() == old(s).id(),
{
}

/// `Semaphore::close`: see [`closes`].
pub proof fn close(s: &mut Semaphore, pool: &mut QueuePool, r: Vec<Wake>)
    requires
        s.wf(),
        call_ensures(Semaphore::close, (s, pool), r),
    ensures
        closes(old(s)@, r@, final(s)@),
        final(s).id() == old(s).id(),
        accounts(
            old(pool)@,
            old(s).structure(),
            final(pool)@,
            final(s).structure(),
        ),
{
    lemma_accounts(pool@, s.structure(), final(pool)@, final(s).structure());
    lemma_closes(s@);
}

/// `Semaphore::try_acquire` and `try_acquire_many`: see [`attempts`].
pub proof fn try_acquire_many(
    s: &mut Semaphore,
    n: usize,
    r: Result<SemaphorePermit, TryAcquireError>,
)
    requires
        s.wf(),
        call_ensures(Semaphore::try_acquire_many, (s, n), r) || n == 1 && call_ensures(
            Semaphore::try_acquire,
            (s,),
            r,
        ),
    ensures
        attempts(old(s)@, old(s).id(), n, r, final(s)@),
        final(s).id() == old(s).id(),
{
}

/// `Semaphore::acquire` and `acquire_many`: see [`starts`].
pub proof fn acquire_many(
    s: &mut Semaphore,
    n: usize,
    thread: usize,
    pool: &mut QueuePool,
    r: AcquireStart,
)
    requires
        s.wf(),
        call_ensures(Semaphore::acquire_many, (s, n, thread, pool), r) || n == 1 && call_ensures(
            Semaphore::acquire,
            (s, thread, pool),
            r,
        ),
    ensures
        starts(old(s)@, old(s).id(), n, thread, r, final(s)@),
        final(s).id() == old(s).id(),
        accounts(
            old(pool)@,
            old(s).structure(),
            final(pool)@,
            final(s).structure(),
        ),
{
    lemma_accounts(pool@, s.structure(), final(pool)@, final(s).structure());
    let w = s@.queue.waiters;
    if let AcquireStart::Wait(wait) = r {
        if w.line.contains(wait.waiter().entry) {
            assert(w.live(w.line[w.line.index_of(wait.waiter().entry)]));
        }
    }
}

/// `Semaphore::wait_step`: see [`goes_on`].
pub proof fn wait_step(
    s: &mut Semaphore,
    wait: &mut SyncAcquire,
    pool: &mut QueuePool,
    r: AcquireProgress,
)
    requires
        s.wf(),
        s@.sync_waits(wait.waiter().entry, wait.wants()),
        wait.waiter().stage is Parked ==> s@.node(wait.waiter().entry).value != SIGNAL_UNINIT,
        call_ensures(Semaphore::wait_step, (s, wait, pool), r),
    ensures
        goes_on(
            old(s)@,
            old(s).id(),
            old(wait).waiter().entry,
            old(wait).wants(),
            r,
            final(s)@,
        ),
        final(s).id() == old(s).id(),
        r matches AcquireProgress::Again(step) ==> looks(
            old(wait).waiter(),
            step,
            final(wait).waiter(),
        ),
        final(wait).wants() == old(wait).wants(),
        final(wait).waiter().entry == old(wait).waiter().entry,
        final(wait).waiter().stage is Parked && r is Again ==> final(s)@.node(
            old(wait).waiter().entry,
        ).value != SIGNAL_UNINIT,
        accounts(
            old(pool)@,
            old(s).structure(),
            final(pool)@,
            final(s).structure(),
        ),
{
    lemma_accounts(pool@, s.structure(), final(pool)@, final(s).structure());
    let id = wait.waiter().entry;
    let w = s@.queue.waiters;
    assert(sem_node_ok(w.nodes[id as int]));
    if w.line.contains(id) {
        assert(crate::sem_core::waiting(s@.node(s@.line()[w.line.index_of(id)])));
    }
    if s@.node(id).value == SIGNAL_CLOSED {
        crate::sem_laws::nobody_waits_when_closed(s@);
        assert(s@.with_node(id, SignalView::dead()).release_wakes(s@.node(id).granted)
            =~= Seq::empty());
    }
    if r is Again && r->Again_0 is Pause {
        assert(final(s)@.queue.waiters.nodes =~= w.nodes);
    }
}

/// `Semaphore::acquire_async` and `acquire_many_async`: a fresh request for as many as
/// asked for; nothing else happens.
pub proof fn request(s: &mut Semaphore, n: usize, r: AsyncAcquireRequest)
    requires
        s.wf(),
        call_ensures(Semaphore::acquire_many_async, (s, n), r) || n == 1 && call_ensures(
            Semaphore::acquire_async,
            (s,),
            r,
        ),
    ensures
        r.wants() == n,
        came(old(s)@.queue.waiters, final(s)@.queue.waiters, r.entry()),
        final(s)@.permits == old(s)@.permits,
        final(s)@.closed == old(s)@.closed,
        final(s).id() == old(s).id(),
{
    let w = s@.queue.waiters;
    if w.popped.contains(r.entry()) {
        assert(w.live(r.entry()));
    }
}

/// `Semaphore::poll`: see [`polls`].
pub proof fn poll(
    s: &mut Semaphore,
    request: &AsyncAcquireRequest,
    waker: usize,
    pool: &mut QueuePool,
    r: (Poll<Result<SemaphorePermit, AcquireError>>, Vec<Wake>),
)
    requires
        s.wf(),
        s@.pollable(request.entry(), request.wants()),
        call_ensures(Semaphore::poll, (s, request, waker, pool), r),
    ensures
        polls(old(s)@, old(s).id(), *request, waker, r.0, r.1@, final(s)@),
        final(s).id() == old(s).id(),
        accounts(
            old(pool)@,
            old(s).structure(),
            final(pool)@,
            final(s).structure(),
        ),
{
    lemma_accounts(pool@, s.structure(), final(pool)@, final(s).structure());
    let id = request.entry();
    let w = s@.queue.waiters;
    assert(sem_node_ok(w.nodes[id as int]));
    if w.line.contains(id) {
        assert(crate::sem_core::waiting(s@.node(s@.line()[w.line.index_of(id)])));
    }
    if w.popped.contains(id) {
        assert(crate::sem_core::waiting(s@.node(id)));
    }
    if s@.closed {
        crate::sem_laws::nobody_waits_when_closed(s@);
    }
    assert(s@.poll_wakes(id) =~= Seq::empty());
}

/// `Semaphore::assigned` says how many permits wait for a request to take them over.
pub proof fn assigned(s: &Semaphore, request: &AsyncAcquireRequest, r: usize)
    requires
        call_ensures(Semaphore::assigned, (s, request), r),
    ensures
        r == s@.queue.waiters.nodes[request.entry() as int].granted,
{
}

/// `Semaphore::can_settle` and `can_settle_sync`: whether what a waiter that was failed
/// has to give back fits.
pub proof fn can_settle(
    s: &Semaphore,
    request: &AsyncAcquireRequest,
    r: bool,
    wait: &SyncAcquire,
    r_sync: bool,
)
    requires
        call_ensures(Semaphore::can_settle, (s, request), r),
        call_ensures(Semaphore::can_settle_sync, (s, wait), r_sync),
    ensures
        r == {
            let node = s@.queue.waiters.nodes[request.entry() as int];
            node.value != SIGNAL_CLOSED || s@.permits + node.granted <= MAX_PERMITS
        },
        r_sync == {
            let node = s@.queue.waiters.nodes[wait.waiter().entry as int];
            node.value != SIGNAL_CLOSED || s@.permits + node.granted <= MAX_PERMITS
        },
{
}

/// `Semaphore::drop_request`: see [`drops`].
pub proof fn drop_request(
    s: &mut Semaphore,
    request: &AsyncAcquireRequest,
    pool: &mut QueuePool,
    r: Withdrawn,
)
    requires
        s.wf(),
        s@.droppable(request.entry(), request.wants()),
        call_ensures(Semaphore::drop_request, (s, request, pool), r),
    ensures
        drops(old(s)@, request.entry(), r, final(s)@),
        final(s).id() == old(s).id(),
        accounts(
            old(pool)@,
            old(s).structure(),
            final(pool)@,
            final(s).structure(),
        ),
{
    lemma_accounts(pool@, s.structure(), final(pool)@, final(s).structure());
    lemma_drops(s@, request.entry(), request.wants(), r);
}

/// What an attempt takes a release brings back: afterwards there are as many permits as
/// before, and nobody is woken.
pub proof fn taken_and_released(
    s: &mut Semaphore,
    n: usize,
    permit: SemaphorePermit,
    s1: &mut Semaphore,
    pool: &mut QueuePool,
    r: Vec<Wake>,
)
    requires
        s.wf(),
        call_ensures(Semaphore::try_acquire_many, (s, n), Ok(permit)),
        *s1 == *final(s),
        call_ensures(Semaphore::release, (s1, permit, pool), r),
    ensures
        permit.count() == n,
        final(s1)@.permits == old(s)@.permits,
        final(s1)@.queue.waiters == old(s)@.queue.waiters,
        final(s1)@.closed == old(s)@.closed,
        r@.len() == 0,
{
    try_acquire_many(s, n, Ok(permit));
    release(s1, permit, pool, r);
}

/// `Semaphore::to_async`: the state as it is.
pub proof fn to_async(s: Semaphore, r: AsyncSemaphore)
    requires
        call_ensures(Semaphore::to_async, (s,), r),
    ensures
        r@ == s@,
        r.id() == s.id(),
        s.wf() ==> r.wf(),
{
}

/// `AsyncSemaphore::new`: as many permits as it is made with, open, and nobody waits.
pub proof fn async_new(n: usize, r: AsyncSemaphore)
    requires
        call_ensures(AsyncSemaphore::new, (n,), r),
    ensures
        r.wf(),
        r@.permits == n,
        !r@.closed,
        r@.queue.waiters.line.len() == 0,
        r@.total() == n,
{
}

/// `AsyncSemaphore::available_permits` and `is_closed` say how it is.
pub proof fn async_available_permits(s: &AsyncSemaphore, n: usize, closed: bool)
    requires
        call_ensures(AsyncSemaphore::available_permits, (s,), n),
        call_ensures(AsyncSemaphore::is_closed, (s,), closed),
    ensures
        n == s@.permits,
        closed == s@.closed,
{
}

/// `AsyncSemaphore::add_permits`: see [`comes_back`].
pub proof fn async_add_permits(s: &mut AsyncSemaphore, n: usize, pool: &mut QueuePool, r: Vec<Wake>)
    requires
        s.wf(),
        call_ensures(AsyncSemaphore::add_permits, (s, n, pool), r),
    ensures
        comes_back(old(s)@, n as nat, r@, final(s)@),
        final(s).id() == old(s).id(),
        accounts(
            old(pool)@,
            old(s).structure(),
            final(pool)@,
            final(s).structure(),
        ),
{
    lemma_accounts(pool@, s.structure(), final(pool)@, final(s).structure());
    lemma_comes_back(s@, n as nat);
}

/// `AsyncSemaphore::release`: see [`comes_back`].
pub proof fn async_release(
    s: &mut AsyncSemaphore,
    permit: SemaphorePermit,
    pool: &mut QueuePool,
    r: Vec<Wake>,
)
    requires
        s.wf(),
        call_ensures(AsyncSemaphore::release, (s, permit, pool), r),
    ensures
        comes_back(old(s)@, permit.count(), r@, final(s)@),
        final(s).id() == old(s).id(),
        accounts(
            old(pool)@,
            old(s).structure(),
            final(pool)@,
            final(s).structure(),
        ),
{
    lemma_accounts(pool@, s.structure(), final(pool)@, final(s).structure());
    lemma_comes_back(s@, permit.count());
}

/// `AsyncSemaphore::forget_permits`: as many as asked for, as far as there are, and what
/// it says is what is gone.
pub proof fn async_forget_permits(s: &mut AsyncSemaphore, n: usize, r: usize)
    requires
        s.wf(),
        call_ensures(AsyncSemaphore::forget_permits, (s, n), r),
    ensures
        r <= n,
        r < n ==> final(s)@.permits == 0,
        final(s)@.permits + r == old(s)@.permits,
        final(s)@.total() + r == old(s)@.total(),
        final(s)@.closed == old(s)@.closed,
        final(s)@.queue.waiters == old(s)@.queue.waiters,
        final(s).id() == old(s).id(),
{
}

/// `AsyncSemaphore::close`: see [`closes`].
pub proof fn async_close(s: &mut AsyncSemaphore, pool: &mut QueuePool, r: Vec<Wake>)
    requires
        s.wf(),
        call_ensures(AsyncSemaphore::close, (s, pool), r),
    ensures
        closes(old(s)@, r@, final(s)@),
        final(s).id() == old(s).id(),
        accounts(
            old(pool)@,
            old(s).structure(),
            final(pool)@,
            final(s).structure(),
        ),
{
    lemma_accounts(pool@, s.structure(), final(pool)@, final(s).structure());
    lemma_closes(s@);
}

/// `AsyncSemaphore::try_acquire` and `try_acquire_many`: see [`attempts`].
pub proof fn async_try_acquire_many(
    s: &mut AsyncSemaphore,
    n: usize,
    r: Result<SemaphorePermit, TryAcquireError>,
)
    requires
        s.wf(),
        call_ensures(AsyncSemaphore::try_acquire_many, (s, n), r) || n == 1 && call_ensures(
            AsyncSemaphore::try_acquire,
            (s,),
            r,
        ),
    ensures
        attempts(old(s)@, old(s).id(), n, r, final(s)@),
        final(s).id() == old(s).id(),
{
}

/// `AsyncSemaphore::acquire_sync` and `acquire_many_sync`: see [`starts`].
pub proof fn async_acquire_many(
    s: &mut AsyncSemaphore,
    n: usize,
    thread: usize,
    pool: &mut QueuePool,
    r: AcquireStart,
)
    requires
        s.wf(),
        call_ensures(AsyncSemaphore::acquire_many_sync, (s, n, thread, pool), r) || n == 1 && call_ensures(
            AsyncSemaphore::acquire_sync,
            (s, thread, pool),
            r,
        ),
    ensures
        starts(old(s)@, old(s).id(), n, thread, r, final(s)@),
        final(s).id() == old(s).id(),
        accounts(
            old(pool)@,
            old(s).structure(),
            final(pool)@,
            final(s).structure(),
        ),
{
    lemma_accounts(pool@, s.structure(), final(pool)@, final(s).structure());
    let w = s@.queue.waiters;
    if let AcquireStart::Wait(wait) = r {
        if w.line.contains(wait.waiter().entry) {
            assert(w.live(w.line[w.line.index_of(wait.waiter().entry)]));
        }
    }
}

/// `AsyncSemaphore::wait_step`: see [`goes_on`].
pub proof fn async_wait_step(
    s: &mut AsyncSemaphore,
    wait: &mut SyncAcquire,
    pool: &mut QueuePool,
    r: AcquireProgress,
)
    requires
        s.wf(),
        s@.sync_waits(wait.waiter().entry, wait.wants()),
        wait.waiter().stage is Parked ==> s@.node(wait.waiter().entry).value != SIGNAL_UNINIT,
        call_ensures(AsyncSemaphore::wait_step, (s, wait, pool), r),
    ensures
        goes_on(
            old(s)@,
            old(s).id(),
            old(wait).waiter().entry,
            old(wait).wants(),
            r,
            final(s)@,
        ),
        final(s).id() == old(s).id(),
        r matches AcquireProgress::Again(step) ==> looks(
            old(wait).waiter(),
            step,
            final(wait).waiter(),
        ),
        final(wait).wants() == old(wait).wants(),
        final(wait).waiter().entry == old(wait).waiter().entry,
        final(wait).waiter().stage is Parked && r is Again ==> final(s)@.node(
            old(wait).waiter().entry,
        ).value != SIGNAL_UNINIT,
        accounts(
            old(pool)@,
            old(s).structure(),
            final(pool)@,
            final(s).structure(),
        ),
{
    lemma_accounts(pool@, s.structure(), final(pool)@, final(s).structure());
    let id = wait.waiter().entry;
    let w = s@.queue.waiters;
    assert(sem_node_ok(w.nodes[id as int]));
    if w.line.contains(id) {
        assert(crate::sem_core::waiting(s@.node(s@.line()[w.line.index_of(id)])));
    }
    if s@.node(id).value == SIGNAL_CLOSED {
        crate::sem_laws::nobody_waits_when_closed(s@);
        assert(s@.with_node(id, SignalView::dead()).release_wakes(s@.node(id).granted)
            =~= Seq::empty());
    }
    if r is Again && r->Again_0 is Pause {
        assert(final(s)@.queue.waiters.nodes =~= w.nodes);
    }
}

/// `AsyncSemaphore::acquire` and `acquire_many`: a fresh request for as many as asked
/// for; nothing else happens.
pub proof fn async_request(s: &mut AsyncSemaphore, n: usize, r: AsyncAcquireRequest)
    requires
        s.wf(),
        call_ensures(AsyncSemaphore::acquire_many, (s, n), r) || n == 1 && call_ensures(
            AsyncSemaphore::acquire,
            (s,),
            r,
        ),
    ensures
        r.wants() == n,
        came(old(s)@.queue.waiters, final(s)@.queue.waiters, r.entry()),
        final(s)@.permits == old(s)@.permits,
        final(s)@.closed == old(s)@.closed,
        final(s).id() == old(s).id(),
{
    let w = s@.queue.waiters;
    if w.popped.contains(r.entry()) {
        assert(w.live(r.entry()));
    }
}

/// `AsyncSemaphore::poll`: see [`polls`].
pub proof fn async_poll(
    s: &mut AsyncSemaphore,
    request: &AsyncAcquireRequest,
    waker: usize,
    pool: &mut QueuePool,
    r: (Poll<Result<SemaphorePermit, AcquireError>>, Vec<Wake>),
)
    requires
        s.wf(),
        s@.pollable(request.entry(), request.wants()),
        call_ensures(AsyncSemaphore::poll, (s, request, waker, pool), r),
    ensures
        polls(old(s)@, old(s).id(), *request, waker, r.0, r.1@, final(s)@),
        final(s).id() == old(s).id(),
        accounts(
            old(pool)@,
            old(s).structure(),
            final(pool)@,
            final(s).structure(),
        ),
{
    lemma_accounts(pool@, s.structure(), final(pool)@, final(s).structure());
    let id = request.entry();
    let w = s@.queue.waiters;
    assert(sem_node_ok(w.nodes[id as int]));
    if w.line.contains(id) {
        assert(crate::sem_core::waiting(s@.node(s@.line()[w.line.index_of(id)])));
    }
    if w.popped.contains(id) {
        assert(crate::sem_core::waiting(s@.node(id)));
    }
    if s@.closed {
        crate::sem_laws::nobody_waits_when_closed(s@);
    }
    assert(s@.poll_wakes(id) =~= Seq::empty());
}

/// `AsyncSemaphore::assigned` says how many permits wait for a request to take them over.
pub proof fn async_assigned(s: &AsyncSemaphore, request: &AsyncAcquireRequest, r: usize)
    requires
        call_ensures(AsyncSemaphore::assigned, (s, request), r),
    ensures
        r == s@.queue.waiters.nodes[request.entry() as int].granted,
{
}

/// `AsyncSemaphore::can_settle` and `can_settle_sync`: whether what a waiter that was
/// failed has to give back fits.
pub proof fn async_can_settle(
    s: &AsyncSemaphore,
    request: &AsyncAcquireRequest,
    r: bool,
    wait: &SyncAcquire,
    r_sync: bool,
)
    requires
        call_ensures(AsyncSemaphore::can_settle, (s, request), r),
        call_ensures(AsyncSemaphore::can_settle_sync, (s, wait), r_sync),
    ensures
        r == {
            let node = s@.queue.waiters.nodes[request.entry() as int];
            node.value != SIGNAL_CLOSED || s@.permits + node.granted <= MAX_PERMITS
        },
        r_sync == {
            let node = s@.queue.waiters.nodes[wait.waiter().entry as int];
            node.value != SIGNAL_CLOSED || s@.permits + node.granted <= MAX_PERMITS
        },
{
}

/// `AsyncSemaphore::drop_request`: see [`drops`].
pub proof fn async_drop_request(
    s: &mut AsyncSemaphore,
    request: &AsyncAcquireRequest,
    pool: &mut QueuePool,
    r: Withdrawn,
)
    requires
        s.wf(),
        s@.droppable(request.entry(), request.wants()),
        call_ensures(AsyncSemaphore::drop_request, (s, request, pool), r),
    ensures
        drops(old(s)@, request.entry(), r, final(s)@),
        final(s).id() == old(s).id(),
        accounts(
            old(pool)@,
            old(s).structure(),
            final(pool)@,
            final(s).structure(),
        ),
{
    lemma_accounts(pool@, s.structure(), final(pool)@, final(s).structure());
    lemma_drops(s@, request.entry(), request.wants(), r);
}

/// What an attempt takes a release brings back: afterwards there are as many permits as
/// before, and nobody is woken.
pub proof fn async_taken_and_released(
    s: &mut AsyncSemaphore,
    n: usize,
    permit: SemaphorePermit,
    s1: &mut AsyncSemaphore,
    pool: &mut QueuePool,
    r: Vec<Wake>,
)
    requires
        s.wf(),
        call_ensures(AsyncSemaphore::try_acquire_many, (s, n), Ok(permit)),
        *s1 == *final(s),
        call_ensures(AsyncSemaphore::release, (s1, permit, pool), r),
    ensures
        permit.count() == n,
        final(s1)@.permits == old(s)@.permits,
        final(s1)@.queue.waiters == old(s)@.queue.waiters,
        final(s1)@.closed == old(s)@.closed,
        r@.len() == 0,
{
    async_try_acquire_many(s, n, Ok(permit));
    async_release(s1, permit, pool, r);
}

/// `AsyncSemaphore::to_sync`: the state as it is.
pub proof fn async_to_sync(s: AsyncSemaphore, r: Semaphore)
    requires
        call_ensures(AsyncSemaphore::to_sync, (s,), r),
    ensures
        r@ == s@,
        r.id() == s.id(),
        s.wf() ==> r.wf(),
{
}

} // verus!
