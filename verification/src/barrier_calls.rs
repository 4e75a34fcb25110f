//! What the calls of a barrier do, seen from outside: who waits for how many, who
//! leads a round, and who is woken when it is complete.
use vstd::prelude::*;

use crate::barrier::{AsyncBarrier, AsyncBarrierWaitRequest, Barrier};
use crate::barrier_core::BarrierView;
use crate::barrier_ops::{BarrierStep, BarrierWait, BarrierWaitResult};
use crate::barrier_word::most_parties;
use crate::lines::{
    answered_front, came, ended, expects, has_answer, joined, left, lemma_front,
    lemma_front_woken, lemma_left, went, woken, wrote,
};
use crate::pool::QueuePool;
use crate::pool_calls::{accounts, lemma_accounts};
use crate::sem_core::waiting;
use crate::signal::{
    Poll, Wake, WakerSlot, Withdrawn, SIGNAL_ALL, SIGNAL_INIT_WAITING, SIGNAL_UNINIT,
};
use crate::sync_wait::{SyncStep, SyncWaiter};
use crate::wait_calls::{begins, looks};
use crate::waiters::WaitersView;

verus! {

/// It is still the same round, with the same arrivals.
pub open spec fn same_round(v: BarrierView, after: BarrierView) -> bool {
    &&& after.generation == v.generation
    &&& after.arrived == v.arrived
    &&& after.n == v.n
}

/// The round is complete, and the next one has begun with nobody there: everybody in line
/// is released and woken.
pub open spec fn passes(
    v: BarrierView,
    before: WaitersView,
    wakes: Seq<Wake>,
    after: BarrierView,
) -> bool {
    &&& after.n == v.n
    &&& after.arrived == 0
    &&& if after.generation == 0 {
        v.generation == most_parties()
    } else {
        after.generation == v.generation + 1
    }
    &&& after.queue.waiters.line.len() == 0
    &&& answered_front(
        before,
        after.queue.waiters,
        before.line.len() as int,
        SIGNAL_ALL,
        wakes,
    )
    &&& woken(before, after.queue.waiters, wakes)
}

/// One more has arrived in this round and is last in line for it.
pub open spec fn waits(
    v: BarrierView,
    id: usize,
    value: usize,
    waker: WakerSlot,
    after: BarrierView,
) -> bool {
    &&& v.arrived + 1 < v.n
    &&& after.generation == v.generation
    &&& after.arrived == v.arrived + 1
    &&& after.n == v.n
    &&& joined(v.queue.waiters, after.queue.waiters, id, value, waker)
    &&& after.queue.waiters.nodes[id as int].aux == v.generation
}

/// The last to arrive leads the round and releases the others; anybody else waits.
pub open spec fn arrives(
    v: BarrierView,
    thread: usize,
    r: BarrierWait,
    after: BarrierView,
) -> bool {
    match r {
        BarrierWait::Ready(result, wakes) => {
            &&& v.arrived + 1 == v.n
            &&& result@
            &&& passes(v, v.queue.waiters, wakes@, after)
        },
        BarrierWait::Wait(waiter) => {
            &&& begins(waiter@, false)
            &&& !v.queue.waiters.live(waiter@.entry)
            &&& waits(v, waiter@.entry, SIGNAL_UNINIT, WakerSlot::Sync(thread), after)
        },
    }
}

/// A waiting thread goes on when it is released, and does not lead; until then nothing
/// happens but that it announces that it parks before it does.
pub open spec fn goes_on(v: BarrierView, id: usize, r: BarrierStep, after: BarrierView) -> bool {
    let before = v.queue.waiters;
    let now = after.queue.waiters;
    let node = before.nodes[id as int];
    &&& same_round(v, after)
    &&& match r {
        BarrierStep::Done(result) => has_answer(node) && !result@ && went(before, now, id),
        BarrierStep::Again(step) => {
            &&& !has_answer(node)
            &&& match step {
                SyncStep::Park => wrote(before, now, id, SIGNAL_INIT_WAITING, node.waker),
                SyncStep::Pause(_) => now == before,
                SyncStep::Signaled(_) => false,
            }
        },
    }
}

/// A poll is ready for a request that was released, which does not lead, and for a fresh
/// one that is the last to arrive, which does; any other request waits, a fresh one last
/// in line, with the waker of this poll.
pub open spec fn polls(
    v: BarrierView,
    id: usize,
    waker: usize,
    r: Poll<BarrierWaitResult>,
    wakes: Seq<Wake>,
    after: BarrierView,
) -> bool {
    let before = v.queue.waiters;
    let now = after.queue.waiters;
    let node = before.nodes[id as int];
    if has_answer(node) {
        &&& r matches Poll::Ready(result)
        &&& !result@
        &&& ended(before, now, id)
        &&& same_round(v, after)
        &&& wakes.len() == 0
    } else if expects(node) {
        &&& r is Pending
        &&& wrote(before, now, id, SIGNAL_INIT_WAITING, WakerSlot::Async(waker))
        &&& same_round(v, after)
        &&& wakes.len() == 0
    } else if v.arrived + 1 == v.n {
        &&& r matches Poll::Ready(result)
        &&& result@
        &&& exists|mid: WaitersView| #[trigger]
            ended(before, mid, id) && passes(v, mid, wakes, after)
    } else {
        &&& r is Pending
        &&& waits(v, id, SIGNAL_INIT_WAITING, WakerSlot::Async(waker), after)
        &&& wakes.len() == 0
    }
}

/// A request that is dropped is gone. One that waits takes its arrival back; any other
/// leaves the round as it is. Nobody is woken.
pub open spec fn drops(v: BarrierView, id: usize, r: Withdrawn, after: BarrierView) -> bool {
    let before = v.queue.waiters;
    let now = after.queue.waiters;
    match r {
        Withdrawn::InFlight => before.popped.contains(id) && after == v,
        Withdrawn::Done(wakes) => {
            &&& !before.popped.contains(id)
            &&& wakes@.len() == 0
            &&& after.generation == v.generation
            &&& after.n == v.n
            &&& if before.line.contains(id) {
                left(before, now, id) && after.arrived + 1 == v.arrived
            } else {
                went(before, now, id) && after.arrived == v.arrived
            }
        },
    }
}

proof fn lemma_passes(v: BarrierView)
    requires
        v.w().ok(),
        forall|i: int| 0 <= i < v.line().len() ==> waiting(v.node(#[trigger] v.line()[i])),
        v.generation <= most_parties(),
    ensures
        passes(v, v.w(), v.w().wakes(v.line()), v.passed()),
{
    let w = v.w();
    let k = w.line.len() as int;
    lemma_front(w, k, SIGNAL_ALL);
    assert(w.line.take(k) =~= w.line);
    assert forall|i: int| 0 <= i < k implies expects(w.nodes[#[trigger] w.line[i] as int]) by {
        assert(waiting(v.node(v.line()[i])));
        assert(w.live(w.line[i]));
    }
    lemma_front_woken(w, v.passed().w(), k, SIGNAL_ALL, w.wakes(w.line));
}

/// Whether a party leads is what its result says.
pub proof fn is_leader(result: &BarrierWaitResult, r: bool)
    requires
        call_ensures(BarrierWaitResult::is_leader, (result,), r),
    ensures
        r == result@,
{
}

/// `Barrier::new` and `parties`: for as many as it is made with, but at least for one,
/// and nobody is there.
pub proof fn new(n: usize, r: Barrier, parties: usize)
    requires
        call_ensures(Barrier::new, (n,), r),
        call_ensures(Barrier::parties, (&r,), parties),
    ensures
        r.wf(),
        r@.n == parties,
        n >= 1 ==> parties == n,
        n == 0 ==> parties == 1,
        r@.arrived == 0,
        r@.queue.waiters.line.len() == 0,
{
}

/// `Barrier::wait`: see [`arrives`].
pub proof fn wait(s: &mut Barrier, thread: usize, pool: &mut QueuePool, r: BarrierWait)
    requires
        s.wf(),
        call_ensures(Barrier::wait, (s, thread, pool), r),
    ensures
        arrives(old(s)@, thread, r, final(s)@),
        accounts(
            old(pool)@,
            old(s).structure(),
            final(pool)@,
            final(s).structure(),
        ),
{
    lemma_accounts(pool@, s.structure(), final(pool)@, final(s).structure());
    let w = s@.queue.waiters;
    crate::barrier_word::lemma_most_parties();
    match r {
        BarrierWait::Ready(_, _) => {
            lemma_passes(s@);
        },
        BarrierWait::Wait(waiter) => {
            if w.line.contains(waiter@.entry) {
                assert(w.live(w.line[w.line.index_of(waiter@.entry)]));
            }
        },
    }
}

/// `Barrier::wait_step`: see [`goes_on`].
pub proof fn wait_step(s: &mut Barrier, waiter: &mut SyncWaiter, r: BarrierStep)
    requires
        s.wf(),
        s@.sync_waits(waiter@.entry),
        waiter@.stage is Parked ==> s@.node(waiter@.entry).value != SIGNAL_UNINIT,
        call_ensures(Barrier::wait_step, (s, waiter), r),
    ensures
        goes_on(old(s)@, old(waiter)@.entry, r, final(s)@),
        final(waiter)@.entry == old(waiter)@.entry,
        r matches BarrierStep::Again(step) ==> looks(old(waiter)@, step, final(waiter)@),
        final(waiter)@.stage is Parked && r is Again ==> final(s)@.node(old(waiter)@.entry).value
            != SIGNAL_UNINIT,
{
    let id = waiter@.entry;
    let w = s@.queue.waiters;
    if w.line.contains(id) {
        assert(waiting(s@.node(s@.line()[w.line.index_of(id)])));
    }
    if r is Again && r->Again_0 is Pause {
        assert(final(s)@.queue.waiters.nodes =~= w.nodes);
    }
}

/// `Barrier::wait_async`: a fresh request, which has not arrived yet; nothing else
/// happens.
pub proof fn request(s: &mut Barrier, r: AsyncBarrierWaitRequest)
    requires
        s.wf(),
        call_ensures(Barrier::wait_async, (s,), r),
    ensures
        came(old(s)@.queue.waiters, final(s)@.queue.waiters, r@),
        same_round(old(s)@, final(s)@),
{
    let w = s@.queue.waiters;
    if w.popped.contains(r@) {
        assert(w.live(r@));
    }
}

/// `Barrier::poll`: see [`polls`].
pub proof fn poll(
    s: &mut Barrier,
    request: &AsyncBarrierWaitRequest,
    waker: usize,
    pool: &mut QueuePool,
    r: (Poll<BarrierWaitResult>, Vec<Wake>),
)
    requires
        s.wf(),
        s@.pollable(request@),
        call_ensures(Barrier::poll, (s, request, waker, pool), r),
    ensures
        polls(old(s)@, request@, waker, r.0, r.1@, final(s)@),
        accounts(
            old(pool)@,
            old(s).structure(),
            final(pool)@,
            final(s).structure(),
        ),
{
    lemma_accounts(pool@, s.structure(), final(pool)@, final(s).structure());
    let id = request@;
    let v = s@;
    let w = v.queue.waiters;
    if w.line.contains(id) {
        assert(waiting(v.node(v.line()[w.line.index_of(id)])));
    }
    if w.popped.contains(id) {
        assert(waiting(v.node(id)));
    }
    if v.node(id).value == SIGNAL_UNINIT && v.completing() {
        let mid = v.with_node(id, v.returned(id));
        crate::barrier_word::lemma_most_parties();
        crate::keeps::lemma_node_ok(w, id, v.returned(id));
        assert forall|i: int| 0 <= i < mid.line().len() implies waiting(
            mid.node(#[trigger] mid.line()[i]),
        ) by {
            assert(w.line.contains(w.line[i]));
            assert(waiting(v.node(v.line()[i])));
        }
        lemma_passes(mid);
        assert(mid.w().wakes(mid.line()) =~= w.wakes(w.line)) by {
            assert forall|i: int|
                0 <= i < w.line.len() implies mid.w().nodes[#[trigger] w.line[i] as int]
                == w.nodes[w.line[i] as int] by {
                assert(w.line.contains(w.line[i]));
            }
        }
        assert(ended(w, mid.w(), id));
        assert(passes(v, mid.w(), r.1@, final(s)@));
    }
}

/// `Barrier::drop_request`: see [`drops`].
pub proof fn drop_request(
    s: &mut Barrier,
    request: &AsyncBarrierWaitRequest,
    pool: &mut QueuePool,
    r: Withdrawn,
)
    requires
        s.wf(),
        s@.droppable(request@),
        call_ensures(Barrier::drop_request, (s, request, pool), r),
    ensures
        drops(old(s)@, request@, r, final(s)@),
        accounts(
            old(pool)@,
            old(s).structure(),
            final(pool)@,
            final(s).structure(),
        ),
{
    lemma_accounts(pool@, s.structure(), final(pool)@, final(s).structure());
    let w = s@.queue.waiters;
    if w.line.contains(request@) {
        lemma_left(w, request@);
    }
}

/// `Barrier::to_async`: the state as it is.
pub proof fn to_async(s: Barrier, r: AsyncBarrier)
    requires
        call_ensures(Barrier::to_async, (s,), r),
    ensures
        r@ == s@,
        s.wf() ==> r.wf(),
{
}

/// Of any two arrivals that follow each other at a barrier for more than one, at most one
/// leads; and after one that has to wait the next one leads exactly if both together
/// complete the round.
pub proof fn one_leader(
    s: &mut Barrier,
    first: usize,
    pool: &mut QueuePool,
    r1: BarrierWait,
    s1: &mut Barrier,
    second: usize,
    pool1: &mut QueuePool,
    r2: BarrierWait,
)
    requires
        s.wf(),
        s@.n > 1,
        call_ensures(Barrier::wait, (s, first, pool), r1),
        *s1 == *final(s),
        call_ensures(Barrier::wait, (s1, second, pool1), r2),
    ensures
        r1 is Ready ==> r2 is Wait,
        r1 is Wait ==> ((r2 is Ready) == (old(s)@.arrived + 2 == old(s)@.n)),
{
    wait(s, first, pool, r1);
    wait(s1, second, pool1, r2);
}

/// Once the last has arrived, everybody who waited goes on, and does not lead.
pub proof fn everybody_goes_on(
    s: &mut Barrier,
    thread: usize,
    pool: &mut QueuePool,
    r: BarrierWait,
    s1: &mut Barrier,
    waiter: &mut SyncWaiter,
    step: BarrierStep,
)
    requires
        s.wf(),
        s@.queue.waiters.line.contains(waiter@.entry),
        call_ensures(Barrier::wait, (s, thread, pool), r),
        r is Ready,
        *s1 == *final(s),
        call_ensures(Barrier::wait_step, (s1, waiter), step),
    ensures
        step matches BarrierStep::Done(result) && !result@,
{
    wait(s, thread, pool, r);
    let w = s@.queue.waiters;
    let i = w.line.index_of(waiter@.entry);
    assert(w.line[i] == waiter@.entry);
}

/// A fresh request that is polled, has to wait and is dropped leaves no trace in the
/// round.
pub proof fn taken_back(
    s: &mut Barrier,
    request: &AsyncBarrierWaitRequest,
    waker: usize,
    pool: &mut QueuePool,
    polled: (Poll<BarrierWaitResult>, Vec<Wake>),
    s1: &mut Barrier,
    pool1: &mut QueuePool,
    r: Withdrawn,
)
    requires
        s.wf(),
        s@.pollable(request@),
        s@.node(request@).value == SIGNAL_UNINIT,
        call_ensures(Barrier::poll, (s, request, waker, pool), polled),
        polled.0 is Pending,
        *s1 == *final(s),
        call_ensures(Barrier::drop_request, (s1, request, pool1), r),
    ensures
        r is Done,
        same_round(old(s)@, final(s1)@),
        final(s1)@.queue.waiters.line == old(s)@.queue.waiters.line,
{
    poll(s, request, waker, pool, polled);
    let id = request@;
    let w = s@.queue.waiters;
    let w1 = s1@.queue.waiters;
    assert(w1.line[w1.line.len() - 1] == id);
    assert(w1.line.contains(id));
    drop_request(s1, request, pool1, r);
    let w2 = final(s1)@.queue.waiters;
    if r is Done {
        let p = choose|p: int| #[trigger] crate::lines::left_from(w1.line, w2.line, id, p);
        assert(w1.line[p] == id);
        if p < w.line.len() {
            assert(w.line[p] == id);
            assert(w.line.contains(id));
        }
        assert(w2.line =~= w.line);
    }
}

/// `AsyncBarrier::new` and `parties`: for as many as it is made with, but at least for
/// one, and nobody is there.
pub proof fn async_new(n: usize, r: AsyncBarrier, parties: usize)
    requires
        call_ensures(AsyncBarrier::new, (n,), r),
        call_ensures(AsyncBarrier::parties, (&r,), parties),
    ensures
        r.wf(),
        r@.n == parties,
        n >= 1 ==> parties == n,
        n == 0 ==> parties == 1,
        r@.arrived == 0,
        r@.queue.waiters.line.len() == 0,
{
}

/// `AsyncBarrier::wait_sync`: see [`arrives`].
pub proof fn async_wait(s: &mut AsyncBarrier, thread: usize, pool: &mut QueuePool, r: BarrierWait)
    requires
        s.wf(),
        call_ensures(AsyncBarrier::wait_sync, (s, thread, pool), r),
    ensures
        arrives(old(s)@, thread, r, final(s)@),
        accounts(
            old(pool)@,
            old(s).structure(),
            final(pool)@,
            final(s).structure(),
        ),
{
    lemma_accounts(pool@, s.structure(), final(pool)@, final(s).structure());
    let w = s@.queue.waiters;
    crate::barrier_word::lemma_most_parties();
    match r {
        BarrierWait::Ready(_, _) => {
            lemma_passes(s@);
        },
        BarrierWait::Wait(waiter) => {
            if w.line.contains(waiter@.entry) {
                assert(w.live(w.line[w.line.index_of(waiter@.entry)]));
            }
        },
    }
}

/// `AsyncBarrier::wait_step`: see [`goes_on`].
pub proof fn async_wait_step(s: &mut AsyncBarrier, waiter: &mut SyncWaiter, r: BarrierStep)
    requires
        s.wf(),
        s@.sync_waits(waiter@.entry),
        waiter@.stage is Parked ==> s@.node(waiter@.entry).value != SIGNAL_UNINIT,
        call_ensures(AsyncBarrier::wait_step, (s, waiter), r),
    ensures
        goes_on(old(s)@, old(waiter)@.entry, r, final(s)@),
        final(waiter)@.entry == old(waiter)@.entry,
        r matches BarrierStep::Again(step) ==> looks(old(waiter)@, step, final(waiter)@),
        final(waiter)@.stage is Parked && r is Again ==> final(s)@.node(old(waiter)@.entry).value
            != SIGNAL_UNINIT,
{
    let id = waiter@.entry;
    let w = s@.queue.waiters;
    if w.line.contains(id) {
        assert(waiting(s@.node(s@.line()[w.line.index_of(id)])));
    }
    if r is Again && r->Again_0 is Pause {
        assert(final(s)@.queue.waiters.nodes =~= w.nodes);
    }
}

/// `AsyncBarrier::wait`: a fresh request, which has not arrived yet; nothing else
/// happens.
pub proof fn async_request(s: &mut AsyncBarrier, r: AsyncBarrierWaitRequest)
    requires
        s.wf(),
        call_ensures(AsyncBarrier::wait, (s,), r),
    ensures
        came(old(s)@.queue.waiters, final(s)@.queue.waiters, r@),
        same_round(old(s)@, final(s)@),
{
    let w = s@.queue.waiters;
    if w.popped.contains(r@) {
        assert(w.live(r@));
    }
}

/// `AsyncBarrier::poll`: see [`polls`].
pub proof fn async_poll(
    s: &mut AsyncBarrier,
    request: &AsyncBarrierWaitRequest,
    waker: usize,
    pool: &mut QueuePool,
    r: (Poll<BarrierWaitResult>, Vec<Wake>),
)
    requires
        s.wf(),
        s@.pollable(request@),
        call_ensures(AsyncBarrier::poll, (s, request, waker, pool), r),
    ensures
        polls(old(s)@, request@, waker, r.0, r.1@, final(s)@),
        accounts(
            old(pool)@,
            old(s).structure(),
            final(pool)@,
            final(s).structure(),
        ),
{
    lemma_accounts(pool@, s.structure(), final(pool)@, final(s).structure());
    let id = request@;
    let v = s@;
    let w = v.queue.waiters;
    if w.line.contains(id) {
        assert(waiting(v.node(v.line()[w.line.index_of(id)])));
    }
    if w.popped.contains(id) {
        assert(waiting(v.node(id)));
    }
    if v.node(id).value == SIGNAL_UNINIT && v.completing() {
        let mid = v.with_node(id, v.returned(id));
        crate::barrier_word::lemma_most_parties();
        crate::keeps::lemma_node_ok(w, id, v.returned(id));
        assert forall|i: int| 0 <= i < mid.line().len() implies waiting(
            mid.node(#[trigger] mid.line()[i]),
        ) by {
            assert(w.line.contains(w.line[i]));
            assert(waiting(v.node(v.line()[i])));
        }
        lemma_passes(mid);
        assert(mid.w().wakes(mid.line()) =~= w.wakes(w.line)) by {
            assert forall|i: int|
                0 <= i < w.line.len() implies mid.w().nodes[#[trigger] w.line[i] as int]
                == w.nodes[w.line[i] as int] by {
                assert(w.line.contains(w.line[i]));
            }
        }
        assert(ended(w, mid.w(), id));
        assert(passes(v, mid.w(), r.1@, final(s)@));
    }
}

/// `AsyncBarrier::drop_request`: see [`drops`].
pub proof fn async_drop_request(
    s: &mut AsyncBarrier,
    request: &AsyncBarrierWaitRequest,
    pool: &mut QueuePool,
    r: Withdrawn,
)
    requires
        s.wf(),
        s@.droppable(request@),
        call_ensures(AsyncBarrier::drop_request, (s, request, pool), r),
    ensures
        drops(old(s)@, request@, r, final(s)@),
        accounts(
            old(pool)@,
            old(s).structure(),
            final(pool)@,
            final(s).structure(),
        ),
{
    lemma_accounts(pool@, s.structure(), final(pool)@, final(s).structure());
    let w = s@.queue.waiters;
    if w.line.contains(request@) {
        lemma_left(w, request@);
    }
}

/// `AsyncBarrier::to_sync`: the state as it is.
pub proof fn async_to_sync(s: AsyncBarrier, r: Barrier)
    requires
        call_ensures(AsyncBarrier::to_sync, (s,), r),
    ensures
        r@ == s@,
        s.wf() ==> r.wf(),
{
}

/// Of any two arrivals that follow each other at a barrier for more than one, at most one
/// leads; and after one that has to wait the next one leads exactly if both together
/// complete the round.
pub proof fn async_one_leader(
    s: &mut AsyncBarrier,
    first: usize,
    pool: &mut QueuePool,
    r1: BarrierWait,
    s1: &mut AsyncBarrier,
    second: usize,
    pool1: &mut QueuePool,
    r2: BarrierWait,
)
    requires
        s.wf(),
        s@.n > 1,
        call_ensures(AsyncBarrier::wait_sync, (s, first, pool), r1),
        *s1 == *final(s),
        call_ensures(AsyncBarrier::wait_sync, (s1, second, pool1), r2),
    ensures
        r1 is Ready ==> r2 is Wait,
        r1 is Wait ==> ((r2 is Ready) == (old(s)@.arrived + 2 == old(s)@.n)),
{
    async_wait(s, first, pool, r1);
    async_wait(s1, second, pool1, r2);
}

/// Once the last has arrived, everybody who waited goes on, and does not lead.
pub proof fn async_everybody_goes_on(
    s: &mut AsyncBarrier,
    thread: usize,
    pool: &mut QueuePool,
    r: BarrierWait,
    s1: &mut AsyncBarrier,
    waiter: &mut SyncWaiter,
    step: BarrierStep,
)
    requires
        s.wf(),
        s@.queue.waiters.line.contains(waiter@.entry),
        call_ensures(AsyncBarrier::wait_sync, (s, thread, pool), r),
        r is Ready,
        *s1 == *final(s),
        call_ensures(AsyncBarrier::wait_step, (s1, waiter), step),
    ensures
        step matches BarrierStep::Done(result) && !result@,
{
    async_wait(s, thread, pool, r);
    let w = s@.queue.waiters;
    let i = w.line.index_of(waiter@.entry);
    assert(w.line[i] == waiter@.entry);
}

/// A fresh request that is polled, has to wait and is dropped leaves no trace in the
/// round.
pub proof fn async_taken_back(
    s: &mut AsyncBarrier,
    request: &AsyncBarrierWaitRequest,
    waker: usize,
    pool: &mut QueuePool,
    polled: (Poll<BarrierWaitResult>, Vec<Wake>),
    s1: &mut AsyncBarrier,
    pool1: &mut QueuePool,
    r: Withdrawn,
)
    requires
        s.wf(),
        s@.pollable(request@),
        s@.node(request@).value == SIGNAL_UNINIT,
        call_ensures(AsyncBarrier::poll, (s, request, waker, pool), polled),
        polled.0 is Pending,
        *s1 == *final(s),
        call_ensures(AsyncBarrier::drop_request, (s1, request, pool1), r),
    ensures
        r is Done,
        same_round(old(s)@, final(s1)@),
        final(s1)@.queue.waiters.line == old(s)@.queue.waiters.line,
{
    async_poll(s, request, waker, pool, polled);
    let id = request@;
    let w = s@.queue.waiters;
    let w1 = s1@.queue.waiters;
    assert(w1.line[w1.line.len() - 1] == id);
    assert(w1.line.contains(id));
    async_drop_request(s1, request, pool1, r);
    let w2 = final(s1)@.queue.waiters;
    if r is Done {
        let p = choose|p: int| #[trigger] crate::lines::left_from(w1.line, w2.line, id, p);
        assert(w1.line[p] == id);
        if p < w.line.len() {
            assert(w.line[p] == id);
            assert(w.line.contains(id));
        }
        assert(w2.line =~= w.line);
    }
}

} // verus!
