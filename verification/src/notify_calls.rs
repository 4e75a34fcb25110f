//! What the calls of a notifier do, seen from outside: who is notified, who is
//! woken, and what is kept for later.
use vstd::prelude::*;

use crate::lines::{
    answered_front, came, expects, has_answer, joined, left, lemma_first, lemma_front,
    lemma_front_woken, lemma_left, lemma_nobody_woken, went, woken, wrote,
};
use crate::notify::{AsyncNotified, AsyncNotify, Notify};
use crate::notify_core::{NotifyView, GEN_LAST};
use crate::notify_ops::{notify_waiters_releases_all, Wait};
use crate::pool::QueuePool;
use crate::pool_calls::{accounts, lemma_accounts};
use crate::signal::{
    Poll, SignalView, Wake, WakerSlot, Withdrawn, SIGNAL_ALL, SIGNAL_INIT_WAITING,
    SIGNAL_RETURNED, SIGNAL_SIGNALED, SIGNAL_UNINIT,
};
use crate::sync_wait::{SyncStep, SyncWaiter};
use crate::wait_calls::{begins, looks};

verus! {

/// One notification reaches the one that has waited longest, or is kept, once, for the
/// next wait.
pub open spec fn notifies_one(v: NotifyView, wakes: Seq<Wake>, after: NotifyView) -> bool {
    &&& after.generation == v.generation
    &&& if v.queue.waiters.line.len() == 0 {
        after.permit && after.queue.waiters == v.queue.waiters && wakes.len() == 0
    } else {
        !after.permit && answered_front(
            v.queue.waiters,
            after.queue.waiters,
            1,
            SIGNAL_SIGNALED,
            wakes,
        )
    }
    &&& woken(v.queue.waiters, after.queue.waiters, wakes)
}

/// Everybody who waits is notified and woken, in order; nothing is kept for later, and
/// waits that have begun are told from those that begin now.
pub open spec fn notifies_all(v: NotifyView, wakes: Seq<Wake>, after: NotifyView) -> bool {
    &&& after.permit == v.permit
    &&& after.generation == (v.generation + 1) % (GEN_LAST + 1)
    &&& after.queue.waiters.line.len() == 0
    &&& answered_front(
        v.queue.waiters,
        after.queue.waiters,
        v.queue.waiters.line.len() as int,
        SIGNAL_ALL,
        wakes,
    )
    &&& woken(v.queue.waiters, after.queue.waiters, wakes)
}

/// A thread uses a kept notification up, or is last in line, not parked.
pub open spec fn begins_to_wait(
    v: NotifyView,
    thread: usize,
    r: Wait,
    after: NotifyView,
) -> bool {
    &&& after.generation == v.generation
    &&& !after.permit
    &&& match r {
        Wait::Ready => v.permit && after.queue.waiters == v.queue.waiters,
        Wait::Wait(waiter) => {
            let id = waiter@.entry;
            &&& !v.permit
            &&& begins(waiter@, false)
            &&& !v.queue.waiters.live(id)
            &&& joined(
                v.queue.waiters,
                after.queue.waiters,
                id,
                SIGNAL_UNINIT,
                WakerSlot::Sync(thread),
            )
            &&& after.queue.waiters.nodes[id as int].aux == v.generation
        },
    }
}

/// A waiting thread is through exactly if it was notified; otherwise nothing happens but
/// that it announces that it parks before it does.
pub open spec fn waits_on(
    v: NotifyView,
    id: usize,
    r: Option<SyncStep>,
    after: NotifyView,
) -> bool {
    let node = v.queue.waiters.nodes[id as int];
    &&& after.generation == v.generation
    &&& after.permit == v.permit
    &&& (r is None) == has_answer(node)
    &&& match r {
        None => went(v.queue.waiters, after.queue.waiters, id),
        Some(SyncStep::Park) => wrote(
            v.queue.waiters,
            after.queue.waiters,
            id,
            SIGNAL_INIT_WAITING,
            node.waker,
        ),
        Some(SyncStep::Pause(_)) => after.queue.waiters == v.queue.waiters,
        Some(SyncStep::Signaled(_)) => false,
    }
}

/// A poll is ready for a request that was notified, or that is fresh and finds a newer
/// generation, or else uses a kept notification up; any other request waits, a fresh one
/// last in line, with the waker of this poll.
pub open spec fn polls(
    v: NotifyView,
    request: AsyncNotified,
    waker: usize,
    r: Poll<()>,
    after: NotifyView,
) -> bool {
    let before = v.queue.waiters;
    let now = after.queue.waiters;
    let id = request.entry();
    let node = before.nodes[id as int];
    &&& after.generation == v.generation
    &&& if has_answer(node) {
        &&& r is Ready
        &&& after.permit == v.permit
        &&& wrote(before, now, id, SIGNAL_RETURNED, node.waker)
    } else if expects(node) {
        &&& r is Pending
        &&& after.permit == v.permit
        &&& wrote(before, now, id, SIGNAL_INIT_WAITING, WakerSlot::Async(waker))
    } else if v.generation != request.captured() {
        &&& r is Ready
        &&& after.permit == v.permit
        &&& wrote(before, now, id, SIGNAL_RETURNED, node.waker)
    } else if v.permit {
        &&& r is Ready
        &&& !after.permit
        &&& wrote(before, now, id, SIGNAL_RETURNED, node.waker)
    } else {
        &&& r is Pending
        &&& !after.permit
        &&& joined(before, now, id, SIGNAL_INIT_WAITING, WakerSlot::Async(waker))
        &&& now.nodes[id as int].aux == request.captured()
    }
}

/// A request that is dropped leaves no trace but that a notification that was meant for
/// it alone, and that it has not seen, goes to the next.
pub open spec fn drops(
    v: NotifyView,
    id: usize,
    r: Withdrawn,
    after: NotifyView,
) -> bool {
    let before = v.queue.waiters;
    let now = after.queue.waiters;
    let node = before.nodes[id as int];
    &&& after.generation == v.generation
    &&& match r {
        Withdrawn::InFlight => before.popped.contains(id) && after == v,
        Withdrawn::Done(wakes) => {
            &&& !before.popped.contains(id)
            &&& !now.live(id)
            &&& woken(before, now, wakes@)
            &&& if node.value == SIGNAL_SIGNALED {
                if before.line.len() == 0 {
                    after.permit && went(before, now, id) && wakes@.len() == 0
                } else {
                    &&& !after.permit
                    &&& exists|mid: crate::waiters::WaitersView| #[trigger]
                        went(before, mid, id) && answered_front(
                            mid,
                            now,
                            1,
                            SIGNAL_SIGNALED,
                            wakes@,
                        )
                }
            } else {
                &&& after.permit == v.permit
                &&& wakes@.len() == 0
                &&& if before.line.contains(id) {
                    left(before, now, id)
                } else {
                    went(before, now, id)
                }
            }
        },
    }
}

proof fn lemma_one(v: NotifyView)
    requires
        v.ok(),
        v.settled(),
    ensures
        notifies_one(v, v.one_wakes(), v.notified_one()),
{
    let w = v.queue.waiters;
    if w.line.len() > 0 {
        lemma_first(w, SIGNAL_SIGNALED);
        assert(crate::sem_core::waiting(v.node(v.line()[0])));
        assert(w.live(w.line[0]));
        lemma_front_woken(w, v.notified_one().w(), 1, SIGNAL_SIGNALED, v.one_wakes());
    } else {
        lemma_nobody_woken(w, w, 0);
        assert(v.one_wakes() =~= Seq::empty());
    }
}

proof fn lemma_all(v: NotifyView)
    requires
        v.ok(),
        v.settled(),
    ensures
        notifies_all(v, v.all_wakes(), v.notified_all()),
{
    let w = v.queue.waiters;
    let k = w.line.len() as int;
    notify_waiters_releases_all(v);
    crate::notify_core::generation_counts_up((v.generation * 8) as usize);
    lemma_front(w, k, SIGNAL_ALL);
    assert forall|i: int| 0 <= i < k implies expects(w.nodes[#[trigger] w.line[i] as int]) by {
        assert(crate::sem_core::waiting(v.node(v.line()[i])));
        assert(w.live(w.line[i]));
    }
    lemma_front_woken(w, v.notified_all().w(), k, SIGNAL_ALL, v.all_wakes());
}

proof fn lemma_dropped(v: NotifyView, id: usize, r: Withdrawn)
    requires
        v.ok(),
        v.settled(),
        v.droppable(id),
        (r is InFlight) == v.w().popped.contains(id),
        r matches Withdrawn::Done(wakes) ==> wakes@ == if v.node(id).value == SIGNAL_SIGNALED {
            v.with_node(id, SignalView::dead()).one_wakes()
        } else {
            Seq::<Wake>::empty()
        },
    ensures
        drops(v, id, r, v.dropped(id)),
{
    let w = v.queue.waiters;
    if let Withdrawn::Done(wakes) = r {
        let gone = v.with_node(id, SignalView::dead());
        let now = v.dropped(id).queue.waiters;
        if w.line.contains(id) {
            assert(crate::sem_core::waiting(v.node(v.line()[w.line.index_of(id)])));
            lemma_left(w, id);
            assert(w.live(w.line[w.line.index_of(id)]));
            lemma_nobody_woken(w, now, id);
        } else {
            assert(went(w, gone.w(), id));
            if v.node(id).value == SIGNAL_SIGNALED && w.line.len() > 0 {
                crate::keeps::lemma_node_ok(w, id, SignalView::dead());
                lemma_first(gone.w(), SIGNAL_SIGNALED);
                let first = w.line[0];
                assert(w.line.contains(first));
                assert(crate::sem_core::waiting(v.node(first)));
                assert(w.live(first));
                lemma_front_woken(gone.w(), now, 1, SIGNAL_SIGNALED, wakes@);
                crate::lines::lemma_woken_without(w, gone.w(), now, id, wakes@);
            } else {
                lemma_nobody_woken(w, now, id);
                assert(wakes@ =~= Seq::empty());
            }
        }
    }
}

/// `Notify::notify_one`: see [`notifies_one`].
pub proof fn notify_one(s: &mut Notify, pool: &mut QueuePool, r: Vec<Wake>)
    requires
        s.wf(),
        call_ensures(Notify::notify_one, (s, pool), r),
    ensures
        notifies_one(old(s)@, r@, final(s)@),
        accounts(
            old(pool)@,
            old(s).structure(),
            final(pool)@,
            final(s).structure(),
        ),
{
    lemma_accounts(pool@, s.structure(), final(pool)@, final(s).structure());
    lemma_one(s@);
}

/// `Notify::notify_waiters`: see [`notifies_all`].
pub proof fn notify_waiters(s: &mut Notify, pool: &mut QueuePool, r: Vec<Wake>)
    requires
        s.wf(),
        call_ensures(Notify::notify_waiters, (s, pool), r),
    ensures
        notifies_all(old(s)@, r@, final(s)@),
        accounts(
            old(pool)@,
            old(s).structure(),
            final(pool)@,
            final(s).structure(),
        ),
{
    lemma_accounts(pool@, s.structure(), final(pool)@, final(s).structure());
    lemma_all(s@);
}

/// `Notify::wait`: see [`begins_to_wait`].
pub proof fn wait(s: &mut Notify, thread: usize, pool: &mut QueuePool, r: Wait)
    requires
        s.wf(),
        call_ensures(Notify::wait, (s, thread, pool), r),
    ensures
        begins_to_wait(old(s)@, thread, r, final(s)@),
        accounts(
            old(pool)@,
            old(s).structure(),
            final(pool)@,
            final(s).structure(),
        ),
{
    lemma_accounts(pool@, s.structure(), final(pool)@, final(s).structure());
    if let Wait::Wait(waiter) = r {
        let w = s@.queue.waiters;
        if w.line.contains(waiter@.entry) {
            assert(w.live(w.line[w.line.index_of(waiter@.entry)]));
        }
    }
}

/// `Notify::wait_step`: see [`waits_on`].
pub proof fn wait_step(s: &mut Notify, waiter: &mut SyncWaiter, r: Option<SyncStep>)
    requires
        s.wf(),
        s@.sync_waits(waiter@.entry),
        waiter@.stage is Parked ==> s@.node(waiter@.entry).value != SIGNAL_UNINIT,
        call_ensures(Notify::wait_step, (s, waiter), r),
    ensures
        waits_on(old(s)@, old(waiter)@.entry, r, final(s)@),
        final(waiter)@.entry == old(waiter)@.entry,
        r matches Some(step) ==> looks(old(waiter)@, step, final(waiter)@),
        final(waiter)@.stage is Parked && r is Some ==> final(s)@.node(old(waiter)@.entry).value
            != SIGNAL_UNINIT,
{
    let id = waiter@.entry;
    let w = s@.queue.waiters;
    if w.line.contains(id) {
        assert(crate::sem_core::waiting(s@.node(s@.line()[w.line.index_of(id)])));
    }
    if r is Some {
        assert(final(s)@.queue.waiters.nodes =~= w.nodes.update(
            id as int,
            final(s)@.queue.waiters.nodes[id as int],
        ));
        if r->Some_0 is Pause {
            assert(final(s)@.queue.waiters.nodes =~= w.nodes);
        }
    }
}

/// `Notify::notified`: a fresh request, which belongs to the current generation; nothing
/// else happens.
pub proof fn notified(s: &mut Notify, r: AsyncNotified)
    requires
        s.wf(),
        call_ensures(Notify::notified, (s,), r),
    ensures
        came(old(s)@.queue.waiters, final(s)@.queue.waiters, r.entry()),
        r.captured() == old(s)@.generation,
        final(s)@.generation == old(s)@.generation,
        final(s)@.permit == old(s)@.permit,
{
    let w = s@.queue.waiters;
    if w.popped.contains(r.entry()) {
        assert(w.live(r.entry()));
    }
}

/// `Notify::poll`: see [`polls`].
pub proof fn poll(
    s: &mut Notify,
    request: &AsyncNotified,
    waker: usize,
    pool: &mut QueuePool,
    r: Poll<()>,
)
    requires
        s.wf(),
        s@.pollable(request.entry()),
        call_ensures(Notify::poll, (s, request, waker, pool), r),
    ensures
        polls(old(s)@, *request, waker, r, final(s)@),
        accounts(
            old(pool)@,
            old(s).structure(),
            final(pool)@,
            final(s).structure(),
        ),
{
    lemma_accounts(pool@, s.structure(), final(pool)@, final(s).structure());
    let id = request.entry();
    let w = s@.queue.waiters;
    if w.line.contains(id) {
        assert(crate::sem_core::waiting(s@.node(s@.line()[w.line.index_of(id)])));
    }
    if w.popped.contains(id) {
        assert(crate::sem_core::waiting(s@.node(id)));
    }
}

/// `Notify::drop_request`: see [`drops`].
pub proof fn drop_request(
    s: &mut Notify,
    request: &AsyncNotified,
    pool: &mut QueuePool,
    r: Withdrawn,
)
    requires
        s.wf(),
        s@.droppable(request.entry()),
        call_ensures(Notify::drop_request, (s, request, pool), r),
    ensures
        drops(old(s)@, request.entry(), r, final(s)@),
        accounts(
            old(pool)@,
            old(s).structure(),
            final(pool)@,
            final(s).structure(),
        ),
{
    lemma_accounts(pool@, s.structure(), final(pool)@, final(s).structure());
    lemma_dropped(s@, request.entry(), r);
}

/// One notification ends one wait: with nobody waiting, of two fresh requests that are
/// polled after it the first is ready and the second has to wait.
pub proof fn one_for_one(
    s: &mut Notify,
    pool: &mut QueuePool,
    r: Vec<Wake>,
    s1: &mut Notify,
    a: &AsyncNotified,
    waker1: usize,
    pool1: &mut QueuePool,
    first: Poll<()>,
    s2: &mut Notify,
    b: &AsyncNotified,
    waker2: usize,
    pool2: &mut QueuePool,
    second: Poll<()>,
)
    requires
        s.wf(),
        s@.queue.waiters.line.len() == 0,
        s@.pollable(a.entry()) && s@.node(a.entry()).value == SIGNAL_UNINIT,
        s@.pollable(b.entry()) && s@.node(b.entry()).value == SIGNAL_UNINIT,
        a.entry() != b.entry(),
        a.captured() == s@.generation && b.captured() == s@.generation,
        call_ensures(Notify::notify_one, (s, pool), r),
        *s1 == *final(s),
        call_ensures(Notify::poll, (s1, a, waker1, pool1), first),
        *s2 == *final(s1),
        call_ensures(Notify::poll, (s2, b, waker2, pool2), second),
    ensures
        r@.len() == 0,
        first is Ready,
        second is Pending,
{
    notify_one(s, pool, r);
    poll(s1, a, waker1, pool1, first);
    assert(crate::lines::same_for(s1@.queue.waiters, s2@.queue.waiters, b.entry()));
    poll(s2, b, waker2, pool2, second);
}

/// Notifying everybody ends every wait that has begun, also one that was not yet polled,
/// and no wait that begins later.
pub proof fn all_that_have_begun(
    s: &mut Notify,
    pool: &mut QueuePool,
    r: Vec<Wake>,
    s1: &mut Notify,
    a: &AsyncNotified,
    waker1: usize,
    pool1: &mut QueuePool,
    first: Poll<()>,
    s2: &mut Notify,
    b: AsyncNotified,
    s3: &mut Notify,
    waker2: usize,
    pool2: &mut QueuePool,
    second: Poll<()>,
)
    requires
        s.wf(),
        !s@.permit,
        s@.pollable(a.entry()),
        s@.node(a.entry()).value == SIGNAL_UNINIT || s@.line().contains(a.entry()),
        a.captured() == s@.generation,
        call_ensures(Notify::notify_waiters, (s, pool), r),
        *s1 == *final(s),
        call_ensures(Notify::poll, (s1, a, waker1, pool1), first),
        *s2 == *final(s1),
        call_ensures(Notify::notified, (s2,), b),
        *s3 == *final(s2),
        call_ensures(Notify::poll, (s3, &b, waker2, pool2), second),
    ensures
        first is Ready,
        second is Pending,
{
    let before = s@.queue.waiters;
    notify_waiters(s, pool, r);
    if before.line.contains(a.entry()) {
        assert(before.line[before.line.index_of(a.entry())] == a.entry());
    } else {
        assert(crate::lines::same_for(before, s1@.queue.waiters, a.entry()));
    }
    poll(s1, a, waker1, pool1, first);
    notified(s2, b);
    poll(s3, &b, waker2, pool2, second);
}

/// `Notify::new` and `default`: nothing is kept, and nobody waits.
pub proof fn new(r: Notify)
    requires
        call_ensures(Notify::new, (), r) || call_ensures(<Notify as Default>::default, (), r),
    ensures
        r.wf(),
        !r@.permit,
        r@.queue.waiters.line.len() == 0,
{
}

/// `Notify::to_async`: the state as it is.
pub proof fn to_async(s: Notify, r: AsyncNotify)
    requires
        call_ensures(Notify::to_async, (s,), r),
    ensures
        r@ == s@,
        s.wf() ==> r.wf(),
{
}

/// `AsyncNotify::notify_one`: see [`notifies_one`].
pub proof fn async_notify_one(s: &mut AsyncNotify, pool: &mut QueuePool, r: Vec<Wake>)
    requires
        s.wf(),
        call_ensures(AsyncNotify::notify_one, (s, pool), r),
    ensures
        notifies_one(old(s)@, r@, final(s)@),
        accounts(
            old(pool)@,
            old(s).structure(),
            final(pool)@,
            final(s).structure(),
        ),
{
    lemma_accounts(pool@, s.structure(), final(pool)@, final(s).structure());
    lemma_one(s@);
}

/// `AsyncNotify::notify_waiters`: see [`notifies_all`].
pub proof fn async_notify_waiters(s: &mut AsyncNotify, pool: &mut QueuePool, r: Vec<Wake>)
    requires
        s.wf(),
        call_ensures(AsyncNotify::notify_waiters, (s, pool), r),
    ensures
        notifies_all(old(s)@, r@, final(s)@),
        accounts(
            old(pool)@,
            old(s).structure(),
            final(pool)@,
            final(s).structure(),
        ),
{
    lemma_accounts(pool@, s.structure(), final(pool)@, final(s).structure());
    lemma_all(s@);
}

/// `AsyncNotify::wait_sync`: see [`begins_to_wait`].
pub proof fn async_wait(s: &mut AsyncNotify, thread: usize, pool: &mut QueuePool, r: Wait)
    requires
        s.wf(),
        call_ensures(AsyncNotify::wait_sync, (s, thread, pool), r),
    ensures
        begins_to_wait(old(s)@, thread, r, final(s)@),
        accounts(
            old(pool)@,
            old(s).structure(),
            final(pool)@,
            final(s).structure(),
        ),
{
    lemma_accounts(pool@, s.structure(), final(pool)@, final(s).structure());
    if let Wait::Wait(waiter) = r {
        let w = s@.queue.waiters;
        if w.line.contains(waiter@.entry) {
            assert(w.live(w.line[w.line.index_of(waiter@.entry)]));
        }
    }
}

/// `AsyncNotify::wait_step`: see [`waits_on`].
pub proof fn async_wait_step(s: &mut AsyncNotify, waiter: &mut SyncWaiter, r: Option<SyncStep>)
    requires
        s.wf(),
        s@.sync_waits(waiter@.entry),
        waiter@.stage is Parked ==> s@.node(waiter@.entry).value != SIGNAL_UNINIT,
        call_ensures(AsyncNotify::wait_step, (s, waiter), r),
    ensures
        waits_on(old(s)@, old(waiter)@.entry, r, final(s)@),
        final(waiter)@.entry == old(waiter)@.entry,
        r matches Some(step) ==> looks(old(waiter)@, step, final(waiter)@),
        final(waiter)@.stage is Parked && r is Some ==> final(s)@.node(old(waiter)@.entry).value
            != SIGNAL_UNINIT,
{
    let id = waiter@.entry;
    let w = s@.queue.waiters;
    if w.line.contains(id) {
        assert(crate::sem_core::waiting(s@.node(s@.line()[w.line.index_of(id)])));
    }
    if r is Some {
        assert(final(s)@.queue.waiters.nodes =~= w.nodes.update(
            id as int,
            final(s)@.queue.waiters.nodes[id as int],
        ));
        if r->Some_0 is Pause {
            assert(final(s)@.queue.waiters.nodes =~= w.nodes);
        }
    }
}

/// `AsyncNotify::notified`: a fresh request, which belongs to the current generation;
/// nothing else happens.
pub proof fn async_notified(s: &mut AsyncNotify, r: AsyncNotified)
    requires
        s.wf(),
        call_ensures(AsyncNotify::notified, (s,), r),
    ensures
        came(old(s)@.queue.waiters, final(s)@.queue.waiters, r.entry()),
        r.captured() == old(s)@.generation,
        final(s)@.generation == old(s)@.generation,
        final(s)@.permit == old(s)@.permit,
{
    let w = s@.queue.waiters;
    if w.popped.contains(r.entry()) {
        assert(w.live(r.entry()));
    }
}

/// `AsyncNotify::poll`: see [`polls`].
pub proof fn async_poll(
    s: &mut AsyncNotify,
    request: &AsyncNotified,
    waker: usize,
    pool: &mut QueuePool,
    r: Poll<()>,
)
    requires
        s.wf(),
        s@.pollable(request.entry()),
        call_ensures(AsyncNotify::poll, (s, request, waker, pool), r),
    ensures
        polls(old(s)@, *request, waker, r, final(s)@),
        accounts(
            old(pool)@,
            old(s).structure(),
            final(pool)@,
            final(s).structure(),
        ),
{
    lemma_accounts(pool@, s.structure(), final(pool)@, final(s).structure());
    let id = request.entry();
    let w = s@.queue.waiters;
    if w.line.contains(id) {
        assert(crate::sem_core::waiting(s@.node(s@.line()[w.line.index_of(id)])));
    }
    if w.popped.contains(id) {
        assert(crate::sem_core::waiting(s@.node(id)));
    }
}

/// `AsyncNotify::drop_request`: see [`drops`].
pub proof fn async_drop_request(
    s: &mut AsyncNotify,
    request: &AsyncNotified,
    pool: &mut QueuePool,
    r: Withdrawn,
)
    requires
        s.wf(),
        s@.droppable(request.entry()),
        call_ensures(AsyncNotify::drop_request, (s, request, pool), r),
    ensures
        drops(old(s)@, request.entry(), r, final(s)@),
        accounts(
            old(pool)@,
            old(s).structure(),
            final(pool)@,
            final(s).structure(),
        ),
{
    lemma_accounts(pool@, s.structure(), final(pool)@, final(s).structure());
    lemma_dropped(s@, request.entry(), r);
}

/// One notification ends one wait: with nobody waiting, of two fresh requests that are
/// polled after it the first is ready and the second has to wait.
pub proof fn async_one_for_one(
    s: &mut AsyncNotify,
    pool: &mut QueuePool,
    r: Vec<Wake>,
    s1: &mut AsyncNotify,
    a: &AsyncNotified,
    waker1: usize,
    pool1: &mut QueuePool,
    first: Poll<()>,
    s2: &mut AsyncNotify,
    b: &AsyncNotified,
    waker2: usize,
    pool2: &mut QueuePool,
    second: Poll<()>,
)
    requires
        s.wf(),
        s@.queue.waiters.line.len() == 0,
        s@.pollable(a.entry()) && s@.node(a.entry()).value == SIGNAL_UNINIT,
        s@.pollable(b.entry()) && s@.node(b.entry()).value == SIGNAL_UNINIT,
        a.entry() != b.entry(),
        a.captured() == s@.generation && b.captured() == s@.generation,
        call_ensures(AsyncNotify::notify_one, (s, pool), r),
        *s1 == *final(s),
        call_ensures(AsyncNotify::poll, (s1, a, waker1, pool1), first),
        *s2 == *final(s1),
        call_ensures(AsyncNotify::poll, (s2, b, waker2, pool2), second),
    ensures
        r@.len() == 0,
        first is Ready,
        second is Pending,
{
    async_notify_one(s, pool, r);
    async_poll(s1, a, waker1, pool1, first);
    assert(crate::lines::same_for(s1@.queue.waiters, s2@.queue.waiters, b.entry()));
    async_poll(s2, b, waker2, pool2, second);
}

/// Notifying everybody ends every wait that has begun, also one that was not yet polled,
/// and no wait that begins later.
pub proof fn async_all_that_have_begun(
    s: &mut AsyncNotify,
    pool: &mut QueuePool,
    r: Vec<Wake>,
    s1: &mut AsyncNotify,
    a: &AsyncNotified,
    waker1: usize,
    pool1: &mut QueuePool,
    first: Poll<()>,
    s2: &mut AsyncNotify,
    b: AsyncNotified,
    s3: &mut AsyncNotify,
    waker2: usize,
    pool2: &mut QueuePool,
    second: Poll<()>,
)
    requires
        s.wf(),
        !s@.permit,
        s@.pollable(a.entry()),
        s@.node(a.entry()).value == SIGNAL_UNINIT || s@.line().contains(a.entry()),
        a.captured() == s@.generation,
        call_ensures(AsyncNotify::notify_waiters, (s, pool), r),
        *s1 == *final(s),
        call_ensures(AsyncNotify::poll, (s1, a, waker1, pool1), first),
        *s2 == *final(s1),
        call_ensures(AsyncNotify::notified, (s2,), b),
        *s3 == *final(s2),
        call_ensures(AsyncNotify::poll, (s3, &b, waker2, pool2), second),
    ensures
        first is Ready,
        second is Pending,
{
    let before = s@.queue.waiters;
    async_notify_waiters(s, pool, r);
    if before.line.contains(a.entry()) {
        assert(before.line[before.line.index_of(a.entry())] == a.entry());
    } else {
        assert(crate::lines::same_for(before, s1@.queue.waiters, a.entry()));
    }
    async_poll(s1, a, waker1, pool1, first);
    async_notified(s2, b);
    async_poll(s3, &b, waker2, pool2, second);
}

/// `AsyncNotify::new` and `default`: nothing is kept, and nobody waits.
pub proof fn async_new(r: AsyncNotify)
    requires
        call_ensures(AsyncNotify::new, (), r) || call_ensures(<AsyncNotify as Default>::default, (), r),
    ensures
        r.wf(),
        !r@.permit,
        r@.queue.waiters.line.len() == 0,
{
}

/// `AsyncNotify::to_sync`: the state as it is.
pub proof fn async_to_sync(s: AsyncNotify, r: Notify)
    requires
        call_ensures(AsyncNotify::to_sync, (s,), r),
    ensures
        r@ == s@,
        s.wf() ==> r.wf(),
{
}

} // verus!
