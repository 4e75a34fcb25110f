//! What the calls of a mutex do, seen from outside: who has the lock, where the
//! protected value is, and who is woken.
use vstd::prelude::*;

use crate::lines::{
    answered_front, came, ended, expects, gone, has_answer, joined, lemma_first,
    lemma_front_woken, lemma_left, lemma_nobody_woken, lemma_woken_without, went, woken, wrote,
};
use crate::mutex::{AsyncLockRequest, AsyncMutex, Mutex};
use crate::mutex_core::{MutexGuard, MutexView, Owner};
use crate::mutex_ops::{Lock, LockStep};
use crate::pool::QueuePool;
use crate::pool_calls::{accounts, lemma_accounts};
use crate::sem_core::waiting;
use crate::signal::{
    Poll, SignalView, Wake, WakerSlot, Withdrawn, SIGNAL_INIT_WAITING, SIGNAL_SIGNALED,
    SIGNAL_UNINIT,
};
use crate::sync_wait::{SyncStep, SyncWaiter};
use crate::wait_calls::{begins, looks};
use crate::waiters::WaitersView;

verus! {

/// The lock is handed out: the guard takes the protected value with it.
pub open spec fn hands_out<T>(v: MutexView<T>, guard: MutexGuard<T>, after: MutexView<T>) -> bool {
    &&& v.data == Some(guard@)
    &&& guard.source() == v.id
    &&& after.data is None
    &&& after.owner is Guard
    &&& after.id == v.id
}

/// The lock and the protected value stay where they are.
pub open spec fn stays<T>(v: MutexView<T>, after: MutexView<T>) -> bool {
    &&& after.data == v.data
    &&& after.owner == v.owner
    &&& after.id == v.id
}

/// The lock is given up with the value `data`: the first in line, if there is one, is
/// given it and woken, and otherwise it is free.
pub open spec fn hands_on<T>(
    v: MutexView<T>,
    before: WaitersView,
    data: T,
    wakes: Seq<Wake>,
    after: MutexView<T>,
) -> bool {
    &&& after.data == Some(data)
    &&& after.id == v.id
    &&& if before.line.len() == 0 {
        after.owner is Nobody && after.waiters == before && wakes.len() == 0
    } else {
        &&& after.owner == Owner::Granted(before.line[0])
        &&& answered_front(before, after.waiters, 1, SIGNAL_SIGNALED, wakes)
    }
}

/// An attempt gets a free lock and no other.
pub open spec fn attempts<T>(
    v: MutexView<T>,
    r: Option<MutexGuard<T>>,
    after: MutexView<T>,
) -> bool {
    &&& after.waiters == v.waiters
    &&& match r {
        Some(guard) => v.owner is Nobody && hands_out(v, guard, after),
        None => !(v.owner is Nobody) && stays(v, after),
    }
}

/// A thread gets a free lock, and queues up, last in line, at any other.
pub open spec fn starts<T>(
    v: MutexView<T>,
    thread: usize,
    r: Lock<T>,
    after: MutexView<T>,
) -> bool {
    match r {
        Lock::Ready(guard) => v.owner is Nobody && hands_out(v, guard, after) && after.waiters
            == v.waiters,
        Lock::Wait(waiter) => {
            let id = waiter@.entry;
            &&& !(v.owner is Nobody)
            &&& stays(v, after)
            &&& begins(waiter@, v.waiters.line.len() == 0)
            &&& !v.waiters.live(id)
            &&& joined(v.waiters, after.waiters, id, SIGNAL_UNINIT, WakerSlot::Sync(thread))
        },
    }
}

/// A waiting thread gets the lock when it has been given it; until then nothing happens
/// but that it announces that it parks before it does.
pub open spec fn goes_on<T>(
    v: MutexView<T>,
    id: usize,
    r: LockStep<T>,
    after: MutexView<T>,
) -> bool {
    let node = v.waiters.nodes[id as int];
    match r {
        LockStep::Done(guard) => {
            &&& has_answer(node)
            &&& v.owner == Owner::Granted(id)
            &&& hands_out(v, guard, after)
            &&& went(v.waiters, after.waiters, id)
        },
        LockStep::Again(step) => {
            &&& !has_answer(node)
            &&& stays(v, after)
            &&& match step {
                SyncStep::Park => wrote(
                    v.waiters,
                    after.waiters,
                    id,
                    SIGNAL_INIT_WAITING,
                    node.waker,
                ),
                SyncStep::Pause(_) => after.waiters == v.waiters,
                SyncStep::Signaled(_) => false,
            }
        },
    }
}

/// A poll gets the lock if the request has been given it, or is fresh and finds it free;
/// any other request waits, a fresh one last in line, with the waker of this poll.
pub open spec fn polls<T>(
    v: MutexView<T>,
    id: usize,
    waker: usize,
    r: Poll<MutexGuard<T>>,
    after: MutexView<T>,
) -> bool {
    let node = v.waiters.nodes[id as int];
    match r {
        Poll::Ready(guard) => {
            &&& hands_out(v, guard, after)
            &&& ended(v.waiters, after.waiters, id)
            &&& if has_answer(node) {
                v.owner == Owner::Granted(id)
            } else {
                v.owner is Nobody
            }
        },
        Poll::Pending => {
            &&& !has_answer(node)
            &&& stays(v, after)
            &&& if expects(node) {
                wrote(
                    v.waiters,
                    after.waiters,
                    id,
                    SIGNAL_INIT_WAITING,
                    WakerSlot::Async(waker),
                )
            } else {
                &&& !(v.owner is Nobody)
                &&& joined(
                    v.waiters,
                    after.waiters,
                    id,
                    SIGNAL_INIT_WAITING,
                    WakerSlot::Async(waker),
                )
            }
        },
    }
}

/// A request that is dropped is gone. If it had been given the lock, that goes to the
/// next in line, with the protected value as it was; otherwise the lock, the value and
/// everybody else stay.
pub open spec fn drops<T>(v: MutexView<T>, id: usize, r: Withdrawn, after: MutexView<T>) -> bool {
    match r {
        Withdrawn::InFlight => v.waiters.popped.contains(id) && after == v,
        Withdrawn::Done(wakes) => {
            &&& !v.waiters.popped.contains(id)
            &&& !after.waiters.live(id)
            &&& woken(v.waiters, after.waiters, wakes@)
            &&& if v.owner == Owner::Granted(id) {
                exists|mid: WaitersView|
                    {
                        &&& #[trigger] went(v.waiters, mid, id)
                        &&& v.data is Some
                        &&& hands_on(v, mid, v.data->0, wakes@, after)
                    }
            } else {
                stays(v, after) && gone(v.waiters, after.waiters, id) && wakes@.len() == 0
            }
        },
    }
}

pub(crate) proof fn lemma_hands_on<T>(v: MutexView<T>, data: T)
    requires
        v.waiters.ok(),
        forall|i: int| 0 <= i < v.line().len() ==> waiting(v.node(#[trigger] v.line()[i])),
    ensures
        hands_on(v, v.waiters, data, v.unlock_wakes(), v.unlocked(data)),
        woken(v.waiters, v.unlocked(data).waiters, v.unlock_wakes()),
{
    let w = v.waiters;
    if w.line.len() > 0 {
        lemma_first(w, SIGNAL_SIGNALED);
        assert(w.live(w.line[0]));
        lemma_front_woken(
            w,
            v.unlocked(data).waiters,
            1,
            SIGNAL_SIGNALED,
            v.unlock_wakes(),
        );
    } else {
        lemma_nobody_woken(w, w, 0);
    }
}

pub(crate) proof fn lemma_drops<T>(v: MutexView<T>, id: usize, r: Withdrawn)
    requires
        v.ok(),
        v.quiet(),
        v.droppable(id),
        (r is InFlight) == v.waiters.popped.contains(id),
        r matches Withdrawn::Done(wakes) ==> wakes@ == if v.node(id).value == SIGNAL_SIGNALED {
            v.unlock_wakes()
        } else {
            Seq::<Wake>::empty()
        },
    ensures
        drops(v, id, r, v.dropped(id)),
{
    let w = v.waiters;
    if let Withdrawn::Done(wakes) = r {
        if w.line.contains(id) {
            assert(waiting(v.node(v.line()[w.line.index_of(id)])));
            assert(w.live(w.line[w.line.index_of(id)]));
            lemma_left(w, id);
            lemma_nobody_woken(w, v.dropped(id).waiters, id);
        } else if v.node(id).value == SIGNAL_SIGNALED {
            let mid = v.with_node(id, SignalView::dead());
            assert(went(w, mid.waiters, id));
            crate::keeps::lemma_node_ok(w, id, SignalView::dead());
            assert forall|i: int| 0 <= i < mid.line().len() implies waiting(
                mid.node(#[trigger] mid.line()[i]),
            ) by {
                assert(w.line.contains(w.line[i]));
                assert(waiting(v.node(v.line()[i])));
            }
            lemma_hands_on(mid, v.data->0);
            if w.line.len() > 0 {
                assert(w.line.contains(w.line[0]));
            }
            assert(mid.unlock_wakes() =~= v.unlock_wakes());
            let after = v.dropped(id).waiters;
            assert(!after.live(id));
            lemma_woken_without(w, mid.waiters, after, id, wakes@);
        } else {
            assert(went(w, v.dropped(id).waiters, id));
            lemma_nobody_woken(w, v.dropped(id).waiters, id);
        }
    }
}

/// A guard gives access to the protected value, and what is written through it is what it
/// holds afterwards.
pub proof fn deref_mut<T>(guard: &mut MutexGuard<T>, r: &mut T)
    requires
        call_ensures(MutexGuard::<T>::deref_mut, (guard,), r),
    ensures
        *old(r) == old(guard)@,
        final(guard)@ == *final(r),
        final(guard).source() == old(guard).source(),
{
}

/// `Mutex::new`: free, with the value it is made with, and nobody waits.
pub proof fn new<T>(data: T, r: Mutex<T>)
    requires
        call_ensures(Mutex::<T>::new, (data,), r),
    ensures
        r.wf(),
        r@.owner is Nobody,
        r@.data == Some(data),
        r@.waiters.line.len() == 0,
{
}

/// `Mutex::try_lock`: see [`attempts`].
pub proof fn try_lock<T>(s: &mut Mutex<T>, r: Option<MutexGuard<T>>)
    requires
        s.wf(),
        call_ensures(Mutex::<T>::try_lock, (s,), r),
    ensures
        attempts(old(s)@, r, final(s)@),
{
}

/// `Mutex::lock`: see [`starts`].
pub proof fn lock<T>(
    s: &mut Mutex<T>,
    thread: usize,
    pool: &mut QueuePool,
    r: Lock<T>,
)
    requires
        s.wf(),
        call_ensures(Mutex::<T>::lock, (s, thread, pool), r),
    ensures
        starts(old(s)@, thread, r, final(s)@),
        accounts(
            old(pool)@,
            old(s).structure(),
            final(pool)@,
            final(s).structure(),
        ),
{
    lemma_accounts(pool@, s.structure(), final(pool)@, final(s).structure());
    let w = s@.waiters;
    if let Lock::Wait(waiter) = r {
        if w.line.contains(waiter@.entry) {
            assert(w.live(w.line[w.line.index_of(waiter@.entry)]));
        }
    }
}

/// `Mutex::wait_step`: see [`goes_on`].
pub proof fn wait_step<T>(s: &mut Mutex<T>, waiter: &mut SyncWaiter, r: LockStep<T>)
    requires
        s.wf(),
        s@.sync_waits(waiter@.entry),
        waiter@.stage is Parked ==> s@.node(waiter@.entry).value != SIGNAL_UNINIT,
        call_ensures(Mutex::<T>::wait_step, (s, waiter), r),
    ensures
        goes_on(old(s)@, old(waiter)@.entry, r, final(s)@),
        final(waiter)@.entry == old(waiter)@.entry,
        r matches LockStep::Again(step) ==> looks(old(waiter)@, step, final(waiter)@),
        final(waiter)@.stage is Parked && r is Again ==> final(s)@.node(old(waiter)@.entry).value
            != SIGNAL_UNINIT,
{
    let id = waiter@.entry;
    let w = s@.waiters;
    if w.line.contains(id) {
        assert(waiting(s@.node(s@.line()[w.line.index_of(id)])));
    }
    if r is Again && r->Again_0 is Pause {
        assert(final(s)@.waiters.nodes =~= w.nodes);
    }
}

/// `Mutex::lock_async`: a fresh request; nothing else happens.
pub proof fn request<T>(s: &mut Mutex<T>, r: AsyncLockRequest)
    requires
        s.wf(),
        call_ensures(Mutex::<T>::lock_async, (s,), r),
    ensures
        came(old(s)@.waiters, final(s)@.waiters, r@),
        stays(old(s)@, final(s)@),
{
    let w = s@.waiters;
    if w.popped.contains(r@) {
        assert(w.live(r@));
    }
}

/// `Mutex::poll`: see [`polls`].
pub proof fn poll<T>(
    s: &mut Mutex<T>,
    request: &AsyncLockRequest,
    waker: usize,
    pool: &mut QueuePool,
    r: Poll<MutexGuard<T>>,
)
    requires
        s.wf(),
        s@.pollable(request@),
        call_ensures(Mutex::<T>::poll, (s, request, waker, pool), r),
    ensures
        polls(old(s)@, request@, waker, r, final(s)@),
        accounts(
            old(pool)@,
            old(s).structure(),
            final(pool)@,
            final(s).structure(),
        ),
{
    lemma_accounts(pool@, s.structure(), final(pool)@, final(s).structure());
    let id = request@;
    let w = s@.waiters;
    if w.line.contains(id) {
        assert(waiting(s@.node(s@.line()[w.line.index_of(id)])));
    }
    if w.popped.contains(id) {
        assert(waiting(s@.node(id)));
    }
}

/// `Mutex::drop_request`: see [`drops`].
pub proof fn drop_request<T>(
    s: &mut Mutex<T>,
    request: &AsyncLockRequest,
    pool: &mut QueuePool,
    r: Withdrawn,
)
    requires
        s.wf(),
        s@.droppable(request@),
        call_ensures(Mutex::<T>::drop_request, (s, request, pool), r),
    ensures
        drops(old(s)@, request@, r, final(s)@),
        accounts(
            old(pool)@,
            old(s).structure(),
            final(pool)@,
            final(s).structure(),
        ),
{
    lemma_accounts(pool@, s.structure(), final(pool)@, final(s).structure());
    lemma_drops(s@, request@, r);
}

/// `Mutex::unlock`: see [`hands_on`]. The value is the one that the guard held.
pub proof fn unlock<T>(
    s: &mut Mutex<T>,
    guard: MutexGuard<T>,
    pool: &mut QueuePool,
    r: Vec<Wake>,
)
    requires
        s.wf(),
        call_ensures(Mutex::<T>::unlock, (s, guard, pool), r),
    ensures
        hands_on(old(s)@, old(s)@.waiters, guard@, r@, final(s)@),
        woken(old(s)@.waiters, final(s)@.waiters, r@),
        accounts(
            old(pool)@,
            old(s).structure(),
            final(pool)@,
            final(s).structure(),
        ),
{
    lemma_accounts(pool@, s.structure(), final(pool)@, final(s).structure());
    lemma_hands_on(s@, guard@);
}

/// `Mutex::has_waiters` and `to_async`: the state as it is.
pub proof fn has_waiters<T>(s: Mutex<T>, r: bool, other: AsyncMutex<T>)
    requires
        call_ensures(Mutex::<T>::has_waiters, (&s,), r),
        call_ensures(Mutex::<T>::to_async, (s,), other),
    ensures
        r == (s@.waiters.line.len() != 0),
        other@ == s@,
        s.wf() ==> other.wf(),
{
}

/// While a guard is out nobody gets another one, in whatever way they try.
pub proof fn one_guard<T>(
    s: &mut Mutex<T>,
    waiter: &mut SyncWaiter,
    request: &AsyncLockRequest,
    thread: usize,
    pool: &mut QueuePool,
    tried: Option<MutexGuard<T>>,
    locked: Lock<T>,
    stepped: LockStep<T>,
    polled: Poll<MutexGuard<T>>,
)
    requires
        s.wf(),
        s@.owner is Guard,
        s@.sync_waits(waiter@.entry),
        s@.pollable(request@),
    ensures
        call_ensures(Mutex::<T>::try_lock, (s,), tried) ==> tried is None,
        call_ensures(Mutex::<T>::lock, (s, thread, pool), locked) ==> locked is Wait,
        call_ensures(Mutex::<T>::wait_step, (s, waiter), stepped) ==> stepped is Again,
        call_ensures(Mutex::<T>::poll, (s, request, thread, pool), polled) ==> polled is Pending,
{
}

/// Whoever gets a lock that was given up finds the value that the last guard left, and if
/// nobody waits the next attempt gets it.
pub proof fn next_guard<T>(
    s: &mut Mutex<T>,
    guard: MutexGuard<T>,
    pool: &mut QueuePool,
    wakes: Vec<Wake>,
    s1: &mut Mutex<T>,
    r: Option<MutexGuard<T>>,
)
    requires
        s.wf(),
        call_ensures(Mutex::<T>::unlock, (s, guard, pool), wakes),
        *s1 == *final(s),
        call_ensures(Mutex::<T>::try_lock, (s1,), r),
    ensures
        (r is Some) == (old(s)@.waiters.line.len() == 0),
        r matches Some(next) ==> next@ == guard@ && next.source() == old(s)@.id,
{
    unlock(s, guard, pool, wakes);
    try_lock(s1, r);
}

/// The first thread in line has the lock when the guard was given up, and finds the value
/// that the guard left.
pub proof fn first_in_line<T>(
    s: &mut Mutex<T>,
    guard: MutexGuard<T>,
    pool: &mut QueuePool,
    wakes: Vec<Wake>,
    s1: &mut Mutex<T>,
    waiter: &mut SyncWaiter,
    r: LockStep<T>,
)
    requires
        s.wf(),
        s@.waiters.line.len() > 0,
        waiter@.entry == s@.waiters.line[0],
        call_ensures(Mutex::<T>::unlock, (s, guard, pool), wakes),
        *s1 == *final(s),
        call_ensures(Mutex::<T>::wait_step, (s1, waiter), r),
    ensures
        r matches LockStep::Done(next) && next@ == guard@ && next.source() == old(s)@.id,
{
    unlock(s, guard, pool, wakes);
}

/// `AsyncMutex::new`: free, with the value it is made with, and nobody waits.
pub proof fn async_new<T>(data: T, r: AsyncMutex<T>)
    requires
        call_ensures(AsyncMutex::<T>::new, (data,), r),
    ensures
        r.wf(),
        r@.owner is Nobody,
        r@.data == Some(data),
        r@.waiters.line.len() == 0,
{
}

/// `AsyncMutex::try_lock`: see [`attempts`].
pub proof fn async_try_lock<T>(s: &mut AsyncMutex<T>, r: Option<MutexGuard<T>>)
    requires
        s.wf(),
        call_ensures(AsyncMutex::<T>::try_lock, (s,), r),
    ensures
        attempts(old(s)@, r, final(s)@),
{
}

/// `AsyncMutex::lock_sync`: see [`starts`].
pub proof fn async_lock<T>(
    s: &mut AsyncMutex<T>,
    thread: usize,
    pool: &mut QueuePool,
    r: Lock<T>,
)
    requires
        s.wf(),
        call_ensures(AsyncMutex::<T>::lock_sync, (s, thread, pool), r),
    ensures
        starts(old(s)@, thread, r, final(s)@),
        accounts(
            old(pool)@,
            old(s).structure(),
            final(pool)@,
            final(s).structure(),
        ),
{
    lemma_accounts(pool@, s.structure(), final(pool)@, final(s).structure());
    let w = s@.waiters;
    if let Lock::Wait(waiter) = r {
        if w.line.contains(waiter@.entry) {
            assert(w.live(w.line[w.line.index_of(waiter@.entry)]));
        }
    }
}

/// `AsyncMutex::wait_step`: see [`goes_on`].
pub proof fn async_wait_step<T>(s: &mut AsyncMutex<T>, waiter: &mut SyncWaiter, r: LockStep<T>)
    requires
        s.wf(),
        s@.sync_waits(waiter@.entry),
        waiter@.stage is Parked ==> s@.node(waiter@.entry).value != SIGNAL_UNINIT,
        call_ensures(AsyncMutex::<T>::wait_step, (s, waiter), r),
    ensures
        goes_on(old(s)@, old(waiter)@.entry, r, final(s)@),
        final(waiter)@.entry == old(waiter)@.entry,
        r matches LockStep::Again(step) ==> looks(old(waiter)@, step, final(waiter)@),
        final(waiter)@.stage is Parked && r is Again ==> final(s)@.node(old(waiter)@.entry).value
            != SIGNAL_UNINIT,
{
    let id = waiter@.entry;
    let w = s@.waiters;
    if w.line.contains(id) {
        assert(waiting(s@.node(s@.line()[w.line.index_of(id)])));
    }
    if r is Again && r->Again_0 is Pause {
        assert(final(s)@.waiters.nodes =~= w.nodes);
    }
}

/// `AsyncMutex::lock`: a fresh request; nothing else happens.
pub proof fn async_request<T>(s: &mut AsyncMutex<T>, r: AsyncLockRequest)
    requires
        s.wf(),
        call_ensures(AsyncMutex::<T>::lock, (s,), r),
    ensures
        came(old(s)@.waiters, final(s)@.waiters, r@),
        stays(old(s)@, final(s)@),
{
    let w = s@.waiters;
    if w.popped.contains(r@) {
        assert(w.live(r@));
    }
}

/// `AsyncMutex::poll`: see [`polls`].
pub proof fn async_poll<T>(
    s: &mut AsyncMutex<T>,
    request: &AsyncLockRequest,
    waker: usize,
    pool: &mut QueuePool,
    r: Poll<MutexGuard<T>>,
)
    requires
        s.wf(),
        s@.pollable(request@),
        call_ensures(AsyncMutex::<T>::poll, (s, request, waker, pool), r),
    ensures
        polls(old(s)@, request@, waker, r, final(s)@),
        accounts(
            old(pool)@,
            old(s).structure(),
            final(pool)@,
            final(s).structure(),
        ),
{
    lemma_accounts(pool@, s.structure(), final(pool)@, final(s).structure());
    let id = request@;
    let w = s@.waiters;
    if w.line.contains(id) {
        assert(waiting(s@.node(s@.line()[w.line.index_of(id)])));
    }
    if w.popped.contains(id) {
        assert(waiting(s@.node(id)));
    }
}

/// `AsyncMutex::drop_request`: see [`drops`].
pub proof fn async_drop_request<T>(
    s: &mut AsyncMutex<T>,
    request: &AsyncLockRequest,
    pool: &mut QueuePool,
    r: Withdrawn,
)
    requires
        s.wf(),
        s@.droppable(request@),
        call_ensures(AsyncMutex::<T>::drop_request, (s, request, pool), r),
    ensures
        drops(old(s)@, request@, r, final(s)@),
        accounts(
            old(pool)@,
            old(s).structure(),
            final(pool)@,
            final(s).structure(),
        ),
{
    lemma_accounts(pool@, s.structure(), final(pool)@, final(s).structure());
    lemma_drops(s@, request@, r);
}

/// `AsyncMutex::unlock`: see [`hands_on`]. The value is the one that the guard held.
pub proof fn async_unlock<T>(
    s: &mut AsyncMutex<T>,
    guard: MutexGuard<T>,
    pool: &mut QueuePool,
    r: Vec<Wake>,
)
    requires
        s.wf(),
        call_ensures(AsyncMutex::<T>::unlock, (s, guard, pool), r),
    ensures
        hands_on(old(s)@, old(s)@.waiters, guard@, r@, final(s)@),
        woken(old(s)@.waiters, final(s)@.waiters, r@),
        accounts(
            old(pool)@,
            old(s).structure(),
            final(pool)@,
            final(s).structure(),
        ),
{
    lemma_accounts(pool@, s.structure(), final(pool)@, final(s).structure());
    lemma_hands_on(s@, guard@);
}

/// `AsyncMutex::has_waiters` and `to_sync`: the state as it is.
pub proof fn async_has_waiters<T>(s: AsyncMutex<T>, r: bool, other: Mutex<T>)
    requires
        call_ensures(AsyncMutex::<T>::has_waiters, (&s,), r),
        call_ensures(AsyncMutex::<T>::to_sync, (s,), other),
    ensures
        r == (s@.waiters.line.len() != 0),
        other@ == s@,
        s.wf() ==> other.wf(),
{
}

/// While a guard is out nobody gets another one, in whatever way they try.
pub proof fn async_one_guard<T>(
    s: &mut AsyncMutex<T>,
    waiter: &mut SyncWaiter,
    request: &AsyncLockRequest,
    thread: usize,
    pool: &mut QueuePool,
    tried: Option<MutexGuard<T>>,
    locked: Lock<T>,
    stepped: LockStep<T>,
    polled: Poll<MutexGuard<T>>,
)
    requires
        s.wf(),
        s@.owner is Guard,
        s@.sync_waits(waiter@.entry),
        s@.pollable(request@),
    ensures
        call_ensures(AsyncMutex::<T>::try_lock, (s,), tried) ==> tried is None,
        call_ensures(AsyncMutex::<T>::lock_sync, (s, thread, pool), locked) ==> locked is Wait,
        call_ensures(AsyncMutex::<T>::wait_step, (s, waiter), stepped) ==> stepped is Again,
        call_ensures(AsyncMutex::<T>::poll, (s, request, thread, pool), polled) ==> polled is Pending,
{
}

/// Whoever gets a lock that was given up finds the value that the last guard left, and if
/// nobody waits the next attempt gets it.
pub proof fn async_next_guard<T>(
    s: &mut AsyncMutex<T>,
    guard: MutexGuard<T>,
    pool: &mut QueuePool,
    wakes: Vec<Wake>,
    s1: &mut AsyncMutex<T>,
    r: Option<MutexGuard<T>>,
)
    requires
        s.wf(),
        call_ensures(AsyncMutex::<T>::unlock, (s, guard, pool), wakes),
        *s1 == *final(s),
        call_ensures(AsyncMutex::<T>::try_lock, (s1,), r),
    ensures
        (r is Some) == (old(s)@.waiters.line.len() == 0),
        r matches Some(next) ==> next@ == guard@ && next.source() == old(s)@.id,
{
    async_unlock(s, guard, pool, wakes);
    async_try_lock(s1, r);
}

/// The first thread in line has the lock when the guard was given up, and finds the value
/// that the guard left.
pub proof fn async_first_in_line<T>(
    s: &mut AsyncMutex<T>,
    guard: MutexGuard<T>,
    pool: &mut QueuePool,
    wakes: Vec<Wake>,
    s1: &mut AsyncMutex<T>,
    waiter: &mut SyncWaiter,
    r: LockStep<T>,
)
    requires
        s.wf(),
        s@.waiters.line.len() > 0,
        waiter@.entry == s@.waiters.line[0],
        call_ensures(AsyncMutex::<T>::unlock, (s, guard, pool), wakes),
        *s1 == *final(s),
        call_ensures(AsyncMutex::<T>::wait_step, (s1, waiter), r),
    ensures
        r matches LockStep::Done(next) && next@ == guard@ && next.source() == old(s)@.id,
{
    async_unlock(s, guard, pool, wakes);
}

} // verus!
