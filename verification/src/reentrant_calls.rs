//! What the calls of a reentrant mutex do, seen from outside: who owns it, how
//! often it has to be unlocked, where the protected value is, and who is woken.
use vstd::prelude::*;

use crate::lines::{answered_front, has_answer, joined, went, woken, wrote};
use crate::mutex_calls::{drops, hands_on, stays};
use crate::mutex_core::{MutexView, Owner};
use crate::pool::QueuePool;
use crate::pool_calls::{accounts, lemma_accounts};
use crate::reentrant::{
    Bump, ReentrantLock, ReentrantLockRequest, ReentrantMutex, ReentrantMutexGuard,
    ReentrantStep, ReentrantView,
};
use crate::sem_core::waiting;
use crate::signal::{
    Poll, Wake, WakerSlot, Withdrawn, SIGNAL_INIT_WAITING, SIGNAL_SIGNALED, SIGNAL_UNINIT,
};
use crate::sync_wait::{SyncStep, SyncWaiter};
use crate::wait_calls::{begins, looks};
use crate::waiters::WaitersView;

verus! {

/// Nothing has happened to the owner and the protected value.
pub open spec fn untouched<T>(v: ReentrantView<T>, after: ReentrantView<T>) -> bool {
    &&& after.owner == v.owner
    &&& after.count == v.count
    &&& after.held == v.held
    &&& stays(v.mutex, after.mutex)
}

/// The owner has locked once more; nothing else has happened.
pub open spec fn once_more<T>(v: ReentrantView<T>, tid: usize, after: ReentrantView<T>) -> bool {
    &&& v.owner == tid
    &&& after.owner == tid
    &&& after.count == v.count + 1
    &&& after.held == v.held
    &&& stays(v.mutex, after.mutex)
    &&& after.mutex.waiters == v.mutex.waiters
}

/// `tid`, who did not own the lock, owns it now, has locked it once, and finds the
/// protected value.
pub open spec fn gets_in<T>(v: ReentrantView<T>, tid: usize, after: ReentrantView<T>) -> bool {
    &&& v.owner == 0
    &&& v.count == 0
    &&& after.owner == tid
    &&& after.count == 1
    &&& v.mutex.data is Some
    &&& after.held == v.mutex.data
    &&& after.mutex.data is None
    &&& after.mutex.owner is Guard
    &&& after.mutex.id == v.mutex.id
}

/// An attempt succeeds for the owner and at a free lock.
pub open spec fn attempts<T>(
    v: ReentrantView<T>,
    tid: usize,
    r: Option<ReentrantMutexGuard>,
    after: ReentrantView<T>,
) -> bool {
    &&& after.mutex.waiters == v.mutex.waiters
    &&& match r {
        Some(guard) => {
            &&& guard.source() == v.mutex.id
            &&& if v.owner == tid {
                once_more(v, tid, after)
            } else {
                v.mutex.owner is Nobody && gets_in(v, tid, after)
            }
        },
        None => v.owner != tid && !(v.mutex.owner is Nobody) && untouched(v, after),
    }
}

/// The owner locks once more, another thread gets a free lock, and queues up, last in
/// line, at any other.
pub open spec fn starts<T>(
    v: ReentrantView<T>,
    tid: usize,
    thread: usize,
    r: ReentrantLock,
    after: ReentrantView<T>,
) -> bool {
    match r {
        ReentrantLock::Ready(guard) => attempts(v, tid, Some(guard), after),
        ReentrantLock::Wait(waiter) => {
            let id = waiter@.entry;
            &&& v.owner != tid
            &&& !(v.mutex.owner is Nobody)
            &&& untouched(v, after)
            &&& begins(waiter@, v.mutex.waiters.line.len() == 0)
            &&& !v.mutex.waiters.live(id)
            &&& joined(
                v.mutex.waiters,
                after.mutex.waiters,
                id,
                SIGNAL_UNINIT,
                WakerSlot::Sync(thread),
            )
        },
    }
}

/// A waiting thread gets in when it has been given the lock; until then nothing happens
/// but that it announces that it parks before it does.
pub open spec fn goes_on<T>(
    v: ReentrantView<T>,
    tid: usize,
    id: usize,
    r: ReentrantStep,
    after: ReentrantView<T>,
) -> bool {
    let before = v.mutex.waiters;
    let now = after.mutex.waiters;
    let node = before.nodes[id as int];
    match r {
        ReentrantStep::Done(guard) => {
            &&& has_answer(node)
            &&& v.mutex.owner == Owner::Granted(id)
            &&& guard.source() == v.mutex.id
            &&& gets_in(v, tid, after)
            &&& went(before, now, id)
        },
        ReentrantStep::Again(step) => {
            &&& !has_answer(node)
            &&& untouched(v, after)
            &&& match step {
                SyncStep::Park => wrote(before, now, id, SIGNAL_INIT_WAITING, node.waker),
                SyncStep::Pause(_) => now == before,
                SyncStep::Signaled(_) => false,
            }
        },
    }
}

/// The first poll of a request is ready for the owner and at a free lock, and queues up
/// otherwise; a later one is ready when the request has been given the lock.
pub open spec fn polls<T>(
    v: ReentrantView<T>,
    request: Option<usize>,
    tid: usize,
    waker: usize,
    r: Poll<ReentrantMutexGuard>,
    after: ReentrantView<T>,
    request_after: Option<usize>,
) -> bool {
    let before = v.mutex.waiters;
    let now = after.mutex.waiters;
    match request {
        None => match r {
            Poll::Ready(guard) => attempts(v, tid, Some(guard), after) && request_after is None,
            Poll::Pending => {
                &&& v.owner != tid
                &&& !(v.mutex.owner is Nobody)
                &&& untouched(v, after)
                &&& request_after matches Some(id)
                &&& !before.live(id)
                &&& joined(before, now, id, SIGNAL_INIT_WAITING, WakerSlot::Async(waker))
            },
        },
        Some(id) => match r {
            Poll::Ready(guard) => {
                &&& has_answer(before.nodes[id as int])
                &&& v.mutex.owner == Owner::Granted(id)
                &&& guard.source() == v.mutex.id
                &&& gets_in(v, tid, after)
                &&& went(before, now, id)
                &&& request_after is None
            },
            Poll::Pending => {
                &&& !has_answer(before.nodes[id as int])
                &&& untouched(v, after)
                &&& wrote(before, now, id, SIGNAL_INIT_WAITING, WakerSlot::Async(waker))
                &&& request_after == request
            },
        },
    }
}

/// The owner unlocks once. The last time it gives the lock up, with the protected value,
/// to the first in line, who is woken; before that it still owns it.
pub open spec fn unlocks<T>(
    v: ReentrantView<T>,
    wakes: Seq<Wake>,
    after: ReentrantView<T>,
) -> bool {
    &&& v.count == after.count + 1
    &&& if after.count == 0 {
        &&& after.owner == 0
        &&& after.held is None
        &&& v.held is Some
        &&& hands_on(v.mutex, v.mutex.waiters, v.held->0, wakes, after.mutex)
        &&& woken(v.mutex.waiters, after.mutex.waiters, wakes)
    } else {
        &&& after.owner == v.owner
        &&& after.held == v.held
        &&& stays(v.mutex, after.mutex)
        &&& after.mutex.waiters == v.mutex.waiters
        &&& wakes.len() == 0
    }
}

/// An owner that has locked once gives way to those in line and queues up behind them;
/// one that has locked more often, or whom nobody waits for, keeps the lock.
pub open spec fn gives_way<T>(
    v: ReentrantView<T>,
    thread: usize,
    r: Bump,
    after: ReentrantView<T>,
) -> bool {
    match r {
        Bump::Kept(guard) => {
            &&& v.count > 1 || v.mutex.waiters.line.len() == 0
            &&& guard.source() == v.mutex.id
            &&& untouched(v, after)
            &&& after.mutex.waiters == v.mutex.waiters
        },
        Bump::Yielded(wakes, waiter) => {
            let id = waiter@.entry;
            &&& v.count == 1 && v.mutex.waiters.line.len() > 0
            &&& after.owner == 0
            &&& after.count == 0
            &&& after.held is None
            &&& after.mutex.data == v.held
            &&& after.mutex.owner == Owner::Granted(v.mutex.waiters.line[0])
            &&& after.mutex.id == v.mutex.id
            &&& exists|mid: WaitersView|
                {
                    &&& #[trigger] answered_front(
                        v.mutex.waiters,
                        mid,
                        1,
                        SIGNAL_SIGNALED,
                        wakes@,
                    )
                    &&& woken(v.mutex.waiters, mid, wakes@)
                    &&& !mid.live(id)
                    &&& begins(waiter@, mid.line.len() == 0)
                    &&& joined(
                        mid,
                        after.mutex.waiters,
                        id,
                        SIGNAL_UNINIT,
                        WakerSlot::Sync(thread),
                    )
                }
        },
    }
}

/// `ReentrantMutex::new`, `owner`, `count` and `has_waiters`: at first nobody owns it and
/// nobody waits, and it has the value it is made with.
pub proof fn new<T>(data: T, r: ReentrantMutex<T>)
    requires
        call_ensures(ReentrantMutex::<T>::new, (data,), r),
    ensures
        r.wf(),
        r@.owner == 0,
        r@.count == 0,
        r@.mutex.data == Some(data),
        r@.mutex.owner is Nobody,
        r@.mutex.waiters.line.len() == 0,
{
}

/// `ReentrantMutex::owner`, `count`, `has_waiters` and `data` say how it is.
pub proof fn owner<T>(
    s: &ReentrantMutex<T>,
    owner: usize,
    count: usize,
    waited_for: bool,
    guard: &ReentrantMutexGuard,
    data: &T,
)
    requires
        call_ensures(ReentrantMutex::<T>::owner, (s,), owner),
        call_ensures(ReentrantMutex::<T>::count, (s,), count),
        call_ensures(ReentrantMutex::<T>::has_waiters, (s,), waited_for),
        call_ensures(ReentrantMutex::<T>::data, (s, guard), data),
    ensures
        owner == s@.owner,
        count == s@.count,
        waited_for == (s@.mutex.waiters.line.len() != 0),
        s@.held == Some(*data),
{
}

/// `ReentrantMutex::try_lock`: see [`attempts`].
pub proof fn try_lock<T>(s: &mut ReentrantMutex<T>, tid: usize, r: Option<ReentrantMutexGuard>)
    requires
        s.wf(),
        tid != 0,
        call_ensures(ReentrantMutex::<T>::try_lock, (s, tid), r),
    ensures
        attempts(old(s)@, tid, r, final(s)@),
{
}

/// `ReentrantMutex::lock`: see [`starts`].
pub proof fn lock<T>(
    s: &mut ReentrantMutex<T>,
    tid: usize,
    thread: usize,
    pool: &mut QueuePool,
    r: ReentrantLock,
)
    requires
        s.wf(),
        tid != 0,
        call_ensures(ReentrantMutex::<T>::lock, (s, tid, thread, pool), r),
    ensures
        starts(old(s)@, tid, thread, r, final(s)@),
        accounts(
            old(pool)@,
            old(s).structure(),
            final(pool)@,
            final(s).structure(),
        ),
{
    lemma_accounts(pool@, s.structure(), final(pool)@, final(s).structure());
    let w = s@.mutex.waiters;
    if let ReentrantLock::Wait(waiter) = r {
        if w.line.contains(waiter@.entry) {
            assert(w.live(w.line[w.line.index_of(waiter@.entry)]));
        }
    }
}

/// `ReentrantMutex::lock_step`: see [`goes_on`].
pub proof fn lock_step<T>(
    s: &mut ReentrantMutex<T>,
    waiter: &mut SyncWaiter,
    tid: usize,
    r: ReentrantStep,
)
    requires
        s.wf(),
        tid != 0,
        s@.mutex.sync_waits(waiter@.entry),
        waiter@.stage is Parked ==> s@.mutex.node(waiter@.entry).value != SIGNAL_UNINIT,
        call_ensures(ReentrantMutex::<T>::lock_step, (s, waiter, tid), r),
    ensures
        goes_on(old(s)@, tid, old(waiter)@.entry, r, final(s)@),
        final(waiter)@.entry == old(waiter)@.entry,
        r matches ReentrantStep::Again(step) ==> looks(old(waiter)@, step, final(waiter)@),
        final(waiter)@.stage is Parked && r is Again ==> final(s)@.mutex.node(
            old(waiter)@.entry,
        ).value != SIGNAL_UNINIT,
{
    let id = waiter@.entry;
    let w = s@.mutex.waiters;
    if w.line.contains(id) {
        assert(waiting(s@.mutex.node(s@.mutex.line()[w.line.index_of(id)])));
    }
    if r is Again && r->Again_0 is Pause {
        assert(final(s)@.mutex.waiters.nodes =~= w.nodes);
    }
}

/// `ReentrantMutex::lock_async`: a request that has not been polled.
pub proof fn request<T>(s: &ReentrantMutex<T>, r: ReentrantLockRequest)
    requires
        call_ensures(ReentrantMutex::<T>::lock_async, (s,), r),
    ensures
        r@ is None,
{
}

/// `ReentrantMutex::poll`: see [`polls`].
pub proof fn poll<T>(
    s: &mut ReentrantMutex<T>,
    request: &mut ReentrantLockRequest,
    tid: usize,
    waker: usize,
    pool: &mut QueuePool,
    r: Poll<ReentrantMutexGuard>,
)
    requires
        s.wf(),
        tid != 0,
        request@ matches Some(id) ==> s@.mutex.pending(id),
        call_ensures(ReentrantMutex::<T>::poll, (s, request, tid, waker, pool), r),
    ensures
        polls(old(s)@, old(request)@, tid, waker, r, final(s)@, final(request)@),
        accounts(
            old(pool)@,
            old(s).structure(),
            final(pool)@,
            final(s).structure(),
        ),
{
    lemma_accounts(pool@, s.structure(), final(pool)@, final(s).structure());
    let v = s@.mutex;
    let w = v.waiters;
    match request@ {
        Some(id) => {
            if w.line.contains(id) {
                assert(waiting(v.node(v.line()[w.line.index_of(id)])));
            }
        },
        None => {
            if let Some(id) = final(request)@ {
                if w.line.contains(id) {
                    assert(w.live(w.line[w.line.index_of(id)]));
                }
            }
        },
    }
}

/// `ReentrantMutex::drop_request`: a request that has not queued up leaves no trace;
/// another one is gone, and a lock that it has been given goes to the next in line. The
/// owner keeps what it has.
pub proof fn drop_request<T>(
    s: &mut ReentrantMutex<T>,
    request: &ReentrantLockRequest,
    pool: &mut QueuePool,
    r: Withdrawn,
)
    requires
        s.wf(),
        request@ matches Some(id) ==> s@.mutex.droppable(id),
        call_ensures(ReentrantMutex::<T>::drop_request, (s, request, pool), r),
    ensures
        final(s)@.owner == old(s)@.owner,
        final(s)@.count == old(s)@.count,
        final(s)@.held == old(s)@.held,
        match request@ {
            Some(id) => drops(old(s)@.mutex, id, r, final(s)@.mutex),
            None => final(s)@ == old(s)@ && (r matches Withdrawn::Done(wakes) && wakes@.len() == 0),
        },
        accounts(
            old(pool)@,
            old(s).structure(),
            final(pool)@,
            final(s).structure(),
        ),
{
    lemma_accounts(pool@, s.structure(), final(pool)@, final(s).structure());
    if let Some(id) = request@ {
        crate::mutex_calls::lemma_drops(s@.mutex, id, r);
    }
}

/// `ReentrantMutex::unlock`: see [`unlocks`].
pub proof fn unlock<T>(
    s: &mut ReentrantMutex<T>,
    guard: ReentrantMutexGuard,
    pool: &mut QueuePool,
    r: Vec<Wake>,
)
    requires
        s.wf(),
        s@.owner != 0,
        call_ensures(ReentrantMutex::<T>::unlock, (s, guard, pool), r),
    ensures
        unlocks(old(s)@, r@, final(s)@),
        accounts(
            old(pool)@,
            old(s).structure(),
            final(pool)@,
            final(s).structure(),
        ),
{
    lemma_accounts(pool@, s.structure(), final(pool)@, final(s).structure());
    crate::mutex_calls::lemma_hands_on(s@.mutex, s@.held->0);
}

/// `ReentrantMutex::bump`: see [`gives_way`].
pub proof fn bump<T>(
    s: &mut ReentrantMutex<T>,
    guard: ReentrantMutexGuard,
    thread: usize,
    pool: &mut QueuePool,
    r: Bump,
)
    requires
        s.wf(),
        s@.owner != 0,
        call_ensures(ReentrantMutex::<T>::bump, (s, guard, thread, pool), r),
    ensures
        gives_way(old(s)@, thread, r, final(s)@),
        accounts(
            old(pool)@,
            old(s).structure(),
            final(pool)@,
            final(s).structure(),
        ),
{
    let v = s@.mutex;
    if let Bump::Yielded(wakes, waiter) = r {
        crate::mutex_calls::lemma_hands_on(v, s@.held->0);
        crate::mutex_ops::unlock_keeps_requests(v, s@.held->0);
        let mid = v.unlocked(s@.held->0).waiters;
        let id = waiter@.entry;
        lemma_skipped(v, id);
        assert(answered_front(v.waiters, mid, 1, SIGNAL_SIGNALED, wakes@));
        assert(joined(
            mid,
            final(s)@.mutex.waiters,
            id,
            SIGNAL_UNINIT,
            WakerSlot::Sync(thread),
        ));
    }
}

proof fn lemma_skipped<T>(v: MutexView<T>, id: usize)
    requires
        v.waiters.ok(),
        v.line().len() > 0,
        !v.waiters.live(id),
    ensures
        forall|i: int| 1 <= i < v.line().len() ==> #[trigger] v.line()[i] != id,
        !v.line().contains(id),
        !v.line().skip(1).contains(id),
{
    assert forall|i: int| 0 <= i < v.line().len() implies #[trigger] v.line()[i] != id by {
        assert(v.waiters.live(v.waiters.line[i]));
    }
}

/// Whichever way a thread got in that did not own the lock, one unlock gives it up again:
/// nobody owns it, the mutex underneath is not held by a guard, and the value is what the
/// thread found.
pub proof fn in_and_out<T>(
    s: &mut ReentrantMutex<T>,
    waiter: &mut SyncWaiter,
    request: &mut ReentrantLockRequest,
    tid: usize,
    thread: usize,
    pool: &mut QueuePool,
    guard: ReentrantMutexGuard,
    s1: &mut ReentrantMutex<T>,
    pool1: &mut QueuePool,
    wakes: Vec<Wake>,
)
    requires
        s.wf(),
        tid != 0,
        s@.owner != tid,
        call_ensures(ReentrantMutex::<T>::try_lock, (s, tid), Some(guard)) || call_ensures(
            ReentrantMutex::<T>::lock,
            (s, tid, thread, pool),
            ReentrantLock::Ready(guard),
        ) || (s@.mutex.sync_waits(waiter@.entry) && call_ensures(
            ReentrantMutex::<T>::lock_step,
            (s, waiter, tid),
            ReentrantStep::Done(guard),
        )) || ((request@ matches Some(id) ==> s@.mutex.pending(id)) && call_ensures(
            ReentrantMutex::<T>::poll,
            (s, request, tid, thread, pool),
            Poll::Ready(guard),
        )),
        *s1 == *final(s),
        call_ensures(ReentrantMutex::<T>::unlock, (s1, guard, pool1), wakes),
    ensures
        final(s)@.owner == tid,
        final(s)@.count == 1,
        final(s)@.held == old(s)@.mutex.data,
        final(s1)@.owner == 0,
        final(s1)@.count == 0,
        !(final(s1)@.mutex.owner is Guard),
        final(s1)@.mutex.data == old(s)@.mutex.data,
{
    unlock(s1, guard, pool1, wakes);
}

/// The owner that locks once more and unlocks still owns the lock, as often as before,
/// and nobody is woken.
pub proof fn again_and_back<T>(
    s: &mut ReentrantMutex<T>,
    tid: usize,
    guard: ReentrantMutexGuard,
    s1: &mut ReentrantMutex<T>,
    pool: &mut QueuePool,
    wakes: Vec<Wake>,
)
    requires
        s.wf(),
        tid != 0,
        s@.owner == tid,
        call_ensures(ReentrantMutex::<T>::try_lock, (s, tid), Some(guard)),
        *s1 == *final(s),
        call_ensures(ReentrantMutex::<T>::unlock, (s1, guard, pool), wakes),
    ensures
        final(s1)@.owner == tid,
        final(s1)@.count == old(s)@.count,
        final(s1)@.held == old(s)@.held,
        wakes@.len() == 0,
{
    try_lock(s, tid, Some(guard));
    unlock(s1, guard, pool, wakes);
}

/// While a thread owns the lock no other thread gets in, in whatever way it tries.
pub proof fn only_the_owner<T>(
    s: &mut ReentrantMutex<T>,
    waiter: &mut SyncWaiter,
    request: &mut ReentrantLockRequest,
    tid: usize,
    thread: usize,
    pool: &mut QueuePool,
    tried: Option<ReentrantMutexGuard>,
    locked: ReentrantLock,
    stepped: ReentrantStep,
    polled: Poll<ReentrantMutexGuard>,
)
    requires
        s.wf(),
        s@.owner != 0,
        tid != 0,
        tid != s@.owner,
        s@.mutex.sync_waits(waiter@.entry),
        request@ matches Some(id) ==> s@.mutex.pending(id),
    ensures
        call_ensures(ReentrantMutex::<T>::try_lock, (s, tid), tried) ==> tried is None,
        call_ensures(ReentrantMutex::<T>::lock, (s, tid, thread, pool), locked) ==> locked is Wait,
        call_ensures(ReentrantMutex::<T>::lock_step, (s, waiter, tid), stepped)
            ==> stepped is Again,
        call_ensures(ReentrantMutex::<T>::poll, (s, request, tid, thread, pool), polled)
            ==> polled is Pending,
{
}

} // verus!
