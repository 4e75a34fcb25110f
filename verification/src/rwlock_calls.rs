//! What the calls of a reader-writer lock do, seen from outside: who has access,
//! where the protected value is, and who is woken.
use vstd::prelude::*;

use crate::lines::{came, expects, has_answer, joined, went, wrote};
use crate::pool::QueuePool;
use crate::pool_calls::{accounts, lemma_accounts};
use crate::rwlock::{AsyncReadRequest, AsyncRwLock, AsyncWriteRequest, RwLock};
use crate::rwlock_core::{Enter, EnterStep, RwLockReadGuard, RwLockWriteGuard, RwView, MAX_READERS};
use crate::sem_calls::{at_hand, comes_back, drops, lemma_comes_back, lemma_drops, over};
use crate::sem_core::{sem_node_ok, waiting, SemView};
use crate::signal::{
    Poll, Wake, WakerSlot, Withdrawn, SIGNAL_CLOSED, SIGNAL_INIT_WAITING, SIGNAL_UNINIT,
};
use crate::sync_wait::{SyncStep, SyncWaiter};
use crate::totals::lemma_total_bounds;
use crate::wait_calls::{begins, looks};

verus! {

/// Nobody got or lost access.
pub open spec fn stays<T>(v: RwView<T>, after: RwView<T>) -> bool {
    &&& after.readers == v.readers
    &&& after.writing == v.writing
    &&& after.data == v.data
    &&& after.max == v.max
    &&& after.id == v.id
}

/// One more reader has access, and no writer.
pub open spec fn reads_in<T>(v: RwView<T>, guard: RwLockReadGuard, after: RwView<T>) -> bool {
    &&& guard.source() == v.id
    &&& !v.writing && !after.writing
    &&& after.readers == v.readers + 1
    &&& after.readers <= after.max
    &&& after.data == v.data
    &&& after.max == v.max
    &&& after.id == v.id
}

/// A writer has access, and nobody else; its guard takes the protected value with it.
pub open spec fn writes_in<T>(v: RwView<T>, guard: RwLockWriteGuard<T>, after: RwView<T>) -> bool {
    &&& guard.source() == v.id
    &&& !v.writing && after.writing
    &&& v.readers == 0 && after.readers == 0
    &&& v.data == Some(guard@)
    &&& after.data is None
    &&& after.max == v.max
    &&& after.id == v.id
}

/// An attempt takes `n` permits if they are there and nobody is in line.
pub open spec fn attempts<G>(v: SemView, n: usize, r: Option<G>, after: SemView) -> bool {
    &&& (r is Some) == at_hand(v, n)
    &&& after.permits == v.permits - if r is Some {
        n
    } else {
        0
    }
    &&& after.queue.waiters == v.queue.waiters
}

/// A thread takes `n` permits if they are there and nobody is in line, and queues up,
/// last in line, otherwise.
pub open spec fn starts<G>(
    v: SemView,
    n: usize,
    thread: usize,
    r: Enter<G>,
    after: SemView,
) -> bool {
    let before = v.queue.waiters;
    let now = after.queue.waiters;
    match r {
        Enter::Ready(_) => at_hand(v, n) && after.permits + n == v.permits && now == before,
        Enter::Wait(waiter) => {
            let id = waiter@.entry;
            &&& !at_hand(v, n)
            &&& after.permits == v.permits
            &&& begins(waiter@, before.line.len() == 0)
            &&& !before.live(id)
            &&& joined(before, now, id, SIGNAL_UNINIT, WakerSlot::Sync(thread))
            &&& now.nodes[id as int].aux == n
            &&& now.nodes[id as int].granted == 0
        },
    }
}

/// A waiting thread gets access when it was granted it; until then nothing happens but
/// that it announces that it parks before it does.
pub open spec fn goes_on<G>(v: SemView, id: usize, r: EnterStep<G>, after: SemView) -> bool {
    let before = v.queue.waiters;
    let now = after.queue.waiters;
    let node = before.nodes[id as int];
    &&& after.permits == v.permits
    &&& (r is Done) == has_answer(node)
    &&& match r {
        EnterStep::Done(_) => went(before, now, id),
        EnterStep::Again(SyncStep::Park) => wrote(
            before,
            now,
            id,
            SIGNAL_INIT_WAITING,
            node.waker,
        ),
        EnterStep::Again(SyncStep::Pause(_)) => now == before,
        EnterStep::Again(SyncStep::Signaled(_)) => false,
    }
}

/// A poll gets access if it was granted to the request, or if the request is fresh and
/// finds the permits there and nobody in line; any other request waits, a fresh one last
/// in line, with the waker of this poll.
pub open spec fn polls<G>(
    v: SemView,
    id: usize,
    n: usize,
    waker: usize,
    r: Poll<G>,
    after: SemView,
) -> bool {
    let before = v.queue.waiters;
    let now = after.queue.waiters;
    let node = before.nodes[id as int];
    if has_answer(node) {
        r is Ready && after.permits == v.permits && over(before, now, id)
    } else if expects(node) {
        &&& r is Pending
        &&& after.permits == v.permits
        &&& wrote(before, now, id, SIGNAL_INIT_WAITING, WakerSlot::Async(waker))
    } else if at_hand(v, n) {
        r is Ready && after.permits + n == v.permits && over(before, now, id)
    } else {
        &&& r is Pending
        &&& after.permits == v.permits
        &&& joined(before, now, id, SIGNAL_INIT_WAITING, WakerSlot::Async(waker))
        &&& now.nodes[id as int].aux == n
        &&& now.nodes[id as int].granted == 0
    }
}

/// What a waiter was granted is not with guards.
proof fn lemma_granted<T>(v: RwView<T>, id: usize)
    requires
        v.ok(),
        v.sem.w().live(id),
    ensures
        v.sem.permits + v.sem.node(id).granted + v.held() <= v.max,
        sem_node_ok(v.sem.node(id)),
        v.sem.node(id).value != SIGNAL_CLOSED,
{
    lemma_total_bounds(v.sem.w().nodes, id as int);
    assert(sem_node_ok(v.sem.w().nodes[id as int]));
}

proof fn lemma_place(v: SemView, id: usize)
    requires
        v.ok(),
    ensures
        v.w().line.contains(id) || v.w().popped.contains(id) ==> waiting(v.node(id))
            && v.w().live(id),
{
    let w = v.w();
    if w.line.contains(id) {
        assert(waiting(v.node(v.line()[w.line.index_of(id)])));
        assert(w.live(w.line[w.line.index_of(id)]));
    }
}

/// A write guard gives access to the protected value, and what is written through it is
/// what it holds afterwards.
pub proof fn deref_mut<T>(guard: &mut RwLockWriteGuard<T>, r: &mut T)
    requires
        call_ensures(RwLockWriteGuard::<T>::deref_mut, (guard,), r),
    ensures
        *old(r) == old(guard)@,
        final(guard)@ == *final(r),
        final(guard).source() == old(guard).source(),
{
}

/// `RwLock::new`, `from` and `with_max_readers`: for as many readers as it is made for,
/// with the value it is made with; nobody has access, and nobody waits.
pub proof fn new<T>(data: T, max: usize, r: RwLock<T>)
    requires
        call_ensures(RwLock::<T>::with_max_readers, (data, max), r) || max == MAX_READERS && (
        call_ensures(RwLock::<T>::new, (data,), r) || call_ensures(
            <RwLock::<T> as From<T>>::from,
            (data,),
            r,
        )),
    ensures
        r.wf(),
        r@.max == max,
        r@.data == Some(data),
        r@.readers == 0,
        !r@.writing,
        r@.sem.permits == max,
        r@.sem.queue.waiters.line.len() == 0,
{
}

/// `RwLock::try_read`: see [`attempts`].
pub proof fn try_read<T>(s: &mut RwLock<T>, r: Option<RwLockReadGuard>)
    requires
        s.wf(),
        call_ensures(RwLock::<T>::try_read, (s,), r),
    ensures
        attempts(old(s)@.sem, 1, r, final(s)@.sem),
        match r {
            Some(guard) => reads_in(old(s)@, guard, final(s)@),
            None => stays(old(s)@, final(s)@),
        },
{
}

/// `RwLock::read`: see [`starts`].
pub proof fn read<T>(
    s: &mut RwLock<T>,
    thread: usize,
    pool: &mut QueuePool,
    r: Enter<RwLockReadGuard>,
)
    requires
        s.wf(),
        call_ensures(RwLock::<T>::read, (s, thread, pool), r),
    ensures
        starts(old(s)@.sem, 1, thread, r, final(s)@.sem),
        match r {
            Enter::Ready(guard) => reads_in(old(s)@, guard, final(s)@),
            Enter::Wait(_) => stays(old(s)@, final(s)@),
        },
        accounts(
            old(pool)@,
            old(s).structure(),
            final(pool)@,
            final(s).structure(),
        ),
{
    lemma_accounts(pool@, s.structure(), final(pool)@, final(s).structure());
    if let Enter::Wait(waiter) = r {
        lemma_place(s@.sem, waiter@.entry);
    }
}

/// `RwLock::read_step`: see [`goes_on`].
pub proof fn read_step<T>(
    s: &mut RwLock<T>,
    waiter: &mut SyncWaiter,
    pool: &mut QueuePool,
    r: EnterStep<RwLockReadGuard>,
)
    requires
        s.wf(),
        s@.sem.sync_waits(waiter@.entry, 1),
        waiter@.stage is Parked ==> s@.sem.node(waiter@.entry).value != SIGNAL_UNINIT,
        call_ensures(RwLock::<T>::read_step, (s, waiter, pool), r),
    ensures
        goes_on(old(s)@.sem, old(waiter)@.entry, r, final(s)@.sem),
        match r {
            EnterStep::Done(guard) => reads_in(old(s)@, guard, final(s)@),
            EnterStep::Again(_) => stays(old(s)@, final(s)@),
        },
        final(waiter)@.entry == old(waiter)@.entry,
        r matches EnterStep::Again(step) ==> looks(old(waiter)@, step, final(waiter)@),
        final(waiter)@.stage is Parked && r is Again ==> final(s)@.sem.node(
            old(waiter)@.entry,
        ).value != SIGNAL_UNINIT,
        accounts(
            old(pool)@,
            old(s).structure(),
            final(pool)@,
            final(s).structure(),
        ),
{
    lemma_accounts(pool@, s.structure(), final(pool)@, final(s).structure());
    let id = waiter@.entry;
    lemma_place(s@.sem, id);
    lemma_granted(s@, id);
    if r is Again && r->Again_0 is Pause {
        assert(final(s)@.sem.w().nodes =~= s@.sem.w().nodes);
    }
}

/// `RwLock::read_async`: a fresh request; nothing else happens.
pub proof fn request_read<T>(s: &mut RwLock<T>, r: AsyncReadRequest)
    requires
        s.wf(),
        call_ensures(RwLock::<T>::read_async, (s,), r),
    ensures
        came(old(s)@.sem.queue.waiters, final(s)@.sem.queue.waiters, r@),
        final(s)@.sem.permits == old(s)@.sem.permits,
        stays(old(s)@, final(s)@),
{
    lemma_place(s@.sem, r@);
}

/// `RwLock::poll_read`: see [`polls`].
pub proof fn poll_read<T>(
    s: &mut RwLock<T>,
    request: &AsyncReadRequest,
    waker: usize,
    pool: &mut QueuePool,
    r: Poll<RwLockReadGuard>,
)
    requires
        s.wf(),
        s@.sem.pollable(request@, 1),
        call_ensures(RwLock::<T>::poll_read, (s, request, waker, pool), r),
    ensures
        polls(old(s)@.sem, request@, 1, waker, r, final(s)@.sem),
        match r {
            Poll::Ready(guard) => reads_in(old(s)@, guard, final(s)@),
            Poll::Pending => stays(old(s)@, final(s)@),
        },
        accounts(
            old(pool)@,
            old(s).structure(),
            final(pool)@,
            final(s).structure(),
        ),
{
    lemma_accounts(pool@, s.structure(), final(pool)@, final(s).structure());
    lemma_place(s@.sem, request@);
    lemma_granted(s@, request@);
}

/// `RwLock::drop_read_request`: nobody loses access; what had been granted to the request
/// goes to the next in line, who is woken if that is enough.
pub proof fn drop_read_request<T>(
    s: &mut RwLock<T>,
    request: &AsyncReadRequest,
    pool: &mut QueuePool,
    r: Withdrawn,
)
    requires
        s.wf(),
        s@.sem.droppable(request@, 1),
        call_ensures(RwLock::<T>::drop_read_request, (s, request, pool), r),
    ensures
        drops(old(s)@.sem, request@, r, final(s)@.sem),
        stays(old(s)@, final(s)@),
        accounts(
            old(pool)@,
            old(s).structure(),
            final(pool)@,
            final(s).structure(),
        ),
{
    lemma_accounts(pool@, s.structure(), final(pool)@, final(s).structure());
    lemma_drops(s@.sem, request@, 1, r);
}

/// `RwLock::try_write`: see [`attempts`].
pub proof fn try_write<T>(s: &mut RwLock<T>, r: Option<RwLockWriteGuard<T>>)
    requires
        s.wf(),
        call_ensures(RwLock::<T>::try_write, (s,), r),
    ensures
        attempts(old(s)@.sem, old(s)@.max as usize, r, final(s)@.sem),
        match r {
            Some(guard) => writes_in(old(s)@, guard, final(s)@),
            None => stays(old(s)@, final(s)@),
        },
{
}

/// `RwLock::write`: see [`starts`].
pub proof fn write<T>(
    s: &mut RwLock<T>,
    thread: usize,
    pool: &mut QueuePool,
    r: Enter<RwLockWriteGuard<T>>,
)
    requires
        s.wf(),
        call_ensures(RwLock::<T>::write, (s, thread, pool), r),
    ensures
        starts(old(s)@.sem, old(s)@.max as usize, thread, r, final(s)@.sem),
        match r {
            Enter::Ready(guard) => writes_in(old(s)@, guard, final(s)@),
            Enter::Wait(_) => stays(old(s)@, final(s)@),
        },
        accounts(
            old(pool)@,
            old(s).structure(),
            final(pool)@,
            final(s).structure(),
        ),
{
    lemma_accounts(pool@, s.structure(), final(pool)@, final(s).structure());
    if let Enter::Wait(waiter) = r {
        lemma_place(s@.sem, waiter@.entry);
    }
}

/// `RwLock::write_step`: see [`goes_on`].
pub proof fn write_step<T>(
    s: &mut RwLock<T>,
    waiter: &mut SyncWaiter,
    pool: &mut QueuePool,
    r: EnterStep<RwLockWriteGuard<T>>,
)
    requires
        s.wf(),
        s@.sem.sync_waits(waiter@.entry, s@.max as usize),
        waiter@.stage is Parked ==> s@.sem.node(waiter@.entry).value != SIGNAL_UNINIT,
        call_ensures(RwLock::<T>::write_step, (s, waiter, pool), r),
    ensures
        goes_on(old(s)@.sem, old(waiter)@.entry, r, final(s)@.sem),
        match r {
            EnterStep::Done(guard) => writes_in(old(s)@, guard, final(s)@),
            EnterStep::Again(_) => stays(old(s)@, final(s)@),
        },
        final(waiter)@.entry == old(waiter)@.entry,
        r matches EnterStep::Again(step) ==> looks(old(waiter)@, step, final(waiter)@),
        final(waiter)@.stage is Parked && r is Again ==> final(s)@.sem.node(
            old(waiter)@.entry,
        ).value != SIGNAL_UNINIT,
        accounts(
            old(pool)@,
            old(s).structure(),
            final(pool)@,
            final(s).structure(),
        ),
{
    lemma_accounts(pool@, s.structure(), final(pool)@, final(s).structure());
    let id = waiter@.entry;
    lemma_place(s@.sem, id);
    lemma_granted(s@, id);
    if r is Again && r->Again_0 is Pause {
        assert(final(s)@.sem.w().nodes =~= s@.sem.w().nodes);
    }
}

/// `RwLock::write_async`: a fresh request; nothing else happens.
pub proof fn request_write<T>(s: &mut RwLock<T>, r: AsyncWriteRequest)
    requires
        s.wf(),
        call_ensures(RwLock::<T>::write_async, (s,), r),
    ensures
        came(old(s)@.sem.queue.waiters, final(s)@.sem.queue.waiters, r@),
        final(s)@.sem.permits == old(s)@.sem.permits,
        stays(old(s)@, final(s)@),
{
    lemma_place(s@.sem, r@);
}

/// `RwLock::poll_write`: see [`polls`].
pub proof fn poll_write<T>(
    s: &mut RwLock<T>,
    request: &AsyncWriteRequest,
    waker: usize,
    pool: &mut QueuePool,
    r: Poll<RwLockWriteGuard<T>>,
)
    requires
        s.wf(),
        s@.sem.pollable(request@, s@.max as usize),
        call_ensures(RwLock::<T>::poll_write, (s, request, waker, pool), r),
    ensures
        polls(old(s)@.sem, request@, old(s)@.max as usize, waker, r, final(s)@.sem),
        match r {
            Poll::Ready(guard) => writes_in(old(s)@, guard, final(s)@),
            Poll::Pending => stays(old(s)@, final(s)@),
        },
        accounts(
            old(pool)@,
            old(s).structure(),
            final(pool)@,
            final(s).structure(),
        ),
{
    lemma_accounts(pool@, s.structure(), final(pool)@, final(s).structure());
    lemma_place(s@.sem, request@);
    lemma_granted(s@, request@);
}

/// `RwLock::drop_write_request`: nobody loses access; what had been granted to the
/// request goes to the next in line, who is woken if that is enough.
pub proof fn drop_write_request<T>(
    s: &mut RwLock<T>,
    request: &AsyncWriteRequest,
    pool: &mut QueuePool,
    r: Withdrawn,
)
    requires
        s.wf(),
        s@.sem.droppable(request@, s@.max as usize),
        call_ensures(RwLock::<T>::drop_write_request, (s, request, pool), r),
    ensures
        drops(old(s)@.sem, request@, r, final(s)@.sem),
        stays(old(s)@, final(s)@),
        accounts(
            old(pool)@,
            old(s).structure(),
            final(pool)@,
            final(s).structure(),
        ),
{
    lemma_accounts(pool@, s.structure(), final(pool)@, final(s).structure());
    lemma_drops(s@.sem, request@, s@.max as usize, r);
}

/// `RwLock::release_read`: one reader less, and its permit goes to those in line.
pub proof fn release_read<T>(
    s: &mut RwLock<T>,
    guard: RwLockReadGuard,
    pool: &mut QueuePool,
    r: Vec<Wake>,
)
    requires
        s.wf(),
        s@.readers > 0,
        call_ensures(RwLock::<T>::release_read, (s, guard, pool), r),
    ensures
        comes_back(old(s)@.sem, 1, r@, final(s)@.sem),
        final(s)@.readers + 1 == old(s)@.readers,
        final(s)@.writing == old(s)@.writing,
        final(s)@.data == old(s)@.data,
        final(s)@.max == old(s)@.max,
        final(s)@.id == old(s)@.id,
        accounts(
            old(pool)@,
            old(s).structure(),
            final(pool)@,
            final(s).structure(),
        ),
{
    lemma_accounts(pool@, s.structure(), final(pool)@, final(s).structure());
    lemma_comes_back(s@.sem, 1);
}

/// `RwLock::release_write`: the value of the guard is back, and all permits go to those
/// in line.
pub proof fn release_write<T>(
    s: &mut RwLock<T>,
    guard: RwLockWriteGuard<T>,
    pool: &mut QueuePool,
    r: Vec<Wake>,
)
    requires
        s.wf(),
        s@.writing,
        call_ensures(RwLock::<T>::release_write, (s, guard, pool), r),
    ensures
        comes_back(old(s)@.sem, old(s)@.max, r@, final(s)@.sem),
        !final(s)@.writing,
        final(s)@.readers == 0 && old(s)@.readers == 0,
        final(s)@.data == Some(guard@),
        final(s)@.max == old(s)@.max,
        final(s)@.id == old(s)@.id,
        accounts(
            old(pool)@,
            old(s).structure(),
            final(pool)@,
            final(s).structure(),
        ),
{
    lemma_accounts(pool@, s.structure(), final(pool)@, final(s).structure());
    lemma_comes_back(s@.sem, s@.max);
}

/// `RwLock::downgrade`: the writer is a reader now and keeps one permit; the others go to
/// those in line. The value of the guard is back.
pub proof fn downgrade<T>(
    s: &mut RwLock<T>,
    guard: RwLockWriteGuard<T>,
    pool: &mut QueuePool,
    r: (RwLockReadGuard, Vec<Wake>),
)
    requires
        s.wf(),
        s@.writing,
        call_ensures(RwLock::<T>::downgrade, (s, guard, pool), r),
    ensures
        comes_back(old(s)@.sem, (old(s)@.max - 1) as nat, r.1@, final(s)@.sem),
        r.0.source() == old(s)@.id,
        !final(s)@.writing,
        final(s)@.readers == 1 && old(s)@.readers == 0,
        final(s)@.data == Some(guard@),
        final(s)@.max == old(s)@.max,
        final(s)@.id == old(s)@.id,
        accounts(
            old(pool)@,
            old(s).structure(),
            final(pool)@,
            final(s).structure(),
        ),
{
    lemma_accounts(pool@, s.structure(), final(pool)@, final(s).structure());
    lemma_comes_back(s@.sem, (s@.max - 1) as nat);
}

/// `RwLock::data`, `into_inner` and `to_async`: the value, and the state, as they are.
pub proof fn data<T>(
    s: RwLock<T>,
    guard: &RwLockReadGuard,
    r: &T,
    inner: T,
    other: AsyncRwLock<T>,
)
    ensures
        call_ensures(RwLock::<T>::data, (&s, guard), r) ==> s@.data == Some(*r),
        call_ensures(RwLock::<T>::into_inner, (s,), inner) ==> s@.data == Some(inner),
        call_ensures(RwLock::<T>::to_async, (s,), other) ==> other@ == s@ && (s.wf()
            ==> other.wf()),
{
}

/// `RwLock::get_mut`: what is written through it is the value afterwards.
pub proof fn get_mut<T>(s: &mut RwLock<T>, r: &mut T)
    requires
        call_ensures(RwLock::<T>::get_mut, (s,), r),
    ensures
        old(s)@.data == Some(*old(r)),
        final(s)@.data == Some(*final(r)),
        final(s)@.readers == old(s)@.readers,
        final(s)@.writing == old(s)@.writing,
        final(s)@.sem == old(s)@.sem,
{
}

/// While a writer has access nobody gets in, and while a reader has access no writer
/// does, in whatever way they try.
pub proof fn exclusion<T>(
    s: &mut RwLock<T>,
    waiter: &mut SyncWaiter,
    read_request: &AsyncReadRequest,
    write_request: &AsyncWriteRequest,
    thread: usize,
    pool: &mut QueuePool,
)
    requires
        s.wf(),
        s@.writing || s@.readers > 0,
    ensures
        forall|r: Option<RwLockWriteGuard<T>>|
            call_ensures(RwLock::<T>::try_write, (s,), r) ==> r is None,
        forall|r: Enter<RwLockWriteGuard<T>>|
            call_ensures(RwLock::<T>::write, (s, thread, pool), r) ==> r is Wait,
        forall|r: EnterStep<RwLockWriteGuard<T>>|
            old(s)@.sem.sync_waits(old(waiter)@.entry, old(s)@.max as usize) && #[trigger] call_ensures(
                RwLock::<T>::write_step,
                (s, waiter, pool),
                r,
            ) ==> r is Again,
        forall|r: Poll<RwLockWriteGuard<T>>|
            old(s)@.sem.pollable(write_request@, old(s)@.max as usize) && #[trigger] call_ensures(
                RwLock::<T>::poll_write,
                (s, write_request, thread, pool),
                r,
            ) ==> r is Pending,
        old(s)@.writing ==> forall|r: Option<RwLockReadGuard>|
            call_ensures(RwLock::<T>::try_read, (s,), r) ==> r is None,
        old(s)@.writing ==> forall|r: Enter<RwLockReadGuard>|
            call_ensures(RwLock::<T>::read, (s, thread, pool), r) ==> r is Wait,
        old(s)@.writing ==> forall|r: EnterStep<RwLockReadGuard>|
            old(s)@.sem.sync_waits(old(waiter)@.entry, 1) && #[trigger] call_ensures(
                RwLock::<T>::read_step,
                (s, waiter, pool),
                r,
            ) ==> r is Again,
        old(s)@.writing ==> forall|r: Poll<RwLockReadGuard>|
            old(s)@.sem.pollable(read_request@, 1) && #[trigger] call_ensures(
                RwLock::<T>::poll_read,
                (s, read_request, thread, pool),
                r,
            ) ==> r is Pending,
{
    let v = s@;
    if v.sem.w().live(waiter@.entry) {
        lemma_granted(v, waiter@.entry);
    }
    if v.sem.w().live(read_request@) {
        lemma_granted(v, read_request@);
    }
    if v.sem.w().live(write_request@) {
        lemma_granted(v, write_request@);
    }
}

/// What one writer leaves the next one finds.
pub proof fn written<T>(
    s: &mut RwLock<T>,
    guard: RwLockWriteGuard<T>,
    pool: &mut QueuePool,
    wakes: Vec<Wake>,
    s1: &mut RwLock<T>,
    r: Option<RwLockWriteGuard<T>>,
    reader: Option<RwLockReadGuard>,
)
    requires
        s.wf(),
        s@.writing,
        s@.sem.queue.waiters.line.len() == 0,
        call_ensures(RwLock::<T>::release_write, (s, guard, pool), wakes),
        *s1 == *final(s),
        call_ensures(RwLock::<T>::try_write, (s1,), r),
    ensures
        r matches Some(next) && next@ == guard@,
{
    release_write(s, guard, pool, wakes);
}

/// `RwLock::default`: as [`new`] with a default value.
pub proof fn default<T: Default>(r: RwLock<T>)
    requires
        call_ensures(<RwLock::<T> as Default>::default, (), r),
    ensures
        r.wf(),
        r@.max == MAX_READERS,
        r@.data matches Some(data) && call_ensures(T::default, (), data),
        r@.readers == 0,
        !r@.writing,
        r@.sem.queue.waiters.line.len() == 0,
{
}

/// `AsyncRwLock::new`, `from` and `with_max_readers`: for as many readers as it is made
/// for, with the value it is made with; nobody has access, and nobody waits.
pub proof fn async_new<T>(data: T, max: usize, r: AsyncRwLock<T>)
    requires
        call_ensures(AsyncRwLock::<T>::with_max_readers, (data, max), r) || max == MAX_READERS && (
        call_ensures(AsyncRwLock::<T>::new, (data,), r) || call_ensures(
            <AsyncRwLock::<T> as From<T>>::from,
            (data,),
            r,
        )),
    ensures
        r.wf(),
        r@.max == max,
        r@.data == Some(data),
        r@.readers == 0,
        !r@.writing,
        r@.sem.permits == max,
        r@.sem.queue.waiters.line.len() == 0,
{
}

/// `AsyncRwLock::try_read`: see [`attempts`].
pub proof fn async_try_read<T>(s: &mut AsyncRwLock<T>, r: Option<RwLockReadGuard>)
    requires
        s.wf(),
        call_ensures(AsyncRwLock::<T>::try_read, (s,), r),
    ensures
        attempts(old(s)@.sem, 1, r, final(s)@.sem),
        match r {
            Some(guard) => reads_in(old(s)@, guard, final(s)@),
            None => stays(old(s)@, final(s)@),
        },
{
}

/// `AsyncRwLock::read_sync`: see [`starts`].
pub proof fn async_read<T>(
    s: &mut AsyncRwLock<T>,
    thread: usize,
    pool: &mut QueuePool,
    r: Enter<RwLockReadGuard>,
)
    requires
        s.wf(),
        call_ensures(AsyncRwLock::<T>::read_sync, (s, thread, pool), r),
    ensures
        starts(old(s)@.sem, 1, thread, r, final(s)@.sem),
        match r {
            Enter::Ready(guard) => reads_in(old(s)@, guard, final(s)@),
            Enter::Wait(_) => stays(old(s)@, final(s)@),
        },
        accounts(
            old(pool)@,
            old(s).structure(),
            final(pool)@,
            final(s).structure(),
        ),
{
    lemma_accounts(pool@, s.structure(), final(pool)@, final(s).structure());
    if let Enter::Wait(waiter) = r {
        lemma_place(s@.sem, waiter@.entry);
    }
}

/// `AsyncRwLock::read_step`: see [`goes_on`].
pub proof fn async_read_step<T>(
    s: &mut AsyncRwLock<T>,
    waiter: &mut SyncWaiter,
    pool: &mut QueuePool,
    r: EnterStep<RwLockReadGuard>,
)
    requires
        s.wf(),
        s@.sem.sync_waits(waiter@.entry, 1),
        waiter@.stage is Parked ==> s@.sem.node(waiter@.entry).value != SIGNAL_UNINIT,
        call_ensures(AsyncRwLock::<T>::read_step, (s, waiter, pool), r),
    ensures
        goes_on(old(s)@.sem, old(waiter)@.entry, r, final(s)@.sem),
        match r {
            EnterStep::Done(guard) => reads_in(old(s)@, guard, final(s)@),
            EnterStep::Again(_) => stays(old(s)@, final(s)@),
        },
        final(waiter)@.entry == old(waiter)@.entry,
        r matches EnterStep::Again(step) ==> looks(old(waiter)@, step, final(waiter)@),
        final(waiter)@.stage is Parked && r is Again ==> final(s)@.sem.node(
            old(waiter)@.entry,
        ).value != SIGNAL_UNINIT,
        accounts(
            old(pool)@,
            old(s).structure(),
            final(pool)@,
            final(s).structure(),
        ),
{
    lemma_accounts(pool@, s.structure(), final(pool)@, final(s).structure());
    let id = waiter@.entry;
    lemma_place(s@.sem, id);
    lemma_granted(s@, id);
    if r is Again && r->Again_0 is Pause {
        assert(final(s)@.sem.w().nodes =~= s@.sem.w().nodes);
    }
}

/// `AsyncRwLock::read`: a fresh request; nothing else happens.
pub proof fn async_request_read<T>(s: &mut AsyncRwLock<T>, r: AsyncReadRequest)
    requires
        s.wf(),
        call_ensures(AsyncRwLock::<T>::read, (s,), r),
    ensures
        came(old(s)@.sem.queue.waiters, final(s)@.sem.queue.waiters, r@),
        final(s)@.sem.permits == old(s)@.sem.permits,
        stays(old(s)@, final(s)@),
{
    lemma_place(s@.sem, r@);
}

/// `AsyncRwLock::poll_read`: see [`polls`].
pub proof fn async_poll_read<T>(
    s: &mut AsyncRwLock<T>,
    request: &AsyncReadRequest,
    waker: usize,
    pool: &mut QueuePool,
    r: Poll<RwLockReadGuard>,
)
    requires
        s.wf(),
        s@.sem.pollable(request@, 1),
        call_ensures(AsyncRwLock::<T>::poll_read, (s, request, waker, pool), r),
    ensures
        polls(old(s)@.sem, request@, 1, waker, r, final(s)@.sem),
        match r {
            Poll::Ready(guard) => reads_in(old(s)@, guard, final(s)@),
            Poll::Pending => stays(old(s)@, final(s)@),
        },
        accounts(
            old(pool)@,
            old(s).structure(),
            final(pool)@,
            final(s).structure(),
        ),
{
    lemma_accounts(pool@, s.structure(), final(pool)@, final(s).structure());
    lemma_place(s@.sem, request@);
    lemma_granted(s@, request@);
}

/// `AsyncRwLock::drop_read_request`: nobody loses access; what had been granted to the
/// request goes to the next in line, who is woken if that is enough.
pub proof fn async_drop_read_request<T>(
    s: &mut AsyncRwLock<T>,
    request: &AsyncReadRequest,
    pool: &mut QueuePool,
    r: Withdrawn,
)
    requires
        s.wf(),
        s@.sem.droppable(request@, 1),
        call_ensures(AsyncRwLock::<T>::drop_read_request, (s, request, pool), r),
    ensures
        drops(old(s)@.sem, request@, r, final(s)@.sem),
        stays(old(s)@, final(s)@),
        accounts(
            old(pool)@,
            old(s).structure(),
            final(pool)@,
            final(s).structure(),
        ),
{
    lemma_accounts(pool@, s.structure(), final(pool)@, final(s).structure());
    lemma_drops(s@.sem, request@, 1, r);
}

/// `AsyncRwLock::try_write`: see [`attempts`].
pub proof fn async_try_write<T>(s: &mut AsyncRwLock<T>, r: Option<RwLockWriteGuard<T>>)
    requires
        s.wf(),
        call_ensures(AsyncRwLock::<T>::try_write, (s,), r),
    ensures
        attempts(old(s)@.sem, old(s)@.max as usize, r, final(s)@.sem),
        match r {
            Some(guard) => writes_in(old(s)@, guard, final(s)@),
            None => stays(old(s)@, final(s)@),
        },
{
}

/// `AsyncRwLock::write_sync`: see [`starts`].
pub proof fn async_write<T>(
    s: &mut AsyncRwLock<T>,
    thread: usize,
    pool: &mut QueuePool,
    r: Enter<RwLockWriteGuard<T>>,
)
    requires
        s.wf(),
        call_ensures(AsyncRwLock::<T>::write_sync, (s, thread, pool), r),
    ensures
        starts(old(s)@.sem, old(s)@.max as usize, thread, r, final(s)@.sem),
        match r {
            Enter::Ready(guard) => writes_in(old(s)@, guard, final(s)@),
            Enter::Wait(_) => stays(old(s)@, final(s)@),
        },
        accounts(
            old(pool)@,
            old(s).structure(),
            final(pool)@,
            final(s).structure(),
        ),
{
    lemma_accounts(pool@, s.structure(), final(pool)@, final(s).structure());
    if let Enter::Wait(waiter) = r {
        lemma_place(s@.sem, waiter@.entry);
    }
}

/// `AsyncRwLock::write_step`: see [`goes_on`].
pub proof fn async_write_step<T>(
    s: &mut AsyncRwLock<T>,
    waiter: &mut SyncWaiter,
    pool: &mut QueuePool,
    r: EnterStep<RwLockWriteGuard<T>>,
)
    requires
        s.wf(),
        s@.sem.sync_waits(waiter@.entry, s@.max as usize),
        waiter@.stage is Parked ==> s@.sem.node(waiter@.entry).value != SIGNAL_UNINIT,
        call_ensures(AsyncRwLock::<T>::write_step, (s, waiter, pool), r),
    ensures
        goes_on(old(s)@.sem, old(waiter)@.entry, r, final(s)@.sem),
        match r {
            EnterStep::Done(guard) => writes_in(old(s)@, guard, final(s)@),
            EnterStep::Again(_) => stays(old(s)@, final(s)@),
        },
        final(waiter)@.entry == old(waiter)@.entry,
        r matches EnterStep::Again(step) ==> looks(old(waiter)@, step, final(waiter)@),
        final(waiter)@.stage is Parked && r is Again ==> final(s)@.sem.node(
            old(waiter)@.entry,
        ).value != SIGNAL_UNINIT,
        accounts(
            old(pool)@,
            old(s).structure(),
            final(pool)@,
            final(s).structure(),
        ),
{
    lemma_accounts(pool@, s.structure(), final(pool)@, final(s).structure());
    let id = waiter@.entry;
    lemma_place(s@.sem, id);
    lemma_granted(s@, id);
    if r is Again && r->Again_0 is Pause {
        assert(final(s)@.sem.w().nodes =~= s@.sem.w().nodes);
    }
}

/// `AsyncRwLock::write`: a fresh request; nothing else happens.
pub proof fn async_request_write<T>(s: &mut AsyncRwLock<T>, r: AsyncWriteRequest)
    requires
        s.wf(),
        call_ensures(AsyncRwLock::<T>::write, (s,), r),
    ensures
        came(old(s)@.sem.queue.waiters, final(s)@.sem.queue.waiters, r@),
        final(s)@.sem.permits == old(s)@.sem.permits,
        stays(old(s)@, final(s)@),
{
    lemma_place(s@.sem, r@);
}

/// `AsyncRwLock::poll_write`: see [`polls`].
pub proof fn async_poll_write<T>(
    s: &mut AsyncRwLock<T>,
    request: &AsyncWriteRequest,
    waker: usize,
    pool: &mut QueuePool,
    r: Poll<RwLockWriteGuard<T>>,
)
    requires
        s.wf(),
        s@.sem.pollable(request@, s@.max as usize),
        call_ensures(AsyncRwLock::<T>::poll_write, (s, request, waker, pool), r),
    ensures
        polls(old(s)@.sem, request@, old(s)@.max as usize, waker, r, final(s)@.sem),
        match r {
            Poll::Ready(guard) => writes_in(old(s)@, guard, final(s)@),
            Poll::Pending => stays(old(s)@, final(s)@),
        },
        accounts(
            old(pool)@,
            old(s).structure(),
            final(pool)@,
            final(s).structure(),
        ),
{
    lemma_accounts(pool@, s.structure(), final(pool)@, final(s).structure());
    lemma_place(s@.sem, request@);
    lemma_granted(s@, request@);
}

/// `AsyncRwLock::drop_write_request`: nobody loses access; what had been granted to the
/// request goes to the next in line, who is woken if that is enough.
pub proof fn async_drop_write_request<T>(
    s: &mut AsyncRwLock<T>,
    request: &AsyncWriteRequest,
    pool: &mut QueuePool,
    r: Withdrawn,
)
    requires
        s.wf(),
        s@.sem.droppable(request@, s@.max as usize),
        call_ensures(AsyncRwLock::<T>::drop_write_request, (s, request, pool), r),
    ensures
        drops(old(s)@.sem, request@, r, final(s)@.sem),
        stays(old(s)@, final(s)@),
        accounts(
            old(pool)@,
            old(s).structure(),
            final(pool)@,
            final(s).structure(),
        ),
{
    lemma_accounts(pool@, s.structure(), final(pool)@, final(s).structure());
    lemma_drops(s@.sem, request@, s@.max as usize, r);
}

/// `AsyncRwLock::release_read`: one reader less, and its permit goes to those in line.
pub proof fn async_release_read<T>(
    s: &mut AsyncRwLock<T>,
    guard: RwLockReadGuard,
    pool: &mut QueuePool,
    r: Vec<Wake>,
)
    requires
        s.wf(),
        s@.readers > 0,
        call_ensures(AsyncRwLock::<T>::release_read, (s, guard, pool), r),
    ensures
        comes_back(old(s)@.sem, 1, r@, final(s)@.sem),
        final(s)@.readers + 1 == old(s)@.readers,
        final(s)@.writing == old(s)@.writing,
        final(s)@.data == old(s)@.data,
        final(s)@.max == old(s)@.max,
        final(s)@.id == old(s)@.id,
        accounts(
            old(pool)@,
            old(s).structure(),
            final(pool)@,
            final(s).structure(),
        ),
{
    lemma_accounts(pool@, s.structure(), final(pool)@, final(s).structure());
    lemma_comes_back(s@.sem, 1);
}

/// `AsyncRwLock::release_write`: the value of the guard is back, and all permits go to
/// those in line.
pub proof fn async_release_write<T>(
    s: &mut AsyncRwLock<T>,
    guard: RwLockWriteGuard<T>,
    pool: &mut QueuePool,
    r: Vec<Wake>,
)
    requires
        s.wf(),
        s@.writing,
        call_ensures(AsyncRwLock::<T>::release_write, (s, guard, pool), r),
    ensures
        comes_back(old(s)@.sem, old(s)@.max, r@, final(s)@.sem),
        !final(s)@.writing,
        final(s)@.readers == 0 && old(s)@.readers == 0,
        final(s)@.data == Some(guard@),
        final(s)@.max == old(s)@.max,
        final(s)@.id == old(s)@.id,
        accounts(
            old(pool)@,
            old(s).structure(),
            final(pool)@,
            final(s).structure(),
        ),
{
    lemma_accounts(pool@, s.structure(), final(pool)@, final(s).structure());
    lemma_comes_back(s@.sem, s@.max);
}

/// `AsyncRwLock::downgrade`: the writer is a reader now and keeps one permit; the others
/// go to those in line. The value of the guard is back.
pub proof fn async_downgrade<T>(
    s: &mut AsyncRwLock<T>,
    guard: RwLockWriteGuard<T>,
    pool: &mut QueuePool,
    r: (RwLockReadGuard, Vec<Wake>),
)
    requires
        s.wf(),
        s@.writing,
        call_ensures(AsyncRwLock::<T>::downgrade, (s, guard, pool), r),
    ensures
        comes_back(old(s)@.sem, (old(s)@.max - 1) as nat, r.1@, final(s)@.sem),
        r.0.source() == old(s)@.id,
        !final(s)@.writing,
        final(s)@.readers == 1 && old(s)@.readers == 0,
        final(s)@.data == Some(guard@),
        final(s)@.max == old(s)@.max,
        final(s)@.id == old(s)@.id,
        accounts(
            old(pool)@,
            old(s).structure(),
            final(pool)@,
            final(s).structure(),
        ),
{
    lemma_accounts(pool@, s.structure(), final(pool)@, final(s).structure());
    lemma_comes_back(s@.sem, (s@.max - 1) as nat);
}

/// `AsyncRwLock::data`, `into_inner` and `to_sync`: the value, and the state, as they
/// are.
pub proof fn async_data<T>(
    s: AsyncRwLock<T>,
    guard: &RwLockReadGuard,
    r: &T,
    inner: T,
    other: RwLock<T>,
)
    ensures
        call_ensures(AsyncRwLock::<T>::data, (&s, guard), r) ==> s@.data == Some(*r),
        call_ensures(AsyncRwLock::<T>::into_inner, (s,), inner) ==> s@.data == Some(inner),
        call_ensures(AsyncRwLock::<T>::to_sync, (s,), other) ==> other@ == s@ && (s.wf()
            ==> other.wf()),
{
}

/// `AsyncRwLock::get_mut`: what is written through it is the value afterwards.
pub proof fn async_get_mut<T>(s: &mut AsyncRwLock<T>, r: &mut T)
    requires
        call_ensures(AsyncRwLock::<T>::get_mut, (s,), r),
    ensures
        old(s)@.data == Some(*old(r)),
        final(s)@.data == Some(*final(r)),
        final(s)@.readers == old(s)@.readers,
        final(s)@.writing == old(s)@.writing,
        final(s)@.sem == old(s)@.sem,
{
}

/// While a writer has access nobody gets in, and while a reader has access no writer
/// does, in whatever way they try.
pub proof fn async_exclusion<T>(
    s: &mut AsyncRwLock<T>,
    waiter: &mut SyncWaiter,
    read_request: &AsyncReadRequest,
    write_request: &AsyncWriteRequest,
    thread: usize,
    pool: &mut QueuePool,
)
    requires
        s.wf(),
        s@.writing || s@.readers > 0,
    ensures
        forall|r: Option<RwLockWriteGuard<T>>|
            call_ensures(AsyncRwLock::<T>::try_write, (s,), r) ==> r is None,
        forall|r: Enter<RwLockWriteGuard<T>>|
            call_ensures(AsyncRwLock::<T>::write_sync, (s, thread, pool), r) ==> r is Wait,
        forall|r: EnterStep<RwLockWriteGuard<T>>|
            old(s)@.sem.sync_waits(old(waiter)@.entry, old(s)@.max as usize) && #[trigger] call_ensures(
                AsyncRwLock::<T>::write_step,
                (s, waiter, pool),
                r,
            ) ==> r is Again,
        forall|r: Poll<RwLockWriteGuard<T>>|
            old(s)@.sem.pollable(write_request@, old(s)@.max as usize) && #[trigger] call_ensures(
                AsyncRwLock::<T>::poll_write,
                (s, write_request, thread, pool),
                r,
            ) ==> r is Pending,
        old(s)@.writing ==> forall|r: Option<RwLockReadGuard>|
            call_ensures(AsyncRwLock::<T>::try_read, (s,), r) ==> r is None,
        old(s)@.writing ==> forall|r: Enter<RwLockReadGuard>|
            call_ensures(AsyncRwLock::<T>::read_sync, (s, thread, pool), r) ==> r is Wait,
        old(s)@.writing ==> forall|r: EnterStep<RwLockReadGuard>|
            old(s)@.sem.sync_waits(old(waiter)@.entry, 1) && #[trigger] call_ensures(
                AsyncRwLock::<T>::read_step,
                (s, waiter, pool),
                r,
            ) ==> r is Again,
        old(s)@.writing ==> forall|r: Poll<RwLockReadGuard>|
            old(s)@.sem.pollable(read_request@, 1) && #[trigger] call_ensures(
                AsyncRwLock::<T>::poll_read,
                (s, read_request, thread, pool),
                r,
            ) ==> r is Pending,
{
    let v = s@;
    if v.sem.w().live(waiter@.entry) {
        lemma_granted(v, waiter@.entry);
    }
    if v.sem.w().live(read_request@) {
        lemma_granted(v, read_request@);
    }
    if v.sem.w().live(write_request@) {
        lemma_granted(v, write_request@);
    }
}

/// What one writer leaves the next one finds.
pub proof fn async_written<T>(
    s: &mut AsyncRwLock<T>,
    guard: RwLockWriteGuard<T>,
    pool: &mut QueuePool,
    wakes: Vec<Wake>,
    s1: &mut AsyncRwLock<T>,
    r: Option<RwLockWriteGuard<T>>,
    reader: Option<RwLockReadGuard>,
)
    requires
        s.wf(),
        s@.writing,
        s@.sem.queue.waiters.line.len() == 0,
        call_ensures(AsyncRwLock::<T>::release_write, (s, guard, pool), wakes),
        *s1 == *final(s),
        call_ensures(AsyncRwLock::<T>::try_write, (s1,), r),
    ensures
        r matches Some(next) && next@ == guard@,
{
    async_release_write(s, guard, pool, wakes);
}

/// `AsyncRwLock::default`: as [`async_new`] with a default value.
pub proof fn async_default<T: Default>(r: AsyncRwLock<T>)
    requires
        call_ensures(<AsyncRwLock::<T> as Default>::default, (), r),
    ensures
        r.wf(),
        r@.max == MAX_READERS,
        r@.data matches Some(data) && call_ensures(T::default, (), data),
        r@.readers == 0,
        !r@.writing,
        r@.sem.queue.waiters.line.len() == 0,
{
}

} // verus!
