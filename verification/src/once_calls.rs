//! What the calls of a once-cell do, seen from outside: when the value is there,
//! who makes it, who waits for it, and who is woken.
use vstd::prelude::*;

use crate::lines::{
    answered_front, came, ended, expects, joined, left, lemma_first, lemma_front,
    lemma_front_woken, lemma_left, lemma_nobody_woken, lemma_woken_then, lemma_woken_without,
    same_for, went, woken, wrote,
};
use crate::once_cell::{valid_request, AsyncGetOrInit, AsyncGetOrTryInit, AsyncOnceCell, OnceCell};
use crate::once_core::{OnceView, Phase};
use crate::once_ops::{GetOrInit, OnceStep, SetError, Step};
use crate::pool::{traded, QueuePool};
use crate::pool_calls::{accounts, lemma_accounts};
use crate::sem_core::waiting;
use crate::signal::{
    Poll, SignalView, Wake, WakerSlot, Withdrawn, SIGNAL_INIT_WAITING, SIGNAL_RETRY,
    SIGNAL_SIGNALED, SIGNAL_UNINIT,
};
use crate::sync_wait::{SyncStep, SyncWaiter};
use crate::wait_calls::{begins, looks};
use crate::waiters::WaitersView;

verus! {

/// The cell is as it was: how far the value is, and the value.
pub open spec fn stays<T>(v: OnceView<T>, after: OnceView<T>) -> bool {
    after.phase == v.phase && after.value == v.value
}

/// The cell and everybody who waits are as they were.
pub open spec fn untouched<T>(v: OnceView<T>, after: OnceView<T>) -> bool {
    stays(v, after) && after.queue.waiters == v.queue.waiters && after.heirs == v.heirs
}

/// The value is there: everybody in line is released and woken.
pub open spec fn stores<T>(v: OnceView<T>, value: T, wakes: Seq<Wake>, after: OnceView<T>) -> bool {
    let before = v.queue.waiters;
    let now = after.queue.waiters;
    &&& !(v.phase is Ready)
    &&& after.phase is Ready
    &&& after.value == Some(value)
    &&& after.heirs == v.heirs
    &&& now.line.len() == 0
    &&& answered_front(before, now, before.line.len() as int, SIGNAL_SIGNALED, wakes)
    &&& woken(before, now, wakes)
}

/// The first in line, if there is one, is offered the role and woken.
pub open spec fn offers<T>(
    before: WaitersView,
    heirs: Set<usize>,
    wakes: Seq<Wake>,
    now: WaitersView,
    after_heirs: Set<usize>,
) -> bool {
    &&& woken(before, now, wakes)
    &&& if before.line.len() == 0 {
        now == before && wakes.len() == 0 && after_heirs == heirs
    } else {
        &&& answered_front(before, now, 1, SIGNAL_RETRY, wakes)
        &&& after_heirs == heirs.insert(before.line[0])
    }
}

/// The initializer has given up: the cell is empty, and the first in line is offered the
/// role.
pub open spec fn gives_up<T>(v: OnceView<T>, wakes: Seq<Wake>, after: OnceView<T>) -> bool {
    &&& after.phase is Empty
    &&& after.value is None
    &&& offers::<T>(v.queue.waiters, v.heirs, wakes, after.queue.waiters, after.heirs)
}

/// A thread queues up, last in line, while an initializer runs.
pub open spec fn queues<T>(
    v: OnceView<T>,
    thread: usize,
    waiter: SyncWaiter,
    after: OnceView<T>,
) -> bool {
    let id = waiter@.entry;
    &&& v.phase is Running
    &&& stays(v, after)
    &&& after.heirs == v.heirs
    &&& begins(waiter@, false)
    &&& !v.queue.waiters.live(id)
    &&& joined(
        v.queue.waiters,
        after.queue.waiters,
        id,
        SIGNAL_UNINIT,
        WakerSlot::Sync(thread),
    )
}

/// Setting stores the value in an empty cell, and gives it back at any other, which it
/// leaves as it is.
pub open spec fn sets<T>(
    v: OnceView<T>,
    value: T,
    r: Result<Vec<Wake>, SetError<T>>,
    after: OnceView<T>,
) -> bool {
    match r {
        Ok(wakes) => v.phase is Empty && stores(v, value, wakes@, after),
        Err(SetError::AlreadyInitializedError(back)) => v.phase is Ready && back == value
            && untouched(v, after),
        Err(SetError::InitializingError(back)) => v.phase is Running && back == value
            && untouched(v, after),
    }
}

/// A waiting thread goes on when it is released, and finds the value. One that was
/// offered the role takes it if the cell is empty. Until then nothing happens but that it
/// announces that it parks before it does.
pub open spec fn goes_on<T>(v: OnceView<T>, id: usize, r: OnceStep, after: OnceView<T>) -> bool {
    let before = v.queue.waiters;
    let now = after.queue.waiters;
    let node = before.nodes[id as int];
    &&& after.value == v.value
    &&& match r {
        OnceStep::Done(Step::ValueReady) => {
            &&& node.value == SIGNAL_SIGNALED || node.value == SIGNAL_RETRY
            &&& v.phase is Ready && after.phase is Ready
            &&& went(before, now, id)
        },
        OnceStep::Done(Step::Initializing) => {
            &&& node.value == SIGNAL_RETRY
            &&& v.phase is Empty && after.phase is Running
            &&& went(before, now, id)
        },
        OnceStep::Restart => {
            &&& node.value == SIGNAL_RETRY
            &&& v.phase is Running && after.phase is Running
            &&& went(before, now, id)
        },
        OnceStep::Again(step) => {
            &&& node.value != SIGNAL_SIGNALED && node.value != SIGNAL_RETRY
            &&& after.phase == v.phase
            &&& after.heirs == v.heirs
            &&& match step {
                SyncStep::Park => wrote(before, now, id, SIGNAL_INIT_WAITING, node.waker),
                SyncStep::Pause(_) => now == before,
                SyncStep::Signaled(_) => false,
            }
        },
    }
    &&& !(r is Again) ==> after.heirs == v.heirs.remove(id)
}

/// A poll is ready when the value is there; a request that is fresh or was offered the
/// role gets it at an empty cell, and waits, last in line, while another initializer
/// runs.
pub open spec fn polls<T>(
    v: OnceView<T>,
    id: usize,
    waker: usize,
    r: Poll<Step>,
    after: OnceView<T>,
) -> bool {
    let before = v.queue.waiters;
    let now = after.queue.waiters;
    let node = before.nodes[id as int];
    &&& after.value == v.value
    &&& if expects(node) {
        &&& r is Pending
        &&& after.phase == v.phase
        &&& after.heirs == v.heirs
        &&& wrote(before, now, id, SIGNAL_INIT_WAITING, WakerSlot::Async(waker))
    } else {
        &&& after.heirs == v.heirs.remove(id)
        &&& match v.phase {
            Phase::Ready => {
                &&& r == Poll::Ready(Step::ValueReady)
                &&& after.phase is Ready
                &&& ended(before, now, id)
            },
            Phase::Empty => {
                &&& r == Poll::Ready(Step::Initializing)
                &&& after.phase is Running
                &&& ended(before, now, id)
            },
            Phase::Running => {
                &&& r is Pending
                &&& after.phase is Running
                &&& joined(before, now, id, SIGNAL_INIT_WAITING, WakerSlot::Async(waker))
            },
        }
    }
}

/// A request that is dropped is gone. One that has the role gives it up. Any other leaves
/// the value, and how far it is, as they are, and one that was offered the role passes
/// the offer on.
pub open spec fn drops<T>(
    v: OnceView<T>,
    request: AsyncGetOrTryInit,
    r: Withdrawn,
    after: OnceView<T>,
) -> bool {
    let before = v.queue.waiters;
    let now = after.queue.waiters;
    let id = request.entry();
    &&& !request.initializing() ==> stays(v, after)
    &&& match r {
        Withdrawn::InFlight => before.popped.contains(id) && after == v,
        Withdrawn::Done(wakes) => {
            &&& !before.popped.contains(id)
            &&& !now.live(id)
            &&& woken(before, now, wakes@)
            &&& if request.initializing() {
                &&& after.phase is Empty
                &&& after.value is None
                &&& exists|mid: WaitersView| #[trigger]
                    went(mid, now, id) && offers::<T>(before, v.heirs, wakes@, mid, after.heirs)
            } else if before.line.contains(id) {
                left(before, now, id) && after.heirs == v.heirs && wakes@.len() == 0
            } else if before.nodes[id as int].value == SIGNAL_RETRY {
                exists|mid: WaitersView| #[trigger]
                    went(before, mid, id) && offers::<T>(
                        mid,
                        v.heirs.remove(id),
                        wakes@,
                        now,
                        after.heirs,
                    )
            } else {
                went(before, now, id) && after.heirs == v.heirs && wakes@.len() == 0
            }
        },
    }
}

proof fn lemma_stores<T>(v: OnceView<T>, value: T)
    requires
        v.ok(),
        !(v.phase is Ready),
    ensures
        stores(v, value, v.complete_wakes(), v.completed(value)),
{
    let w = v.w();
    let k = w.line.len() as int;
    lemma_front(w, k, SIGNAL_SIGNALED);
    assert(w.line.take(k) =~= w.line);
    assert forall|i: int| 0 <= i < k implies expects(w.nodes[#[trigger] w.line[i] as int]) by {
        assert(waiting(v.node(v.line()[i])));
        assert(w.live(w.line[i]));
    }
    lemma_front_woken(w, v.completed(value).w(), k, SIGNAL_SIGNALED, v.complete_wakes());
}

proof fn lemma_offers<T>(v: OnceView<T>)
    requires
        v.w().ok(),
        forall|i: int| 0 <= i < v.line().len() ==> waiting(v.node(#[trigger] v.line()[i])),
    ensures
        offers::<T>(v.w(), v.heirs, v.offer_wakes(), v.offered().w(), v.offered().heirs),
{
    let w = v.w();
    if w.line.len() > 0 {
        lemma_first(w, SIGNAL_RETRY);
        assert(w.live(w.line[0]));
        lemma_front_woken(w, v.offered().w(), 1, SIGNAL_RETRY, v.offer_wakes());
    } else {
        lemma_nobody_woken(w, w, 0);
    }
}

proof fn lemma_gives_up<T>(v: OnceView<T>)
    requires
        v.ok(),
        !(v.phase is Ready),
    ensures
        gives_up(v, v.offer_wakes(), v.aborted()),
{
    lemma_offers(OnceView { phase: Phase::Empty, ..v });
}

proof fn lemma_drops_initializer<T>(v: OnceView<T>, request: AsyncGetOrTryInit, wakes: Vec<Wake>)
    requires
        v.ok(),
        v.phase is Running,
        v.finished(request.entry()),
        request.initializing(),
        wakes@ == v.offer_wakes(),
    ensures
        drops(
            v,
            request,
            Withdrawn::Done(wakes),
            v.aborted().with_node(request.entry(), SignalView::dead()),
        ),
{
    let w = v.w();
    let id = request.entry();
    let mid = v.aborted();
    let after = mid.with_node(id, SignalView::dead());
    lemma_gives_up(v);
    if w.line.len() > 0 {
        assert(w.line.contains(w.line[0]));
        assert(w.line[0] != id);
        assert forall|i: int| 0 <= i < w.line.len() - 1 implies #[trigger] mid.w().line[i] != id by {
            assert(w.line.contains(w.line[i + 1]));
        }
    }
    assert(same_for(w, mid.w(), id)) by {
        assert(forall|i: int| 0 <= i < w.line.len() ==> #[trigger] w.line[i] != id) by {
            assert forall|i: int| 0 <= i < w.line.len() implies #[trigger] w.line[i] != id by {
                assert(w.line.contains(w.line[i]));
            }
        }
    }
    assert(!mid.w().line.contains(id));
    assert(went(mid.w(), after.w(), id));
    lemma_woken_then(w, mid.w(), after.w(), id, wakes@);
}

proof fn lemma_drops<T>(v: OnceView<T>, request: AsyncGetOrTryInit, r: Withdrawn)
    requires
        v.ok(),
        v.droppable(request.entry()),
        !request.initializing(),
        (r is InFlight) == v.w().popped.contains(request.entry()),
        r matches Withdrawn::Done(wakes) ==> wakes@ == if v.node(request.entry()).value
            == SIGNAL_RETRY {
            v.with_node(request.entry(), SignalView::dead()).offer_wakes()
        } else {
            Seq::<Wake>::empty()
        },
    ensures
        drops(v, request, r, v.dropped(request.entry())),
{
    let w = v.w();
    let id = request.entry();
    let after = v.dropped(id);
    if let Withdrawn::Done(wakes) = r {
        if w.line.contains(id) {
            assert(waiting(v.node(v.line()[w.line.index_of(id)])));
            assert(w.live(w.line[w.line.index_of(id)]));
            lemma_left(w, id);
            lemma_nobody_woken(w, after.w(), id);
        } else if v.node(id).value == SIGNAL_RETRY {
            let mid = OnceView {
                heirs: v.heirs.remove(id),
                ..v.with_node(id, SignalView::dead())
            };
            assert(went(w, mid.w(), id));
            crate::keeps::lemma_node_ok(w, id, SignalView::dead());
            assert forall|i: int| 0 <= i < mid.line().len() implies waiting(
                mid.node(#[trigger] mid.line()[i]),
            ) by {
                assert(w.line.contains(w.line[i]));
                assert(waiting(v.node(v.line()[i])));
            }
            lemma_offers(mid);
            assert(wakes@ =~= mid.offer_wakes());
            if w.line.len() > 0 {
                assert(w.line.contains(w.line[0]));
            }
            lemma_woken_without(w, mid.w(), after.w(), id, wakes@);
        } else {
            assert(went(w, after.w(), id));
            lemma_nobody_woken(w, after.w(), id);
        }
    }
}

/// A rejected value is given back.
pub proof fn into_inner_error<T>(e: SetError<T>, r: T)
    requires
        call_ensures(SetError::<T>::into_inner, (e,), r),
    ensures
        e == SetError::AlreadyInitializedError(r) || e == SetError::InitializingError(r),
{
}

/// Whether a request has the role.
pub proof fn is_initializing(request: &AsyncGetOrTryInit, r: bool)
    requires
        call_ensures(AsyncGetOrTryInit::is_initializing, (request,), r),
    ensures
        r == request.initializing(),
{
}

/// `OnceCell::new`, `default`, `new_with` and `from`: with the value it is made with, if
/// any, and nobody waits.
pub proof fn new<T>(value: Option<T>, r: OnceCell<T>)
    requires
        call_ensures(OnceCell::<T>::new_with, (value,), r) || value is None && (call_ensures(
            OnceCell::<T>::new,
            (),
            r,
        ) || call_ensures(<OnceCell::<T> as Default>::default, (), r)) || value is Some
            && call_ensures(<OnceCell::<T> as From<T>>::from, (value->0,), r),
    ensures
        r.wf(),
        r@.value == value,
        (r@.phase is Ready) == (value is Some),
        (r@.phase is Empty) == (value is None),
        r@.queue.waiters.line.len() == 0,
{
}

/// `OnceCell::get` and `initialized`: the value, exactly when it is there.
pub proof fn get<T>(s: &OnceCell<T>, r: Option<&T>, there: bool)
    requires
        s.wf(),
        call_ensures(OnceCell::<T>::get, (s,), r),
        call_ensures(OnceCell::<T>::initialized, (s,), there),
    ensures
        there == (r is Some),
        there == (s@.phase is Ready),
        match r {
            Some(value) => s@.value == Some(*value),
            None => s@.value is None,
        },
{
}

/// `OnceCell::get_mut`: what is written through it is the value afterwards.
pub proof fn get_mut<T>(s: &mut OnceCell<T>, r: Option<&mut T>)
    requires
        s.wf(),
        call_ensures(OnceCell::<T>::get_mut, (s,), r),
    ensures
        (r is Some) == (old(s)@.value is Some),
        final(s)@.phase == old(s)@.phase,
        final(s)@.queue.waiters == old(s)@.queue.waiters,
        match r {
            Some(value) => old(s)@.value == Some(*value) && final(s)@.value == Some(*final(value)),
            None => final(s)@.value is None,
        },
{
}

/// `OnceCell::set`: see [`sets`].
pub proof fn set<T>(
    s: &mut OnceCell<T>,
    value: T,
    pool: &mut QueuePool,
    r: Result<Vec<Wake>, SetError<T>>,
)
    requires
        s.wf(),
        call_ensures(OnceCell::<T>::set, (s, value, pool), r),
    ensures
        sets(old(s)@, value, r, final(s)@),
        accounts(
            old(pool)@,
            old(s).structure(),
            final(pool)@,
            final(s).structure(),
        ),
{
    lemma_accounts(pool@, s.structure(), final(pool)@, final(s).structure());
    if !(s@.phase is Ready) {
        lemma_stores(s@, value);
    }
}

/// `OnceCell::take` and `into_inner`: the value, and an empty cell is left.
pub proof fn take<T>(s: &mut OnceCell<T>, r: Option<T>, s1: OnceCell<T>, r1: Option<T>)
    requires
        s.wf(),
        call_ensures(OnceCell::<T>::take, (s,), r),
        call_ensures(OnceCell::<T>::into_inner, (s1,), r1),
    ensures
        r == old(s)@.value,
        final(s)@.value is None,
        r is Some ==> final(s)@.phase is Empty,
        r is None ==> final(s)@ == old(s)@,
        r1 == s1@.value,
{
}

/// `OnceCell::get_or_init`: a value that is there stays, an empty cell gets what the
/// initializer makes, and while another initializer runs the thread queues up and keeps
/// its own.
pub proof fn get_or_init<T, F: FnOnce() -> T>(
    s: &mut OnceCell<T>,
    f: F,
    thread: usize,
    pool: &mut QueuePool,
    r: Result<Vec<Wake>, (F, SyncWaiter)>,
)
    requires
        s.wf(),
        call_ensures(OnceCell::<T>::get_or_init::<F>, (s, f, thread, pool), r),
    ensures
        match r {
            Ok(wakes) => if old(s)@.phase is Ready {
                untouched(old(s)@, final(s)@) && wakes@.len() == 0
            } else {
                &&& old(s)@.phase is Empty
                &&& final(s)@.value matches Some(value)
                &&& f.ensures((), value)
                &&& stores(old(s)@, value, wakes@, final(s)@)
            },
            Err(kept) => kept.0 == f && queues(old(s)@, thread, kept.1, final(s)@),
        },
        accounts(
            old(pool)@,
            old(s).structure(),
            final(pool)@,
            final(s).structure(),
        ),
{
    lemma_accounts(pool@, s.structure(), final(pool)@, final(s).structure());
    let w = s@.w();
    if s@.phase is Empty {
        lemma_stores(s@, final(s)@.value->0);
    }
    if let Err(kept) = r {
        if w.line.contains(kept.1@.entry) {
            assert(w.live(w.line[w.line.index_of(kept.1@.entry)]));
        }
    }
}

/// `OnceCell::get_or_try_init`: the same, and an initializer that fails leaves the cell
/// empty and the role to the first in line.
pub proof fn get_or_try_init<T, E, F: FnOnce() -> Result<T, E>>(
    s: &mut OnceCell<T>,
    f: F,
    thread: usize,
    pool: &mut QueuePool,
    r: GetOrInit<F, E>,
)
    requires
        s.wf(),
        call_ensures(OnceCell::<T>::get_or_try_init::<E, F>, (s, f, thread, pool), r),
    ensures
        match r {
            GetOrInit::Ready(wakes) => if old(s)@.phase is Ready {
                untouched(old(s)@, final(s)@) && wakes@.len() == 0
            } else {
                &&& old(s)@.phase is Empty
                &&& final(s)@.value matches Some(value)
                &&& f.ensures((), Ok(value))
                &&& stores(old(s)@, value, wakes@, final(s)@)
            },
            GetOrInit::Failed(e, wakes) => {
                &&& old(s)@.phase is Empty
                &&& f.ensures((), Err(e))
                &&& gives_up(old(s)@, wakes@, final(s)@)
            },
            GetOrInit::Wait(kept, waiter) => kept == f && queues(
                old(s)@,
                thread,
                waiter,
                final(s)@,
            ),
        },
        accounts(
            old(pool)@,
            old(s).structure(),
            final(pool)@,
            final(s).structure(),
        ),
{
    lemma_accounts(pool@, s.structure(), final(pool)@, final(s).structure());
    let w = s@.w();
    if s@.phase is Empty {
        if r is Ready {
            lemma_stores(s@, final(s)@.value->0);
        }
        lemma_gives_up(s@);
    }
    if let GetOrInit::Wait(_, waiter) = r {
        if w.line.contains(waiter@.entry) {
            assert(w.live(w.line[w.line.index_of(waiter@.entry)]));
        }
    }
}

/// `OnceCell::queue_up`: see [`queues`].
pub proof fn queue_up<T>(
    s: &mut OnceCell<T>,
    thread: usize,
    pool: &mut QueuePool,
    r: SyncWaiter,
)
    requires
        s.wf(),
        s@.phase is Running,
        call_ensures(OnceCell::<T>::queue_up, (s, thread, pool), r),
    ensures
        queues(old(s)@, thread, r, final(s)@),
        accounts(
            old(pool)@,
            old(s).structure(),
            final(pool)@,
            final(s).structure(),
        ),
{
    lemma_accounts(pool@, s.structure(), final(pool)@, final(s).structure());
    let w = s@.w();
    if w.line.contains(r@.entry) {
        assert(w.live(w.line[w.line.index_of(r@.entry)]));
    }
}

/// `OnceCell::wait_step`: see [`goes_on`].
pub proof fn wait_step<T>(s: &mut OnceCell<T>, waiter: &mut SyncWaiter, r: OnceStep)
    requires
        s.wf(),
        s@.sync_waits(waiter@.entry),
        waiter@.stage is Parked ==> s@.node(waiter@.entry).value != SIGNAL_UNINIT,
        call_ensures(OnceCell::<T>::wait_step, (s, waiter), r),
    ensures
        goes_on(old(s)@, old(waiter)@.entry, r, final(s)@),
        final(waiter)@.entry == old(waiter)@.entry,
        r matches OnceStep::Again(step) ==> looks(old(waiter)@, step, final(waiter)@),
        final(waiter)@.stage is Parked && r is Again ==> final(s)@.node(old(waiter)@.entry).value
            != SIGNAL_UNINIT,
{
    let id = waiter@.entry;
    let w = s@.w();
    if w.line.contains(id) {
        assert(waiting(s@.node(s@.line()[w.line.index_of(id)])));
    }
    if r is Again && r->Again_0 is Pause {
        assert(final(s)@.w().nodes =~= w.nodes);
    }
    if s@.node(id).value == SIGNAL_SIGNALED {
        assert(s@.heirs.remove(id) =~= s@.heirs) by {
            if s@.heirs.contains(id) {
                assert(s@.w().popped.contains(id) || s@.node(id).value == SIGNAL_RETRY);
            }
        }
    }
}

/// `OnceCell::try_begin_init`: the role, exactly at an empty cell.
pub proof fn try_begin_init<T>(s: &mut OnceCell<T>, r: Result<(), Phase>)
    requires
        s.wf(),
        call_ensures(OnceCell::<T>::try_begin_init, (s,), r),
    ensures
        match r {
            Ok(_) => old(s)@.phase is Empty && final(s)@.phase is Running,
            Err(phase) => !(old(s)@.phase is Empty) && phase == old(s)@.phase && final(s)@.phase
                == old(s)@.phase,
        },
        final(s)@.value == old(s)@.value,
        final(s)@.queue.waiters == old(s)@.queue.waiters,
        final(s)@.heirs == old(s)@.heirs,
{
}

/// `OnceCell::complete`: see [`stores`].
pub proof fn complete<T>(s: &mut OnceCell<T>, value: T, pool: &mut QueuePool, r: Vec<Wake>)
    requires
        s.wf(),
        s@.phase is Running,
        call_ensures(OnceCell::<T>::complete, (s, value, pool), r),
    ensures
        stores(old(s)@, value, r@, final(s)@),
        accounts(
            old(pool)@,
            old(s).structure(),
            final(pool)@,
            final(s).structure(),
        ),
{
    lemma_accounts(pool@, s.structure(), final(pool)@, final(s).structure());
    lemma_stores(s@, value);
}

/// `OnceCell::abort`: see [`gives_up`].
pub proof fn abort<T>(s: &mut OnceCell<T>, pool: &mut QueuePool, r: Vec<Wake>)
    requires
        s.wf(),
        s@.phase is Running,
        call_ensures(OnceCell::<T>::abort, (s, pool), r),
    ensures
        gives_up(old(s)@, r@, final(s)@),
        accounts(
            old(pool)@,
            old(s).structure(),
            final(pool)@,
            final(s).structure(),
        ),
{
    lemma_accounts(pool@, s.structure(), final(pool)@, final(s).structure());
    lemma_gives_up(s@);
}

/// `OnceCell::get_or_init_async` and `get_or_try_init_async`: a fresh request without the
/// role; nothing else happens.
pub proof fn request<T>(s: &mut OnceCell<T>, r: AsyncGetOrInit)
    requires
        s.wf(),
        call_ensures(OnceCell::<T>::get_or_init_async, (s,), r) || call_ensures(
            OnceCell::<T>::get_or_try_init_async,
            (s,),
            r.request,
        ),
    ensures
        !r.request.initializing(),
        came(old(s)@.queue.waiters, final(s)@.queue.waiters, r.request.entry()),
        stays(old(s)@, final(s)@),
        final(s)@.heirs == old(s)@.heirs,
{
    let w = s@.w();
    if w.popped.contains(r.request.entry()) {
        assert(w.live(r.request.entry()));
    }
}

/// `OnceCell::poll_wait`: see [`polls`]. The request has the role if it was given it.
pub proof fn poll_wait<T>(
    s: &mut OnceCell<T>,
    request: &mut AsyncGetOrTryInit,
    waker: usize,
    pool: &mut QueuePool,
    r: Poll<Step>,
)
    requires
        s.wf(),
        s@.pollable(request.entry()),
        call_ensures(OnceCell::<T>::poll_wait, (s, request, waker, pool), r),
    ensures
        polls(old(s)@, old(request).entry(), waker, r, final(s)@),
        final(request).entry() == old(request).entry(),
        final(request).initializing() == (r == Poll::Ready(Step::Initializing)),
        accounts(
            old(pool)@,
            old(s).structure(),
            final(pool)@,
            final(s).structure(),
        ),
{
    lemma_accounts(pool@, s.structure(), final(pool)@, final(s).structure());
    let id = request.entry();
    let v = s@;
    let w = v.w();
    if w.line.contains(id) {
        assert(waiting(v.node(v.line()[w.line.index_of(id)])));
    }
    if w.popped.contains(id) {
        assert(waiting(v.node(id)));
    }
    if v.node(id).value != SIGNAL_RETRY && v.node(id).value != SIGNAL_INIT_WAITING {
        assert(v.heirs.remove(id) =~= v.heirs) by {
            if v.heirs.contains(id) {
                assert(w.popped.contains(id) || v.node(id).value == SIGNAL_RETRY);
            }
        }
    }
}

/// `OnceCell::finish` and `fail`: as [`stores`] and [`gives_up`] say, and the request
/// does not have the role any more.
pub proof fn finish<T>(
    s: &mut OnceCell<T>,
    request: &mut AsyncGetOrTryInit,
    value: T,
    pool: &mut QueuePool,
    r: Vec<Wake>,
)
    requires
        s.wf(),
        request.initializing(),
        valid_request(s@, request),
    ensures
        call_ensures(OnceCell::<T>::finish, (s, request, value, pool), r) ==> stores(
            old(s)@,
            value,
            r@,
            final(s)@,
        ) && !final(request).initializing() && final(request).entry() == old(request).entry(),
        call_ensures(OnceCell::<T>::fail, (s, request, pool), r) ==> gives_up(
            old(s)@,
            r@,
            final(s)@,
        ) && !final(request).initializing() && final(request).entry() == old(request).entry(),
        call_ensures(OnceCell::<T>::finish, (s, request, value, pool), r) || call_ensures(
            OnceCell::<T>::fail,
            (s, request, pool),
            r,
        ) ==> accounts(old(pool)@, old(s).structure(), final(pool)@, final(s).structure()),
{
    lemma_stores(s@, value);
    lemma_gives_up(s@);
    if traded(pool@, s.structure(), final(pool)@, final(s).structure()) {
        lemma_accounts(pool@, s.structure(), final(pool)@, final(s).structure());
    }
}

/// `OnceCell::drop_request`: see [`drops`].
pub proof fn drop_request<T>(
    s: &mut OnceCell<T>,
    request: &AsyncGetOrTryInit,
    pool: &mut QueuePool,
    r: Withdrawn,
)
    requires
        s.wf(),
        valid_request(s@, request),
        call_ensures(OnceCell::<T>::drop_request, (s, request, pool), r),
    ensures
        drops(old(s)@, *request, r, final(s)@),
        accounts(
            old(pool)@,
            old(s).structure(),
            final(pool)@,
            final(s).structure(),
        ),
{
    lemma_accounts(pool@, s.structure(), final(pool)@, final(s).structure());
    if request.initializing() {
        if let Withdrawn::Done(wakes) = r {
            lemma_drops_initializer(s@, *request, wakes);
        }
    } else {
        lemma_drops(s@, *request, r);
    }
}

/// `OnceCell::to_async`: the state as it is.
pub proof fn to_async<T>(s: OnceCell<T>, r: AsyncOnceCell<T>)
    requires
        call_ensures(OnceCell::<T>::to_async, (s,), r),
    ensures
        r@ == s@,
        s.wf() ==> r.wf(),
{
}

/// While an initializer runs nobody else gets its role, in whatever way they try, and
/// nobody can set the value.
pub proof fn one_initializer<T>(
    s: &mut OnceCell<T>,
    waiter: &mut SyncWaiter,
    request: &mut AsyncGetOrTryInit,
    waker: usize,
    value: T,
    pool: &mut QueuePool,
    begun: Result<(), Phase>,
    stepped: OnceStep,
    polled: Poll<Step>,
    set: Result<Vec<Wake>, SetError<T>>,
)
    requires
        s.wf(),
        s@.phase is Running,
        s@.sync_waits(waiter@.entry),
        s@.pollable(request.entry()),
    ensures
        call_ensures(OnceCell::<T>::try_begin_init, (s,), begun) ==> begun is Err,
        call_ensures(OnceCell::<T>::wait_step, (s, waiter), stepped) ==> !(stepped is Done),
        call_ensures(OnceCell::<T>::poll_wait, (s, request, waker, pool), polled) ==> polled
            is Pending,
        call_ensures(OnceCell::<T>::set, (s, value, pool), set) ==> set
            == Err::<Vec<Wake>, SetError<T>>(SetError::InitializingError(value)),
{
}

/// Whatever stored the value, it is read back, and cannot be set again.
pub proof fn read_back<T>(
    s: &mut OnceCell<T>,
    request: &mut AsyncGetOrTryInit,
    value: T,
    pool: &mut QueuePool,
    wakes: Vec<Wake>,
    s1: &mut OnceCell<T>,
    read: Option<&T>,
    other: T,
    pool1: &mut QueuePool,
    again: Result<Vec<Wake>, SetError<T>>,
)
    requires
        s.wf(),
        call_ensures(OnceCell::<T>::set, (s, value, pool), Ok(wakes)) || s@.phase is Running && (
        call_ensures(OnceCell::<T>::complete, (s, value, pool), wakes) || call_ensures(
            OnceCell::<T>::finish,
            (s, request, value, pool),
            wakes,
        )),
        *s1 == *final(s),
        call_ensures(OnceCell::<T>::get, (s1,), read),
        call_ensures(OnceCell::<T>::set, (s1, other, pool1), again),
    ensures
        read == Some(&value),
        again == Err::<Vec<Wake>, SetError<T>>(SetError::AlreadyInitializedError(other)),
        final(s1)@.value == Some(value),
{
    assert(*(read->Some_0) == value);
}

/// A request with the role keeps it when another request is dropped: it can still store
/// its value, which is then read back.
pub proof fn role_stays<T>(
    s: &mut OnceCell<T>,
    dropped: &AsyncGetOrTryInit,
    pool: &mut QueuePool,
    r: Withdrawn,
    request: &mut AsyncGetOrTryInit,
    s1: &mut OnceCell<T>,
    value: T,
    pool1: &mut QueuePool,
    wakes: Vec<Wake>,
)
    requires
        s.wf(),
        request.initializing(),
        valid_request(s@, request),
        !dropped.initializing(),
        valid_request(s@, dropped),
        dropped.entry() != request.entry(),
        call_ensures(OnceCell::<T>::drop_request, (s, dropped, pool), r),
        *s1 == *final(s),
        call_ensures(OnceCell::<T>::finish, (s1, request, value, pool1), wakes),
    ensures
        valid_request(final(s)@, old(request)),
        final(s)@.phase is Running,
        final(s)@.value == old(s)@.value,
        final(s1)@.value == Some(value),
        final(s1)@.phase is Ready,
{
    drop_request(s, dropped, pool, r);
    assert(s@.finished(request.entry()));
    assert(final(s)@.finished(request.entry()));
}

/// An initializer that gives up leaves a cell whose role can be taken again.
pub proof fn another_try<T>(
    s: &mut OnceCell<T>,
    pool: &mut QueuePool,
    wakes: Vec<Wake>,
    s1: &mut OnceCell<T>,
    r: Result<(), Phase>,
)
    requires
        s.wf(),
        s@.phase is Running,
        call_ensures(OnceCell::<T>::abort, (s, pool), wakes),
        *s1 == *final(s),
        call_ensures(OnceCell::<T>::try_begin_init, (s1,), r),
    ensures
        r is Ok,
        final(s1)@.phase is Running,
        final(s1)@.value is None,
{
    abort(s, pool, wakes);
}

/// `AsyncOnceCell::new`, `default`, `new_with` and `from`: with the value it is made
/// with, if any, and nobody waits.
pub proof fn async_new<T>(value: Option<T>, r: AsyncOnceCell<T>)
    requires
        call_ensures(AsyncOnceCell::<T>::new_with, (value,), r) || value is None && (call_ensures(
            AsyncOnceCell::<T>::new,
            (),
            r,
        ) || call_ensures(<AsyncOnceCell::<T> as Default>::default, (), r)) || value is Some
            && call_ensures(<AsyncOnceCell::<T> as From<T>>::from, (value->0,), r),
    ensures
        r.wf(),
        r@.value == value,
        (r@.phase is Ready) == (value is Some),
        (r@.phase is Empty) == (value is None),
        r@.queue.waiters.line.len() == 0,
{
}

/// `AsyncOnceCell::get` and `initialized`: the value, exactly when it is there.
pub proof fn async_get<T>(s: &AsyncOnceCell<T>, r: Option<&T>, there: bool)
    requires
        s.wf(),
        call_ensures(AsyncOnceCell::<T>::get, (s,), r),
        call_ensures(AsyncOnceCell::<T>::initialized, (s,), there),
    ensures
        there == (r is Some),
        there == (s@.phase is Ready),
        match r {
            Some(value) => s@.value == Some(*value),
            None => s@.value is None,
        },
{
}

/// `AsyncOnceCell::get_mut`: what is written through it is the value afterwards.
pub proof fn async_get_mut<T>(s: &mut AsyncOnceCell<T>, r: Option<&mut T>)
    requires
        s.wf(),
        call_ensures(AsyncOnceCell::<T>::get_mut, (s,), r),
    ensures
        (r is Some) == (old(s)@.value is Some),
        final(s)@.phase == old(s)@.phase,
        final(s)@.queue.waiters == old(s)@.queue.waiters,
        match r {
            Some(value) => old(s)@.value == Some(*value) && final(s)@.value == Some(*final(value)),
            None => final(s)@.value is None,
        },
{
}

/// `AsyncOnceCell::set`: see [`sets`].
pub proof fn async_set<T>(
    s: &mut AsyncOnceCell<T>,
    value: T,
    pool: &mut QueuePool,
    r: Result<Vec<Wake>, SetError<T>>,
)
    requires
        s.wf(),
        call_ensures(AsyncOnceCell::<T>::set, (s, value, pool), r),
    ensures
        sets(old(s)@, value, r, final(s)@),
        accounts(
            old(pool)@,
            old(s).structure(),
            final(pool)@,
            final(s).structure(),
        ),
{
    lemma_accounts(pool@, s.structure(), final(pool)@, final(s).structure());
    if !(s@.phase is Ready) {
        lemma_stores(s@, value);
    }
}

/// `AsyncOnceCell::take` and `into_inner`: the value, and an empty cell is left.
pub proof fn async_take<T>(
    s: &mut AsyncOnceCell<T>,
    r: Option<T>,
    s1: AsyncOnceCell<T>,
    r1: Option<T>,
)
    requires
        s.wf(),
        call_ensures(AsyncOnceCell::<T>::take, (s,), r),
        call_ensures(AsyncOnceCell::<T>::into_inner, (s1,), r1),
    ensures
        r == old(s)@.value,
        final(s)@.value is None,
        r is Some ==> final(s)@.phase is Empty,
        r is None ==> final(s)@ == old(s)@,
        r1 == s1@.value,
{
}

/// `AsyncOnceCell::get_or_init_sync`: a value that is there stays, an empty cell gets
/// what the initializer makes, and while another initializer runs the thread queues up
/// and keeps its own.
pub proof fn async_get_or_init<T, F: FnOnce() -> T>(
    s: &mut AsyncOnceCell<T>,
    f: F,
    thread: usize,
    pool: &mut QueuePool,
    r: Result<Vec<Wake>, (F, SyncWaiter)>,
)
    requires
        s.wf(),
        call_ensures(AsyncOnceCell::<T>::get_or_init_sync::<F>, (s, f, thread, pool), r),
    ensures
        match r {
            Ok(wakes) => if old(s)@.phase is Ready {
                untouched(old(s)@, final(s)@) && wakes@.len() == 0
            } else {
                &&& old(s)@.phase is Empty
                &&& final(s)@.value matches Some(value)
                &&& f.ensures((), value)
                &&& stores(old(s)@, value, wakes@, final(s)@)
            },
            Err(kept) => kept.0 == f && queues(old(s)@, thread, kept.1, final(s)@),
        },
        accounts(
            old(pool)@,
            old(s).structure(),
            final(pool)@,
            final(s).structure(),
        ),
{
    lemma_accounts(pool@, s.structure(), final(pool)@, final(s).structure());
    let w = s@.w();
    if s@.phase is Empty {
        lemma_stores(s@, final(s)@.value->0);
    }
    if let Err(kept) = r {
        if w.line.contains(kept.1@.entry) {
            assert(w.live(w.line[w.line.index_of(kept.1@.entry)]));
        }
    }
}

/// `AsyncOnceCell::get_or_try_init_sync`: the same, and an initializer that fails leaves
/// the cell empty and the role to the first in line.
pub proof fn async_get_or_try_init<T, E, F: FnOnce() -> Result<T, E>>(
    s: &mut AsyncOnceCell<T>,
    f: F,
    thread: usize,
    pool: &mut QueuePool,
    r: GetOrInit<F, E>,
)
    requires
        s.wf(),
        call_ensures(AsyncOnceCell::<T>::get_or_try_init_sync::<E, F>, (s, f, thread, pool), r),
    ensures
        match r {
            GetOrInit::Ready(wakes) => if old(s)@.phase is Ready {
                untouched(old(s)@, final(s)@) && wakes@.len() == 0
            } else {
                &&& old(s)@.phase is Empty
                &&& final(s)@.value matches Some(value)
                &&& f.ensures((), Ok(value))
                &&& stores(old(s)@, value, wakes@, final(s)@)
            },
            GetOrInit::Failed(e, wakes) => {
                &&& old(s)@.phase is Empty
                &&& f.ensures((), Err(e))
                &&& gives_up(old(s)@, wakes@, final(s)@)
            },
            GetOrInit::Wait(kept, waiter) => kept == f && queues(
                old(s)@,
                thread,
                waiter,
                final(s)@,
            ),
        },
        accounts(
            old(pool)@,
            old(s).structure(),
            final(pool)@,
            final(s).structure(),
        ),
{
    lemma_accounts(pool@, s.structure(), final(pool)@, final(s).structure());
    let w = s@.w();
    if s@.phase is Empty {
        if r is Ready {
            lemma_stores(s@, final(s)@.value->0);
        }
        lemma_gives_up(s@);
    }
    if let GetOrInit::Wait(_, waiter) = r {
        if w.line.contains(waiter@.entry) {
            assert(w.live(w.line[w.line.index_of(waiter@.entry)]));
        }
    }
}

/// `AsyncOnceCell::queue_up`: see [`queues`].
pub proof fn async_queue_up<T>(
    s: &mut AsyncOnceCell<T>,
    thread: usize,
    pool: &mut QueuePool,
    r: SyncWaiter,
)
    requires
        s.wf(),
        s@.phase is Running,
        call_ensures(AsyncOnceCell::<T>::queue_up, (s, thread, pool), r),
    ensures
        queues(old(s)@, thread, r, final(s)@),
        accounts(
            old(pool)@,
            old(s).structure(),
            final(pool)@,
            final(s).structure(),
        ),
{
    lemma_accounts(pool@, s.structure(), final(pool)@, final(s).structure());
    let w = s@.w();
    if w.line.contains(r@.entry) {
        assert(w.live(w.line[w.line.index_of(r@.entry)]));
    }
}

/// `AsyncOnceCell::wait_step`: see [`goes_on`].
pub proof fn async_wait_step<T>(s: &mut AsyncOnceCell<T>, waiter: &mut SyncWaiter, r: OnceStep)
    requires
        s.wf(),
        s@.sync_waits(waiter@.entry),
        waiter@.stage is Parked ==> s@.node(waiter@.entry).value != SIGNAL_UNINIT,
        call_ensures(AsyncOnceCell::<T>::wait_step, (s, waiter), r),
    ensures
        goes_on(old(s)@, old(waiter)@.entry, r, final(s)@),
        final(waiter)@.entry == old(waiter)@.entry,
        r matches OnceStep::Again(step) ==> looks(old(waiter)@, step, final(waiter)@),
        final(waiter)@.stage is Parked && r is Again ==> final(s)@.node(old(waiter)@.entry).value
            != SIGNAL_UNINIT,
{
    let id = waiter@.entry;
    let w = s@.w();
    if w.line.contains(id) {
        assert(waiting(s@.node(s@.line()[w.line.index_of(id)])));
    }
    if r is Again && r->Again_0 is Pause {
        assert(final(s)@.w().nodes =~= w.nodes);
    }
    if s@.node(id).value == SIGNAL_SIGNALED {
        assert(s@.heirs.remove(id) =~= s@.heirs) by {
            if s@.heirs.contains(id) {
                assert(s@.w().popped.contains(id) || s@.node(id).value == SIGNAL_RETRY);
            }
        }
    }
}

/// `AsyncOnceCell::try_begin_init`: the role, exactly at an empty cell.
pub proof fn async_try_begin_init<T>(s: &mut AsyncOnceCell<T>, r: Result<(), Phase>)
    requires
        s.wf(),
        call_ensures(AsyncOnceCell::<T>::try_begin_init, (s,), r),
    ensures
        match r {
            Ok(_) => old(s)@.phase is Empty && final(s)@.phase is Running,
            Err(phase) => !(old(s)@.phase is Empty) && phase == old(s)@.phase && final(s)@.phase
                == old(s)@.phase,
        },
        final(s)@.value == old(s)@.value,
        final(s)@.queue.waiters == old(s)@.queue.waiters,
        final(s)@.heirs == old(s)@.heirs,
{
}

/// `AsyncOnceCell::complete`: see [`stores`].
pub proof fn async_complete<T>(
    s: &mut AsyncOnceCell<T>,
    value: T,
    pool: &mut QueuePool,
    r: Vec<Wake>,
)
    requires
        s.wf(),
        s@.phase is Running,
        call_ensures(AsyncOnceCell::<T>::complete, (s, value, pool), r),
    ensures
        stores(old(s)@, value, r@, final(s)@),
        accounts(
            old(pool)@,
            old(s).structure(),
            final(pool)@,
            final(s).structure(),
        ),
{
    lemma_accounts(pool@, s.structure(), final(pool)@, final(s).structure());
    lemma_stores(s@, value);
}

/// `AsyncOnceCell::abort`: see [`gives_up`].
pub proof fn async_abort<T>(s: &mut AsyncOnceCell<T>, pool: &mut QueuePool, r: Vec<Wake>)
    requires
        s.wf(),
        s@.phase is Running,
        call_ensures(AsyncOnceCell::<T>::abort, (s, pool), r),
    ensures
        gives_up(old(s)@, r@, final(s)@),
        accounts(
            old(pool)@,
            old(s).structure(),
            final(pool)@,
            final(s).structure(),
        ),
{
    lemma_accounts(pool@, s.structure(), final(pool)@, final(s).structure());
    lemma_gives_up(s@);
}

/// `AsyncOnceCell::get_or_init` and `get_or_try_init`: a fresh request without the role;
/// nothing else happens.
pub proof fn async_request<T>(s: &mut AsyncOnceCell<T>, r: AsyncGetOrInit)
    requires
        s.wf(),
        call_ensures(AsyncOnceCell::<T>::get_or_init, (s,), r) || call_ensures(
            AsyncOnceCell::<T>::get_or_try_init,
            (s,),
            r.request,
        ),
    ensures
        !r.request.initializing(),
        came(old(s)@.queue.waiters, final(s)@.queue.waiters, r.request.entry()),
        stays(old(s)@, final(s)@),
        final(s)@.heirs == old(s)@.heirs,
{
    let w = s@.w();
    if w.popped.contains(r.request.entry()) {
        assert(w.live(r.request.entry()));
    }
}

/// `AsyncOnceCell::poll_wait`: see [`polls`]. The request has the role if it was given
/// it.
pub proof fn async_poll_wait<T>(
    s: &mut AsyncOnceCell<T>,
    request: &mut AsyncGetOrTryInit,
    waker: usize,
    pool: &mut QueuePool,
    r: Poll<Step>,
)
    requires
        s.wf(),
        s@.pollable(request.entry()),
        call_ensures(AsyncOnceCell::<T>::poll_wait, (s, request, waker, pool), r),
    ensures
        polls(old(s)@, old(request).entry(), waker, r, final(s)@),
        final(request).entry() == old(request).entry(),
        final(request).initializing() == (r == Poll::Ready(Step::Initializing)),
        accounts(
            old(pool)@,
            old(s).structure(),
            final(pool)@,
            final(s).structure(),
        ),
{
    lemma_accounts(pool@, s.structure(), final(pool)@, final(s).structure());
    let id = request.entry();
    let v = s@;
    let w = v.w();
    if w.line.contains(id) {
        assert(waiting(v.node(v.line()[w.line.index_of(id)])));
    }
    if w.popped.contains(id) {
        assert(waiting(v.node(id)));
    }
    if v.node(id).value != SIGNAL_RETRY && v.node(id).value != SIGNAL_INIT_WAITING {
        assert(v.heirs.remove(id) =~= v.heirs) by {
            if v.heirs.contains(id) {
                assert(w.popped.contains(id) || v.node(id).value == SIGNAL_RETRY);
            }
        }
    }
}

/// `AsyncOnceCell::finish` and `fail`: as [`stores`] and [`gives_up`] say, and the
/// request does not have the role any more.
pub proof fn async_finish<T>(
    s: &mut AsyncOnceCell<T>,
    request: &mut AsyncGetOrTryInit,
    value: T,
    pool: &mut QueuePool,
    r: Vec<Wake>,
)
    requires
        s.wf(),
        request.initializing(),
        valid_request(s@, request),
    ensures
        call_ensures(AsyncOnceCell::<T>::finish, (s, request, value, pool), r) ==> stores(
            old(s)@,
            value,
            r@,
            final(s)@,
        ) && !final(request).initializing() && final(request).entry() == old(request).entry(),
        call_ensures(AsyncOnceCell::<T>::fail, (s, request, pool), r) ==> gives_up(
            old(s)@,
            r@,
            final(s)@,
        ) && !final(request).initializing() && final(request).entry() == old(request).entry(),
        call_ensures(AsyncOnceCell::<T>::finish, (s, request, value, pool), r) || call_ensures(
            AsyncOnceCell::<T>::fail,
            (s, request, pool),
            r,
        ) ==> accounts(old(pool)@, old(s).structure(), final(pool)@, final(s).structure()),
{
    lemma_stores(s@, value);
    lemma_gives_up(s@);
    if traded(pool@, s.structure(), final(pool)@, final(s).structure()) {
        lemma_accounts(pool@, s.structure(), final(pool)@, final(s).structure());
    }
}

/// `AsyncOnceCell::drop_request`: see [`drops`].
pub proof fn async_drop_request<T>(
    s: &mut AsyncOnceCell<T>,
    request: &AsyncGetOrTryInit,
    pool: &mut QueuePool,
    r: Withdrawn,
)
    requires
        s.wf(),
        valid_request(s@, request),
        call_ensures(AsyncOnceCell::<T>::drop_request, (s, request, pool), r),
    ensures
        drops(old(s)@, *request, r, final(s)@),
        accounts(
            old(pool)@,
            old(s).structure(),
            final(pool)@,
            final(s).structure(),
        ),
{
    lemma_accounts(pool@, s.structure(), final(pool)@, final(s).structure());
    if request.initializing() {
        if let Withdrawn::Done(wakes) = r {
            lemma_drops_initializer(s@, *request, wakes);
        }
    } else {
        lemma_drops(s@, *request, r);
    }
}

/// `AsyncOnceCell::to_sync`: the state as it is.
pub proof fn async_to_sync<T>(s: AsyncOnceCell<T>, r: OnceCell<T>)
    requires
        call_ensures(AsyncOnceCell::<T>::to_sync, (s,), r),
    ensures
        r@ == s@,
        s.wf() ==> r.wf(),
{
}

/// While an initializer runs nobody else gets its role, in whatever way they try, and
/// nobody can set the value.
pub proof fn async_one_initializer<T>(
    s: &mut AsyncOnceCell<T>,
    waiter: &mut SyncWaiter,
    request: &mut AsyncGetOrTryInit,
    waker: usize,
    value: T,
    pool: &mut QueuePool,
    begun: Result<(), Phase>,
    stepped: OnceStep,
    polled: Poll<Step>,
    set: Result<Vec<Wake>, SetError<T>>,
)
    requires
        s.wf(),
        s@.phase is Running,
        s@.sync_waits(waiter@.entry),
        s@.pollable(request.entry()),
    ensures
        call_ensures(AsyncOnceCell::<T>::try_begin_init, (s,), begun) ==> begun is Err,
        call_ensures(AsyncOnceCell::<T>::wait_step, (s, waiter), stepped) ==> !(stepped is Done),
        call_ensures(AsyncOnceCell::<T>::poll_wait, (s, request, waker, pool), polled) ==> polled
            is Pending,
        call_ensures(AsyncOnceCell::<T>::set, (s, value, pool), set) ==> set
            == Err::<Vec<Wake>, SetError<T>>(SetError::InitializingError(value)),
{
}

/// Whatever stored the value, it is read back, and cannot be set again.
pub proof fn async_read_back<T>(
    s: &mut AsyncOnceCell<T>,
    request: &mut AsyncGetOrTryInit,
    value: T,
    pool: &mut QueuePool,
    wakes: Vec<Wake>,
    s1: &mut AsyncOnceCell<T>,
    read: Option<&T>,
    other: T,
    pool1: &mut QueuePool,
    again: Result<Vec<Wake>, SetError<T>>,
)
    requires
        s.wf(),
        call_ensures(AsyncOnceCell::<T>::set, (s, value, pool), Ok(wakes)) || s@.phase is Running && (
        call_ensures(AsyncOnceCell::<T>::complete, (s, value, pool), wakes) || call_ensures(
            AsyncOnceCell::<T>::finish,
            (s, request, value, pool),
            wakes,
        )),
        *s1 == *final(s),
        call_ensures(AsyncOnceCell::<T>::get, (s1,), read),
        call_ensures(AsyncOnceCell::<T>::set, (s1, other, pool1), again),
    ensures
        read == Some(&value),
        again == Err::<Vec<Wake>, SetError<T>>(SetError::AlreadyInitializedError(other)),
        final(s1)@.value == Some(value),
{
    assert(*(read->Some_0) == value);
}

/// A request with the role keeps it when another request is dropped: it can still store
/// its value, which is then read back.
pub proof fn async_role_stays<T>(
    s: &mut AsyncOnceCell<T>,
    dropped: &AsyncGetOrTryInit,
    pool: &mut QueuePool,
    r: Withdrawn,
    request: &mut AsyncGetOrTryInit,
    s1: &mut AsyncOnceCell<T>,
    value: T,
    pool1: &mut QueuePool,
    wakes: Vec<Wake>,
)
    requires
        s.wf(),
        request.initializing(),
        valid_request(s@, request),
        !dropped.initializing(),
        valid_request(s@, dropped),
        dropped.entry() != request.entry(),
        call_ensures(AsyncOnceCell::<T>::drop_request, (s, dropped, pool), r),
        *s1 == *final(s),
        call_ensures(AsyncOnceCell::<T>::finish, (s1, request, value, pool1), wakes),
    ensures
        valid_request(final(s)@, old(request)),
        final(s)@.phase is Running,
        final(s)@.value == old(s)@.value,
        final(s1)@.value == Some(value),
        final(s1)@.phase is Ready,
{
    async_drop_request(s, dropped, pool, r);
    assert(s@.finished(request.entry()));
    assert(final(s)@.finished(request.entry()));
}

/// An initializer that gives up leaves a cell whose role can be taken again.
pub proof fn async_another_try<T>(
    s: &mut AsyncOnceCell<T>,
    pool: &mut QueuePool,
    wakes: Vec<Wake>,
    s1: &mut AsyncOnceCell<T>,
    r: Result<(), Phase>,
)
    requires
        s.wf(),
        s@.phase is Running,
        call_ensures(AsyncOnceCell::<T>::abort, (s, pool), wakes),
        *s1 == *final(s),
        call_ensures(AsyncOnceCell::<T>::try_begin_init, (s1,), r),
    ensures
        r is Ok,
        final(s1)@.phase is Running,
        final(s1)@.value is None,
{
    async_abort(s, pool, wakes);
}

} // verus!
