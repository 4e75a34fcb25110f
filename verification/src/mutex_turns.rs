//! What the turns at a mutex do, seen from outside.
use vstd::prelude::*;

use crate::lines::{came, ended, went, wrote};
use crate::mutex_core::{
    MutexGuard, MutexInternal, MutexView, OpenTurn, Owner, RemoveTurn, UnlockTurn,
};
use crate::pool::QueuePool;
use crate::pool_calls::{accounts, lemma_accounts};
use crate::signal::{Wake, WakerSlot, SIGNAL_INIT_WAITING, SIGNAL_SIGNALED};
use crate::sync_wait::{SyncStep, SyncWaiter};
use crate::turns::{
    appends, came_with_thread, lemma_taken_out, lemma_tells_one, lemma_withdraws, taken_out,
    tells, withdraws,
};
use crate::wait_calls::looks;

verus! {

/// The protected value, the owner and the word are as they were.
pub open spec fn rest_same<T>(v: MutexView<T>, after: MutexView<T>) -> bool {
    &&& after.data == v.data
    &&& after.owner == v.owner
    &&& after.door == v.door
    &&& after.id == v.id
}

/// `MutexInternal::open_queue`: a free lock is got; the queue of one that is held is got,
/// fetched from the pool if there is none, or somebody else has it.
pub proof fn open_queue<T>(s: &mut MutexInternal<T>, pool: &mut QueuePool, r: OpenTurn<T>)
    requires
        s.wf(),
        call_ensures(MutexInternal::<T>::open_queue, (s, pool), r),
    ensures
        final(s)@.waiters == old(s)@.waiters,
        final(s)@.id == old(s)@.id,
        match r {
            OpenTurn::Acquired(guard) => {
                &&& old(s)@.owner is Nobody && final(s)@.owner is Guard
                &&& old(s)@.data == Some(guard@) && final(s)@.data is None
                &&& guard.source() == old(s)@.id
            },
            OpenTurn::Spin => {
                &&& old(s)@.door is Updating || old(s)@.door is Tagged
                &&& rest_same(old(s)@, final(s)@)
            },
            OpenTurn::Held => {
                &&& old(s)@.door is Locked && final(s)@.door is Updating || old(s)@.door is Queue
                    && final(s)@.door is Tagged
                &&& !(old(s)@.owner is Nobody)
                &&& final(s)@.owner == old(s)@.owner
                &&& final(s)@.data == old(s)@.data
            },
        },
        accounts(old(pool)@, old(s).structure(), final(pool)@, final(s).structure()),
{
    lemma_accounts(pool@, s.structure(), final(pool)@, final(s).structure());
}

/// `MutexInternal::push_and_publish`: see [`appends`].
pub proof fn push_and_publish<T>(s: &mut MutexInternal<T>, entry: usize, first: bool)
    requires
        s.wf(),
        s@.waiters.idle(entry),
        call_ensures(MutexInternal::<T>::push_and_publish, (s, entry), first),
    ensures
        appends(old(s)@.waiters, final(s)@.waiters, entry),
        final(s)@.waiters.nodes == old(s)@.waiters.nodes,
        first == (old(s)@.waiters.line.len() == 0),
        final(s)@.door is Queue,
        rest_same(old(s)@, (MutexView { door: old(s)@.door, ..final(s)@ })),
{
}

/// `MutexInternal::begin_unlock`: the value is back; the lock is free exactly if there is
/// no queue, and otherwise it is to be handed on.
pub proof fn begin_unlock<T>(s: &mut MutexInternal<T>, guard: MutexGuard<T>, r: UnlockTurn)
    requires
        s.wf(),
        call_ensures(MutexInternal::<T>::begin_unlock, (s, guard), r),
    ensures
        final(s)@.data == Some(guard@),
        final(s)@.waiters == old(s)@.waiters,
        final(s)@.id == old(s)@.id,
        match r {
            UnlockTurn::Done => old(s)@.door is Locked && final(s)@.door is Unlocked && final(
                s
            )@.owner is Nobody,
            UnlockTurn::Slow => !(old(s)@.door is Locked) && final(s)@.door == old(s)@.door
                && final(s)@.owner is Releasing,
        },
{
}

/// `MutexInternal::take_queue`: the queue is got unless somebody else has it.
pub proof fn take_queue<T>(s: &mut MutexInternal<T>, r: bool)
    requires
        s.wf(),
        call_ensures(MutexInternal::<T>::take_queue, (s,), r),
    ensures
        r == (old(s)@.door is Queue),
        r ==> final(s)@.door is Tagged,
        !r ==> final(s)@.door == old(s)@.door,
        final(s)@.waiters == old(s)@.waiters,
        rest_same(old(s)@, (MutexView { door: old(s)@.door, ..final(s)@ })),
{
}

/// `MutexInternal::hand_over`: the lock goes to the one that has waited longest, or is
/// free if nobody is in line, and then the queue is back in the pool.
pub proof fn hand_over<T>(s: &mut MutexInternal<T>, pool: &mut QueuePool, r: Option<usize>)
    requires
        s.wf(),
        call_ensures(MutexInternal::<T>::hand_over, (s, pool), r),
    ensures
        final(s)@.data == old(s)@.data,
        final(s)@.id == old(s)@.id,
        match r {
            Some(id) => {
                &&& id == old(s)@.waiters.line[0]
                &&& final(s)@.owner == Owner::Granted(id)
                &&& taken_out(old(s)@.waiters, final(s)@.waiters, 1)
                &&& final(s)@.door is Queue
            },
            None => {
                &&& old(s)@.waiters.line.len() == 0
                &&& final(s)@.owner is Nobody
                &&& final(s)@.waiters == old(s)@.waiters
                &&& final(s)@.door is Unlocked
            },
        },
        accounts(old(pool)@, old(s).structure(), final(pool)@, final(s).structure()),
{
    if r is Some {
        lemma_taken_out(s@.waiters, 1);
    }
    lemma_accounts(pool@, s.structure(), final(pool)@, final(s).structure());
}

/// `MutexInternal::signal`: the new owner is told, and woken if it sleeps.
pub proof fn signal<T>(s: &mut MutexInternal<T>, entry: usize, r: Wake)
    requires
        s.wf(),
        s@.waiters.popped.contains(entry),
        call_ensures(MutexInternal::<T>::signal, (s, entry), r),
    ensures
        tells(old(s)@.waiters, final(s)@.waiters, seq![entry], SIGNAL_SIGNALED, seq![r]),
        rest_same(old(s)@, final(s)@),
{
    lemma_tells_one(s@.waiters, entry, SIGNAL_SIGNALED);
}

/// `MutexInternal::claim`: who was given the lock has a guard, with the value, and its
/// request is over.
pub proof fn claim<T>(s: &mut MutexInternal<T>, entry: usize, r: MutexGuard<T>)
    requires
        s.wf(),
        call_ensures(MutexInternal::<T>::claim, (s, entry), r),
    ensures
        old(s)@.owner == Owner::Granted(entry),
        final(s)@.owner is Guard,
        old(s)@.data == Some(r@),
        final(s)@.data is None,
        r.source() == old(s)@.id,
        final(s)@.id == old(s)@.id,
        final(s)@.door == old(s)@.door,
        ended(old(s)@.waiters, final(s)@.waiters, entry),
{
}

/// `MutexInternal::begin_remove`: the queue is got, if there is one and nobody else has
/// it.
pub proof fn begin_remove<T>(s: &mut MutexInternal<T>, r: RemoveTurn)
    requires
        s.wf(),
        call_ensures(MutexInternal::<T>::begin_remove, (s,), r),
    ensures
        final(s)@.waiters == old(s)@.waiters,
        rest_same(old(s)@, (MutexView { door: old(s)@.door, ..final(s)@ })),
        match r {
            RemoveTurn::Held => old(s)@.door is Queue && final(s)@.door is Tagged,
            RemoveTurn::Absent => (old(s)@.door is Unlocked || old(s)@.door is Locked) && final(
                s
            )@.door == old(s)@.door,
            RemoveTurn::Spin => (old(s)@.door is Updating || old(s)@.door is Tagged) && final(
                s
            )@.door == old(s)@.door,
        },
{
}

/// `MutexInternal::remove_and_publish`: see [`withdraws`].
pub proof fn remove_and_publish<T>(s: &mut MutexInternal<T>, entry: usize, r: bool)
    requires
        s.wf(),
        call_ensures(MutexInternal::<T>::remove_and_publish, (s, entry), r),
    ensures
        withdraws(old(s)@.waiters, final(s)@.waiters, entry, r),
        final(s)@.door is Queue,
        rest_same(old(s)@, (MutexView { door: old(s)@.door, ..final(s)@ })),
{
    lemma_withdraws(s@.waiters, entry);
}

/// `MutexInternal::prepare_async` and `prepare_sync`: a new node; nothing else happens.
pub proof fn prepare<T>(s: &mut MutexInternal<T>, thread: usize, entry: usize)
    requires
        s.wf(),
    ensures
        call_ensures(MutexInternal::<T>::prepare_async, (s,), entry) ==> came(
            old(s)@.waiters,
            final(s)@.waiters,
            entry,
        ) && rest_same(old(s)@, final(s)@),
        call_ensures(MutexInternal::<T>::prepare_sync, (s, thread), entry) ==> came_with_thread(
            old(s)@.waiters,
            final(s)@.waiters,
            entry,
            thread,
        ) && rest_same(old(s)@, final(s)@),
{
    let w = s@.waiters;
    if w.popped.contains(entry) {
        assert(w.live(entry));
    }
}

/// `MutexInternal::value`: what was told.
pub proof fn value<T>(s: &MutexInternal<T>, entry: usize, r: usize)
    requires
        call_ensures(MutexInternal::<T>::value, (s, entry), r),
    ensures
        r == s@.waiters.nodes[entry as int].value,
{
}

/// `MutexInternal::arm`: the task waits from now on, to be woken with this waker.
pub proof fn arm<T>(s: &mut MutexInternal<T>, entry: usize, waker: usize)
    requires
        s.wf(),
        s@.waiters.live(entry),
        call_ensures(MutexInternal::<T>::arm, (s, entry, waker), ()),
    ensures
        wrote(
            old(s)@.waiters,
            final(s)@.waiters,
            entry,
            SIGNAL_INIT_WAITING,
            WakerSlot::Async(waker),
        ),
        rest_same(old(s)@, final(s)@),
{
}

/// `MutexInternal::complete` and `discard`: the request is over, or its node is free;
/// nothing else happens.
pub proof fn complete<T>(s: &mut MutexInternal<T>, entry: usize)
    requires
        s.wf(),
        s@.waiters.idle(entry),
    ensures
        call_ensures(MutexInternal::<T>::complete, (s, entry), ()) ==> ended(
            old(s)@.waiters,
            final(s)@.waiters,
            entry,
        ) && rest_same(old(s)@, final(s)@),
        call_ensures(MutexInternal::<T>::discard, (s, entry), ()) ==> went(
            old(s)@.waiters,
            final(s)@.waiters,
            entry,
        ) && rest_same(old(s)@, final(s)@),
{
}

/// `MutexInternal::sync_step`: an answer is handed out as it is; a thread that parks has
/// announced that; nothing else is written.
pub proof fn sync_step<T>(s: &mut MutexInternal<T>, waiter: &mut SyncWaiter, r: SyncStep)
    requires
        s.wf(),
        s@.waiters.live(waiter@.entry),
        waiter@.stage is Parked ==> s@.node(waiter@.entry).value >= SIGNAL_INIT_WAITING,
        call_ensures(MutexInternal::<T>::sync_step, (s, waiter), r),
    ensures
        rest_same(old(s)@, final(s)@),
        match r {
            SyncStep::Signaled(value) => {
                &&& value == old(s)@.waiters.nodes[old(waiter)@.entry as int].value
                &&& value >= SIGNAL_SIGNALED
                &&& final(waiter)@ == old(waiter)@
                &&& final(s)@.waiters == old(s)@.waiters
            },
            SyncStep::Pause(_) => {
                &&& looks(old(waiter)@, r, final(waiter)@)
                &&& final(s)@.waiters == old(s)@.waiters
            },
            SyncStep::Park => {
                &&& looks(old(waiter)@, r, final(waiter)@)
                &&& wrote(
                    old(s)@.waiters,
                    final(s)@.waiters,
                    old(waiter)@.entry,
                    SIGNAL_INIT_WAITING,
                    old(s)@.waiters.nodes[old(waiter)@.entry as int].waker,
                )
            },
        },
{
    if !(r is Park) {
        assert(final(s)@.waiters.nodes =~= s@.waiters.nodes);
    }
}

} // verus!
