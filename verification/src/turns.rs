//! What the turns at a wait queue do, seen from outside: who has the queue to
//! itself, who comes, who leaves, who is told.
use vstd::prelude::*;

use crate::lines::{came, due, left_from, same_but, same_for, went, wrote};
use crate::pool::QueuePool;
use crate::pool_calls::{accounts, lemma_accounts};
use crate::queue_word::{decode, tag_pointer, untag_pointer, Word};
use crate::signal::{Poll, Wake, WakerSlot, SIGNAL_UNINIT};
use crate::wait_queue::{LockAttempt, PoppedChain, WaitQueue, WaitQueueView};
use crate::waiters::WaitersView;

verus! {

/// An attempt to get the queue succeeds at a published queue, and where there is none if
/// one is to be made; it leaves those who wait alone.
pub open spec fn takes(
    before: WaitQueueView,
    alloc: bool,
    r: LockAttempt,
    after: WaitQueueView,
) -> bool {
    &&& after.waiters == before.waiters
    &&& match r {
        LockAttempt::Held => before.door is Queue && after.door is Tagged || alloc
            && before.door is Unlocked && after.door is Updating,
        LockAttempt::Absent => !alloc && before.door is Unlocked && after.door is Unlocked,
        LockAttempt::Busy => !(before.door is Queue) && !(before.door is Unlocked) && after.door
            == before.door,
    }
}

/// Whoever had the queue leaves it: it is published if somebody is in line, and there is
/// none otherwise.
pub open spec fn leaves(before: WaitQueueView, after: WaitQueueView) -> bool {
    &&& after.waiters == before.waiters
    &&& if before.waiters.line.len() > 0 {
        after.door is Queue
    } else {
        after.door is Unlocked
    }
}

/// The first `k` are out of the line, to be told; nothing else has happened.
pub open spec fn taken_out(before: WaitersView, after: WaitersView, k: int) -> bool {
    &&& 0 <= k <= before.line.len()
    &&& after.line.len() == before.line.len() - k
    &&& forall|i: int| 0 <= i < after.line.len() ==> #[trigger] after.line[i] == before.line[i + k]
    &&& forall|i: int| 0 <= i < k ==> after.popped.contains(#[trigger] before.line[i])
    &&& forall|id: usize|
        (forall|i: int| 0 <= i < k ==> #[trigger] before.line[i] != id)
            ==> #[trigger] after.popped.contains(id) == before.popped.contains(id)
    &&& after.nodes == before.nodes
}

/// Everybody in the chain is told `value`, in order, and woken if it sleeps; nothing
/// happens to anybody else.
pub open spec fn tells(
    before: WaitersView,
    after: WaitersView,
    chain: Seq<usize>,
    value: usize,
    wakes: Seq<Wake>,
) -> bool {
    &&& after.line == before.line
    &&& forall|i: int|
        0 <= i < chain.len() ==> {
            let id = #[trigger] chain[i];
            &&& after.live(id) && !after.popped.contains(id)
            &&& after.nodes[id as int].value == value
            &&& after.nodes[id as int].waker is Empty
            &&& after.nodes[id as int].aux == before.nodes[id as int].aux
            &&& after.nodes[id as int].granted == before.nodes[id as int].granted
        }
    &&& forall|id: usize|
        (forall|i: int| 0 <= i < chain.len() ==> #[trigger] chain[i] != id) ==> #[trigger] same_for(
            before,
            after,
            id,
        )
    &&& wakes.len() == chain.len()
    &&& forall|i: int|
        0 <= i < chain.len() ==> #[trigger] wakes[i] == due(before.nodes[chain[i] as int])
}

/// `id` is last in line now; nobody's node has changed but its own.
pub open spec fn appends(before: WaitersView, after: WaitersView, id: usize) -> bool {
    &&& !before.line.contains(id)
    &&& after.line.len() == before.line.len() + 1
    &&& forall|i: int| 0 <= i < before.line.len() ==> #[trigger] after.line[i] == before.line[i]
    &&& after.line.last() == id
    &&& after.live(id)
    &&& after.popped == before.popped
    &&& same_but(before, after, id)
}

/// `id` is out of the line, if it was in it, which the answer says; everybody else has
/// kept their place, and no node has changed.
pub open spec fn withdraws(before: WaitersView, after: WaitersView, id: usize, r: bool) -> bool {
    &&& r == before.line.contains(id)
    &&& if r {
        exists|p: int| #[trigger] left_from(before.line, after.line, id, p)
    } else {
        after.line == before.line
    }
    &&& after.nodes == before.nodes
    &&& after.popped == before.popped
}

/// Nothing has happened but that the node of `id` was written.
pub open spec fn only_node(before: WaitersView, after: WaitersView, id: usize) -> bool {
    &&& after.live(id) && before.live(id)
    &&& after.line == before.line
    &&& after.popped == before.popped
    &&& same_but(before, after, id)
}

/// A new node, of a thread that is to be woken.
pub open spec fn came_with_thread(
    before: WaitersView,
    after: WaitersView,
    id: usize,
    thread: usize,
) -> bool {
    &&& !before.live(id)
    &&& after.live(id)
    &&& after.nodes[id as int].value == SIGNAL_UNINIT
    &&& after.nodes[id as int].waker == WakerSlot::Sync(thread)
    &&& after.nodes[id as int].granted == 0
    &&& after.line == before.line
    &&& after.popped == before.popped
    &&& same_but(before, after, id)
}

pub(crate) proof fn lemma_taken_out(w: WaitersView, k: int)
    requires
        w.ok(),
        0 <= k <= w.line.len(),
    ensures
        taken_out(w, w.popped_front(k), k),
{
    let after = w.popped_front(k);
    let chain = w.line.take(k);
    assert forall|i: int| 0 <= i < k implies after.popped.contains(#[trigger] w.line[i]) by {
        assert(chain[i] == w.line[i]);
        assert(chain.contains(w.line[i]));
    }
    assert forall|id: usize|
        (forall|i: int| 0 <= i < k ==> #[trigger] w.line[i] != id) implies #[trigger] after.popped.contains(
        id,
    ) == w.popped.contains(id) by {
        if chain.contains(id) {
            assert(w.line[chain.index_of(id)] == id);
        }
    }
}

pub(crate) proof fn lemma_tells(w: WaitersView, chain: Seq<usize>, value: usize)
    requires
        w.ok(),
        w.owns_chain(chain),
    ensures
        tells(w, w.after_signals(chain, value), chain, value, w.wakes(chain)),
{
    let after = w.after_signals(chain, value);
    assert forall|i: int| 0 <= i < chain.len() implies {
        let id = #[trigger] chain[i];
        &&& after.live(id) && !after.popped.contains(id)
        &&& after.nodes[id as int].value == value
        &&& after.nodes[id as int].waker is Empty
        &&& after.nodes[id as int].aux == w.nodes[id as int].aux
        &&& after.nodes[id as int].granted == w.nodes[id as int].granted
    } by {
        assert(w.popped.contains(chain[i]));
        assert(w.live(chain[i]));
        assert(chain.contains(chain[i]));
    }
    assert forall|id: usize|
        (forall|i: int| 0 <= i < chain.len() ==> #[trigger] chain[i] != id) implies #[trigger] same_for(
        w,
        after,
        id,
    ) by {
        if chain.contains(id) {
            assert(chain[chain.index_of(id)] == id);
        }
    }
}

pub(crate) proof fn lemma_tells_one(w: WaitersView, id: usize, value: usize)
    requires
        w.ok(),
        w.popped.contains(id),
    ensures
        tells(
            w,
            w.after_signal(id, value),
            seq![id],
            value,
            seq![w.nodes[id as int].wake()],
        ),
{
    let after = w.after_signal(id, value);
    assert(w.live(id));
    assert forall|other: usize|
        (forall|i: int| 0 <= i < 1 ==> #[trigger] seq![id][i] != other) implies #[trigger] same_for(
        w,
        after,
        other,
    ) by {
        assert(seq![id][0] == id);
    }
}

pub(crate) proof fn lemma_withdraws(w: WaitersView, id: usize)
    requires
        w.ok(),
    ensures
        withdraws(w, w.removed(id), id, w.line.contains(id)),
{
    if w.line.contains(id) {
        let p = w.line.index_of(id);
        assert(left_from(w.line, w.removed(id).line, id, p));
    }
}

/// `WaitQueue::lock`: see [`takes`]. What is fetched comes from the pool.
pub proof fn lock(s: &mut WaitQueue, alloc: bool, pool: &mut QueuePool, r: LockAttempt)
    requires
        s.wf(),
        call_ensures(WaitQueue::lock, (s, alloc, pool), r),
    ensures
        takes(old(s)@, alloc, r, final(s)@),
        accounts(old(pool)@, old(s).structure(), final(pool)@, final(s).structure()),
{
    lemma_accounts(pool@, s.structure(), final(pool)@, final(s).structure());
}

/// `WaitQueue::lock_existing` and `is_absent`: see [`takes`].
pub proof fn lock_existing(s: &mut WaitQueue, r: LockAttempt, absent: bool)
    requires
        s.wf(),
        call_ensures(WaitQueue::lock_existing, (s,), r),
        call_ensures(WaitQueue::is_absent, (&*old(s),), absent),
    ensures
        takes(old(s)@, false, r, final(s)@),
        absent == (r is Absent),
{
}

/// `WaitQueue::unlock`: see [`leaves`]. What is given up is back in the pool.
pub proof fn unlock(s: &mut WaitQueue, pool: &mut QueuePool, r: bool)
    requires
        s.wf(),
        call_ensures(WaitQueue::unlock, (s, pool), r),
    ensures
        leaves(old(s)@, final(s)@),
        r == (old(s)@.waiters.line.len() == 0),
        accounts(old(pool)@, old(s).structure(), final(pool)@, final(s).structure()),
{
    lemma_accounts(pool@, s.structure(), final(pool)@, final(s).structure());
}

/// `WaitQueue::push`: see [`appends`].
pub proof fn push(s: &mut WaitQueue, id: usize, r: bool)
    requires
        s.wf(),
        s@.waiters.idle(id),
        call_ensures(WaitQueue::push, (s, id), r),
    ensures
        appends(old(s)@.waiters, final(s)@.waiters, id),
        final(s)@.door == old(s)@.door,
        r == (old(s)@.waiters.line.len() == 0),
{
}

/// `WaitQueue::first`, `is_empty` and `pop`: who has waited longest, and that one leaves
/// first.
pub proof fn pop(s: &mut WaitQueue, r: Option<usize>, first: Option<usize>, empty: bool)
    requires
        s.wf(),
        call_ensures(WaitQueue::pop, (s,), r),
        call_ensures(WaitQueue::first, (&*old(s),), first),
        call_ensures(WaitQueue::is_empty, (&*old(s),), empty),
    ensures
        first == r,
        empty == (r is None),
        final(s)@.door == old(s)@.door,
        match r {
            Some(id) => old(s)@.waiters.line[0] == id && taken_out(
                old(s)@.waiters,
                final(s)@.waiters,
                1,
            ),
            None => final(s)@.waiters == old(s)@.waiters,
        },
{
    if r is Some {
        lemma_taken_out(s@.waiters, 1);
    }
}

/// `WaitQueue::remove`: see [`withdraws`].
pub proof fn remove(s: &mut WaitQueue, id: usize, r: bool)
    requires
        s.wf(),
        call_ensures(WaitQueue::remove, (s, id), r),
    ensures
        withdraws(old(s)@.waiters, final(s)@.waiters, id, r),
        final(s)@.door == old(s)@.door,
{
    lemma_withdraws(s@.waiters, id);
}

/// `WaitQueue::add_none` and `add_sync`: a new node; nothing else happens.
pub proof fn add_node(s: &mut WaitQueue, thread: usize, id: usize)
    requires
        s.wf(),
    ensures
        call_ensures(WaitQueue::add_none, (s,), id) ==> came(
            old(s)@.waiters,
            final(s)@.waiters,
            id,
        ) && final(s)@.door == old(s)@.door,
        call_ensures(WaitQueue::add_sync, (s, thread), id) ==> came_with_thread(
            old(s)@.waiters,
            final(s)@.waiters,
            id,
            thread,
        ) && final(s)@.door == old(s)@.door,
{
    let w = s@.waiters;
    if w.popped.contains(id) {
        assert(w.live(id));
    }
}

/// `WaitQueue::discard`: the node is free; nothing else happens.
pub proof fn discard(s: &mut WaitQueue, id: usize)
    requires
        s.wf(),
        s@.waiters.idle(id),
        call_ensures(WaitQueue::discard, (s, id), ()),
    ensures
        went(old(s)@.waiters, final(s)@.waiters, id),
        final(s)@.door == old(s)@.door,
{
}

/// `WaitQueue::signal`: see [`tells`].
pub proof fn signal(s: &mut WaitQueue, id: usize, value: usize, r: Wake)
    requires
        s.wf(),
        s@.waiters.popped.contains(id),
        call_ensures(WaitQueue::signal, (s, id, value), r),
    ensures
        tells(old(s)@.waiters, final(s)@.waiters, seq![id], value, seq![r]),
        final(s)@.door == old(s)@.door,
{
    lemma_tells_one(s@.waiters, id, value);
}

/// `WaitQueue::value`, `aux` and `has_waker`: what a node holds.
pub proof fn value(s: &WaitQueue, id: usize, value: usize, aux: usize, waker: bool)
    requires
        call_ensures(WaitQueue::value, (s, id), value),
        call_ensures(WaitQueue::aux, (s, id), aux),
        call_ensures(WaitQueue::has_waker, (s, id), waker),
    ensures
        value == s@.waiters.nodes[id as int].value,
        aux == s@.waiters.nodes[id as int].aux,
        waker == !(s@.waiters.nodes[id as int].waker is Empty),
{
}

/// `WaitQueue::set_value`, `set_aux`, `register` and `reset`: one thing in one node is
/// written, or everything in it is as in a new one.
pub proof fn write(s: &mut WaitQueue, id: usize, x: usize)
    requires
        s.wf(),
        s@.waiters.live(id),
    ensures
        call_ensures(WaitQueue::set_value, (s, id, x), ()) ==> wrote(
            old(s)@.waiters,
            final(s)@.waiters,
            id,
            x,
            old(s)@.waiters.nodes[id as int].waker,
        ) && final(s)@.door == old(s)@.door,
        call_ensures(WaitQueue::register, (s, id, x), ()) ==> wrote(
            old(s)@.waiters,
            final(s)@.waiters,
            id,
            old(s)@.waiters.nodes[id as int].value,
            WakerSlot::Async(x),
        ) && final(s)@.door == old(s)@.door,
        call_ensures(WaitQueue::set_aux, (s, id, x), ()) ==> {
            let was = old(s)@.waiters.nodes[id as int];
            let is = final(s)@.waiters.nodes[id as int];
            &&& only_node(old(s)@.waiters, final(s)@.waiters, id)
            &&& is.aux == x
            &&& is.value == was.value && is.waker == was.waker && is.granted == was.granted
            &&& final(s)@.door == old(s)@.door
        },
        call_ensures(WaitQueue::reset, (s, id), ()) ==> {
            let is = final(s)@.waiters.nodes[id as int];
            &&& only_node(old(s)@.waiters, final(s)@.waiters, id)
            &&& is.value == SIGNAL_UNINIT && is.waker is Empty
            &&& is.aux == 0 && is.granted == 0
            &&& final(s)@.door == old(s)@.door
        },
{
}

/// `WaitQueue::rearm`: a waker that is still there is replaced; one that is gone means
/// that the answer is there, and nothing is written.
pub proof fn rearm(s: &mut WaitQueue, id: usize, waker: usize, r: Poll<usize>)
    requires
        s.wf(),
        s@.waiters.live(id),
        call_ensures(WaitQueue::rearm, (s, id, waker), r),
    ensures
        (r is Ready) == (old(s)@.waiters.nodes[id as int].waker is Empty),
        match r {
            Poll::Ready(value) => value == old(s)@.waiters.nodes[id as int].value && final(s)@
                == old(s)@,
            Poll::Pending => wrote(
                old(s)@.waiters,
                final(s)@.waiters,
                id,
                old(s)@.waiters.nodes[id as int].value,
                WakerSlot::Async(waker),
            ) && final(s)@.door == old(s)@.door,
        },
{
}

/// `PoppedChain::new`, `append` and `len`: who is appended is last.
pub proof fn append(chain: &mut PoppedChain, id: usize, fresh: PoppedChain, len: usize)
    requires
        call_ensures(PoppedChain::append, (chain, id), ()),
        call_ensures(PoppedChain::new, (), fresh),
        call_ensures(PoppedChain::len, (&*final(chain),), len),
    ensures
        fresh@.len() == 0,
        len == old(chain)@.len() + 1,
        final(chain)@.len() == len,
        final(chain)@.last() == id,
        forall|i: int| 0 <= i < old(chain)@.len() ==> #[trigger] final(chain)@[i] == old(chain)@[i],
{
}

/// `PoppedChain::signal_all`: see [`tells`].
pub proof fn signal_all(chain: PoppedChain, s: &mut WaitQueue, value: usize, r: Vec<Wake>)
    requires
        s.wf(),
        s@.waiters.owns_chain(chain@),
        call_ensures(PoppedChain::signal_all, (chain, s, value), r),
    ensures
        tells(old(s)@.waiters, final(s)@.waiters, chain@, value, r@),
        final(s)@.door == old(s)@.door,
{
    lemma_tells(s@.waiters, chain@, value);
}

/// `tag_pointer` and `untag_pointer`: marking an address keeps it, and the mark can be
/// told.
pub proof fn tagged_and_untagged(
    ptr: usize,
    tagged: usize,
    r: (usize, bool),
    plain: (usize, bool),
)
    requires
        ptr % 2 == 0,
        call_ensures(tag_pointer, (ptr,), tagged),
        call_ensures(untag_pointer, (tagged,), r),
        call_ensures(untag_pointer, (ptr,), plain),
    ensures
        tagged != ptr,
        r == (ptr, true),
        plain == (ptr, false),
{
}

/// `decode`: an address that structures are given is told from the words that stand for
/// states of a lock, with the mark and without.
pub proof fn decoded(ptr: usize, tagged: usize, plain: Word, marked: Word, null: Word)
    requires
        ptr % 2 == 0,
        0 < ptr < crate::pool::ADDRESS_END,
        call_ensures(tag_pointer, (ptr,), tagged),
        call_ensures(decode, (ptr,), plain),
        call_ensures(decode, (tagged,), marked),
        call_ensures(decode, (0,), null),
    ensures
        plain is Queue,
        marked is Tagged,
        null is Unlocked,
{
}

} // verus!
