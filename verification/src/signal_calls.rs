//! What the calls on nodes, slots and lists do, seen from outside.
use vstd::prelude::*;

use crate::lines::{due, left_from};
use crate::signal::{DynamicWaker, Poll, Signal, Wake, WakerSlot, SIGNAL_UNINIT};
use crate::signal_queue::{Node, SignalQueue};

verus! {

/// `Poll::is_ready` and `is_pending`: one of the two.
pub proof fn ready_or_pending<T>(poll: &Poll<T>, ready: bool, pending: bool)
    requires
        call_ensures(Poll::<T>::is_ready, (poll,), ready),
        call_ensures(Poll::<T>::is_pending, (poll,), pending),
    ensures
        ready != pending,
        ready == (*poll matches Poll::Ready(_)),
{
}

/// `DynamicWaker`: what was stored last is taken, once.
pub proof fn taken_once(
    slot: &mut DynamicWaker,
    waker: usize,
    slot1: &mut DynamicWaker,
    r: WakerSlot,
    slot2: &mut DynamicWaker,
    again: WakerSlot,
    seen: WakerSlot,
)
    requires
        call_ensures(DynamicWaker::register, (slot, waker), ()),
        *slot1 == *final(slot),
        call_ensures(DynamicWaker::peek, (&*slot1,), seen),
        call_ensures(DynamicWaker::take, (slot1,), r),
        *slot2 == *final(slot1),
        call_ensures(DynamicWaker::take, (slot2,), again),
    ensures
        r == WakerSlot::Async(waker),
        seen == r,
        again is Empty,
{
}

/// `DynamicWaker::new` and `new_sync`: an empty slot, and one with a thread.
pub proof fn new_slot(thread: usize, empty: DynamicWaker, sync: DynamicWaker)
    requires
        call_ensures(DynamicWaker::new, (), empty),
        call_ensures(DynamicWaker::new_sync, (thread,), sync),
    ensures
        empty@ is Empty,
        sync@ == WakerSlot::Sync(thread),
{
}

/// `Signal::new_none` and `new_sync`: nothing was told yet, and nobody follows.
pub proof fn new_node(thread: usize, task: Signal, sync: Signal)
    requires
        call_ensures(Signal::new_none, (), task),
        call_ensures(Signal::new_sync, (thread,), sync),
    ensures
        task@.value == SIGNAL_UNINIT && sync@.value == SIGNAL_UNINIT,
        task@.live && sync@.live,
        task@.waker is Empty,
        sync@.waker == WakerSlot::Sync(thread),
        task.next is None && sync.next is None,
{
}

/// `Signal::signal_node`: the waiter is told and woken, once.
pub proof fn signal_node(
    node: &mut Signal,
    value: usize,
    r: Wake,
    node1: &mut Signal,
    other: usize,
    again: Wake,
)
    requires
        call_ensures(Signal::signal_node, (node, value), r),
        *node1 == *final(node),
        call_ensures(Signal::signal_node, (node1, other), again),
    ensures
        r == due(old(node)@),
        final(node)@.value == value,
        final(node)@.waker is Empty,
        final(node)@.aux == old(node)@.aux,
        final(node)@.granted == old(node)@.granted,
        final(node)@.live == old(node)@.live,
        final(node).next == old(node).next,
        again is Nobody,
{
}

/// `SignalQueue::push`: last; whoever was there stays in place.
pub proof fn push<N: Node>(q: &mut SignalQueue, nodes: &mut Vec<N>, entry: usize, r: bool)
    requires
        call_ensures(SignalQueue::push::<N>, (q, nodes, entry), r),
    ensures
        final(q)@.len() == old(q)@.len() + 1,
        final(q)@.last() == entry,
        forall|i: int| 0 <= i < old(q)@.len() ==> #[trigger] final(q)@[i] == old(q)@[i],
        r == (old(q)@.len() == 0),
{
}

/// `SignalQueue::pop`, `first` and `is_empty`: who came first leaves first.
pub proof fn pop<N: Node>(
    q: &mut SignalQueue,
    nodes: &Vec<N>,
    r: Option<usize>,
    first: Option<usize>,
    empty: bool,
    fresh: SignalQueue,
)
    requires
        call_ensures(SignalQueue::pop::<N>, (q, nodes), r),
        call_ensures(SignalQueue::first::<N>, (&*old(q), nodes), first),
        call_ensures(SignalQueue::is_empty::<N>, (&*old(q), nodes), empty),
        call_ensures(SignalQueue::new, (), fresh),
    ensures
        fresh@.len() == 0,
        first == r,
        empty == (r is None),
        match r {
            Some(entry) => {
                &&& old(q)@[0] == entry
                &&& final(q)@.len() == old(q)@.len() - 1
                &&& forall|i: int|
                    0 <= i < final(q)@.len() ==> #[trigger] final(q)@[i] == old(q)@[i + 1]
            },
            None => old(q)@.len() == 0 && final(q)@.len() == 0,
        },
{
}

/// `SignalQueue::remove`: whoever is asked for leaves, wherever it stands; the others
/// keep their places.
pub proof fn remove<N: Node>(q: &mut SignalQueue, nodes: &mut Vec<N>, entry: usize, r: bool)
    requires
        q.linked(nodes@),
        call_ensures(SignalQueue::remove::<N>, (q, nodes, entry), r),
    ensures
        r == old(q)@.contains(entry),
        r ==> exists|p: int| #[trigger] left_from(old(q)@, final(q)@, entry, p),
        r ==> !final(q)@.contains(entry),
        !r ==> final(q)@ == old(q)@,
{
    if r {
        let p = q@.index_of(entry);
        assert(left_from(q@, final(q)@, entry, p));
        if final(q)@.contains(entry) {
            let i = final(q)@.index_of(entry);
            assert(q@[p] == entry);
            assert(final(q)@[i] == q@[if i < p {
                i
            } else {
                i + 1
            }]);
        }
    }
}

} // verus!
