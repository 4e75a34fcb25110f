//! What can happen to those who wait, whatever they wait for: one comes, one joins
//! the line, one leaves, the first ones are answered and woken.
use vstd::prelude::*;

use crate::signal::{
    SignalView, Wake, WakerSlot, SIGNAL_ALL, SIGNAL_CLOSED, SIGNAL_INIT_WAITING, SIGNAL_RETRY,
    SIGNAL_RETURNED, SIGNAL_SIGNALED, SIGNAL_UNINIT,
};
use crate::waiters::WaitersView;

verus! {

/// Whom an answer to this waiter has to wake: its task, or its thread if that has
/// announced that it parks.
pub open spec fn due(node: SignalView) -> Wake {
    match node.waker {
        WakerSlot::Async(waker) => Wake::Task(waker),
        WakerSlot::Sync(thread) if node.value == SIGNAL_INIT_WAITING => Wake::Unpark(thread),
        _ => Wake::Nobody,
    }
}

/// The node of somebody who waits for an answer.
pub open spec fn expects(node: SignalView) -> bool {
    &&& node.live
    &&& node.value == SIGNAL_UNINIT || node.value == SIGNAL_INIT_WAITING
    &&& !(node.waker is Empty)
}

/// The node of somebody who has an answer.
pub open spec fn has_answer(node: SignalView) -> bool {
    &&& node.live
    &&& node.value == SIGNAL_SIGNALED || node.value == SIGNAL_ALL || node.value == SIGNAL_CLOSED
        || node.value == SIGNAL_RETRY
}

/// `id` waited for an answer before and has one after.
pub open spec fn newly_answered(before: WaitersView, after: WaitersView, id: usize) -> bool {
    &&& id < before.nodes.len() && expects(before.nodes[id as int])
    &&& id < after.nodes.len() && has_answer(after.nodes[id as int])
}

/// Whoever got an answer and sleeps is woken, and nobody else is.
pub open spec fn woken(before: WaitersView, after: WaitersView, wakes: Seq<Wake>) -> bool {
    &&& forall|id: usize| #[trigger]
        newly_answered(before, after, id) && due(before.nodes[id as int]) != Wake::Nobody
            ==> wakes.contains(due(before.nodes[id as int]))
    &&& forall|i: int|
        0 <= i < wakes.len() && #[trigger] wakes[i] != Wake::Nobody ==> exists|id: usize| #[trigger]
            newly_answered(before, after, id) && due(before.nodes[id as int]) == wakes[i]
}

/// Nothing happened to `id`.
pub open spec fn same_for(before: WaitersView, after: WaitersView, id: usize) -> bool {
    &&& after.live(id) == before.live(id)
    &&& before.live(id) ==> after.nodes[id as int] == before.nodes[id as int]
    &&& after.popped.contains(id) == before.popped.contains(id)
}

/// Nothing happened to anybody but `id`.
pub open spec fn same_but(before: WaitersView, after: WaitersView, id: usize) -> bool {
    forall|other: usize| other != id ==> #[trigger] same_for(before, after, other)
}

/// The first `k` in line were answered with `value`, in order; nothing happened to
/// anybody else.
pub open spec fn answered_front(
    before: WaitersView,
    after: WaitersView,
    k: int,
    value: usize,
    wakes: Seq<Wake>,
) -> bool {
    &&& 0 <= k <= before.line.len()
    &&& after.line.len() == before.line.len() - k
    &&& forall|i: int| 0 <= i < after.line.len() ==> #[trigger] after.line[i] == before.line[i + k]
    &&& forall|i: int|
        0 <= i < k ==> {
            let id = #[trigger] before.line[i];
            &&& after.live(id) && !after.popped.contains(id)
            &&& after.nodes[id as int].value == value
            &&& after.nodes[id as int].waker is Empty
            &&& after.nodes[id as int].aux == before.nodes[id as int].aux
            &&& after.nodes[id as int].granted == before.nodes[id as int].granted
        }
    &&& forall|id: usize|
        (forall|i: int| 0 <= i < k ==> #[trigger] before.line[i] != id) ==> #[trigger] same_for(
            before,
            after,
            id,
        )
    &&& wakes.len() == k
    &&& forall|i: int|
        0 <= i < k ==> #[trigger] wakes[i] == due(before.nodes[before.line[i] as int])
}

/// A new node, of somebody who has not begun to wait.
pub open spec fn came(before: WaitersView, after: WaitersView, id: usize) -> bool {
    &&& !before.live(id)
    &&& after.live(id)
    &&& after.nodes[id as int].value == SIGNAL_UNINIT
    &&& after.nodes[id as int].waker is Empty
    &&& after.nodes[id as int].granted == 0
    &&& after.line == before.line
    &&& !after.popped.contains(id) && !before.popped.contains(id)
    &&& same_but(before, after, id)
}

/// `id` is last in line now, to be woken as `waker` says; everybody else is where they
/// were.
pub open spec fn joined(
    before: WaitersView,
    after: WaitersView,
    id: usize,
    value: usize,
    waker: WakerSlot,
) -> bool {
    &&& !before.line.contains(id)
    &&& after.line.len() == before.line.len() + 1
    &&& forall|i: int| 0 <= i < before.line.len() ==> #[trigger] after.line[i] == before.line[i]
    &&& after.line.last() == id
    &&& after.live(id)
    &&& after.nodes[id as int].value == value
    &&& after.nodes[id as int].waker == waker
    &&& same_but(before, after, id)
}

/// `id` has left the line, and its node is free; everybody else has kept their place.
pub open spec fn left(before: WaitersView, after: WaitersView, id: usize) -> bool {
    &&& !after.live(id)
    &&& exists|p: int| #[trigger] left_from(before.line, after.line, id, p)
    &&& same_but(before, after, id)
}

/// `id` has left its place `p` in a line.
pub open spec fn left_from(before: Seq<usize>, after: Seq<usize>, id: usize, p: int) -> bool {
    &&& 0 <= p < before.len()
    &&& before[p] == id
    &&& after.len() == before.len() - 1
    &&& forall|i: int| 0 <= i < p ==> #[trigger] after[i] == before[i]
    &&& forall|i: int| p <= i < after.len() ==> #[trigger] after[i] == before[i + 1]
}

/// The node of `id`, which is not in line, is free.
pub open spec fn went(before: WaitersView, after: WaitersView, id: usize) -> bool {
    &&& !before.line.contains(id)
    &&& !after.live(id)
    &&& after.line == before.line
    &&& same_but(before, after, id)
}

/// Only the value and the waker of `id` were written.
pub open spec fn wrote(
    before: WaitersView,
    after: WaitersView,
    id: usize,
    value: usize,
    waker: WakerSlot,
) -> bool {
    &&& before.live(id) && after.live(id)
    &&& after.nodes[id as int].value == value
    &&& after.nodes[id as int].waker == waker
    &&& after.nodes[id as int].granted == before.nodes[id as int].granted
    &&& after.nodes[id as int].aux == before.nodes[id as int].aux
    &&& after.line == before.line
    &&& same_but(before, after, id)
    &&& after.popped.contains(id) == before.popped.contains(id)
}

/// The request `id` is over: it has its answer and is not in line.
pub open spec fn ended(before: WaitersView, after: WaitersView, id: usize) -> bool {
    &&& before.live(id) && after.live(id)
    &&& after.nodes[id as int].value == SIGNAL_RETURNED
    &&& !after.line.contains(id)
    &&& !after.popped.contains(id)
    &&& after.line == before.line
    &&& same_but(before, after, id)
}

/// `id` is no more, in line or not.
pub open spec fn gone(before: WaitersView, after: WaitersView, id: usize) -> bool {
    if before.line.contains(id) {
        left(before, after, id)
    } else {
        went(before, after, id)
    }
}

/// Answering the first in line wakes whom it has to wake.
pub proof fn lemma_front_woken(
    before: WaitersView,
    after: WaitersView,
    k: int,
    value: usize,
    wakes: Seq<Wake>,
)
    requires
        before.ok(),
        answered_front(before, after, k, value, wakes),
        value == SIGNAL_SIGNALED || value == SIGNAL_ALL || value == SIGNAL_CLOSED || value
            == SIGNAL_RETRY,
        forall|i: int| 0 <= i < k ==> expects(before.nodes[#[trigger] before.line[i] as int]),
    ensures
        woken(before, after, wakes),
{
    assert forall|id: usize| #[trigger]
        newly_answered(before, after, id) && due(before.nodes[id as int])
            != Wake::Nobody implies wakes.contains(due(before.nodes[id as int])) by {
        assert(before.live(id));
        if forall|i: int| 0 <= i < k ==> #[trigger] before.line[i] != id {
            assert(same_for(before, after, id));
        } else {
            let i = choose|i: int| 0 <= i < k && #[trigger] before.line[i] == id;
            assert(wakes[i] == due(before.nodes[id as int]));
        }
    }
    assert forall|i: int|
        0 <= i < wakes.len() && #[trigger] wakes[i] != Wake::Nobody implies exists|id: usize| #[trigger]
        newly_answered(before, after, id) && due(before.nodes[id as int]) == wakes[i] by {
        let id = before.line[i];
        assert(before.live(id));
        assert(after.live(id));
        assert(newly_answered(before, after, id));
    }
}

/// If nobody got an answer, nobody is to be woken.
pub proof fn lemma_nobody_woken(before: WaitersView, after: WaitersView, id: usize)
    requires
        same_but(before, after, id),
        !newly_answered(before, after, id),
    ensures
        woken(before, after, Seq::empty()),
{
    assert forall|other: usize| !(#[trigger] newly_answered(before, after, other)) by {
        if other != id {
            assert(same_for(before, after, other));
        }
    }
}

pub proof fn lemma_front(w: WaitersView, k: int, value: usize)
    requires
        w.ok(),
        0 <= k <= w.line.len(),
    ensures
        answered_front(
            w,
            w.popped_front(k).after_signals(w.line.take(k), value),
            k,
            value,
            w.wakes(w.line.take(k)),
        ),
{
    let after = w.popped_front(k).after_signals(w.line.take(k), value);
    let chain = w.line.take(k);
    assert forall|i: int| 0 <= i < k implies {
        let id = #[trigger] w.line[i];
        &&& after.live(id) && !after.popped.contains(id)
        &&& after.nodes[id as int].value == value
        &&& after.nodes[id as int].waker is Empty
        &&& after.nodes[id as int].aux == w.nodes[id as int].aux
        &&& after.nodes[id as int].granted == w.nodes[id as int].granted
    } by {
        assert(chain[i] == w.line[i]);
        assert(w.live(w.line[i]));
        assert(chain.contains(w.line[i]));
    }
    assert forall|id: usize|
        (forall|i: int| 0 <= i < k ==> #[trigger] w.line[i] != id) implies #[trigger] same_for(
        w,
        after,
        id,
    ) by {
        if chain.contains(id) {
            let i = chain.index_of(id);
            assert(w.line[i] == id);
        }
    }
}

pub proof fn lemma_first(w: WaitersView, value: usize)
    requires
        w.ok(),
        w.line.len() > 0,
    ensures
        answered_front(
            w,
            w.popped_front(1).after_signal(w.line[0], value),
            1,
            value,
            seq![w.nodes[w.line[0] as int].wake()],
        ),
{
    let after = w.popped_front(1).after_signal(w.line[0], value);
    assert(w.live(w.line[0]));
    assert forall|id: usize|
        (forall|i: int| 0 <= i < 1 ==> #[trigger] w.line[i] != id) implies #[trigger] same_for(
        w,
        after,
        id,
    ) by {
        assert(w.line[0] != id);
        assert(w.line.take(1) =~= seq![w.line[0]]);
        if w.line.take(1).to_set().contains(id) {
            assert(seq![w.line[0]].contains(id));
        }
    }
}

pub proof fn lemma_left(w: WaitersView, id: usize)
    requires
        w.ok(),
        w.line.contains(id),
    ensures
        left(w, w.removed(id).with_node(id, SignalView::dead()), id),
{
    let after = w.removed(id).with_node(id, SignalView::dead());
    let p = w.line.index_of(id);
    assert(w.live(w.line[p]));
    assert(left_from(w.line, after.line, id, p));
}

/// Wakes that are right for those who are left are right for all if one went who is not
/// in line.
pub proof fn lemma_woken_without(
    before: WaitersView,
    mid: WaitersView,
    after: WaitersView,
    id: usize,
    wakes: Seq<Wake>,
)
    requires
        same_but(before, mid, id),
        woken(mid, after, wakes),
        !mid.live(id),
        !after.live(id),
    ensures
        woken(before, after, wakes),
{
    assert forall|other: usize| #[trigger] newly_answered(before, after, other) implies newly_answered(
        mid,
        after,
        other,
    ) && due(mid.nodes[other as int]) == due(before.nodes[other as int]) by {
        assert(other != id);
        assert(before.live(other));
        assert(same_for(before, mid, other));
    }
    assert forall|other: usize| #[trigger] newly_answered(mid, after, other) implies newly_answered(
        before,
        after,
        other,
    ) && due(mid.nodes[other as int]) == due(before.nodes[other as int]) by {
        assert(other != id);
        assert(mid.live(other));
        assert(same_for(before, mid, other));
    }
    assert forall|i: int|
        0 <= i < wakes.len() && #[trigger] wakes[i] != Wake::Nobody implies exists|x: usize| #[trigger]
        newly_answered(before, after, x) && due(before.nodes[x as int]) == wakes[i] by {
        let x = choose|x: usize| #[trigger]
            newly_answered(mid, after, x) && due(mid.nodes[x as int]) == wakes[i];
        assert(newly_answered(before, after, x));
    }
}

/// Wakes stay right if one goes afterwards who got no answer.
pub proof fn lemma_woken_then(
    before: WaitersView,
    mid: WaitersView,
    after: WaitersView,
    id: usize,
    wakes: Seq<Wake>,
)
    requires
        woken(before, mid, wakes),
        same_but(mid, after, id),
        !newly_answered(before, mid, id),
        !after.live(id),
    ensures
        woken(before, after, wakes),
{
    assert forall|other: usize| #[trigger]
        newly_answered(before, after, other) implies newly_answered(before, mid, other) by {
        assert(other != id);
        assert(after.live(other));
        assert(same_for(mid, after, other));
    }
    assert forall|other: usize| #[trigger]
        newly_answered(before, mid, other) implies newly_answered(before, after, other) by {
        assert(other != id);
        assert(mid.live(other));
        assert(same_for(mid, after, other));
    }
}

} // verus!
