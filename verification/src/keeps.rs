//! What an operation leaves alone: the place and the signal of everybody who
//! takes no part in it.
use vstd::prelude::*;

use crate::signal::SignalView;
use crate::waiters::{lemma_remove, WaitersView};

verus! {

impl WaitersView {
    /// The waiter's signal, its waker and its place are in `after` what they
    /// were.
    pub open spec fn same(self, after: WaitersView, id: usize) -> bool {
        &&& after.nodes[id as int].value == self.nodes[id as int].value
        &&& after.nodes[id as int].waker == self.nodes[id as int].waker
        &&& after.line.contains(id) == self.line.contains(id)
        &&& after.popped.contains(id) == self.popped.contains(id)
    }

    /// The waiter was waiting, and in `after` has one of `answers`.
    pub open spec fn answered(self, after: WaitersView, id: usize, answers: Set<usize>) -> bool {
        &&& !self.idle(id)
        &&& after.idle(id)
        &&& answers.contains(after.nodes[id as int].value)
    }

    /// Every waiter but one is in `after` what and where it was, or has been
    /// answered.
    pub open spec fn keeps(
        self,
        after: WaitersView,
        but: Option<usize>,
        answers: Set<usize>,
    ) -> bool {
        forall|id: usize| #[trigger]
            self.live(id) && but != Some(id) ==> after.live(id) && (self.same(after, id)
                || self.answered(after, id, answers))
    }
}

/// Rewriting one's own node leaves the others alone.
pub proof fn lemma_keeps_node(w: WaitersView, id: usize, node: SignalView, answers: Set<usize>)
    requires
        w.live(id),
    ensures
        w.keeps(w.with_node(id, node), Some(id), answers),
{
}

/// A new node leaves everybody alone.
pub proof fn lemma_keeps_new(w: WaitersView, id: usize, node: SignalView, answers: Set<usize>)
    requires
        !w.live(id),
    ensures
        w.keeps(w.with_new(id, node), None, answers),
{
}

/// Joining the line leaves the others alone.
pub proof fn lemma_keeps_pushed(w: WaitersView, id: usize, answers: Set<usize>)
    ensures
        w.keeps(w.pushed(id), Some(id), answers),
        w.pushed(id).line.contains(id),
{
    let after = w.pushed(id);
    assert(after.line[w.line.len() as int] == id);
    assert forall|x: usize| #[trigger] w.live(x) && x != id implies after.line.contains(x)
        == w.line.contains(x) by {
        if w.line.contains(x) {
            assert(after.line[w.line.index_of(x)] == x);
        }
        if after.line.contains(x) {
            assert(w.line[after.line.index_of(x)] == x);
        }
    }
}

/// Leaving the line leaves the others alone.
pub proof fn lemma_keeps_removed(w: WaitersView, id: usize, answers: Set<usize>)
    requires
        w.ok(),
    ensures
        w.keeps(w.removed(id), Some(id), answers),
        !w.removed(id).line.contains(id),
{
    if w.line.contains(id) {
        lemma_remove(w.line, id);
    }
}

/// Signaling the first in line answers them and leaves the others alone.
pub proof fn lemma_keeps_signaled(w: WaitersView, k: int, value: usize, answers: Set<usize>)
    requires
        w.ok(),
        0 <= k <= w.line.len(),
        answers.contains(value),
    ensures
        w.keeps(w.popped_front(k).after_signals(w.line.take(k), value), None, answers),
{
    let after = w.popped_front(k).after_signals(w.line.take(k), value);
    assert forall|x: usize| #[trigger] w.live(x) implies after.live(x) && (w.same(after, x)
        || w.answered(after, x, answers)) by {
        if w.line.contains(x) {
            let i = w.line.index_of(x);
            assert(w.line[i] == x);
            if i < k {
                assert(w.line.take(k)[i] == x);
                if after.line.contains(x) {
                    let j = after.line.index_of(x);
                    assert(w.line[j + k] == x);
                }
            } else {
                assert(after.line[i - k] == x);
                if w.line.take(k).contains(x) {
                    let j = w.line.take(k).index_of(x);
                    assert(w.line[j] == x);
                }
            }
        } else {
            if after.line.contains(x) {
                let j = after.line.index_of(x);
                assert(w.line[j + k] == x);
            }
            if w.line.take(k).contains(x) {
                let j = w.line.take(k).index_of(x);
                assert(w.line[j] == x);
            }
        }
    }
}

/// Signaling the first in line answers it and leaves the others alone.
pub proof fn lemma_keeps_first(w: WaitersView, value: usize, answers: Set<usize>)
    requires
        w.ok(),
        w.line.len() > 0,
        answers.contains(value),
    ensures
        w.keeps(w.popped_front(1).after_signal(w.line[0], value), None, answers),
{
    let after = w.popped_front(1).after_signal(w.line[0], value);
    assert forall|x: usize| #[trigger] w.live(x) implies after.live(x) && (w.same(after, x)
        || w.answered(after, x, answers)) by {
        assert(w.line.take(1)[0] == w.line[0]);
        if w.line.contains(x) {
            let i = w.line.index_of(x);
            assert(w.line[i] == x);
            if i == 0 {
                if after.line.contains(x) {
                    let j = after.line.index_of(x);
                    assert(w.line[j + 1] == x);
                }
            } else {
                assert(after.line[i - 1] == x);
                if w.line.take(1).contains(x) {
                    let j = w.line.take(1).index_of(x);
                    assert(w.line[j] == x);
                }
            }
        } else {
            if after.line.contains(x) {
                let j = after.line.index_of(x);
                assert(w.line[j + 1] == x);
            }
            if w.line.take(1).contains(x) {
                let j = w.line.take(1).index_of(x);
                assert(w.line[j] == x);
            }
        }
    }
}

/// What each of two operations leaves alone, both together do.
pub proof fn lemma_keeps_twice(
    w: WaitersView,
    mid: WaitersView,
    after: WaitersView,
    first: Option<usize>,
    second: Option<usize>,
    but: Option<usize>,
    answers: Set<usize>,
)
    requires
        w.keeps(mid, first, answers),
        mid.keeps(after, second, answers),
        first is None || first == but,
        second is None || second == but,
    ensures
        w.keeps(after, but, answers),
{
    assert forall|x: usize| #[trigger] w.live(x) && but != Some(x) implies after.live(x) && (w.same(
        after,
        x,
    ) || w.answered(after, x, answers)) by {
        assert(mid.live(x));
    }
}

/// Leaving the line breaks nothing.
pub proof fn lemma_removed_ok(w: WaitersView, id: usize)
    requires
        w.ok(),
    ensures
        w.removed(id).ok(),
        w.line.contains(id) ==> w.removed(id).idle(id),
{
    let after = w.removed(id);
    if w.line.contains(id) {
        lemma_remove(w.line, id);
        assert forall|i: int| 0 <= i < after.line.len() implies after.live(
            #[trigger] after.line[i],
        ) by {
            assert(after.line.contains(after.line[i]));
            assert(w.live(w.line[w.line.index_of(after.line[i])]));
        }
        assert forall|x: usize| #[trigger] after.popped.contains(x) implies after.live(x)
            && !after.line.contains(x) by {
            assert(w.popped.contains(x));
        }
        assert(w.live(w.line[w.line.index_of(id)]));
        if w.popped.contains(id) {
            assert(!w.line.contains(id));
        }
    }
}

/// Leaving the line and giving the node back leaves the others alone.
pub proof fn lemma_keeps_left(w: WaitersView, id: usize, answers: Set<usize>)
    requires
        w.ok(),
        w.live(id),
    ensures
        w.keeps(w.removed(id).with_node(id, SignalView::dead()), Some(id), answers),
{
    let left = w.removed(id);
    let after = left.with_node(id, SignalView::dead());
    lemma_keeps_removed(w, id, answers);
    lemma_keeps_node(left, id, SignalView::dead(), answers);
    lemma_keeps_twice(w, left, after, Some(id), Some(id), Some(id), answers);
}

/// Rewriting a node breaks nothing, if nobody gives back one that is queued.
pub proof fn lemma_node_ok(w: WaitersView, id: usize, node: SignalView)
    requires
        w.ok(),
        w.live(id),
        node.live || w.idle(id),
    ensures
        w.with_node(id, node).ok(),
{
    let after = w.with_node(id, node);
    assert forall|i: int| 0 <= i < after.line.len() implies after.live(
        #[trigger] after.line[i],
    ) by {
        assert(w.live(w.line[i]));
        assert(w.line.contains(w.line[i]));
    }
    assert forall|x: usize| #[trigger] after.popped.contains(x) implies after.live(x)
        && !after.line.contains(x) by {
        assert(w.popped.contains(x));
    }
}

/// Rewriting one's own node and joining the line leaves the others alone.
pub proof fn lemma_keeps_queued(w: WaitersView, id: usize, node: SignalView, answers: Set<usize>)
    requires
        w.live(id),
    ensures
        w.keeps(w.with_node(id, node).pushed(id), Some(id), answers),
        w.with_node(id, node).pushed(id).line.contains(id),
{
    let mid = w.with_node(id, node);
    lemma_keeps_node(w, id, node, answers);
    lemma_keeps_pushed(mid, id, answers);
    lemma_keeps_twice(w, mid, mid.pushed(id), Some(id), Some(id), Some(id), answers);
}

/// A new waiter that joins the line leaves everybody alone.
pub proof fn lemma_keeps_joined(w: WaitersView, id: usize, node: SignalView, answers: Set<usize>)
    requires
        !w.live(id),
        id <= w.nodes.len(),
    ensures
        w.keeps(w.with_new(id, node).pushed(id), None, answers),
        w.with_new(id, node).pushed(id).line.contains(id),
{
    let mid = w.with_new(id, node);
    lemma_keeps_new(w, id, node, answers);
    lemma_keeps_pushed(mid, id, answers);
    lemma_keeps_twice(w, mid, mid.pushed(id), None, Some(id), Some(id), answers);
}

} // verus!
