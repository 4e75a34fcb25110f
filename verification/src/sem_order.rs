//! How long one waits for permits, over any number of operations of anybody.
use vstd::prelude::*;

use crate::keeps::lemma_node_ok;
use crate::sem_core::{left_over, lemma_served, served, waiting, SemView};
use crate::sem_ops::Acquire;
use crate::signal::{SignalView, SIGNAL_CLOSED, SIGNAL_INIT_WAITING, SIGNAL_SIGNALED};
use crate::sync_wait::SyncWaiterView;
use crate::waiters::{lemma_remove, WaitersView};

verus! {

/// An operation on a semaphore, with what it returned.
pub enum SemAct {
    /// So many permits were released or added.
    Release(nat),
    /// So many were taken out of the stock for good.
    Forget(nat),
    /// The semaphore was closed.
    Close,
    /// So many were there and were taken.
    Take(usize),
    /// This many were asked for by this thread.
    Start(usize, usize, Acquire),
    /// A thread that waits for so many looked.
    Look(SyncWaiterView, usize),
    /// A request was made, with this node.
    Ask(usize),
    /// The request with this node, for so many, was polled with this waker.
    Poll(usize, usize, usize),
    /// The request with this node, for so many, was dropped.
    Drop(usize, usize),
}

/// What the first `k` in line still need, all together.
pub open spec fn needs(w: WaitersView, k: int) -> nat
    decreases k,
{
    if k <= 0 {
        0
    } else {
        needs(w, k - 1) + w.nodes[w.line[k - 1] as int].aux as nat
    }
}

impl SemView {
    /// The operation takes the semaphore from here to `after`.
    pub open spec fn acted(self, act: SemAct, after: SemView) -> bool {
        match act {
            SemAct::Release(n) => after == self.released(n),
            SemAct::Forget(n) => n <= self.permits && after == (SemView {
                permits: (self.permits - n) as nat,
                ..self
            }),
            SemAct::Close => after == self.shut(),
            SemAct::Take(n) => self.grantable(n) && after == (SemView {
                permits: (self.permits - n) as nat,
                ..self
            }),
            SemAct::Start(n, thread, r) => self.acquire_spec(n, thread, r, after),
            SemAct::Look(waiter, n) => self.sync_waits(waiter.entry, n) && after == self.looked(
                waiter,
            ),
            SemAct::Ask(id) => self.w().vacant(id) && after == self.with_new(
                id,
                SignalView::fresh_none(),
            ),
            SemAct::Poll(id, n, waker) => self.pollable(id, n) && after == self.polled(
                id,
                n,
                waker,
            ),
            SemAct::Drop(id, n) => self.droppable(id, n) && after == self.dropped(id),
        }
    }

    /// The waiter was told how its wait ended.
    pub open spec fn answered(self, id: usize) -> bool {
        self.node(id).value == SIGNAL_SIGNALED || self.node(id).value == SIGNAL_CLOSED
    }

    /// How many are ahead of `id` in line.
    pub open spec fn ahead_of(self, id: usize) -> int {
        self.line().index_of(id)
    }

    /// How many permits have still to come until `id`, and everybody ahead of
    /// it, has got all it needs.
    pub open spec fn missing(self, id: usize) -> int {
        needs(self.w(), self.ahead_of(id) + 1) - self.permits
    }

    /// No operation is under way: nobody has the queue, no drain is owed, and
    /// nobody waits if the semaphore is closed.
    pub open spec fn at_rest(self) -> bool {
        &&& self.ok()
        &&& self.quiet()
        &&& self.owed == 0
        &&& self.closed ==> self.line().len() == 0
    }
}

/// One operation after the other takes a semaphore through `states`.
pub open spec fn sem_history(states: Seq<SemView>, acts: Seq<SemAct>) -> bool {
    &&& states.len() == acts.len() + 1
    &&& forall|i: int| 0 <= i < states.len() ==> (#[trigger] states[i]).at_rest()
    &&& forall|i: int| 0 <= i < acts.len() ==> states[i].acted(#[trigger] acts[i], states[i + 1])
}

/// How many permits an operation brings.
pub open spec fn brings(act: SemAct) -> int {
    match act {
        SemAct::Release(n) => n as int,
        SemAct::Forget(n) => -n,
        _ => 0,
    }
}

/// How many permits the first `n` operations brought.
pub open spec fn brought(acts: Seq<SemAct>, n: nat) -> int
    decreases n,
{
    if n == 0 {
        0
    } else {
        brought(acts, (n - 1) as nat) + brings(acts[n - 1])
    }
}

proof fn lemma_needs_same(a: WaitersView, b: WaitersView, k: int)
    requires
        k <= a.line.len(),
        k <= b.line.len(),
        forall|i: int| 0 <= i < k ==> #[trigger] a.line[i] == b.line[i],
        forall|i: int|
            0 <= i < k ==> a.nodes[#[trigger] a.line[i] as int].aux
                == b.nodes[a.line[i] as int].aux,
    ensures
        needs(a, k) == needs(b, k),
    decreases k,
{
    if k > 0 {
        lemma_needs_same(a, b, k - 1);
        assert(a.line[k - 1] == b.line[k - 1]);
    }
}

proof fn lemma_needs_grows(w: WaitersView, i: int, k: int)
    requires
        i <= k,
    ensures
        needs(w, i) <= needs(w, k),
    decreases k - i,
{
    if i < k {
        lemma_needs_grows(w, i, k - 1);
    }
}

/// What is handed out is what those who are served need; the rest is left over.
pub(crate) proof fn lemma_served_needs(w: WaitersView, available: nat, i: int)
    requires
        0 <= i <= w.line.len(),
    ensures
        needs(w, i + served(w, available, i)) - needs(w, i) + left_over(w, available, i)
            == available,
    decreases w.line.len() - i,
{
    if i < w.line.len() && w.nodes[w.line[i] as int].aux <= available {
        lemma_served_needs(w, (available - w.nodes[w.line[i] as int].aux) as nat, i + 1);
    }
}

/// What those behind the first `k` need once they have moved up and the next one
/// got `left` permits.
proof fn lemma_needs_rest(w: WaitersView, after: WaitersView, k: int, left: nat, j: int)
    requires
        0 <= k < w.line.len(),
        after.line == w.line.skip(k),
        left <= w.nodes[w.line[k] as int].aux,
        after.nodes[w.line[k] as int].aux == w.nodes[w.line[k] as int].aux - left,
        forall|i: int|
            k < i < w.line.len() ==> after.nodes[#[trigger] w.line[i] as int].aux
                == w.nodes[w.line[i] as int].aux,
        1 <= j <= w.line.len() - k,
    ensures
        needs(after, j) == needs(w, k + j) - needs(w, k) - left,
    decreases j,
{
    assert(after.line[j - 1] == w.line[k + j - 1]);
    if j > 1 {
        lemma_needs_rest(w, after, k, left, j - 1);
    } else {
        assert(needs(after, 0) == 0);
        assert(needs(w, k + 1) == needs(w, k) + w.nodes[w.line[k] as int].aux);
    }
}

/// What the line needs without the one at `k`.
proof fn lemma_needs_removed(w: WaitersView, after: WaitersView, k: int, j: int)
    requires
        0 <= k < w.line.len(),
        after.line == w.line.remove(k),
        forall|i: int|
            0 <= i < w.line.len() && i != k ==> after.nodes[#[trigger] w.line[i] as int].aux
                == w.nodes[w.line[i] as int].aux,
        0 <= j < w.line.len(),
    ensures
        needs(after, j) == if j <= k {
            needs(w, j) as int
        } else {
            needs(w, j + 1) - w.nodes[w.line[k] as int].aux
        },
    decreases j,
{
    if j > 0 {
        lemma_needs_removed(w, after, k, j - 1);
        let i = if j - 1 < k {
            j - 1
        } else {
            j
        };
        assert(after.line[j - 1] == w.line[i]);
    }
}

/// Where one stands in a line.
proof fn lemma_place(line: Seq<usize>, id: usize, p: int)
    requires
        line.no_duplicates(),
        0 <= p < line.len(),
        line[p] == id,
    ensures
        line.contains(id),
        line.index_of(id) == p,
{
    assert(line[line.index_of(id)] == id);
}

/// Handing the stock to the line: whoever can be served in full is told so; for
/// everybody else as much is missing as before.
proof fn lemma_drained(v: SemView, id: usize)
    requires
        v.w().ok(),
        v.line().contains(id),
    ensures
        if v.missing(id) <= 0 {
            &&& v.drained().node(id).value == SIGNAL_SIGNALED
            &&& v.drained().node(id).granted == v.node(id).granted + v.node(id).aux
        } else {
            &&& v.drained().line().contains(id)
            &&& v.drained().missing(id) == v.missing(id)
        },
{
    let w = v.w();
    let k = v.serves();
    let left = left_over(w, v.permits, 0);
    let after = v.drained();
    let p = v.ahead_of(id);
    let chain = w.line.take(k);
    lemma_served(w, v.permits, 0);
    lemma_served_needs(w, v.permits, 0);
    assert(needs(w, 0) == 0);
    assert(w.line[p] == id);
    assert forall|i: int| 0 <= i < w.line.len() implies w.line.contains(#[trigger] w.line[i])
        && w.line.index_of(w.line[i]) == i && w.live(w.line[i]) && (chain.contains(w.line[i]) <==> i
        < k) by {
        lemma_place(w.line, w.line[i], i);
        if i < k {
            assert(chain[i] == w.line[i]);
        } else if chain.contains(w.line[i]) {
            let q = chain.index_of(w.line[i]);
            assert(w.line[q] == w.line[i]);
        }
    }
    if p < k {
        lemma_needs_grows(w, p + 1, k);
        assert(chain.contains(w.line[p]));
    } else {
        lemma_needs_grows(w, k + 1, p + 1);
        assert(needs(w, k + 1) == needs(w, k) + w.nodes[w.line[k] as int].aux);
        assert(after.line() == w.line.skip(k));
        assert(after.line()[p - k] == id);
        assert(after.line().no_duplicates()) by {
            assert forall|i: int, j: int|
                0 <= i < after.line().len() && 0 <= j < after.line().len() && i
                    != j implies after.line()[i] != after.line()[j] by {
                assert(w.line[i + k] != w.line[j + k]);
            }
        }
        lemma_place(after.line(), id, p - k);
        assert forall|i: int| k < i < w.line.len() implies after.w().nodes[
            #[trigger] w.line[i] as int].aux == w.nodes[w.line[i] as int].aux by {
            assert(!chain.contains(w.line[i]));
        }
        assert(!chain.contains(w.line[k]));
        lemma_needs_rest(w, after.w(), k, left, p - k + 1);
    }
}

/// A release.
proof fn lemma_released(v: SemView, n: nat, id: usize)
    requires
        v.w().ok(),
        v.line().contains(id),
        v.flag,
        v.missing(id) > 0,
    ensures
        if v.missing(id) <= n {
            &&& v.released(n).node(id).value == SIGNAL_SIGNALED
            &&& v.released(n).node(id).granted == v.node(id).granted + v.node(id).aux
        } else {
            &&& v.released(n).line().contains(id)
            &&& v.released(n).missing(id) == v.missing(id) - n
        },
{
    if n > 0 {
        lemma_drained(v.added(n), id);
    }
}

/// Somebody else leaves the line.
proof fn lemma_left_line(v: SemView, id: usize, other: usize)
    requires
        v.w().ok(),
        v.line().contains(id),
        v.line().contains(other),
        id != other,
    ensures
        v.left_line(other).w().ok(),
        v.left_line(other).line().contains(id),
        v.left_line(other).missing(id) <= v.missing(id),
        v.left_line(other).node(id) == v.node(id),
        v.left_line(other).flag,
{
    let w = v.w();
    let k = w.line.index_of(other);
    let p = w.line.index_of(id);
    let left = v.left_line(other);
    lemma_remove(w.line, other);
    crate::keeps::lemma_removed_ok(w, other);
    lemma_node_ok(w.removed(other), other, SignalView::dead());
    assert(w.line[p] == id);
    let q = if p < k {
        p
    } else {
        p - 1
    };
    assert(left.line() == w.line.remove(k));
    assert(left.line()[q] == id);
    lemma_place(left.line(), id, q);
    lemma_needs_removed(w, left.w(), k, q + 1);
}

/// Somebody joins the line, or a node is written: nothing changes for those in
/// line.
proof fn lemma_unmoved(v: SemView, after: SemView, id: usize)
    requires
        v.w().ok(),
        after.w().ok(),
        v.line().contains(id),
        after.line() == v.line() || after.line() == v.line().push(after.line().last())
            && after.line().len() > 0,
        after.permits == v.permits,
        forall|i: int|
            0 <= i < v.line().len() ==> after.node(#[trigger] v.line()[i]).aux == v.node(
                v.line()[i],
            ).aux,
    ensures
        after.line().contains(id),
        after.missing(id) == v.missing(id),
{
    let p = v.ahead_of(id);
    assert(v.line()[p] == id);
    assert(after.line()[p] == id);
    lemma_place(after.line(), id, p);
    assert forall|i: int| 0 <= i < p + 1 implies #[trigger] v.w().line[i] == after.w().line[i] by {}
    lemma_needs_same(v.w(), after.w(), p + 1);
}

/// While somebody waits, something is missing.
proof fn lemma_missing(v: SemView, id: usize)
    requires
        v.at_rest(),
        v.line().contains(id),
    ensures
        v.missing(id) > 0,
        !v.closed,
        waiting(v.node(id)),
{
    let p = v.ahead_of(id);
    assert(v.line()[p] == id);
    assert(waiting(v.node(v.line()[p])));
    lemma_needs_grows(v.w(), 1, p + 1);
    assert(needs(v.w(), 1) == needs(v.w(), 0) + v.node(v.line()[0]).aux);
}

/// One operation of somebody else, or a look or poll of its own.
proof fn lemma_acted(v: SemView, act: SemAct, after: SemView, id: usize)
    requires
        v.at_rest(),
        after.at_rest(),
        v.acted(act, after),
        v.line().contains(id),
        act matches SemAct::Drop(other, _) ==> other != id,
    ensures
        after.answered(id) || {
            &&& after.line().contains(id)
            &&& after.missing(id) <= v.missing(id) - brings(act)
        },
        !(act is Drop) && !(act is Close) ==> if v.missing(id) <= brings(act) {
            &&& after.node(id).value == SIGNAL_SIGNALED
            &&& after.node(id).granted == v.node(id).granted + v.node(id).aux
        } else {
            &&& after.line().contains(id)
            &&& after.missing(id) == v.missing(id) - brings(act)
            &&& after.node(id).granted + after.node(id).aux == v.node(id).granted + v.node(id).aux
        },
{
    let line = v.line();
    lemma_missing(v, id);
    assert forall|i: int| 0 <= i < line.len() implies waiting(v.node(#[trigger] line[i]))
        && v.w().live(line[i]) && line.contains(line[i]) by {}
    assert(line[line.index_of(id)] == id);
    match act {
        SemAct::Release(n) => {
            lemma_released(v, n, id);
            if n < v.missing(id) {
                lemma_still_asks(v, after, id, n);
            }
        },
        SemAct::Forget(n) => {
            assert(needs(after.w(), v.ahead_of(id) + 1) == needs(v.w(), v.ahead_of(id) + 1));
        },
        SemAct::Close => {
            crate::sem_laws::close_keeps_requests(v);
        },
        SemAct::Take(_) => {},
        SemAct::Start(_, _, r) => {
            if let Acquire::Wait(waiter) = r {
                assert(after.line().last() == waiter@.entry);
                assert(!v.w().live(waiter@.entry));
                lemma_unmoved(v, after, id);
            }
        },
        SemAct::Look(_, _) => {
            lemma_unmoved(v, after, id);
        },
        SemAct::Ask(_) => {
            lemma_unmoved(v, after, id);
        },
        SemAct::Poll(other, n, _) => {
            if v.node(other).value != SIGNAL_INIT_WAITING && v.node(other).value
                != SIGNAL_SIGNALED {
                assert(!line.contains(other));
                assert(after.line().last() == other);
            }
            lemma_unmoved(v, after, id);
        },
        SemAct::Drop(other, _) => {
            let granted = v.node(other).granted;
            if v.w().popped.contains(other) {
            } else if line.contains(other) {
                let left = v.left_line(other);
                lemma_left_line(v, id, other);
                if granted > 0 {
                    lemma_drained(left.added(granted), id);
                } else if v.passes_head(other) {
                    lemma_drained(SemView { owed: v.owed + 1, ..left }, id);
                }
            } else {
                let gone = v.with_node(other, SignalView::dead());
                lemma_node_ok(v.w(), other, SignalView::dead());
                lemma_unmoved(v, gone, id);
                lemma_released(gone, granted, id);
            }
        },
    }
}

/// A release that does not serve a waiter takes nothing from it.
proof fn lemma_still_asks(v: SemView, after: SemView, id: usize, n: nat)
    requires
        v.w().ok(),
        v.line().contains(id),
        v.flag,
        v.missing(id) > n,
        after == v.released(n),
    ensures
        after.node(id).granted + after.node(id).aux == v.node(id).granted + v.node(id).aux,
{
    if n > 0 {
        let a = v.added(n);
        lemma_served(a.w(), a.permits, 0);
        lemma_drained(a, id);
    }
}

/// Nobody starves. With every permit that comes, less is missing for a waiter,
/// and nobody gets ahead of it: by the time that as many permits came as were
/// missing for it and for everybody ahead of it, it was answered.
pub proof fn everybody_is_answered(
    states: Seq<SemView>,
    acts: Seq<SemAct>,
    id: usize,
    n: nat,
)
    requires
        sem_history(states, acts),
        states[0].line().contains(id),
        forall|i: int|
            0 <= i < acts.len() ==> ((#[trigger] acts[i]) matches SemAct::Drop(other, _) ==> other
                != id),
        n <= acts.len(),
    ensures
        (exists|k: int| 0 < k <= n && (#[trigger] states[k]).answered(id)) || {
            &&& states[n as int].line().contains(id)
            &&& 0 < states[n as int].missing(id) <= states[0].missing(id) - brought(acts, n)
        },
        brought(acts, n) >= states[0].missing(id) ==> exists|k: int|
            0 < k <= n && (#[trigger] states[k]).answered(id),
    decreases n,
{
    if n > 0 {
        let m = (n - 1) as nat;
        everybody_is_answered(states, acts, id, m);
        let v = states[m as int];
        assert(v.acted(acts[m as int], states[n as int]));
        if exists|k: int| 0 < k <= m && (#[trigger] states[k]).answered(id) {
            let k = choose|k: int| 0 < k <= m && (#[trigger] states[k]).answered(id);
            assert(0 < k <= n && states[k].answered(id));
        } else {
            lemma_acted(v, acts[m as int], states[n as int], id);
            if states[n as int].answered(id) {
                assert(0 < n <= n && states[n as int].answered(id));
            } else {
                lemma_missing(states[n as int], id);
            }
        }
    } else {
        lemma_missing(states[0], id);
    }
}

/// If nobody withdraws and the semaphore is not closed, the line is served
/// exactly: what is missing for a waiter goes down by what comes, and it is told
/// with the very permit that completes it, with all it asked for.
pub proof fn served_in_order(states: Seq<SemView>, acts: Seq<SemAct>, id: usize, n: nat)
    requires
        sem_history(states, acts),
        states[0].line().contains(id),
        forall|i: int|
            0 <= i < acts.len() ==> !(#[trigger] acts[i] is Drop) && !(acts[i] is Close),
        n <= acts.len(),
        forall|k: int| 0 <= k < n ==> #[trigger] brought(acts, k as nat) < states[0].missing(id),
    ensures
        if brought(acts, n) < states[0].missing(id) {
            &&& states[n as int].line().contains(id)
            &&& states[n as int].missing(id) == states[0].missing(id) - brought(acts, n)
            &&& states[n as int].node(id).granted + states[n as int].node(id).aux
                == states[0].node(id).granted + states[0].node(id).aux
        } else {
            &&& states[n as int].node(id).value == SIGNAL_SIGNALED
            &&& states[n as int].node(id).granted == states[0].node(id).granted + states[0].node(
                id,
            ).aux
        },
    decreases n,
{
    if n > 0 {
        let m = (n - 1) as nat;
        served_in_order(states, acts, id, m);
        let v = states[m as int];
        assert(v.acted(acts[m as int], states[n as int]));
        assert(brought(acts, m as int as nat) < states[0].missing(id));
        lemma_acted(v, acts[m as int], states[n as int], id);
    } else {
        lemma_missing(states[0], id);
    }
}

} // verus!
