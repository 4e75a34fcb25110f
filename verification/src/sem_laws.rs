//! What holds of a semaphore whatever its threads and tasks do.
use vstd::prelude::*;

use crate::keeps::{
    lemma_keeps_joined, lemma_keeps_left, lemma_keeps_new, lemma_keeps_node, lemma_keeps_queued,
    lemma_keeps_signaled, lemma_node_ok, lemma_removed_ok,
};
use crate::sem_core::{armed, completed, left_over, lemma_served, sem_node_ok, waiting, SemView};
use crate::sem_ops::{Acquire, AcquireStep};
use crate::signal::{SignalView, WakerSlot, SIGNAL_CLOSED, SIGNAL_INIT_WAITING, SIGNAL_SIGNALED};
use crate::sync_wait::SyncWaiterView;
use crate::waiters::lemma_remove;

verus! {

/// No wakeup is lost: when no thread is in the middle of an operation, the
/// first in line needs more permits than there are.
pub proof fn no_lost_wakeup(v: SemView)
    requires
        v.ok(),
        v.quiet(),
        v.owed == 0,
        v.line().len() > 0,
    ensures
        v.node(v.line()[0]).aux > v.permits,
        v.flag,
{
}

/// Nobody waits at a closed semaphore: when no thread is in the middle of an
/// operation, the line is empty.
pub proof fn nobody_waits_when_closed(v: SemView)
    requires
        v.ok(),
        v.quiet(),
        v.closed,
        v.sweeps == 0,
    ensures
        v.line().len() == 0,
        !v.flag,
{
}

/// While somebody is in line nobody takes permits past them.
pub proof fn no_barging(v: SemView, n: usize)
    requires
        v.ok(),
        v.line().len() > 0,
    ensures
        v.flag,
        !v.grantable(n),
{
}

/// A drain serves the line strictly in order: those served are the first in
/// line, each with all it asked for; the next one, if the permits ran out on
/// it, has everything that was left; nobody behind it got anything.
pub proof fn drain_is_fifo(v: SemView)
    requires
        v.ok(),
        v.quiet(),
        v.line().len() > 0,
    ensures
        0 <= v.serves() <= v.line().len(),
        v.drained().line() == v.line().skip(v.serves()),
        forall|i: int|
            0 <= i < v.serves() ==> v.drained().node(#[trigger] v.line()[i]).value
                == SIGNAL_SIGNALED && v.drained().node(v.line()[i]).aux == 0 && v.drained().node(
                v.line()[i],
            ).granted == v.node(v.line()[i]).granted + v.node(v.line()[i]).aux,
        v.serves() < v.line().len() ==> {
            let next = v.line()[v.serves()];
            &&& v.drained().permits == 0
            &&& v.drained().node(next).value == v.node(next).value
            &&& v.drained().node(next).aux > 0
            &&& v.drained().node(next).aux == v.node(next).aux - left_over(
                v.w(),
                v.permits,
                0,
            )
        },
        forall|i: int|
            v.serves() < i < v.line().len() ==> v.drained().node(#[trigger] v.line()[i])
                == v.node(v.line()[i]),
{
    let w = v.w();
    let k = v.serves();
    lemma_served(w, v.permits, 0);
    let chain = w.line.take(k);
    assert forall|i: int| 0 <= i < w.line.len() implies w.line.contains(#[trigger] w.line[i])
        && w.line.index_of(w.line[i]) == i && w.live(w.line[i]) && (chain.contains(w.line[i]) <==> i
        < k) by {
        assert(w.line[w.line.index_of(w.line[i])] == w.line[i]);
        if i < k {
            assert(chain[i] == w.line[i]);
        } else if chain.contains(w.line[i]) {
            let p = chain.index_of(w.line[i]);
            assert(w.line[p] == w.line[i]);
        }
    }
}

/// What a waiter is told.
spec fn answers() -> Set<usize> {
    set![SIGNAL_SIGNALED, SIGNAL_CLOSED]
}

/// Whoever is left alone by the waiters' account, and asks for what it asked
/// for, is left alone.
proof fn lemma_keeps(v: SemView, after: SemView, but: Option<usize>)
    requires
        v.w().keeps(after.w(), but, answers()),
        forall|id: usize, n: usize|
            v.asked(id, n) && but != Some(id) ==> #[trigger] after.asked(id, n),
    ensures
        v.keeps(after, but),
{
}

/// Everybody in line is waiting.
spec fn line_waits(v: SemView) -> bool {
    &&& v.w().ok()
    &&& forall|i: int| 0 <= i < v.line().len() ==> waiting(v.node(#[trigger] v.line()[i]))
}

proof fn lemma_drain(v: SemView)
    requires
        line_waits(v),
    ensures
        v.keeps(v.drained(), None),
{
    let w = v.w();
    let k = v.serves();
    let after = v.drained();
    lemma_served(w, v.permits, 0);
    if w.line.len() > 0 {
        let chain = w.line.take(k);
        let plain = w.popped_front(k).after_signals(chain, SIGNAL_SIGNALED);
        lemma_keeps_signaled(w, k, SIGNAL_SIGNALED, answers());
        assert(after.w().line == plain.line);
        assert(after.w().popped == plain.popped);
        assert forall|id: usize| #[trigger] w.live(id) implies after.w().live(id) && (w.same(
            after.w(),
            id,
        ) || w.answered(after.w(), id, answers())) by {
            assert(plain.live(id));
            assert(after.node(id).value == plain.nodes[id as int].value);
            assert(after.node(id).waker == plain.nodes[id as int].waker);
        }
        assert forall|id: usize, n: usize| v.asked(id, n) implies #[trigger] after.asked(id, n) by {
            if chain.contains(id) {
                let p = chain.index_of(id);
                assert(w.line[p] == id);
            }
            if w.line.contains(id) {
                let p = w.line.index_of(id);
                assert(waiting(v.node(v.line()[p])));
            }
        }
    }
    lemma_keeps(v, after, None);
}

proof fn lemma_release(v: SemView, n: nat)
    requires
        line_waits(v),
    ensures
        v.keeps(v.released(n), None),
{
    if n > 0 && v.flag {
        lemma_drain(v.added(n));
    }
}

/// A drain disturbs nobody: everybody can go on as if nothing had happened,
/// and what a request was assigned and what it still needs add up to what it
/// asked for.
pub proof fn drain_keeps_requests(v: SemView)
    requires
        v.ok(),
    ensures
        v.keeps(v.drained(), None),
{
    lemma_drain(v);
}

/// Neither does a release,
pub proof fn release_keeps_requests(v: SemView, n: nat)
    requires
        v.ok(),
    ensures
        v.keeps(v.released(n), None),
{
    lemma_release(v, n);
}

/// nor closing, which answers every waiter in line.
pub proof fn close_keeps_requests(v: SemView)
    requires
        v.ok(),
    ensures
        v.keeps(v.shut(), None),
        forall|id: usize|
            !v.closed && v.line().contains(id) ==> (#[trigger] v.shut().node(id)).value
                == SIGNAL_CLOSED && v.shut().w().idle(id),
{
    let w = v.w();
    let after = v.shut();
    let all = w.line.len() as int;
    assert(w.line.take(all) =~= w.line);
    lemma_keeps_signaled(w, all, SIGNAL_CLOSED, answers());
    assert forall|id: usize, n: usize| v.asked(id, n) implies #[trigger] after.asked(id, n) by {
        if w.line.contains(id) {
            assert(waiting(v.node(v.line()[w.line.index_of(id)])));
        }
    }
    assert forall|id: usize| !v.closed && v.line().contains(id) implies (
    #[trigger] after.node(id)).value == SIGNAL_CLOSED && after.w().idle(id) by {
        assert(w.live(w.line[w.line.index_of(id)]));
    }
    if v.closed || w.line.len() == 0 {
        assert(after.w() == w);
    }
    lemma_keeps(v, after, None);
}

/// A new request or waiter disturbs nobody.
pub proof fn start_keeps_requests(v: SemView, id: usize, n: usize, thread: usize)
    requires
        v.w().vacant(id),
    ensures
        v.keeps(v.with_new(id, SignalView::fresh_none()), None),
        v.keeps(
            v.with_new(id, SignalView { aux: n, ..SignalView::fresh_sync(thread) }).enqueued(id),
            None,
        ),
        v.with_new(id, SignalView { aux: n, ..SignalView::fresh_sync(thread) }).enqueued(
            id,
        ).sync_waits(id, n),
{
    let node = SignalView { aux: n, ..SignalView::fresh_sync(thread) };
    lemma_keeps_new(v.w(), id, SignalView::fresh_none(), answers());
    lemma_keeps(v, v.with_new(id, SignalView::fresh_none()), None);
    lemma_keeps_joined(v.w(), id, node, answers());
    lemma_keeps(v, v.with_new(id, node).enqueued(id), None);
}

/// What one operation and then another leave alone, both together do.
proof fn lemma_then(v: SemView, mid: SemView, after: SemView, but: Option<usize>)
    requires
        v.keeps(mid, but),
        mid.keeps(after, None),
    ensures
        v.keeps(after, but),
{
    assert forall|id: usize, n: usize| v.pollable(id, n) && but != Some(
        id,
    ) implies #[trigger] after.pollable(id, n) by {
        assert(mid.pollable(id, n));
    }
    assert forall|id: usize, n: usize| v.droppable(id, n) && but != Some(
        id,
    ) implies #[trigger] after.droppable(id, n) by {
        assert(mid.droppable(id, n));
    }
    assert forall|id: usize, n: usize| v.sync_waits(id, n) && but != Some(
        id,
    ) implies #[trigger] after.sync_waits(id, n) by {
        assert(mid.sync_waits(id, n));
    }
}

/// Rewriting one's own node disturbs nobody else.
pub proof fn node_keeps_requests(v: SemView, id: usize, node: SignalView)
    requires
        v.w().live(id),
    ensures
        v.keeps(v.with_node(id, node), Some(id)),
{
    lemma_keeps_node(v.w(), id, node, answers());
    lemma_keeps(v, v.with_node(id, node), Some(id));
}

/// Ending one's own wait and giving back what came with it disturbs nobody
/// else.
pub proof fn settle_keeps_requests(v: SemView, id: usize, node: SignalView, n: nat)
    requires
        v.ok(),
        v.w().idle(id),
    ensures
        v.keeps(v.with_node(id, node).released(n), Some(id)),
        v.with_node(id, node).keeps(v.with_node(id, node).released(n), None),
{
    let done = v.with_node(id, node);
    node_keeps_requests(v, id, node);
    lemma_node_ok(v.w(), id, node);
    assert forall|i: int| 0 <= i < done.line().len() implies waiting(
        done.node(#[trigger] done.line()[i]),
    ) by {
        assert(v.line().contains(v.line()[i]));
        assert(waiting(v.node(v.line()[i])));
    }
    lemma_release(done, n);
    lemma_then(v, done, done.released(n), Some(id));
}

/// Polling one request disturbs no other, and the request can be polled again
/// unless it is completed.
pub proof fn poll_keeps_requests(v: SemView, id: usize, n: usize, waker: usize)
    requires
        v.ok(),
        v.pollable(id, n),
    ensures
        v.keeps(v.polled(id, n, waker), Some(id)),
        v.polled(id, n, waker).droppable(id, n),
        v.poll_result(id, n) is Pending ==> v.polled(id, n, waker).pollable(id, n),
{
    let node = v.node(id);
    let done = v.with_node(id, completed(node));
    let after = v.polled(id, n, waker);
    assert(sem_node_ok(v.w().nodes[id as int]));
    node_keeps_requests(v, id, completed(node));
    if node.value == SIGNAL_CLOSED {
        settle_keeps_requests(v, id, completed(node), node.granted);
        assert(done.droppable(id, n));
    } else if node.value == SIGNAL_INIT_WAITING {
        node_keeps_requests(v, id, SignalView { waker: WakerSlot::Async(waker), ..node });
    } else if v.poll_result(id, n) is Pending {
        lemma_keeps_queued(v.w(), id, armed(n, waker), answers());
        lemma_keeps(v, after, Some(id));
    } else {
        assert(done.keeps(after, None));
        lemma_then(v, done, after, Some(id));
    }
}

/// Dropping one request disturbs no other.
pub proof fn drop_keeps_requests(v: SemView, id: usize, n: usize)
    requires
        v.ok(),
        v.droppable(id, n),
    ensures
        v.keeps(v.dropped(id), Some(id)),
        v.w().popped.contains(id) ==> v.dropped(id).droppable(id, n),
{
    let w = v.w();
    let granted = v.node(id).granted;
    if w.popped.contains(id) {
    } else if w.line.contains(id) {
        let left = v.left_line(id);
        lemma_keeps_left(w, id, answers());
        lemma_keeps(v, left, Some(id));
        lemma_removed_ok(w, id);
        lemma_node_ok(w.removed(id), id, SignalView::dead());
        assert forall|i: int| 0 <= i < left.line().len() implies waiting(
            left.node(#[trigger] left.line()[i]),
        ) by {
            lemma_remove(w.line, id);
            assert(left.line().contains(left.line()[i]));
            assert(waiting(v.node(v.line()[w.line.index_of(left.line()[i])])));
        }
        if granted > 0 {
            lemma_release(left, granted);
            lemma_then(v, left, v.dropped(id), Some(id));
        } else if v.passes_head(id) {
            let owing = SemView { owed: v.owed + 1, ..left };
            lemma_drain(owing);
            assert(v.keeps(owing, Some(id)));
            lemma_then(v, owing, v.dropped(id), Some(id));
        }
    } else {
        settle_keeps_requests(v, id, SignalView::dead(), granted);
    }
}

impl SemView {
    /// What may happen between two looks of a thread that waits for `n` permits
    /// with node `id`: any operation of anybody, and looks of its own. The wait
    /// goes on, nobody reopens a closed semaphore, and what the semaphore holds
    /// changes by `gain`.
    pub open spec fn meanwhile(self, after: SemView, id: usize, n: usize, gain: int) -> bool {
        &&& after.ok()
        &&& self.sync_waits(id, n) ==> after.sync_waits(id, n)
        &&& self.closed ==> after.closed
        &&& after.total() == self.total() + gain
    }
}

/// The sum of `gains`.
pub open spec fn sum(gains: Seq<int>) -> int
    decreases gains.len(),
{
    if gains.len() == 0 {
        0
    } else {
        sum(gains.drop_last()) + gains.last()
    }
}

proof fn lemma_meanwhile(states: Seq<SemView>, gains: Seq<int>, id: usize, n: usize)
    requires
        states.len() == gains.len() + 1,
        states[0].ok(),
        states[0].sync_waits(id, n),
        forall|i: int|
            0 <= i < gains.len() ==> states[i].meanwhile(
                states[i + 1],
                id,
                n,
                #[trigger] gains[i],
            ),
    ensures
        states.last().ok(),
        states.last().sync_waits(id, n),
        states.last().total() == states[0].total() + sum(gains),
    decreases gains.len(),
{
    if gains.len() > 0 {
        let fewer = gains.drop_last();
        let earlier = states.drop_last();
        assert forall|i: int| 0 <= i < fewer.len() implies earlier[i].meanwhile(
            earlier[i + 1],
            id,
            n,
            #[trigger] fewer[i],
        ) by {
            assert(fewer[i] == gains[i]);
        }
        lemma_meanwhile(earlier, fewer, id, n);
        let k = gains.len() - 1;
        assert(states[k].meanwhile(states[k + 1], id, n, gains[k]));
        assert(earlier.last() == states[k]);
    }
}

/// A blocking acquisition that is decided at once takes all `n` permits, or
/// fails because the semaphore is closed and changes nothing.
pub proof fn acquire_at_once(v: SemView, n: usize, thread: usize, start: Acquire, after: SemView)
    requires
        v.ok(),
        v.started(n, thread, start, after),
        start is Ready,
    ensures
        start->Ready_0 is Ok ==> !v.closed && n <= v.permits && after.total() == v.total() - n,
        start->Ready_0 is Err ==> v.closed && after == v,
        (start->Ready_0 is Err) == v.closed,
{
}

/// A blocking acquisition as a whole, from its start through everything that
/// anybody does meanwhile to its last look: it ends well only with all `n`
/// permits, and fails only if the semaphore is closed; and if it fails,
/// everything that was assigned to it is back, so that the semaphore holds what
/// it would hold without it.
pub proof fn acquire_is_all_or_nothing(
    v: SemView,
    n: usize,
    thread: usize,
    start: Acquire,
    states: Seq<SemView>,
    gains: Seq<int>,
    waiter: SyncWaiterView,
    end: AcquireStep,
    after: SemView,
)
    requires
        v.ok(),
        states.len() == gains.len() + 1,
        states[0].ok(),
        v.started(n, thread, start, states[0]),
        start matches Acquire::Wait(first) && first@.entry == waiter.entry,
        states[0].sync_waits(waiter.entry, n),
        forall|i: int|
            0 <= i < gains.len() ==> states[i].meanwhile(
                states[i + 1],
                waiter.entry,
                n,
                #[trigger] gains[i],
            ),
        states.last().stepped(waiter, n, end, after),
        end is Done,
    ensures
        end->Done_0 is Ok ==> states.last().node(waiter.entry).granted == n && after.total()
            == v.total() + sum(gains) - n,
        end->Done_0 is Err ==> states.last().closed && after.closed && after.total() == v.total()
            + sum(gains),
{
    lemma_meanwhile(states, gains, waiter.entry, n);
    assert(sem_node_ok(states.last().w().nodes[waiter.entry as int]));
}

/// Permits handed to a request that is dropped are not lost: the stock, the
/// drainers and the waiters together hold what they held.
pub proof fn dropped_permits_come_back(v: SemView, id: usize, n: usize)
    requires
        v.ok(),
        v.quiet(),
        v.asked(id, n),
        v.w().idle(id),
        v.node(id).value == SIGNAL_SIGNALED,
    ensures
        v.dropped(id) == v.with_node(id, SignalView::dead()).released(n as nat),
{
    assert(sem_node_ok(v.w().nodes[id as int]));
}

} // verus!
