//! How long one waits for a mutex, over any number of operations of anybody.
use vstd::prelude::*;

use crate::mutex_core::{MutexGuard, MutexView, Owner};
use crate::mutex_ops::{lock_spec, look_spec, poll_spec, Lock, LockStep};
use crate::sem_core::waiting;
use crate::signal::{Poll, SignalView, SIGNAL_INIT_WAITING, SIGNAL_SIGNALED};
use crate::sync_wait::SyncWaiterView;
use crate::waiters::lemma_remove;

verus! {

/// An operation on a mutex, with what it returned.
pub enum Act<T> {
    /// The lock was free and was taken.
    TryLock,
    /// This thread started to lock.
    Lock(usize, Lock<T>),
    /// This thread, which waits, looked.
    Look(SyncWaiterView, LockStep<T>),
    /// A request was made, with this node.
    Ask(usize),
    /// The request with this node was polled with this waker.
    Poll(usize, usize, Poll<MutexGuard<T>>),
    /// The guard was dropped with this value.
    Unlock(T),
    /// The request with this node was dropped.
    Drop(usize),
}

impl<T> MutexView<T> {
    /// The operation takes the mutex from here to `after`.
    pub open spec fn acted(self, act: Act<T>, after: MutexView<T>) -> bool {
        match act {
            Act::TryLock => self.owner is Nobody && after == self.guarded(),
            Act::Lock(thread, r) => lock_spec(self, thread, r, after),
            Act::Look(waiter, r) => self.sync_waits(waiter.entry) && look_spec(
                self,
                waiter,
                r,
                after,
            ),
            Act::Ask(id) => self.waiters.vacant(id) && after == self.with_new(
                id,
                SignalView::fresh_none(),
            ),
            Act::Poll(id, waker, r) => self.pollable(id) && poll_spec(self, id, waker, r, after),
            Act::Unlock(data) => self.owner is Guard && after == self.unlocked(data),
            Act::Drop(id) => self.droppable(id) && after == self.dropped(id),
        }
    }

    /// The operation gives the lock up: a guard is dropped, or a request that
    /// was given the lock is.
    pub open spec fn gives_up(self, act: Act<T>) -> bool {
        match act {
            Act::Unlock(_) => true,
            Act::Drop(id) => self.node(id).value == SIGNAL_SIGNALED,
            _ => false,
        }
    }

    /// The lock was given to `id`, which is told so.
    pub open spec fn given_to(self, id: usize) -> bool {
        self.owner == Owner::Granted(id) && self.node(id).value == SIGNAL_SIGNALED
    }

    /// How many are ahead of `id` in line.
    pub open spec fn ahead_of(self, id: usize) -> int {
        self.line().index_of(id)
    }
}

/// One operation after the other takes a mutex through `states`.
pub open spec fn history<T>(states: Seq<MutexView<T>>, acts: Seq<Act<T>>) -> bool {
    &&& states.len() == acts.len() + 1
    &&& forall|i: int| 0 <= i < states.len() ==> (#[trigger] states[i]).ok() && states[i].quiet()
    &&& forall|i: int| 0 <= i < acts.len() ==> states[i].acted(#[trigger] acts[i], states[i + 1])
}

/// How often the lock was given up in the first `n` operations.
pub open spec fn given_up<T>(states: Seq<MutexView<T>>, acts: Seq<Act<T>>, n: nat) -> nat
    decreases n,
{
    if n == 0 {
        0
    } else {
        given_up(states, acts, (n - 1) as nat) + if states[n - 1].gives_up(acts[n - 1]) {
            1nat
        } else {
            0
        }
    }
}

/// Where one stands in a line that others leave.
proof fn lemma_place(line: Seq<usize>, id: usize, other: usize)
    requires
        line.no_duplicates(),
        line.contains(id),
        line.contains(other),
        id != other,
    ensures
        line.remove(line.index_of(other)).contains(id),
        line.remove(line.index_of(other)).index_of(id) <= line.index_of(id),
{
    lemma_remove(line, other);
    let k = line.index_of(other);
    let p = line.index_of(id);
    let left = line.remove(k);
    let q = if p < k {
        p
    } else {
        p - 1
    };
    assert(left[q] == id);
    assert(left[left.index_of(id)] == id);
}

/// Where one stands in a line whose first leaves.
proof fn lemma_moves_up(line: Seq<usize>, id: usize)
    requires
        line.no_duplicates(),
        line.contains(id),
        line.index_of(id) > 0,
    ensures
        line.skip(1).contains(id),
        line.skip(1).index_of(id) == line.index_of(id) - 1,
{
    let rest = line.skip(1);
    let p = line.index_of(id);
    assert(rest[p - 1] == id);
    let q = rest.index_of(id);
    assert(rest[q] == line[q + 1]);
}

/// Where one stands in a line that somebody joins.
proof fn lemma_joins(line: Seq<usize>, id: usize, other: usize)
    requires
        line.no_duplicates(),
        line.contains(id),
        !line.contains(other),
    ensures
        line.push(other).contains(id),
        line.push(other).index_of(id) == line.index_of(id),
{
    let more = line.push(other);
    let p = line.index_of(id);
    assert(more[p] == id);
    let q = more.index_of(id);
    assert(more[q] == id);
    if q < line.len() {
        assert(line[q] == id);
    }
}

/// The lock is given up while `id` is in line.
proof fn lemma_given_up<T>(v: MutexView<T>, data: T, id: usize)
    requires
        v.waiters.ok(),
        v.line().contains(id),
    ensures
        if v.ahead_of(id) == 0 {
            v.unlocked(data).given_to(id)
        } else {
            v.unlocked(data).line().contains(id) && v.unlocked(data).ahead_of(id) == v.ahead_of(id)
                - 1
        },
{
    assert(v.line()[v.ahead_of(id)] == id);
    assert(v.waiters.live(v.line()[0]));
    if v.ahead_of(id) > 0 {
        lemma_moves_up(v.line(), id);
    }
}

/// One operation of somebody else, or a look or poll of its own: a waiter in
/// line moves up by one if the lock is given up, and gets it if it was first.
proof fn lemma_acted<T>(v: MutexView<T>, act: Act<T>, after: MutexView<T>, id: usize)
    requires
        v.ok(),
        v.quiet(),
        after.ok(),
        v.acted(act, after),
        v.line().contains(id),
        act != Act::<T>::Drop(id),
    ensures
        ({
            let up = if v.gives_up(act) {
                1int
            } else {
                0
            };
            ||| v.gives_up(act) && v.ahead_of(id) == 0 && after.given_to(id)
            ||| {
                &&& after.line().contains(id)
                &&& after.ahead_of(id) <= v.ahead_of(id) - up
                &&& !(act is Drop) ==> after.ahead_of(id) == v.ahead_of(id) - up
            }
        }),
{
    let line = v.line();
    assert(line[line.index_of(id)] == id);
    assert(waiting(v.node(line[line.index_of(id)])));
    match act {
        Act::Lock(_, r) => {
            if let Lock::Wait(waiter) = r {
                assert(!line.contains(waiter@.entry)) by {
                    if line.contains(waiter@.entry) {
                        assert(v.waiters.live(line[line.index_of(waiter@.entry)]));
                    }
                }
                lemma_joins(line, id, waiter@.entry);
            }
        },
        Act::Poll(other, _, r) => {
            if r is Pending && v.node(other).value != SIGNAL_INIT_WAITING {
                lemma_joins(line, id, other);
            }
        },
        Act::Unlock(data) => {
            lemma_given_up(v, data, id);
        },
        Act::Drop(other) => {
            if v.waiters.popped.contains(other) {
                assert(waiting(v.node(other)));
            } else if line.contains(other) {
                assert(waiting(v.node(line[line.index_of(other)])));
                lemma_place(line, id, other);
            } else if v.node(other).value == SIGNAL_SIGNALED {
                let gone = v.with_node(other, SignalView::dead());
                crate::keeps::lemma_node_ok(v.waiters, other, SignalView::dead());
                lemma_given_up(gone, v.data->0, id);
            }
        },
        _ => {},
    }
}

/// Nobody starves. A waiter moves up with every time that the lock is given up,
/// and nobody gets ahead of it: by the time the lock was given up once for
/// everybody ahead of it and once more, it was given to it.
pub proof fn everybody_gets_their_turn<T>(
    states: Seq<MutexView<T>>,
    acts: Seq<Act<T>>,
    id: usize,
    n: nat,
)
    requires
        history(states, acts),
        states[0].line().contains(id),
        forall|i: int| 0 <= i < acts.len() ==> #[trigger] acts[i] != Act::<T>::Drop(id),
        n <= acts.len(),
    ensures
        (exists|k: int| 0 < k <= n && (#[trigger] states[k]).given_to(id)) || {
            &&& states[n as int].line().contains(id)
            &&& states[n as int].ahead_of(id) + given_up(states, acts, n) <= states[0].ahead_of(id)
        },
        given_up(states, acts, n) > states[0].ahead_of(id) ==> exists|k: int|
            0 < k <= n && (#[trigger] states[k]).given_to(id),
    decreases n,
{
    if n > 0 {
        let m = (n - 1) as nat;
        everybody_gets_their_turn(states, acts, id, m);
        let v = states[m as int];
        assert(v.acted(acts[m as int], states[n as int]));
        if exists|k: int| 0 < k <= m && (#[trigger] states[k]).given_to(id) {
            let k = choose|k: int| 0 < k <= m && (#[trigger] states[k]).given_to(id);
            assert(0 < k <= n && states[k].given_to(id));
        } else {
            assert(acts[m as int] != Act::<T>::Drop(id));
            lemma_acted(v, acts[m as int], states[n as int], id);
            if states[n as int].given_to(id) {
                assert(0 < n <= n && states[n as int].given_to(id));
            }
        }
    }
    let last = states[n as int];
    if last.line().contains(id) {
        assert(last.line()[last.line().index_of(id)] == id);
    }
}

/// If nobody withdraws, the lock goes down the line exactly: each time it is
/// given up the waiter moves up by one, and the time after those of everybody
/// ahead of it is its own.
pub proof fn down_the_line<T>(states: Seq<MutexView<T>>, acts: Seq<Act<T>>, id: usize, n: nat)
    requires
        history(states, acts),
        states[0].line().contains(id),
        forall|i: int| 0 <= i < acts.len() ==> !(#[trigger] acts[i] is Drop),
        n <= acts.len(),
    ensures
        given_up(states, acts, n) <= states[0].ahead_of(id) ==> states[n as int].line().contains(id)
            && states[n as int].ahead_of(id) == states[0].ahead_of(id) - given_up(states, acts, n),
        n > 0 && states[n - 1].gives_up(acts[n - 1]) && given_up(states, acts, n)
            == states[0].ahead_of(id) + 1 ==> states[n as int].given_to(id),
    decreases n,
{
    if n > 0 {
        let m = (n - 1) as nat;
        down_the_line(states, acts, id, m);
        let v = states[m as int];
        assert(v.acted(acts[m as int], states[n as int]));
        if given_up(states, acts, m) <= states[0].ahead_of(id) {
            assert(!(acts[m as int] is Drop));
            lemma_acted(v, acts[m as int], states[n as int], id);
            let last = states[n as int];
            if last.line().contains(id) {
                assert(last.line()[last.line().index_of(id)] == id);
            }
        }
    }
}

/// Whoever was given the lock keeps it until it comes for it itself, and gets it
/// then: its next look, or poll, returns the guard.
pub proof fn given_is_kept<T>(v: MutexView<T>, act: Act<T>, after: MutexView<T>, id: usize)
    requires
        v.ok(),
        v.quiet(),
        v.waiters.live(id),
        v.given_to(id),
        v.acted(act, after),
    ensures
        match act {
            Act::Look(waiter, r) => if waiter.entry == id {
                r is Done && after.owner is Guard
            } else {
                after.given_to(id)
            },
            Act::Poll(other, _, r) => if other == id {
                r is Ready && after.owner is Guard
            } else {
                after.given_to(id)
            },
            Act::Drop(other) => other != id ==> after.given_to(id),
            _ => after.given_to(id),
        },
{
    if v.waiters.popped.contains(id) {
        assert(waiting(v.node(id)));
    }
    if let Act::Drop(other) = act {
        if v.waiters.popped.contains(other) {
            assert(waiting(v.node(other)));
        }
    }
}

} // verus!
