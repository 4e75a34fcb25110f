//! How long one waits for a reader-writer lock, over any number of operations of
//! anybody.
use vstd::prelude::*;

use crate::rwlock_core::RwView;
use crate::sem_core::{sem_node_ok, SemView};
use crate::sem_ops::Acquire;
use crate::sem_order::{brought, everybody_is_answered, sem_history, SemAct};
use crate::signal::{SignalView, SIGNAL_SIGNALED};
use crate::sync_wait::{SyncWaiter, SyncWaiterView};
use crate::totals::{lemma_total_update, total_granted};

verus! {

/// An operation on a reader-writer lock. The flag says whether it is about
/// exclusive access.
pub enum RwAct<T> {
    /// Access was free and was taken.
    Enter(bool),
    /// This thread has to wait for access.
    Queue(bool, usize, SyncWaiter),
    /// A thread that waits looked.
    Look(bool, SyncWaiterView),
    /// A request was made, with this node.
    Ask(usize),
    /// The request with this node was polled with this waker.
    Poll(bool, usize, usize),
    /// The request with this node was dropped.
    Drop(bool, usize),
    /// A read guard was dropped.
    LeaveRead,
    /// The write guard was dropped with this value.
    LeaveWrite(T),
    /// The write guard, with this value, became a read guard.
    Downgrade(T),
}

impl<T> RwView<T> {
    /// The operation takes the lock from here to `after`.
    pub open spec fn acted(self, act: RwAct<T>, after: RwView<T>) -> bool {
        match act {
            RwAct::Enter(write) => self.sem.grantable(self.cost(write)) && after == (RwView {
                sem: SemView {
                    permits: (self.sem.permits - self.cost(write)) as nat,
                    ..self.sem
                },
                ..self.entered(write)
            }),
            RwAct::Queue(write, thread, waiter) => self.sem.acquire_spec(
                self.cost(write),
                thread,
                Acquire::Wait(waiter),
                after.sem,
            ) && after == (RwView { sem: after.sem, ..self }),
            RwAct::Look(write, waiter) => self.sem.sync_waits(waiter.entry, self.cost(write))
                && after == (RwView {
                sem: self.sem.looked(waiter),
                ..if self.sem.node(waiter.entry).value == SIGNAL_SIGNALED {
                    self.entered(write)
                } else {
                    self
                }
            }),
            RwAct::Ask(id) => self.sem.w().vacant(id) && after == (RwView {
                sem: self.sem.with_new(id, SignalView::fresh_none()),
                ..self
            }),
            RwAct::Poll(write, id, waker) => self.sem.pollable(id, self.cost(write)) && after == (
            RwView {
                sem: self.sem.polled(id, self.cost(write), waker),
                ..if self.sem.poll_result(id, self.cost(write)) is Ready {
                    self.entered(write)
                } else {
                    self
                }
            }),
            RwAct::Drop(write, id) => self.sem.droppable(id, self.cost(write)) && after == (RwView {
                sem: self.sem.dropped(id),
                ..self
            }),
            RwAct::LeaveRead => self.readers > 0 && after == (RwView {
                sem: self.sem.released(1),
                readers: (self.readers - 1) as nat,
                ..self
            }),
            RwAct::LeaveWrite(data) => self.writing && after == (RwView {
                sem: self.sem.released(self.max),
                data: Some(data),
                writing: false,
                ..self
            }),
            RwAct::Downgrade(data) => self.writing && after == (RwView {
                sem: self.sem.released((self.max - 1) as nat),
                data: Some(data),
                writing: false,
                readers: 1,
                ..self
            }),
        }
    }

    /// What the operation is to the semaphore.
    pub open spec fn sem_act(self, act: RwAct<T>) -> SemAct {
        match act {
            RwAct::Enter(write) => SemAct::Take(self.cost(write)),
            RwAct::Queue(write, thread, waiter) => SemAct::Start(
                self.cost(write),
                thread,
                Acquire::Wait(waiter),
            ),
            RwAct::Look(write, waiter) => SemAct::Look(waiter, self.cost(write)),
            RwAct::Ask(id) => SemAct::Ask(id),
            RwAct::Poll(write, id, waker) => SemAct::Poll(id, self.cost(write), waker),
            RwAct::Drop(write, id) => SemAct::Drop(id, self.cost(write)),
            RwAct::LeaveRead => SemAct::Release(1),
            RwAct::LeaveWrite(_) => SemAct::Release(self.max),
            RwAct::Downgrade(_) => SemAct::Release((self.max - 1) as nat),
        }
    }

    /// How much access the operation gives back, a writer counting as much as
    /// all readers.
    pub open spec fn gives_back(self, act: RwAct<T>) -> nat {
        match act {
            RwAct::LeaveRead => 1,
            RwAct::LeaveWrite(_) => self.max,
            RwAct::Downgrade(_) => (self.max - 1) as nat,
            _ => 0,
        }
    }

    /// The waiter was told that it has access.
    pub open spec fn let_in(self, id: usize) -> bool {
        self.sem.node(id).value == SIGNAL_SIGNALED
    }
}

/// One operation after the other takes a lock through `states`.
pub open spec fn rw_history<T>(states: Seq<RwView<T>>, acts: Seq<RwAct<T>>) -> bool {
    &&& states.len() == acts.len() + 1
    &&& forall|i: int| 0 <= i < states.len() ==> (#[trigger] states[i]).ok()
    &&& forall|i: int| 0 <= i < acts.len() ==> states[i].acted(#[trigger] acts[i], states[i + 1])
}

/// How much access was given back in the first `n` operations.
pub open spec fn given_back<T>(states: Seq<RwView<T>>, acts: Seq<RwAct<T>>, n: nat) -> nat
    decreases n,
{
    if n == 0 {
        0
    } else {
        given_back(states, acts, (n - 1) as nat) + states[n - 1].gives_back(acts[n - 1])
    }
}

/// The history of the semaphore underneath.
spec fn sems<T>(states: Seq<RwView<T>>) -> Seq<SemView> {
    Seq::new(states.len(), |i: int| states[i].sem)
}

spec fn sem_acts<T>(states: Seq<RwView<T>>, acts: Seq<RwAct<T>>) -> Seq<SemAct> {
    Seq::new(acts.len(), |i: int| states[i].sem_act(acts[i]))
}

proof fn lemma_sems<T>(states: Seq<RwView<T>>, acts: Seq<RwAct<T>>)
    requires
        rw_history(states, acts),
    ensures
        sem_history(sems(states), sem_acts(states, acts)),
{
    let below = sems(states);
    let moves = sem_acts(states, acts);
    assert forall|i: int| 0 <= i < below.len() implies (#[trigger] below[i]).at_rest() by {
        assert(states[i].ok());
    }
    assert forall|i: int| 0 <= i < moves.len() implies below[i].acted(
        #[trigger] moves[i],
        below[i + 1],
    ) by {
        assert(states[i].acted(acts[i], states[i + 1]));
    }
}

proof fn lemma_brought<T>(states: Seq<RwView<T>>, acts: Seq<RwAct<T>>, n: nat)
    requires
        n <= acts.len(),
    ensures
        brought(sem_acts(states, acts), n) == given_back(states, acts, n),
    decreases n,
{
    if n > 0 {
        lemma_brought(states, acts, (n - 1) as nat);
        assert(sem_acts(states, acts)[n - 1] == states[n - 1].sem_act(acts[n - 1]));
    }
}

/// Neither writers nor readers starve. With all access that is given back, less
/// is missing for a waiter, and nobody gets ahead of it: by the time that as much
/// was given back as was missing for it and for everybody ahead of it, it was let
/// in.
pub proof fn everybody_is_let_in<T>(
    states: Seq<RwView<T>>,
    acts: Seq<RwAct<T>>,
    id: usize,
    n: nat,
)
    requires
        rw_history(states, acts),
        states[0].sem.line().contains(id),
        forall|i: int|
            0 <= i < acts.len() ==> ((#[trigger] acts[i]) matches RwAct::Drop(_, other) ==> other
                != id),
        n <= acts.len(),
    ensures
        (exists|k: int| 0 < k <= n && (#[trigger] states[k]).let_in(id)) || {
            &&& states[n as int].sem.line().contains(id)
            &&& 0 < states[n as int].sem.missing(id) <= states[0].sem.missing(id) - given_back(
                states,
                acts,
                n,
            )
        },
        given_back(states, acts, n) >= states[0].sem.missing(id) ==> exists|k: int|
            0 < k <= n && (#[trigger] states[k]).let_in(id),
{
    let below = sems(states);
    let moves = sem_acts(states, acts);
    lemma_sems(states, acts);
    lemma_brought(states, acts, n);
    assert forall|i: int| 0 <= i < moves.len() implies ((#[trigger] moves[i]) matches SemAct::Drop(
        other,
        _,
    ) ==> other != id) by {
        let act = acts[i];
    }
    everybody_is_answered(below, moves, id, n);
    if exists|k: int| 0 < k <= n && (#[trigger] below[k]).answered(id) {
        let k = choose|k: int| 0 < k <= n && (#[trigger] below[k]).answered(id);
        assert(states[k].ok());
        lemma_node_stays(states, acts, id, k as nat);
        assert(states[k].let_in(id));
    }
}

/// The node of a waiter stays.
proof fn lemma_node_stays<T>(states: Seq<RwView<T>>, acts: Seq<RwAct<T>>, id: usize, k: nat)
    requires
        rw_history(states, acts),
        states[0].sem.line().contains(id),
        k <= acts.len(),
    ensures
        id < states[k as int].sem.w().nodes.len(),
    decreases k,
{
    if k > 0 {
        lemma_node_stays(states, acts, id, (k - 1) as nat);
        assert(states[k - 1].acted(acts[k - 1], states[k as int]));
        assert(states[k - 1].ok());
    } else {
        let line = states[0].sem.line();
        assert(states[0].ok());
        assert(states[0].sem.w().live(line[line.index_of(id)]));
    }
}

/// The lock never idles while somebody waits, the first of them for shared or
/// for exclusive access: somebody has access, or was given access outside the
/// line and has yet to come for it. So there is always somebody who will give
/// access back.
pub proof fn somebody_is_in<T>(v: RwView<T>)
    requires
        v.ok(),
        v.sem.line().len() > 0,
        exists|write: bool| #[trigger] v.sem.asked(v.sem.line()[0], v.cost(write)),
    ensures
        v.held() > 0 || exists|id: usize|
            id < v.sem.w().nodes.len() && !v.sem.line().contains(id) && (#[trigger] v.sem.node(
                id,
            )).granted > 0,
{
    let nodes = v.sem.w().nodes;
    let head = v.sem.line()[0];
    let write = choose|write: bool| #[trigger] v.sem.asked(head, v.cost(write));
    assert(v.sem.w().live(head));
    assert(crate::sem_core::waiting(v.sem.node(v.sem.line()[0])));
    assert(sem_node_ok(nodes[head as int]));
    if forall|id: usize|
        id < nodes.len() && !v.sem.line().contains(id) ==> (#[trigger] v.sem.node(id)).granted
            == 0 {
        let bare = SignalView { granted: 0, ..nodes[head as int] };
        let rest = nodes.update(head as int, bare);
        lemma_total_update(nodes, head as int, bare);
        assert forall|j: int| 0 <= j < rest.len() implies (#[trigger] rest[j]).granted == 0 by {
            let id = j as usize;
            assert(nodes[j] == v.sem.node(id));
            if v.sem.line().contains(id) {
                let p = v.sem.line().index_of(id);
                assert(v.sem.line()[p] == id);
                if p > 0 {
                    assert(v.sem.node(v.sem.line()[p]).granted == 0);
                }
            }
        }
        lemma_nothing(rest);
    }
}

proof fn lemma_nothing(nodes: Seq<SignalView>)
    requires
        forall|j: int| 0 <= j < nodes.len() ==> (#[trigger] nodes[j]).granted == 0,
    ensures
        total_granted(nodes) == 0,
    decreases nodes.len(),
{
    if nodes.len() > 0 {
        let fewer = nodes.drop_last();
        assert forall|j: int| 0 <= j < fewer.len() implies (#[trigger] fewer[j]).granted == 0 by {
            assert(fewer[j] == nodes[j]);
        }
        lemma_nothing(fewer);
    }
}

} // verus!
