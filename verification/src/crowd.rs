//! A crowd of threads at one mutex: each locks it, adds one to the value and
//! unlocks it, a number of times, and parks while it has to wait. All get
//! through.
use vstd::prelude::*;

use crate::mutex_core::{MutexView, Owner};
use crate::mutex_ops::{lock_spec, look_spec, Lock, LockStep};
use crate::signal::{Wake, WakerSlot, SIGNAL_INIT_WAITING, SIGNAL_SIGNALED, SIGNAL_UNINIT};
use crate::sync_wait::SyncWaiterView;

verus! {

/// Where a thread stands.
pub enum Stand {
    /// It is between two turns.
    Away,
    /// It waits for the lock; the flag says whether it is parked.
    Waits(SyncWaiterView, bool),
    /// It has the guard, with this value.
    Holds(usize),
}

/// A mutex and the threads at it, by number.
#[verifier::ext_equal]
pub struct Crowd {
    /// The mutex.
    pub mutex: MutexView<usize>,
    /// Where each thread stands.
    pub at: Seq<Stand>,
    /// How many turns each still has to take.
    pub left: Seq<nat>,
}

/// Where a thread stands after it started to lock.
pub open spec fn after_lock(r: Lock<usize>) -> Stand {
    match r {
        Lock::Ready(guard) => Stand::Holds(guard@),
        Lock::Wait(waiter) => Stand::Waits(waiter@, false),
    }
}

/// Where it stands after it looked.
pub open spec fn after_look(r: LockStep<usize>, waiter: SyncWaiterView) -> Stand {
    match r {
        LockStep::Done(guard) => Stand::Holds(guard@),
        LockStep::Again(step) => Stand::Waits(waiter, step is Park),
    }
}

/// Where the threads stand after some of them were unparked.
pub open spec fn after_wakes(at: Seq<Stand>, wakes: Seq<Wake>) -> Seq<Stand> {
    Seq::new(
        at.len(),
        |t: int|
            match at[t] {
                Stand::Waits(waiter, parked) => Stand::Waits(
                    waiter,
                    parked && !wakes.contains(Wake::Unpark(t as usize)),
                ),
                other => other,
            },
    )
}

/// The sum of some numbers.
pub open spec fn sum_of(numbers: Seq<nat>) -> nat
    decreases numbers.len(),
{
    if numbers.len() == 0 {
        0
    } else {
        sum_of(numbers.drop_last()) + numbers.last()
    }
}

/// How much a thread has still to do: three moves for every turn, to start to
/// lock, to get in and to leave, of which those before the one it is at are
/// done.
pub open spec fn work_of(at: Stand, left: nat) -> nat {
    (3 * left - match at {
        Stand::Away => 0int,
        Stand::Waits(_, _) => 1,
        Stand::Holds(_) => 2,
    }) as nat
}

impl Crowd {
    /// `t` waits on the node `id`.
    pub open spec fn waits_on(self, t: int, id: usize) -> bool {
        &&& 0 <= t < self.at.len()
        &&& self.at[t] matches Stand::Waits(waiter, _) && waiter.entry == id
    }

    /// `t` has the guard.
    pub open spec fn holds(self, t: int) -> bool {
        0 <= t < self.at.len() && self.at[t] is Holds
    }

    /// Thread `t` makes a move that takes the crowd to `after`: it starts to
    /// lock, or looks, parking if it is told to, or adds one to the value and
    /// unlocks, unparking whom it is told to.
    pub open spec fn went(self, t: int, after: Crowd) -> bool {
        &&& 0 <= t < self.at.len()
        &&& after.mutex.ok()
        &&& match self.at[t] {
            Stand::Away => {
                &&& self.left[t] > 0
                &&& after.left == self.left
                &&& exists|r: Lock<usize>| #[trigger]
                    lock_spec(self.mutex, t as usize, r, after.mutex) && after.at
                        == self.at.update(t, after_lock(r))
            },
            Stand::Waits(waiter, _) => {
                let value = self.mutex.node(waiter.entry).value;
                &&& after.left == self.left
                &&& exists|r: LockStep<usize>| #[trigger]
                    look_spec(self.mutex, waiter, r, after.mutex) && after.at == self.at.update(
                        t,
                        after_look(r, waiter.after_step(value)),
                    )
            },
            Stand::Holds(x) => {
                &&& x < usize::MAX
                &&& after.mutex == self.mutex.unlocked((x + 1) as usize)
                &&& after.left == self.left.update(t, (self.left[t] - 1) as nat)
                &&& after.at == after_wakes(
                    self.at.update(t, Stand::Away),
                    self.mutex.unlock_wakes(),
                )
            },
        }
    }

    /// Thread `t` can go on: it has turns left to start, or has the guard, or
    /// was given the lock and is not parked.
    pub open spec fn can_go(self, t: int) -> bool {
        &&& 0 <= t < self.at.len()
        &&& match self.at[t] {
            Stand::Away => self.left[t] > 0,
            Stand::Waits(waiter, parked) => !parked && self.mutex.node(waiter.entry).value
                == SIGNAL_SIGNALED,
            Stand::Holds(_) => true,
        }
    }

    /// All have taken all their turns.
    pub open spec fn finished(self) -> bool {
        forall|t: int| 0 <= t < self.left.len() ==> #[trigger] self.left[t] == 0
    }

    /// How much all have still to do.
    pub open spec fn work(self) -> nat {
        sum_of(Seq::new(self.at.len(), |t: int| work_of(self.at[t], self.left[t])))
    }

    /// Nobody has started yet, and each has `times` turns to take at a free
    /// mutex that holds `value`.
    pub open spec fn gathered(self, threads: nat, times: nat, value: usize) -> bool {
        &&& self.mutex.ok()
        &&& self.mutex.quiet()
        &&& self.mutex.owner is Nobody
        &&& self.mutex.data == Some(value)
        &&& self.at.len() == threads
        &&& self.left.len() == threads
        &&& threads <= usize::MAX
        &&& forall|t: int| 0 <= t < threads ==> #[trigger] self.at[t] is Away
        &&& forall|t: int| 0 <= t < threads ==> #[trigger] self.left[t] == times
    }

    /// A waiting thread stands in line, its node says that it is parked if it
    /// is, and names it; or it was given the lock, and is not parked.
    pub open spec fn waiter_ok(self, t: int, waiter: SyncWaiterView, parked: bool) -> bool {
        let node = self.mutex.node(waiter.entry);
        &&& self.mutex.waiters.live(waiter.entry)
        &&& self.left[t] > 0
        &&& if self.mutex.line().contains(waiter.entry) {
            &&& node.waker == WakerSlot::Sync(t as usize)
            &&& node.value == SIGNAL_UNINIT || node.value == SIGNAL_INIT_WAITING
            &&& parked ==> waiter.stage is Parked
            &&& waiter.stage is Parked ==> node.value == SIGNAL_INIT_WAITING
        } else {
            &&& self.mutex.owner == Owner::Granted(waiter.entry)
            &&& node.value == SIGNAL_SIGNALED
            &&& !parked
        }
    }

    /// The same, of a thread that may stand anywhere.
    pub open spec fn stand_ok(self, at: Stand, t: int) -> bool {
        at matches Stand::Waits(waiter, parked) ==> self.waiter_ok(t, waiter, parked)
    }

    /// What every move of every thread keeps: the mutex knows of the threads
    /// what is true of them, at most one has the guard, and the value and the
    /// turns that are left add up to `goal`.
    pub open spec fn ok(self, goal: nat) -> bool {
        &&& self.mutex.ok()
        &&& self.mutex.quiet()
        &&& self.mutex.waiters.popped.is_empty()
        &&& self.at.len() == self.left.len() <= usize::MAX
        &&& forall|t: int| #[trigger]
            self.holds(t) ==> self.mutex.owner is Guard && self.left[t] > 0
        &&& forall|t: int, u: int| #[trigger]
            self.holds(t) && #[trigger] self.holds(u) ==> t == u
        &&& self.mutex.owner is Guard ==> exists|t: int| #[trigger] self.holds(t)
        &&& forall|t: int|
            0 <= t < self.at.len() ==> self.stand_ok(#[trigger] self.at[t], t)
        &&& forall|t: int, u: int, id: usize| #[trigger]
            self.waits_on(t, id) && #[trigger] self.waits_on(u, id) ==> t == u
        &&& forall|id: usize| #[trigger]
            self.mutex.line().contains(id) ==> exists|t: int| #[trigger] self.waits_on(t, id)
        &&& self.mutex.owner matches Owner::Granted(id) ==> exists|t: int| #[trigger]
            self.waits_on(t, id)
        &&& forall|t: int| #[trigger]
            self.holds(t) ==> self.at[t]->Holds_0 + sum_of(self.left) == goal
        &&& !(self.mutex.owner is Guard) ==> self.mutex.data is Some && self.mutex.data->0 + sum_of(
            self.left,
        ) == goal
    }
}

proof fn lemma_sum_update(numbers: Seq<nat>, i: int, x: nat)
    requires
        0 <= i < numbers.len(),
    ensures
        sum_of(numbers.update(i, x)) == sum_of(numbers) - numbers[i] + x,
        numbers[i] <= sum_of(numbers),
    decreases numbers.len(),
{
    let more = numbers.update(i, x);
    if i == numbers.len() - 1 {
        assert(more.drop_last() =~= numbers.drop_last());
    } else {
        lemma_sum_update(numbers.drop_last(), i, x);
        assert(more.drop_last() =~= numbers.drop_last().update(i, x));
        assert(numbers.drop_last()[i] == numbers[i]);
    }
}

proof fn lemma_sum_same(numbers: Seq<nat>, x: nat)
    requires
        forall|i: int| 0 <= i < numbers.len() ==> #[trigger] numbers[i] == x,
    ensures
        sum_of(numbers) == numbers.len() * x,
    decreases numbers.len(),
{
    vstd::arithmetic::mul::lemma_mul_basics(x as int);
    if numbers.len() > 0 {
        let fewer = numbers.drop_last();
        assert forall|i: int| 0 <= i < fewer.len() implies #[trigger] fewer[i] == x by {
            assert(fewer[i] == numbers[i]);
        }
        lemma_sum_same(fewer, x);
        vstd::arithmetic::mul::lemma_mul_is_distributive_add_other_way(
            x as int,
            fewer.len() as int,
            1,
        );
    }
}

/// Before anybody has moved, all is in order.
proof fn lemma_gathered(c: Crowd, threads: nat, times: nat, value: usize)
    requires
        c.gathered(threads, times, value),
    ensures
        c.ok(value as nat + threads * times),
        c.work() == 3 * (threads * times),
{
    lemma_sum_same(c.left, times);
    let works = Seq::new(c.at.len(), |t: int| work_of(c.at[t], c.left[t]));
    assert forall|i: int| 0 <= i < works.len() implies #[trigger] works[i] == 3 * times by {
        assert(c.at[i] is Away);
        assert(c.left[i] == times);
    }
    lemma_sum_same(works, 3 * times);
    vstd::arithmetic::mul::lemma_mul_is_associative(threads as int, times as int, 3);
    vstd::arithmetic::mul::lemma_mul_is_commutative(3, times as int);
    vstd::arithmetic::mul::lemma_mul_is_commutative(3, (threads * times) as int);
    assert forall|id: usize| !(#[trigger] c.mutex.waiters.popped.contains(id)) by {}
    assert(c.mutex.waiters.popped =~= Set::empty());
}

/// How the rest of the crowd looks after a move.
proof fn lemma_others(c: Crowd, t: int, d: Crowd)
    requires
        0 <= t < c.at.len(),
        c.at.len() == d.at.len(),
        forall|u: int|
            0 <= u < c.at.len() && u != t ==> match (c.at[u], #[trigger] d.at[u]) {
                (Stand::Waits(a, _), Stand::Waits(b, _)) => a == b,
                (Stand::Waits(_, _), _) => false,
                (_, Stand::Waits(_, _)) => false,
                (before, after) => before == after,
            },
    ensures
        forall|u: int| u != t ==> #[trigger] d.holds(u) == c.holds(u),
        forall|u: int, id: usize| u != t ==> #[trigger] d.waits_on(u, id) == c.waits_on(u, id),
{
    assert forall|u: int| u != t implies #[trigger] d.holds(u) == c.holds(u) by {
        if 0 <= u < c.at.len() {
            let x = d.at[u];
        }
    }
    assert forall|u: int, id: usize| u != t implies #[trigger] d.waits_on(u, id) == c.waits_on(
        u,
        id,
    ) by {
        if 0 <= u < c.at.len() {
            let x = d.at[u];
        }
    }
}

proof fn lemma_started(c: Crowd, t: int, d: Crowd, goal: nat)
    requires
        c.ok(goal),
        c.went(t, d),
        c.at[t] is Away,
    ensures
        d.ok(goal),
        d.at[t] is Holds || d.at[t] is Waits,
{
    let r = choose|r: Lock<usize>| #[trigger]
        lock_spec(c.mutex, t as usize, r, d.mutex) && d.at == c.at.update(t, after_lock(r));
    lemma_others(c, t, d);
    assert(d.mutex.waiters.popped =~= c.mutex.waiters.popped);
    match r {
        Lock::Ready(guard) => {
            assert forall|u: int| 0 <= u < d.at.len() implies d.stand_ok(#[trigger] d.at[u], u) by {
                if u != t {
                    assert(d.at[u] == c.at[u]);
                }
            }
            assert(d.holds(t));
        },
        Lock::Wait(waiter) => {
            let e = waiter@.entry;
            let line = c.mutex.line();
            assert(d.mutex.line() == line.push(e));
            assert(d.mutex.line()[line.len() as int] == e);
            assert forall|id: usize| line.contains(id) implies #[trigger] d.mutex.line().contains(
                id,
            ) by {
                assert(d.mutex.line()[line.index_of(id)] == id);
            }
            assert forall|id: usize| #[trigger] d.mutex.line().contains(id) implies line.contains(
                id,
            ) || id == e by {
                let k = d.mutex.line().index_of(id);
                if k < line.len() {
                    assert(line[k] == id);
                }
            }
            assert(!c.mutex.waiters.live(e));
            assert forall|u: int, id: usize| #[trigger] c.waits_on(u, id) implies id != e by {
                assert(c.at[u] is Waits);
            }
            assert forall|u: int| 0 <= u < d.at.len() implies d.stand_ok(#[trigger] d.at[u], u) by {
                if u != t {
                    assert(d.at[u] == c.at[u]);
                    if let Stand::Waits(w, parked) = c.at[u] {
                        assert(c.waits_on(u, w.entry));
                    }
                }
            }
            assert(d.waits_on(t, e));
            assert forall|id: usize| #[trigger]
                d.mutex.line().contains(id) implies exists|u: int| #[trigger] d.waits_on(u, id) by {
                if id != e {
                    let u = choose|u: int| #[trigger] c.waits_on(u, id);
                    assert(u != t);
                    assert(d.waits_on(u, id));
                }
            }
            if let Owner::Granted(id) = c.mutex.owner {
                let u = choose|u: int| #[trigger] c.waits_on(u, id);
                assert(d.waits_on(u, id));
            }
            if c.mutex.owner is Guard {
                let u = choose|u: int| #[trigger] c.holds(u);
                assert(d.holds(u));
            }
            assert forall|u: int| #[trigger] d.holds(u) implies d.mutex.owner is Guard && d.left[u]
                > 0 && d.at[u]->Holds_0 + sum_of(d.left) == goal by {
                assert(c.holds(u));
            }
        },
    }
}

proof fn lemma_looked(c: Crowd, t: int, d: Crowd, goal: nat)
    requires
        c.ok(goal),
        c.went(t, d),
        c.at[t] is Waits,
    ensures
        d.ok(goal),
        if c.can_go(t) {
            d.at[t] is Holds
        } else {
            d.at[t] is Waits
        },
{
    let waiter = c.at[t]->Waits_0;
    let e = waiter.entry;
    let value = c.mutex.node(e).value;
    let r = choose|r: LockStep<usize>| #[trigger]
        look_spec(c.mutex, waiter, r, d.mutex) && d.at == c.at.update(
            t,
            after_look(r, waiter.after_step(value)),
        );
    lemma_others(c, t, d);
    assert(d.mutex.waiters.popped =~= c.mutex.waiters.popped);
    assert(d.mutex.line() == c.mutex.line());
    assert(c.waits_on(t, e));
    assert forall|u: int| 0 <= u < d.at.len() implies d.stand_ok(#[trigger] d.at[u], u) by {
        if u != t {
            assert(d.at[u] == c.at[u]);
            if let Stand::Waits(w, parked) = c.at[u] {
                assert(c.waits_on(u, w.entry));
                assert(w.entry != e);
            }
        }
    }
    assert forall|id: usize| #[trigger]
        d.mutex.line().contains(id) implies exists|u: int| #[trigger] d.waits_on(u, id) by {
        let u = choose|u: int| #[trigger] c.waits_on(u, id);
        assert(d.waits_on(u, id));
    }
    assert forall|u: int| #[trigger] d.holds(u) implies u == t || c.holds(u) by {}
    if r is Done {
        assert(d.holds(t));
    } else {
        assert(d.waits_on(t, e));
        if let Owner::Granted(id) = c.mutex.owner {
            let u = choose|u: int| #[trigger] c.waits_on(u, id);
            assert(d.waits_on(u, id));
        }
        if c.mutex.owner is Guard {
            let u = choose|u: int| #[trigger] c.holds(u);
            assert(d.holds(u));
        }
    }
}

proof fn lemma_left(c: Crowd, t: int, d: Crowd, goal: nat)
    requires
        c.ok(goal),
        c.went(t, d),
        c.at[t] is Holds,
    ensures
        d.ok(goal),
        d.at[t] is Away,
{
    let x = c.at[t]->Holds_0;
    let line = c.mutex.line();
    let wakes = c.mutex.unlock_wakes();
    assert(c.holds(t));
    lemma_sum_update(c.left, t, (c.left[t] - 1) as nat);
    lemma_others(c, t, d);
    assert forall|u: int| !(#[trigger] d.holds(u)) by {
        if u != t {
            assert(c.holds(u) == d.holds(u));
        }
    }
    if line.len() == 0 {
        assert(d.mutex.waiters.popped =~= c.mutex.waiters.popped);
        assert forall|u: int| 0 <= u < d.at.len() implies !((#[trigger] d.at[u]) is Waits) by {
            if u != t {
                let s = c.at[u];
            }
        }
    } else {
        let first = line[0];
        assert(line.contains(first));
        let u0 = choose|u: int| #[trigger] c.waits_on(u, first);
        assert(c.mutex.waiters.live(first));
        assert(line.take(1) =~= seq![first]);
        assert(d.mutex.waiters.popped =~= c.mutex.waiters.popped) by {
            assert forall|id: usize| !(#[trigger] d.mutex.waiters.popped.contains(id)) by {
                if line.take(1).to_set().contains(id) {
                    assert(line.take(1).contains(id));
                }
            }
        }
        assert(d.mutex.line() == line.skip(1));
        assert forall|id: usize| #[trigger] d.mutex.line().contains(id) <==> line.contains(id) && id
            != first by {
            if d.mutex.line().contains(id) {
                let k = d.mutex.line().index_of(id);
                assert(line[k + 1] == id);
            }
            if line.contains(id) && id != first {
                let k = line.index_of(id);
                assert(d.mutex.line()[k - 1] == id);
            }
        }
        assert forall|u: int| 0 <= u < d.at.len() implies d.stand_ok(#[trigger] d.at[u], u) by {
            if u != t {
                if let Stand::Waits(w, parked) = c.at[u] {
                    assert(c.waits_on(u, w.entry));
                    if w.entry == first {
                        if parked {
                            assert(wakes[0] == Wake::Unpark(u as usize));
                            assert(wakes.contains(Wake::Unpark(u as usize)));
                        }
                    }
                }
            }
        }
        assert forall|id: usize| #[trigger]
            d.mutex.line().contains(id) implies exists|u: int| #[trigger] d.waits_on(u, id) by {
            let u = choose|u: int| #[trigger] c.waits_on(u, id);
            assert(d.waits_on(u, id));
        }
        assert(d.waits_on(u0, first));
    }
}

/// One move: all stays in order, and there is one less to do if the thread could
/// go on, and as much as before otherwise.
proof fn lemma_went(c: Crowd, t: int, d: Crowd, goal: nat)
    requires
        c.ok(goal),
        c.went(t, d),
    ensures
        d.ok(goal),
        d.work() <= c.work(),
        c.can_go(t) ==> d.work() < c.work(),
        !c.can_go(t) ==> d.work() == c.work(),
{
    match c.at[t] {
        Stand::Away => lemma_started(c, t, d, goal),
        Stand::Waits(_, _) => lemma_looked(c, t, d, goal),
        Stand::Holds(_) => {
            assert(c.holds(t));
            lemma_left(c, t, d, goal);
        },
    }
    let before = Seq::new(c.at.len(), |u: int| work_of(c.at[u], c.left[u]));
    let after = Seq::new(d.at.len(), |u: int| work_of(d.at[u], d.left[u]));
    assert forall|u: int| 0 <= u < after.len() && u != t implies after[u] == before[u] by {
        let x = c.at[u];
        let y = d.at[u];
    }
    assert(after =~= before.update(t, after[t]));
    lemma_sum_update(before, t, after[t]);
    if d.at[t] is Holds {
        assert(d.holds(t));
    }
}

/// The crowd is led through `states`, thread `who[i]` making the move from
/// `states[i]`.
pub open spec fn course(states: Seq<Crowd>, who: Seq<int>) -> bool {
    &&& states.len() == who.len() + 1
    &&& forall|i: int| 0 <= i < who.len() ==> states[i].went(#[trigger] who[i], states[i + 1])
}

/// How many of the first `n` moves were made by a thread that could go on.
pub open spec fn advances(states: Seq<Crowd>, who: Seq<int>, n: nat) -> nat
    decreases n,
{
    if n == 0 {
        0
    } else {
        advances(states, who, (n - 1) as nat) + if states[n - 1].can_go(who[n - 1]) {
            1nat
        } else {
            0
        }
    }
}

/// Every thread can make its next move: the mutex is in the state that the
/// operation asks for, and the value has room for one more.
pub proof fn every_move_is_possible(c: Crowd, t: int, goal: nat)
    requires
        c.ok(goal),
        goal <= usize::MAX,
        0 <= t < c.at.len(),
    ensures
        match c.at[t] {
            Stand::Away => c.mutex.quiet(),
            Stand::Waits(waiter, _) => c.mutex.sync_waits(waiter.entry),
            Stand::Holds(x) => c.mutex.owner is Guard && c.mutex.quiet() && x < usize::MAX,
        },
{
    match c.at[t] {
        Stand::Holds(_) => {
            assert(c.holds(t));
            lemma_sum_update(c.left, t, 0);
        },
        _ => {},
    }
}

/// The crowd never comes to a halt: as long as a turn is left, some thread can
/// go on. In particular nobody parks with the lock given to it, or with nobody
/// to wake it.
pub proof fn somebody_can_go_on(c: Crowd, goal: nat)
    requires
        c.ok(goal),
        !c.finished(),
    ensures
        exists|t: int| #[trigger] c.can_go(t),
{
    let t = choose|t: int| 0 <= t < c.left.len() && #[trigger] c.left[t] != 0;
    if let Stand::Waits(waiter, _) = c.at[t] {
        if c.mutex.line().contains(waiter.entry) {
            if c.mutex.owner is Guard {
                let u = choose|u: int| #[trigger] c.holds(u);
                assert(c.can_go(u));
            } else {
                assert(c.mutex.owner is Granted);
                let id = c.mutex.owner->Granted_0;
                let u = choose|u: int| #[trigger] c.waits_on(u, id);
                assert(c.at[u] is Waits);
                assert(c.can_go(u)) by {
                    if c.mutex.line().contains(id) {
                        let k = c.mutex.line().index_of(id);
                        assert(crate::sem_core::waiting(c.mutex.node(c.mutex.line()[k])));
                        assert(c.mutex.waiters.popped.contains(id) || !c.mutex.line().contains(id));
                    }
                }
            }
        } else {
            assert(c.can_go(t));
        }
    } else {
        assert(c.can_go(t));
    }
}

/// Many threads that each lock, add one and unlock `times` times. Whatever the
/// schedule, at most one has the guard at a time. The threads that can go on
/// make at most three moves for every turn, and some thread can go on until all
/// are through. When no turn is left, the mutex is free, nobody waits, and the
/// value has grown by one for every turn of every thread.
pub proof fn everybody_gets_through(
    states: Seq<Crowd>,
    who: Seq<int>,
    n: nat,
    threads: nat,
    times: nat,
    value: usize,
)
    requires
        course(states, who),
        n <= who.len(),
        states[0].gathered(threads, times, value),
    ensures
        states[n as int].ok(value as nat + threads * times),
        advances(states, who, n) + states[n as int].work() <= 3 * (threads * times),
        forall|t: int, u: int| #[trigger]
            states[n as int].holds(t) && #[trigger] states[n as int].holds(u) ==> t == u,
        states[n as int].finished() || exists|t: int| #[trigger] states[n as int].can_go(t),
        states[n as int].finished() ==> {
            let end = states[n as int].mutex;
            &&& end.owner is Nobody
            &&& end.line().len() == 0
            &&& end.data is Some
            &&& end.data->0 == value + threads * times
        },
    decreases n,
{
    let goal = value as nat + threads * times;
    if n == 0 {
        lemma_gathered(states[0], threads, times, value);
    } else {
        let m = (n - 1) as nat;
        everybody_gets_through(states, who, m, threads, times, value);
        assert(states[m as int].went(who[m as int], states[m as int + 1]));
        lemma_went(states[m as int], who[m as int], states[n as int], goal);
    }
    let c = states[n as int];
    if c.finished() {
        assert forall|t: int| 0 <= t < c.left.len() implies #[trigger] c.left[t] == 0 by {}
        lemma_sum_same(c.left, 0);
        if c.mutex.owner is Guard {
            let u = choose|u: int| #[trigger] c.holds(u);
        }
        if let Owner::Granted(id) = c.mutex.owner {
            let u = choose|u: int| #[trigger] c.waits_on(u, id);
            assert(c.at[u] is Waits);
        }
    } else {
        somebody_can_go_on(c, goal);
    }
}

/// Between the moves `a` and `b` every thread that could go on at `a` makes a
/// move.
pub open spec fn round(states: Seq<Crowd>, who: Seq<int>, a: int, b: int) -> bool {
    &&& 0 <= a <= b <= who.len()
    &&& forall|t: int| #[trigger]
        states[a].can_go(t) ==> exists|i: int| a <= i < b && #[trigger] who[i] == t
}

/// Whoever can go on still can when others have moved.
proof fn lemma_still_can_go(c: Crowd, u: int, d: Crowd, goal: nat, t: int)
    requires
        c.ok(goal),
        c.went(u, d),
        u != t,
        c.can_go(t),
    ensures
        d.can_go(t),
{
    let at = c.at[t];
    assert(c.stand_ok(at, t));
    if let Stand::Waits(waiter, _) = at {
        assert(c.waits_on(t, waiter.entry));
        match c.at[u] {
            Stand::Away => {
                let r = choose|r: Lock<usize>| #[trigger]
                    lock_spec(c.mutex, u as usize, r, d.mutex) && d.at == c.at.update(
                        u,
                        after_lock(r),
                    );
                assert(r is Wait);
            },
            Stand::Waits(other, _) => {
                assert(c.waits_on(u, other.entry));
                assert(other.entry != waiter.entry);
            },
            Stand::Holds(_) => {
                assert(c.holds(u));
            },
        }
    }
}

/// There is never more to do than before.
proof fn lemma_less_to_do(states: Seq<Crowd>, who: Seq<int>, goal: nat, a: int, b: int)
    requires
        course(states, who),
        0 <= a <= b <= who.len(),
        forall|i: int| 0 <= i < states.len() ==> (#[trigger] states[i]).ok(goal),
    ensures
        states[b].work() <= states[a].work(),
    decreases b - a,
{
    if a < b {
        lemma_less_to_do(states, who, goal, a, b - 1);
        assert(states[b - 1].went(who[b - 1], states[b - 1 + 1]));
        lemma_went(states[b - 1], who[b - 1], states[b], goal);
    }
}

/// There is less to do once a thread that could go on has moved.
proof fn lemma_its_move(
    states: Seq<Crowd>,
    who: Seq<int>,
    goal: nat,
    a: int,
    i: int,
    b: int,
    t: int,
)
    requires
        course(states, who),
        0 <= a <= i < b <= who.len(),
        who[i] == t,
        states[a].can_go(t),
        forall|i: int| 0 <= i < states.len() ==> (#[trigger] states[i]).ok(goal),
    ensures
        states[b].work() < states[a].work(),
    decreases i - a,
{
    assert(states[a].went(who[a], states[a + 1]));
    assert(states[a].ok(goal));
    lemma_went(states[a], who[a], states[a + 1], goal);
    if who[a] == t {
        lemma_less_to_do(states, who, goal, a + 1, b);
    } else {
        lemma_still_can_go(states[a], who[a], states[a + 1], goal, t);
        lemma_its_move(states, who, goal, a + 1, i, b, t);
    }
}

/// When nothing is left to do, no turn is.
proof fn lemma_no_work(c: Crowd, goal: nat)
    requires
        c.ok(goal),
        c.work() == 0,
    ensures
        c.finished(),
{
    let works = Seq::new(c.at.len(), |t: int| work_of(c.at[t], c.left[t]));
    assert forall|t: int| 0 <= t < c.left.len() implies #[trigger] c.left[t] == 0 by {
        lemma_sum_update(works, t, 0);
        assert(works[t] == 0);
        assert(c.stand_ok(c.at[t], t));
        if c.at[t] is Holds {
            assert(c.holds(t));
        }
    }
}

/// With every round there is less to do, until nothing is.
proof fn lemma_rounds(
    states: Seq<Crowd>,
    who: Seq<int>,
    marks: Seq<int>,
    threads: nat,
    times: nat,
    value: usize,
    k: nat,
)
    requires
        course(states, who),
        states[0].gathered(threads, times, value),
        k < marks.len(),
        0 <= marks[0] <= who.len(),
        forall|k: int|
            0 <= k < marks.len() - 1 ==> round(states, who, #[trigger] marks[k], marks[k + 1]),
        forall|i: int|
            0 <= i < states.len() ==> (#[trigger] states[i]).ok(value as nat + threads * times),
    ensures
        0 <= marks[k as int] <= who.len(),
        states[marks[k as int]].work() == 0 || states[marks[k as int]].work() + k <= 3 * (threads
            * times),
    decreases k,
{
    let goal = value as nat + threads * times;
    if k == 0 {
        lemma_gathered(states[0], threads, times, value);
        lemma_less_to_do(states, who, goal, 0, marks[0]);
    } else {
        let a = marks[k - 1];
        let b = marks[k as int];
        lemma_rounds(states, who, marks, threads, times, value, (k - 1) as nat);
        assert(round(states, who, marks[k - 1], marks[k - 1 + 1]));
        assert(states[a].ok(goal));
        lemma_less_to_do(states, who, goal, a, b);
        if !states[a].finished() {
            somebody_can_go_on(states[a], goal);
            let t = choose|t: int| #[trigger] states[a].can_go(t);
            let i = choose|i: int| a <= i < b && #[trigger] who[i] == t;
            lemma_its_move(states, who, goal, a, i, b, t);
        } else {
            lemma_finished(states[a], goal);
        }
    }
}

/// When no turn is left, nothing is to do.
proof fn lemma_finished(c: Crowd, goal: nat)
    requires
        c.ok(goal),
        c.finished(),
    ensures
        c.work() == 0,
{
    let works = Seq::new(c.at.len(), |t: int| work_of(c.at[t], c.left[t]));
    assert forall|t: int| 0 <= t < works.len() implies #[trigger] works[t] == 0 by {
        assert(c.left[t] == 0);
        assert(c.stand_ok(c.at[t], t));
        if c.at[t] is Holds {
            assert(c.holds(t));
        }
    }
    lemma_sum_same(works, 0);
}

/// Every `lock` returns. In every round, everybody who can go on makes a move;
/// then after three rounds for every turn all turns have been taken, in
/// whatever order and however often the threads moved otherwise.
pub proof fn every_lock_returns(
    states: Seq<Crowd>,
    who: Seq<int>,
    marks: Seq<int>,
    threads: nat,
    times: nat,
    value: usize,
)
    requires
        course(states, who),
        states[0].gathered(threads, times, value),
        marks.len() > 3 * (threads * times),
        marks[0] >= 0,
        forall|k: int|
            0 <= k < marks.len() - 1 ==> round(states, who, #[trigger] marks[k], marks[k + 1]),
        marks.last() <= who.len(),
    ensures
        states[marks.last()].finished(),
        states[marks.last()].mutex.owner is Nobody,
        states[marks.last()].mutex.line().len() == 0,
        states[marks.last()].mutex.data is Some,
        states[marks.last()].mutex.data->0 == value + threads * times,
{
    let goal = value as nat + threads * times;
    assert forall|i: int| 0 <= i < states.len() implies (#[trigger] states[i]).ok(goal) by {
        everybody_gets_through(states, who, i as nat, threads, times, value);
    }
    let last = marks.len() - 1;
    lemma_rounds(states, who, marks, threads, times, value, last as nat);
    assert(marks[last] == marks.last());
    if last > 0 {
        assert(round(states, who, marks[last - 1], marks[last - 1 + 1]));
    }
    assert(states[marks[last]].ok(goal));
    lemma_no_work(states[marks[last]], goal);
    everybody_gets_through(states, who, marks[last] as nat, threads, times, value);
}

} // verus!
