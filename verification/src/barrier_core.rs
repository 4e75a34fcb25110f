//! The state machine behind the barrier.
//!
//! The state is one word, the generation of the current round above the number
//! of its arrivals, and a wait queue; a waiter's `aux` is the generation of the
//! round it waits for. The arrival that completes a round starts the next one
//! and releases everybody who waits for a round that is over.
//!
//! A first layer of methods are the turns threads take, in any order; the
//! whole operations are strung together from them.
use vstd::prelude::*;

use crate::barrier_word::{
    arrived_in, generation, lemma_halves, lemma_most_parties, lemma_new_round, most_parties,
    next_round, round_of, ARRIVED_MASK, HALF,
};
use crate::generations::{born, lemma_older, older};
use crate::pool::{returned, traded, QueuePool};
use crate::queue_word::Word;
use crate::sem_core::{pay, waiting};
use crate::signal::{
    Poll, SignalView, Wake, WakerSlot, SIGNAL_INIT_WAITING, SIGNAL_RETURNED, SIGNAL_SIGNALED,
};
use crate::sync_wait::{after_sync_step, SyncStep, SyncWaiter};
use crate::wait_queue::{LockAttempt, PoppedChain, WaitQueue, WaitQueueView};
use crate::waiters::{lemma_popped_front, lemma_remove, WaitersView};

verus! {

/// What an arrival is.
#[derive(Debug, PartialEq, Eq, Clone, Copy, Structural)]
pub enum ArriveOutcome {
    /// It completed the round of that generation; the caller leads it and has
    /// to release the others.
    Leader { generation: usize },
    /// It has to wait for the round of that generation to complete.
    Wait { generation: usize },
}

/// Who has the queue to itself.
pub enum BarrierHold {
    /// Nobody.
    Free,
    /// A thread that wants to queue a waiter; `seen` is the generation it saw.
    Enqueue { seen: Option<usize> },
    /// A leader, before it took out those whose round is over.
    Release,
    /// A leader, after it took them out.
    Released,
    /// A thread that takes a waiter out of the line.
    Remove,
}

/// The state of a barrier.
#[verifier::ext_equal]
pub struct BarrierView {
    /// The generation of the current round.
    pub generation: usize,
    /// How many have arrived in it.
    pub arrived: nat,
    /// How many complete a round.
    pub n: nat,
    /// The wait queue.
    pub queue: WaitQueueView,
    /// Who has the queue to itself.
    pub hold: BarrierHold,
    /// Leaders that have not yet taken the queue to release the others.
    pub owed: nat,
}

impl BarrierView {
    /// A barrier for `n` parties, or for one if `n` is zero, with nobody there.
    pub open spec fn fresh(n: nat) -> BarrierView {
        BarrierView {
            generation: 0,
            arrived: 0,
            n: if n == 0 {
                1
            } else {
                n
            },
            queue: WaitQueueView { door: Word::Unlocked, waiters: WaitersView::empty() },
            hold: BarrierHold::Free,
            owed: 0,
        }
    }

    /// The waiters.
    pub open spec fn w(self) -> WaitersView {
        self.queue.waiters
    }

    /// The node of a waiter.
    pub open spec fn node(self, id: usize) -> SignalView {
        self.queue.waiters.nodes[id as int]
    }

    /// The waiters in line.
    pub open spec fn line(self) -> Seq<usize> {
        self.queue.waiters.line
    }

    /// No thread has the queue to itself.
    pub open spec fn quiet(self) -> bool {
        self.hold is Free
    }

    /// The pointer word agrees with the line.
    pub open spec fn door_ok(self) -> bool {
        match self.hold {
            BarrierHold::Free => self.queue.door == if self.line().len() > 0 {
                Word::Queue
            } else {
                Word::Unlocked
            },
            _ => self.queue.door.held(),
        }
    }

    /// What a thread that queues a waiter relies on: if the round completes
    /// meanwhile, its leader owes the line a look.
    pub open spec fn hold_ok(self) -> bool {
        match self.hold {
            BarrierHold::Enqueue { seen } => match seen {
                None => true,
                Some(generation) => self.generation != generation ==> self.owed > 0
                    && forall|i: int|
                        0 <= i < self.line().len() ==> #[trigger] born(self.w(), i)
                            != self.generation,
            },
            _ => true,
        }
    }

    /// The line: its waiters are waiting, and those of the current round are
    /// its end.
    pub open spec fn line_ok(self) -> bool {
        &&& forall|i: int|
            0 <= i < self.line().len() ==> waiting(self.node(#[trigger] self.line()[i]))
        &&& forall|id: usize| #[trigger]
            self.w().popped.contains(id) ==> waiting(self.node(id))
        &&& forall|i: int, j: int|
            0 <= i < j < self.line().len() && #[trigger] born(self.w(), i) == self.generation
                ==> #[trigger] born(self.w(), j) == self.generation
    }

    /// Nobody waits for a round that is over, unless a leader is about to
    /// release them.
    pub open spec fn no_lost_wakeup(self) -> bool {
        forall|i: int|
            0 <= i < self.line().len() && #[trigger] born(self.w(), i) != self.generation
                ==> self.owed > 0 || self.hold is Release
    }

    /// What every turn of every thread keeps.
    pub open spec fn ok(self) -> bool {
        &&& 0 < self.n <= ARRIVED_MASK
        &&& self.arrived < self.n
        &&& self.generation <= ARRIVED_MASK
        &&& self.w().ok()
        &&& self.door_ok()
        &&& self.hold_ok()
        &&& self.line_ok()
        &&& self.no_lost_wakeup()
    }

    /// The state with another node.
    pub open spec fn with_node(self, id: usize, node: SignalView) -> BarrierView {
        BarrierView { queue: self.queue.with(self.w().with_node(id, node)), ..self }
    }

    /// The state with a new node.
    pub open spec fn with_new(self, id: usize, node: SignalView) -> BarrierView {
        BarrierView { queue: self.queue.with(self.w().with_new(id, node)), ..self }
    }

    /// The state after the thread that had the queue left it.
    pub open spec fn after_end(self) -> BarrierView {
        BarrierView { queue: self.queue.unlocked(), hold: BarrierHold::Free, ..self }
    }

    /// The next arrival completes the round.
    pub open spec fn completing(self) -> bool {
        self.arrived + 1 >= self.n
    }

    /// The state after an arrival.
    pub open spec fn after_arrive(self) -> BarrierView {
        if self.completing() {
            BarrierView {
                generation: next_round(self.generation),
                arrived: 0,
                owed: self.owed + 1,
                ..self
            }
        } else {
            BarrierView { arrived: self.arrived + 1, ..self }
        }
    }
}

/// A barrier.
pub struct BarrierCore {
    state: usize,
    queue: WaitQueue,
    n: usize,
    hold: Ghost<BarrierHold>,
    owed: Ghost<nat>,
}

impl View for BarrierCore {
    type V = BarrierView;

    closed spec fn view(&self) -> BarrierView {
        BarrierView {
            generation: round_of(self.state),
            arrived: arrived_in(self.state) as nat,
            n: self.n as nat,
            queue: self.queue@,
            hold: self.hold@,
            owed: self.owed@,
        }
    }
}

impl BarrierCore {
    /// The representation behind the view.
    pub closed spec fn inv(&self) -> bool {
        self.queue.inv()
    }

    /// The address of the structure that the line stands in.
    pub closed spec fn structure(&self) -> Option<usize> {
        self.queue.structure()
    }

    /// There is a structure exactly while there is a queue, and a published
    /// queue is never empty.
    pub proof fn lemma_structure(&self)
        requires
            self.wf(),
        ensures
            (self.structure() is None) == (self@.queue.door is Unlocked),
            self@.queue.door is Unlocked ==> self@.queue.waiters.line.len() == 0,
            self@.queue.door is Queue ==> self@.queue.waiters.line.len() > 0,
    {
        self.queue.lemma_wf();
    }

    /// Well-formedness, kept by every turn.
    pub open spec fn wf(&self) -> bool {
        self@.ok() && self.inv()
    }

    /// A barrier for `n` parties; for none it is one for a single party.
    pub fn new(n: usize) -> (r: Self)
        requires
            n <= most_parties(),
        ensures
            r.wf(),
            r.structure() is None,
            r@ == BarrierView::fresh(n as nat),
    {
        proof {
            lemma_zero();
            lemma_most_parties();
        }
        BarrierCore {
            state: 0,
            queue: WaitQueue::new(),
            n: if n == 0 {
                1
            } else {
                n
            },
            hold: Ghost(BarrierHold::Free),
            owed: Ghost(0),
        }
    }

    /// How many parties complete a round.
    pub fn parties(&self) -> (r: usize)
        ensures
            r == self@.n,
    {
        self.n
    }

    /// Registers an arrival. The one that completes the round starts the next.
    #[verifier::spinoff_prover]
    #[verifier::rlimit(60)]
    pub fn arrive(&mut self) -> (r: ArriveOutcome)
        requires
            old(self).wf(),
            old(self)@.completing() ==> forall|i: int|
                0 <= i < old(self)@.line().len() ==> #[trigger] born(old(self)@.w(), i)
                    != next_round(old(self)@.generation),
        ensures
            final(self).wf(),
            final(self).structure() == old(self).structure(),
            r == if old(self)@.completing() {
                ArriveOutcome::Leader { generation: old(self)@.generation }
            } else {
                ArriveOutcome::Wait { generation: old(self)@.generation }
            },
            final(self)@ == old(self)@.after_arrive(),
    {
        let cur: usize = self.state;
        proof {
            lemma_halves(cur);
            lemma_new_round(round_of(cur));
            lemma_most_parties();
        }
        let generation: usize = generation(cur);
        if (cur & ARRIVED_MASK) + 1 >= self.n {
            self.state = (generation + 1) << HALF;
            proof {
                self.owed = Ghost(self.owed@ + 1);
            }
            ArriveOutcome::Leader { generation }
        } else {
            self.state = cur + 1;
            ArriveOutcome::Wait { generation }
        }
    }

    /// Takes back an arrival in the round of `generation`, if that round is
    /// still forming. Returns whether it did.
    #[verifier::spinoff_prover]
    #[verifier::rlimit(60)]
    pub fn withdraw(&mut self, generation: usize) -> (r: bool)
        requires
            old(self).wf(),
            generation == old(self)@.generation ==> old(self)@.arrived > 0,
        ensures
            final(self).wf(),
            final(self).structure() == old(self).structure(),
            r == (generation == old(self)@.generation),
            final(self)@ == if r {
                BarrierView { arrived: (old(self)@.arrived - 1) as nat, ..old(self)@ }
            } else {
                old(self)@
            },
    {
        let cur: usize = self.state;
        proof {
            lemma_halves(cur);
        }
        if crate::barrier_word::generation(cur) == generation {
            self.state = cur - 1;
            true
        } else {
            false
        }
    }

    /// Takes the queue in order to queue a waiter.
    pub fn begin_enqueue(&mut self, pool: &mut QueuePool) -> (r: LockAttempt)
        requires
            old(self).wf(),
            old(pool)@.serves(old(self).structure()),
        ensures
            final(self).wf(),
            r == old(self)@.queue.attempt(true),
            !(r is Absent),
            final(self)@ == if r is Held {
                BarrierView {
                    queue: old(self)@.queue.locked(true),
                    hold: BarrierHold::Enqueue { seen: None },
                    ..old(self)@
                }
            } else {
                old(self)@
            },
            traded(old(pool)@, old(self).structure(), final(pool)@, final(self).structure()),
    {
        let r = self.queue.lock(true, pool);
        proof {
            if r is Held {
                self.hold = Ghost(BarrierHold::Enqueue { seen: None });
            }
        }
        r
    }

    /// Reads the generation while holding the queue: a round that is complete
    /// by now is seen here, and the leader of one that completes later finds
    /// the waiter in line.
    pub fn fresh(&mut self) -> (r: usize)
        requires
            old(self).wf(),
            old(self)@.hold is Enqueue,
        ensures
            final(self).wf(),
            final(self).structure() == old(self).structure(),
            r == old(self)@.generation,
            final(self)@ == (BarrierView {
                hold: BarrierHold::Enqueue { seen: Some(r) },
                ..old(self)@
            }),
    {
        let generation: usize = generation(self.state);
        proof {
            lemma_halves(self.state);
            self.hold = Ghost(BarrierHold::Enqueue { seen: Some(generation) });
        }
        generation
    }

    /// Adds a waiter for the round of generation `generation` to the end of
    /// the line.
    pub fn push_entry(&mut self, entry: usize, generation: usize)
        requires
            old(self).wf(),
            old(self)@.hold == (BarrierHold::Enqueue { seen: Some(generation) }),
            old(self)@.w().idle(entry),
            waiting(old(self)@.node(entry)),
        ensures
            final(self).wf(),
            final(self).structure() == old(self).structure(),
            final(self)@ == (BarrierView {
                queue: old(self)@.queue.with(
                    old(self)@.w().with_node(
                        entry,
                        (SignalView { aux: generation, ..old(self)@.node(entry) }),
                    ).pushed(entry),
                ),
                ..old(self)@
            }),
    {
        let ghost before = self@;
        self.queue.set_aux(entry, generation);
        self.queue.push(entry);
        proof {
            let after = self@;
            let n = before.line().len();
            assert(after.line()[n as int] == entry);
            assert(born(after.w(), n as int) == generation);
            assert forall|i: int| 0 <= i < n implies #[trigger] after.line()[i] == before.line()[i]
                && after.node(after.line()[i]) == before.node(before.line()[i]) && born(after.w(), i)
                == born(before.w(), i) by {
                assert(before.line().contains(before.line()[i]));
                assert(before.w().live(before.line()[i]));
            }
            assert forall|id: usize| #[trigger] after.w().popped.contains(id) implies waiting(
                after.node(id),
            ) by {
                assert(before.w().popped.contains(id));
                assert(waiting(before.node(id)));
            }
            assert forall|i: int, j: int|
                0 <= i < j < after.line().len() && #[trigger] born(after.w(), i)
                    == after.generation implies #[trigger] born(after.w(), j) == after.generation by {
                assert(after.line()[i] == before.line()[i]);
                if j < n {
                    assert(after.line()[j] == before.line()[j]);
                    assert(born(before.w(), j) == before.generation);
                } else {
                    assert(born(before.w(), i) == before.generation);
                }
            }
            assert forall|i: int|
                0 <= i < after.line().len() && #[trigger] born(after.w(), i)
                    != after.generation implies after.owed > 0 || after.hold is Release by {
                if i < n {
                    assert(after.line()[i] == before.line()[i]);
                    assert(born(before.w(), i) != before.generation);
                }
            }
            assert forall|i: int| 0 <= i < after.line().len() implies waiting(
                after.node(#[trigger] after.line()[i]),
            ) by {
                if i < n {
                    assert(waiting(before.node(before.line()[i])));
                }
            }
            if after.generation != generation {
                assert forall|i: int| 0 <= i < after.line().len() implies #[trigger] born(after.w(), i)
                    != after.generation by {
                    if i < n {
                        assert(after.line()[i] == before.line()[i]);
                        assert(born(before.w(), i) != before.generation);
                    }
                }
            }
        }
    }

    /// Leaves the queue.
    pub fn end(&mut self, pool: &mut QueuePool)
        requires
            old(self).wf(),
            !(old(self)@.hold is Free),
            !(old(self)@.hold is Release),
            old(pool)@.lends(old(self).structure()),
        ensures
            final(self).wf(),
            final(self)@ == old(self)@.after_end(),
            returned(old(pool)@, old(self).structure(), final(pool)@, final(self).structure()),
    {
        let ghost before = self@;
        self.queue.unlock(pool);
        proof {
            self.hold = Ghost(BarrierHold::Free);
            lemma_same_line(before, self@);
        }
    }

    /// Takes the queue in order to release those whose round is over, if there is a
    /// queue.
    pub fn begin_release(&mut self) -> (r: LockAttempt)
        requires
            old(self).wf(),
        ensures
            final(self).wf(),
            final(self).structure() == old(self).structure(),
            r == old(self)@.queue.attempt(false),
            final(self)@ == match r {
                LockAttempt::Busy => old(self)@,
                LockAttempt::Absent => (BarrierView { owed: pay(old(self)@.owed), ..old(self)@ }),
                LockAttempt::Held => (BarrierView {
                    owed: pay(old(self)@.owed),
                    queue: old(self)@.queue.locked(false),
                    hold: BarrierHold::Release,
                    ..old(self)@
                }),
            },
    {
        let ghost before = self@;
        let r = self.queue.lock_existing();
        proof {
            if !(r is Busy) {
                self.owed = Ghost(pay(self.owed@));
            }
            if r is Held {
                self.hold = Ghost(BarrierHold::Release);
                assert forall|i: int, j: int|
                    0 <= i < j < self@.line().len() && #[trigger] born(self@.w(), i)
                        == self@.generation implies #[trigger] born(self@.w(), j)
                    == self@.generation by {
                    assert(born(before.w(), i) == born(self@.w(), i));
                    assert(born(before.w(), j) == born(self@.w(), j));
                }
            }
        }
        r
    }

    /// Takes those out of the line whose round is over.
    pub fn pop_older(&mut self) -> (chain: PoppedChain)
        requires
            old(self).wf(),
            old(self)@.hold is Release,
        ensures
            final(self).wf(),
            final(self).structure() == old(self).structure(),
            chain@ == old(self)@.line().take(
                older(old(self)@.w(), old(self)@.generation, 0) as int,
            ),
            final(self)@ == (BarrierView {
                queue: old(self)@.queue.with(
                    old(self)@.w().popped_front(
                        older(old(self)@.w(), old(self)@.generation, 0) as int,
                    ),
                ),
                hold: BarrierHold::Released,
                ..old(self)@
            }),
            final(self)@.w().owns_chain(chain@),
    {
        let ghost before = self@;
        let ghost w0 = self@.w();
        let ghost state = self.state;
        let live: usize = generation(self.state);
        let mut chain = PoppedChain::new();
        let ghost mut i: int = 0;
        let mut more: bool = true;
        proof {
            assert(w0.popped_front(0) =~= w0);
            assert(w0.line.take(0) =~= Seq::<usize>::empty());
        }
        while more
            invariant
                before.ok(),
                w0 == before.w(),
                live == before.generation,
                self.state == state,
                before.queue.held(),
                self.queue.wf(),
                self.queue.structure() == old(self).queue.structure(),
                self@ == (BarrierView { queue: self.queue@, ..before }),
                0 <= i <= w0.line.len(),
                chain@ == w0.line.take(i),
                self.queue@ == before.queue.with(w0.popped_front(i)),
                older(w0, live, 0) == i + if more {
                    older(w0, live, i)
                } else {
                    0
                },
            decreases w0.line.len() - i, if more { 1int } else { 0 },
        {
            match self.queue.first() {
                Some(front) => {
                    assert(front == w0.line[i]);
                    assert(w0.live(w0.line[i]));
                    if self.queue.aux(front) == live {
                        more = false;
                    } else {
                        let popped = self.queue.pop();
                        if let Some(id) = popped {
                            chain.append(id);
                        }
                        proof {
                            lemma_popped_front(w0, i);
                            assert(w0.line.take(i + 1) =~= w0.line.take(i).push(w0.line[i]));
                            i = i + 1;
                        }
                    }
                },
                None => {
                    more = false;
                },
            }
        }
        proof {
            self.hold = Ghost(BarrierHold::Released);
            lemma_older(w0, live, 0);
            lemma_popped_ok(before, self@, i);
            let ids = chain@;
            assert forall|p: int| 0 <= p < ids.len() implies self@.w().popped.contains(
                #[trigger] ids[p],
            ) by {
                assert(ids.to_set().contains(ids[p]));
            }
        }
        chain
    }

    /// Takes the queue in order to leave the line, if there is a queue.
    pub fn begin_remove(&mut self) -> (r: LockAttempt)
        requires
            old(self).wf(),
        ensures
            final(self).wf(),
            final(self).structure() == old(self).structure(),
            r == old(self)@.queue.attempt(false),
            final(self)@ == if r is Held {
                BarrierView {
                    queue: old(self)@.queue.locked(false),
                    hold: BarrierHold::Remove,
                    ..old(self)@
                }
            } else {
                old(self)@
            },
    {
        let ghost before = self@;
        let r = self.queue.lock_existing();
        proof {
            if r is Held {
                self.hold = Ghost(BarrierHold::Remove);
                lemma_same_line(before, self@);
            }
        }
        r
    }

    /// Takes a waiter out of the line. Returns whether it was in line.
    pub fn remove_entry(&mut self, entry: usize) -> (r: bool)
        requires
            old(self).wf(),
            old(self)@.hold is Remove,
            old(self)@.w().live(entry),
        ensures
            final(self).wf(),
            final(self).structure() == old(self).structure(),
            r == old(self)@.line().contains(entry),
            final(self)@ == (BarrierView {
                queue: old(self)@.queue.with(old(self)@.w().removed(entry)),
                ..old(self)@
            }),
            r ==> final(self)@.w().idle(entry),
    {
        let ghost before = self@;
        let found = self.queue.remove(entry);
        proof {
            if found {
                let line = before.line();
                lemma_remove(line, entry);
                let k = line.index_of(entry);
                let after = self@;
                let left = after.line();
                assert forall|i: int| 0 <= i < left.len() implies #[trigger] left[i] == line[if i
                    < k {
                    i
                } else {
                    i + 1
                }] by {}
                assert forall|i: int| 0 <= i < left.len() implies #[trigger] born(after.w(), i)
                    == born(before.w(), 
                    if i < k {
                        i
                    } else {
                        i + 1
                    },
                ) by {
                    assert(left[i] == line[if i < k {
                        i
                    } else {
                        i + 1
                    }]);
                }
            }
        }
        found
    }

    /// Sends `value` to the waiters of a chain, front to back. Returns whom to
    /// wake.
    pub fn signal_all(&mut self, chain: PoppedChain, value: usize) -> (r: Vec<Wake>)
        requires
            old(self).wf(),
            old(self)@.w().owns_chain(chain@),
        ensures
            final(self).wf(),
            final(self).structure() == old(self).structure(),
            final(self)@ == (BarrierView {
                queue: old(self)@.queue.with(old(self)@.w().after_signals(chain@, value)),
                ..old(self)@
            }),
            r@ == old(self)@.w().wakes(chain@),
    {
        let ghost before = self@;
        let ghost ids = chain@;
        let wakes = chain.signal_all(&mut self.queue, value);
        proof {
            lemma_signaled_ok(before, self@, ids);
        }
        wakes
    }

    /// Makes the node of a thread.
    pub fn prepare_sync(&mut self, thread: usize) -> (entry: usize)
        requires
            old(self).wf(),
        ensures
            final(self).wf(),
            final(self).structure() == old(self).structure(),
            old(self)@.w().vacant(entry),
            final(self)@ == old(self)@.with_new(entry, SignalView::fresh_sync(thread)),
            final(self)@.w().idle(entry),
            final(self)@.node(entry) == SignalView::fresh_sync(thread),
    {
        let ghost before = self@;
        let entry: usize = self.queue.add_sync(thread);
        proof {
            lemma_barrier_new(before, entry, SignalView::fresh_sync(thread));
        }
        entry
    }

    /// Makes the node of a task.
    pub fn prepare_async(&mut self) -> (entry: usize)
        requires
            old(self).wf(),
        ensures
            final(self).wf(),
            final(self).structure() == old(self).structure(),
            old(self)@.w().vacant(entry),
            final(self)@ == old(self)@.with_new(entry, SignalView::fresh_none()),
            final(self)@.w().idle(entry),
            final(self)@.node(entry) == SignalView::fresh_none(),
    {
        let ghost before = self@;
        let entry: usize = self.queue.add_none();
        proof {
            lemma_barrier_new(before, entry, SignalView::fresh_none());
        }
        entry
    }

    /// Reads the signal.
    pub fn value(&self, entry: usize) -> (r: usize)
        requires
            self.wf(),
            self@.w().live(entry),
        ensures
            r == self@.node(entry).value,
    {
        self.queue.value(entry)
    }

    /// Reads the generation of the round that the waiter waits for.
    pub fn round(&self, entry: usize) -> (r: usize)
        requires
            self.wf(),
            self@.w().live(entry),
        ensures
            r == self@.node(entry).aux,
    {
        self.queue.aux(entry)
    }

    /// Re-arms the waker of a queued task, or learns that its signal is there.
    pub fn rearm(&mut self, entry: usize, waker: usize) -> (r: Poll<usize>)
        requires
            old(self).wf(),
            old(self)@.w().live(entry),
        ensures
            final(self).wf(),
            final(self).structure() == old(self).structure(),
            old(self)@.node(entry).waker is Empty ==> final(self)@ == old(self)@ && r
                == Poll::Ready(old(self)@.node(entry).value),
            !(old(self)@.node(entry).waker is Empty)
                ==> r is Pending && final(self)@ == old(self)@.with_node(
                entry,
                (SignalView { waker: WakerSlot::Async(waker), ..old(self)@.node(entry) }),
            ),
    {
        let ghost before = self@;
        let r = self.queue.rearm(entry, waker);
        proof {
            if r is Pending {
                let node = SignalView { waker: WakerSlot::Async(waker), ..before.node(entry) };
                assert(self@ =~= before.with_node(entry, node));
                if before.line().contains(entry) {
                    assert(waiting(before.node(before.line()[before.line().index_of(entry)])));
                }
                if before.w().popped.contains(entry) {
                    assert(waiting(before.node(entry)));
                }
                lemma_barrier_node(before, entry, node);
            }
        }
        r
    }

    /// Registers the task to wake, which from now on waits.
    pub fn arm(&mut self, entry: usize, waker: usize)
        requires
            old(self).wf(),
            old(self)@.w().live(entry),
        ensures
            final(self).wf(),
            final(self).structure() == old(self).structure(),
            final(self)@ == old(self)@.with_node(
                entry,
                (SignalView {
                    value: SIGNAL_INIT_WAITING,
                    waker: WakerSlot::Async(waker),
                    ..old(self)@.node(entry)
                }),
            ),
    {
        let ghost before = self@;
        let ghost node = SignalView {
            value: SIGNAL_INIT_WAITING,
            waker: WakerSlot::Async(waker),
            ..before.node(entry)
        };
        self.queue.set_value(entry, SIGNAL_INIT_WAITING);
        self.queue.register(entry, waker);
        proof {
            assert(self@ =~= before.with_node(entry, node));
            lemma_barrier_node(before, entry, node);
        }
    }

    /// Marks a task's request as completed.
    pub fn complete(&mut self, entry: usize)
        requires
            old(self).wf(),
            old(self)@.w().idle(entry),
        ensures
            final(self).wf(),
            final(self).structure() == old(self).structure(),
            final(self)@ == old(self)@.with_node(
                entry,
                (SignalView { value: SIGNAL_RETURNED, ..old(self)@.node(entry) }),
            ),
    {
        let ghost before = self@;
        self.queue.set_value(entry, SIGNAL_RETURNED);
        proof {
            lemma_barrier_node(
                before,
                entry,
                SignalView { value: SIGNAL_RETURNED, ..before.node(entry) },
            );
        }
    }

    /// Gives a node back.
    pub fn discard(&mut self, entry: usize)
        requires
            old(self).wf(),
            old(self)@.w().idle(entry),
        ensures
            final(self).wf(),
            final(self).structure() == old(self).structure(),
            final(self)@ == old(self)@.with_node(entry, SignalView::dead()),
    {
        let ghost before = self@;
        self.queue.discard(entry);
        proof {
            lemma_barrier_node(before, entry, SignalView::dead());
        }
    }

    /// One look of a waiting thread at its node.
    pub fn sync_step(&mut self, waiter: &mut SyncWaiter) -> (r: SyncStep)
        requires
            old(self).wf(),
            old(self)@.w().live(old(waiter)@.entry),
            !(old(self)@.node(old(waiter)@.entry).waker is Empty) || old(self)@.node(
                old(waiter)@.entry,
            ).value >= SIGNAL_SIGNALED,
        ensures
            final(self).wf(),
            final(self).structure() == old(self).structure(),
            r == old(waiter)@.step(old(self)@.node(old(waiter)@.entry).value),
            final(waiter)@ == old(waiter)@.after_step(old(self)@.node(old(waiter)@.entry).value),
            final(self)@ == (BarrierView {
                queue: after_sync_step(old(self)@.queue, old(waiter)@),
                ..old(self)@
            }),
    {
        let ghost before = self@;
        let ghost entry = waiter@.entry;
        let ghost node = SignalView {
            value: waiter@.value_after(before.node(entry).value),
            ..before.node(entry)
        };
        let r = waiter.step(&mut self.queue);
        proof {
            assert(self@ =~= before.with_node(entry, node));
            if before.line().contains(entry) {
                assert(waiting(before.node(before.line()[before.line().index_of(entry)])));
            }
            if before.w().popped.contains(entry) {
                assert(waiting(before.node(entry)));
            }
            lemma_barrier_node(before, entry, node);
        }
        r
    }
}

/// An empty state word.
pub proof fn lemma_zero()
    ensures
        round_of(0) == 0,
        arrived_in(0) == 0,
        1 <= ARRIVED_MASK,
{
    let half = HALF;
    let mask = ARRIVED_MASK;
    assert(0usize >> half == 0 && 0usize & mask == 0 && 1 <= mask) by (bit_vector)
        requires
            half == usize::BITS / 2,
            mask == !0usize >> half,
    ;
}

/// What the line keeps when only the door changes.
proof fn lemma_same_line(before: BarrierView, after: BarrierView)
    requires
        before.ok(),
        !(before.hold is Release),
        after.w() == before.w(),
        after.generation == before.generation,
        after.owed == before.owed,
    ensures
        after.line_ok(),
        after.no_lost_wakeup(),
{
    assert forall|i: int| 0 <= i < after.line().len() implies #[trigger] born(after.w(), i)
        == born(before.w(), i) by {}
}

/// Taking waiters out at the front keeps what every turn keeps.
proof fn lemma_popped_ok(before: BarrierView, after: BarrierView, k: int)
    requires
        before.ok(),
        0 <= k <= before.line().len(),
        after == (BarrierView {
            queue: before.queue.with(before.w().popped_front(k)),
            hold: after.hold,
            ..before
        }),
        before.hold is Release,
        after.hold is Released,
        k == older(before.w(), before.generation, 0),
        after.w().ok(),
    ensures
        after.ok(),
{
    lemma_older(before.w(), before.generation, 0);
    let w = before.w();
    assert forall|i: int| 0 <= i < after.line().len() implies #[trigger] after.line()[i]
        == before.line()[i + k] by {}
    assert forall|i: int| 0 <= i < after.line().len() implies #[trigger] born(after.w(), i)
        == born(before.w(), i + k) by {
        assert(after.line()[i] == before.line()[i + k]);
    }
    if before.hold is Release && k < before.line().len() {
        assert(born(before.w(), k) == before.generation);
        assert forall|i: int| 0 <= i < after.line().len() implies #[trigger] born(after.w(), i)
            == after.generation by {
            assert(born(after.w(), i) == born(before.w(), i + k));
        }
    }
    assert forall|id: usize| #[trigger] after.w().popped.contains(id) implies waiting(
        after.node(id),
    ) by {
        if !before.w().popped.contains(id) {
            let p = w.line.take(k).index_of(id);
            assert(w.line[p] == id);
            assert(waiting(before.node(before.line()[p])));
        } else {
            assert(waiting(before.node(id)));
        }
    }
}

/// Signaling waiters that were taken out keeps what every turn keeps.
proof fn lemma_signaled_ok(before: BarrierView, after: BarrierView, ids: Seq<usize>)
    requires
        before.ok(),
        before.w().owns_chain(ids),
        after == (BarrierView { queue: after.queue, ..before }),
        after.queue == before.queue.with(after.w()),
        after.w().ok(),
        after.line() == before.line(),
        after.w().nodes.len() == before.w().nodes.len(),
        forall|id: usize| #[trigger]
            after.w().popped.contains(id) ==> before.w().popped.contains(id) && !ids.contains(id),
        forall|j: usize|
            j < before.w().nodes.len() && !ids.contains(j) ==> #[trigger] after.node(j)
                == before.node(j),
    ensures
        after.ok(),
{
    assert forall|i: int| 0 <= i < after.line().len() implies after.node(
        #[trigger] after.line()[i],
    ) == before.node(before.line()[i]) && born(after.w(), i) == born(before.w(), i) by {
        let id = before.line()[i];
        assert(before.line().contains(id));
        assert(before.w().live(id));
        if ids.contains(id) {
            assert(before.w().popped.contains(ids[ids.index_of(id)]));
        }
        assert(after.node(id) == before.node(id));
    }
    assert forall|i: int, j: int|
        0 <= i < j < after.line().len() && #[trigger] born(after.w(), i)
            == after.generation implies #[trigger] born(after.w(), j) == after.generation by {
        assert(after.node(after.line()[i]) == before.node(before.line()[i]));
        assert(after.node(after.line()[j]) == before.node(before.line()[j]));
        assert(born(before.w(), i) == before.generation);
        assert(born(before.w(), j) == before.generation);
    }
    assert forall|i: int|
        0 <= i < after.line().len() && #[trigger] born(after.w(), i)
            != after.generation implies after.owed > 0 || after.hold is Release by {
        assert(after.node(after.line()[i]) == before.node(before.line()[i]));
        assert(born(before.w(), i) != before.generation);
    }
    assert forall|id: usize| #[trigger] after.w().popped.contains(id) implies waiting(
        after.node(id),
    ) by {
        assert(before.w().live(id));
        assert(waiting(before.node(id)));
    }
    if before.hold is Enqueue && before.hold->seen is Some
        && before.generation != before.hold->seen->0 {
        assert forall|i: int| 0 <= i < after.line().len() implies #[trigger] born(after.w(), i)
            != after.generation by {
            assert(after.node(after.line()[i]) == before.node(before.line()[i]));
            assert(born(before.w(), i) != before.generation);
        }
    }
}

/// Rewriting a node keeps what every turn keeps, as long as a queued waiter
/// stays one of its generation.
proof fn lemma_barrier_node(v: BarrierView, id: usize, node: SignalView)
    requires
        v.ok(),
        v.w().live(id),
        v.w().idle(id) || node.live && waiting(node) && node.aux == v.node(id).aux,
    ensures
        v.with_node(id, node).ok(),
{
    let a = v.with_node(id, node);
    assert forall|i: int| 0 <= i < a.line().len() implies a.w().live(#[trigger] a.line()[i])
        && waiting(a.node(a.line()[i])) && born(a.w(), i) == born(v.w(), i) by {
        assert(v.w().live(v.line()[i]));
        assert(waiting(v.node(v.line()[i])));
        assert(v.line().contains(v.line()[i]));
    }
    lemma_same_born(v, a);
    assert forall|x: usize| #[trigger] a.w().popped.contains(x) implies a.w().live(x)
        && !a.line().contains(x) && waiting(a.node(x)) by {
        assert(v.w().popped.contains(x));
        assert(waiting(v.node(x)));
    }
}

/// So does a new node.
proof fn lemma_barrier_new(v: BarrierView, id: usize, node: SignalView)
    requires
        v.ok(),
        !v.w().live(id),
        id <= v.w().nodes.len(),
        v.with_new(id, node).w().ok(),
    ensures
        v.with_new(id, node).ok(),
{
    let a = v.with_new(id, node);
    assert forall|i: int| 0 <= i < a.line().len() implies a.node(#[trigger] a.line()[i]) == v.node(
        v.line()[i],
    ) && born(a.w(), i) == born(v.w(), i) by {
        assert(v.w().live(v.line()[i]));
    }
    lemma_same_born(v, a);
    assert forall|x: usize| #[trigger] a.w().popped.contains(x) implies a.node(x) == v.node(x) by {
        assert(v.w().live(x));
    }
}

/// A line in which nobody's generation has changed.
proof fn lemma_same_born(v: BarrierView, a: BarrierView)
    requires
        v.ok(),
        a.line() == v.line(),
        a.generation == v.generation,
        a.hold == v.hold,
        a.owed == v.owed,
        forall|i: int| 0 <= i < v.line().len() ==> a.node(#[trigger] v.line()[i]).aux == born(v.w(), i),
    ensures
        a.hold_ok(),
        a.no_lost_wakeup(),
        forall|i: int, j: int|
            0 <= i < j < a.line().len() && #[trigger] born(a.w(), i) == a.generation
                ==> #[trigger] born(a.w(), j) == a.generation,
{
    assert forall|i: int| 0 <= i < a.line().len() implies #[trigger] born(a.w(), i)
        == born(v.w(), i) by {
        assert(a.node(v.line()[i]).aux == born(v.w(), i));
    }
}

} // verus!
