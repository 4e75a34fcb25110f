//! The state machine behind the once-cell.
//!
//! The cell is empty, being initialized, or ready. Whoever finds it empty takes
//! the role of the initializer; whoever comes while somebody has that role
//! waits in line. A successful initializer releases everybody. One that fails,
//! or is dropped, hands the role to the first in line, its heir.
//!
//! A first layer of methods are the turns threads take, in any order; the
//! whole operations are strung together from them.
use vstd::prelude::*;

use crate::pool::{returned, traded, QueuePool};
use crate::queue_word::Word;
use crate::sem_core::{pay, waiting};
use crate::signal::{
    SignalView, Wake, WakerSlot, SIGNAL_INIT_WAITING, SIGNAL_RETRY, SIGNAL_RETURNED,
    SIGNAL_SIGNALED, SIGNAL_UNINIT,
};
use crate::sync_wait::{after_sync_step, SyncStep, SyncWaiter};
use crate::wait_queue::{LockAttempt, PoppedChain, WaitQueue, WaitQueueView};
use crate::waiters::{lemma_popped_front, lemma_remove, WaitersView};

verus! {

/// The state of the value.
#[derive(Debug, PartialEq, Eq, Clone, Copy, Structural)]
pub enum Phase {
    /// No value, no initializer running.
    Empty,
    /// An initializer is running.
    Running,
    /// The value is there, for good.
    Ready,
}

/// Who has the queue to itself.
pub enum OnceHold {
    /// Nobody.
    Free,
    /// A thread that wants to queue a waiter; `seen` says whether it saw an
    /// initializer running.
    Enqueue { seen: bool },
    /// A thread that releases everybody.
    WakeAll,
    /// A thread that hands the role on.
    WakeOne,
    /// A thread that takes a waiter out of the line.
    Remove,
}

/// The state of a once-cell.
#[verifier::ext_equal]
pub struct OnceView<T> {
    /// How far the value is.
    pub phase: Phase,
    /// The value.
    pub value: Option<T>,
    /// The wait queue.
    pub queue: WaitQueueView,
    /// Who has the queue to itself.
    pub hold: OnceHold,
    /// Initializers that succeeded and have not yet taken the queue to release
    /// the waiters.
    pub drains: nat,
    /// Threads that gave the role up and have not yet taken the queue to hand
    /// it on.
    pub offers: nat,
    /// Waiters that were offered the role and have not decided yet.
    pub heirs: Set<usize>,
}

/// What a once-cell waiter's node holds.
pub open spec fn once_node_ok(node: SignalView) -> bool {
    &&& node.value == SIGNAL_UNINIT || node.value == SIGNAL_INIT_WAITING || node.value
        == SIGNAL_SIGNALED || node.value == SIGNAL_RETRY || node.value == SIGNAL_RETURNED
    &&& node.aux == 0
    &&& node.granted == 0
}

impl<T> OnceView<T> {
    /// A cell that holds `value`, or an empty one, with nobody waiting.
    pub open spec fn fresh(value: Option<T>) -> OnceView<T> {
        OnceView {
            phase: if value is Some {
                Phase::Ready
            } else {
                Phase::Empty
            },
            value,
            queue: WaitQueueView { door: Word::Unlocked, waiters: WaitersView::empty() },
            hold: OnceHold::Free,
            drains: 0,
            offers: 0,
            heirs: Set::<usize>::empty(),
        }
    }

    /// The waiters.
    pub open spec fn w(self) -> WaitersView {
        self.queue.waiters
    }

    /// The node of a waiter.
    pub open spec fn node(self, id: usize) -> SignalView {
        self.queue.waiters.nodes[id as int]
    }

    /// The waiters in line.
    pub open spec fn line(self) -> Seq<usize> {
        self.queue.waiters.line
    }

    /// No thread has the queue to itself.
    pub open spec fn quiet(self) -> bool {
        self.hold is Free
    }

    /// The pointer word agrees with the line.
    pub open spec fn door_ok(self) -> bool {
        match self.hold {
            OnceHold::Free => self.queue.door == if self.line().len() > 0 {
                Word::Queue
            } else {
                Word::Unlocked
            },
            _ => self.queue.door.held(),
        }
    }

    /// What a thread that queues a waiter relies on: if the initializer it saw
    /// is done, somebody is about to look at the line.
    pub open spec fn hold_ok(self) -> bool {
        match self.hold {
            OnceHold::Enqueue { seen } => seen ==> match self.phase {
                Phase::Running => true,
                Phase::Ready => self.drains > 0,
                Phase::Empty => self.drains > 0 || self.offers > 0,
            },
            _ => true,
        }
    }

    /// Nobody waits in vain: if somebody is in line, an initializer is running,
    /// or somebody is about to release the line or to hand the role to it, or
    /// has been offered the role.
    pub open spec fn no_lost_wakeup(self) -> bool {
        &&& self.line().len() > 0 ==> self.phase is Running || self.drains > 0 || self.offers > 0
            || self.heirs.len() > 0 || self.hold is WakeAll || self.hold is WakeOne
        &&& self.line().len() > 0 && self.phase is Ready ==> self.drains > 0
            || self.hold is WakeAll
    }

    /// The nodes: those in line wait, a released one finds the value, and one
    /// that was offered the role is an heir.
    pub open spec fn nodes_ok(self) -> bool {
        &&& forall|i: int|
            0 <= i < self.line().len() ==> waiting(self.node(#[trigger] self.line()[i]))
                && !self.heirs.contains(self.line()[i])
        &&& forall|id: usize| #[trigger]
            self.w().popped.contains(id) ==> waiting(self.node(id)) && (self.heirs.contains(id)
                || self.phase is Ready)
        &&& forall|id: usize| #[trigger]
            self.w().live(id) ==> once_node_ok(self.node(id)) && (self.node(id).value
                == SIGNAL_SIGNALED ==> self.phase is Ready) && (self.node(id).value == SIGNAL_RETRY
                ==> self.heirs.contains(id))
        &&& forall|id: usize| #[trigger]
            self.heirs.contains(id) ==> self.w().live(id) && (self.w().popped.contains(id)
                || self.node(id).value == SIGNAL_RETRY)
    }

    /// What every turn of every thread keeps.
    pub open spec fn ok(self) -> bool {
        &&& self.w().ok()
        &&& self.heirs.finite()
        &&& (self.phase is Ready) == (self.value is Some)
        &&& self.door_ok()
        &&& self.hold_ok()
        &&& self.no_lost_wakeup()
        &&& self.nodes_ok()
    }

    /// The state with another node.
    pub open spec fn with_node(self, id: usize, node: SignalView) -> OnceView<T> {
        OnceView { queue: self.queue.with(self.w().with_node(id, node)), ..self }
    }

    /// The state with a new node.
    pub open spec fn with_new(self, id: usize, node: SignalView) -> OnceView<T> {
        OnceView { queue: self.queue.with(self.w().with_new(id, node)), ..self }
    }

    /// The state after the thread that had the queue left it.
    pub open spec fn after_end(self) -> OnceView<T> {
        OnceView { queue: self.queue.unlocked(), hold: OnceHold::Free, ..self }
    }
}

/// A once-cell.
pub struct OnceCellInternal<T> {
    phase: Phase,
    value: Option<T>,
    queue: WaitQueue,
    hold: Ghost<OnceHold>,
    drains: Ghost<nat>,
    offers: Ghost<nat>,
    heirs: Ghost<Set<usize>>,
}

impl<T> View for OnceCellInternal<T> {
    type V = OnceView<T>;

    closed spec fn view(&self) -> OnceView<T> {
        OnceView {
            phase: self.phase,
            value: self.value,
            queue: self.queue@,
            hold: self.hold@,
            drains: self.drains@,
            offers: self.offers@,
            heirs: self.heirs@,
        }
    }
}

impl<T> OnceCellInternal<T> {
    /// The representation behind the view.
    pub closed spec fn inv(&self) -> bool {
        self.queue.inv()
    }

    /// The address of the structure that the line stands in.
    pub closed spec fn structure(&self) -> Option<usize> {
        self.queue.structure()
    }

    /// There is a structure exactly while there is a queue, and a published
    /// queue is never empty.
    pub proof fn lemma_structure(&self)
        requires
            self.wf(),
        ensures
            (self.structure() is None) == (self@.queue.door is Unlocked),
            self@.queue.door is Unlocked ==> self@.queue.waiters.line.len() == 0,
            self@.queue.door is Queue ==> self@.queue.waiters.line.len() > 0,
    {
        self.queue.lemma_wf();
    }

    /// Well-formedness, kept by every turn.
    pub open spec fn wf(&self) -> bool {
        self@.ok() && self.inv()
    }

    /// A cell that holds `value`, or an empty one.
    pub fn new_with(value: Option<T>) -> (r: Self)
        ensures
            r.wf(),
            r.structure() is None,
            r@ == OnceView::fresh(value),
    {
        OnceCellInternal {
            phase: if value.is_some() {
                Phase::Ready
            } else {
                Phase::Empty
            },
            value,
            queue: WaitQueue::new(),
            hold: Ghost(OnceHold::Free),
            drains: Ghost(0),
            offers: Ghost(0),
            heirs: Ghost(Set::empty()),
        }
    }

    /// How far the value is.
    pub fn phase(&self) -> (r: Phase)
        ensures
            r == self@.phase,
    {
        self.phase
    }

    /// Whether the value is there.
    pub fn is_ready(&self) -> (r: bool)
        ensures
            r == (self@.phase is Ready),
    {
        self.phase == Phase::Ready
    }

    /// The value, if it is there.
    pub fn get(&self) -> (r: Option<&T>)
        requires
            self.wf(),
        ensures
            (r is Some) == (self@.phase is Ready),
            r matches Some(v) ==> self@.value == Some(*v),
    {
        self.value.as_ref()
    }

    /// The value, to change, if it is there.
    pub fn get_mut(&mut self) -> (r: Option<&mut T>)
        requires
            old(self).wf(),
        ensures
            final(self).structure() == old(self).structure(),
            (r is Some) == (old(self)@.phase is Ready),
            match r {
                Some(v) => old(self)@.value == Some(*v) && final(self)@ == (OnceView {
                    value: Some(*final(v)),
                    ..old(self)@
                }),
                None => final(self)@ == old(self)@,
            },
            final(self).inv(),
    {
        self.value.as_mut()
    }

    /// Takes the value out, if it is there, leaving an empty cell. Nobody else
    /// is using the cell.
    pub fn take(&mut self) -> (r: Option<T>)
        requires
            old(self).wf(),
            old(self)@.quiet(),
            forall|id: usize| !#[trigger] old(self)@.w().live(id),
        ensures
            final(self).wf(),
            final(self).structure() == old(self).structure(),
            r == old(self)@.value,
            final(self)@ == if r is Some {
                OnceView { phase: Phase::Empty, value: None, ..old(self)@ }
            } else {
                old(self)@
            },
    {
        proof {
            if self@.line().len() > 0 {
                assert(self@.w().live(self@.line()[0]));
            }
            assert forall|id: usize| !#[trigger] self@.w().popped.contains(id) by {
                assert(!self@.w().live(id));
            }
        }
        if self.is_ready() {
            self.phase = Phase::Empty;
            self.value.take()
        } else {
            None
        }
    }

    /// Takes the role of the initializer, if the cell is empty.
    pub fn try_begin_init(&mut self) -> (r: Result<(), Phase>)
        requires
            old(self).wf(),
        ensures
            final(self).wf(),
            final(self).structure() == old(self).structure(),
            r == if old(self)@.phase is Empty {
                Ok(())
            } else {
                Err(old(self)@.phase)
            },
            final(self)@ == if r is Ok {
                OnceView { phase: Phase::Running, ..old(self)@ }
            } else {
                old(self)@
            },
    {
        if self.phase == Phase::Empty {
            self.phase = Phase::Running;
            Ok(())
        } else {
            Err(self.phase)
        }
    }

    /// Stores the value and publishes it. The caller owes the waiters their
    /// release.
    pub fn publish(&mut self, value: T)
        requires
            old(self).wf(),
            old(self)@.phase is Running,
        ensures
            final(self).wf(),
            final(self).structure() == old(self).structure(),
            final(self)@ == (OnceView {
                phase: Phase::Ready,
                value: Some(value),
                drains: old(self)@.drains + 1,
                ..old(self)@
            }),
    {
        self.value = Some(value);
        self.phase = Phase::Ready;
        proof {
            self.drains = Ghost(self.drains@ + 1);
        }
    }

    /// Gives the role up. The caller owes the first in line an offer.
    pub fn step_down(&mut self)
        requires
            old(self).wf(),
            old(self)@.phase is Running,
        ensures
            final(self).wf(),
            final(self).structure() == old(self).structure(),
            final(self)@ == (OnceView {
                phase: Phase::Empty,
                offers: old(self)@.offers + 1,
                ..old(self)@
            }),
    {
        self.phase = Phase::Empty;
        proof {
            self.offers = Ghost(self.offers@ + 1);
        }
    }

    /// Takes the queue in order to release everybody, if there is a queue.
    pub fn begin_wake_all(&mut self) -> (r: LockAttempt)
        requires
            old(self).wf(),
            old(self)@.phase is Ready,
        ensures
            final(self).wf(),
            final(self).structure() == old(self).structure(),
            r == old(self)@.queue.attempt(false),
            final(self)@ == match r {
                LockAttempt::Busy => old(self)@,
                LockAttempt::Absent => (OnceView { drains: pay(old(self)@.drains), ..old(self)@ }),
                LockAttempt::Held => (OnceView {
                    drains: pay(old(self)@.drains),
                    queue: old(self)@.queue.locked(false),
                    hold: OnceHold::WakeAll,
                    ..old(self)@
                }),
            },
    {
        let r = self.queue.lock_existing();
        proof {
            if !(r is Busy) {
                self.drains = Ghost(pay(self.drains@));
            }
            if r is Held {
                self.hold = Ghost(OnceHold::WakeAll);
            }
        }
        r
    }

    /// Takes everybody out of the line.
    pub fn pop_all(&mut self) -> (chain: PoppedChain)
        requires
            old(self).wf(),
            old(self)@.hold is WakeAll,
            old(self)@.phase is Ready,
        ensures
            final(self).wf(),
            final(self).structure() == old(self).structure(),
            chain@ == old(self)@.line(),
            final(self)@ == (OnceView {
                queue: old(self)@.queue.with(
                    old(self)@.w().popped_front(old(self)@.line().len() as int),
                ),
                ..old(self)@
            }),
            final(self)@.w().owns_chain(chain@),
            forall|i: int|
                0 <= i < chain@.len() ==> !final(self)@.heirs.contains(#[trigger] chain@[i]),
    {
        let ghost before = self@;
        let ghost w0 = self@.w();
        let ghost mut i: int = 0;
        let mut chain = PoppedChain::new();
        proof {
            assert(w0.popped_front(0) =~= w0);
        }
        let mut next = self.queue.pop();
        while next.is_some()
            invariant
                before.ok(),
                w0 == before.w(),
                self.queue.wf(),
                self.queue.structure() == old(self).queue.structure(),
                before.queue.held(),
                self@ == (OnceView { queue: self.queue@, ..before }),
                0 <= i <= w0.line.len(),
                chain@ == w0.line.take(i),
                next is Some ==> i < w0.line.len() && next->0 == w0.line[i] && self.queue@
                    == before.queue.with(w0.popped_front(i + 1)),
                next is None ==> i == w0.line.len() && self.queue@ == before.queue.with(
                    w0.popped_front(i),
                ),
            decreases w0.line.len() - i, if next is Some { 1int } else { 0 },
        {
            if let Some(id) = next {
                chain.append(id);
            }
            proof {
                assert(w0.line.take(i + 1) =~= w0.line.take(i).push(w0.line[i]));
                i = i + 1;
            }
            next = self.queue.pop();
            proof {
                if next is Some {
                    lemma_popped_front(w0, i);
                }
            }
        }
        proof {
            assert(chain@ =~= w0.line);
            assert(w0.line.take(w0.line.len() as int) =~= w0.line);
            let after = self@;
            lemma_once_popped(before, after, w0.line.len() as int);
            assert forall|p: int| 0 <= p < w0.line.len() implies after.w().popped.contains(
                #[trigger] w0.line[p],
            ) by {
                assert(w0.line.to_set().contains(w0.line[p]));
            }
        }
        chain
    }

    /// Takes the queue in order to hand the role on, if there is a queue.
    pub fn begin_wake_one(&mut self) -> (r: LockAttempt)
        requires
            old(self).wf(),
        ensures
            final(self).wf(),
            final(self).structure() == old(self).structure(),
            r == old(self)@.queue.attempt(false),
            final(self)@ == match r {
                LockAttempt::Busy => old(self)@,
                LockAttempt::Absent => (OnceView { offers: pay(old(self)@.offers), ..old(self)@ }),
                LockAttempt::Held => (OnceView {
                    offers: pay(old(self)@.offers),
                    queue: old(self)@.queue.locked(false),
                    hold: OnceHold::WakeOne,
                    ..old(self)@
                }),
            },
    {
        let r = self.queue.lock_existing();
        proof {
            if !(r is Busy) {
                self.offers = Ghost(pay(self.offers@));
            }
            if r is Held {
                self.hold = Ghost(OnceHold::WakeOne);
            }
        }
        r
    }

    /// Takes the first in line out, who is offered the role, and leaves the
    /// queue.
    pub fn pop_heir(&mut self, pool: &mut QueuePool) -> (r: Option<usize>)
        requires
            old(self).wf(),
            old(self)@.hold is WakeOne,
            old(pool)@.lends(old(self).structure()),
        ensures
            final(self).wf(),
            match r {
                Some(id) => old(self)@.line().len() > 0 && id == old(self)@.line()[0]
                    && final(self)@ == (OnceView {
                    queue: old(self)@.queue.with(old(self)@.w().popped_front(1)),
                    heirs: old(self)@.heirs.insert(id),
                    ..old(self)@
                }).after_end() && final(self)@.w().popped.contains(id),
                None => old(self)@.line().len() == 0 && final(self)@ == old(self)@.after_end(),
            },
            returned(old(pool)@, old(self).structure(), final(pool)@, final(self).structure()),
    {
        let ghost before = self@;
        let r = self.queue.pop();
        self.queue.unlock(pool);
        proof {
            self.hold = Ghost(OnceHold::Free);
            if r is Some {
                let id = r->0;
                self.heirs = Ghost(self.heirs@.insert(id));
                assert(before.line().take(1)[0] == before.line()[0]);
                assert(before.line().take(1).contains(before.line()[0]));
                lemma_heir(before, self@, id);
            }
        }
        r
    }

    /// Takes the queue in order to queue a waiter.
    pub fn begin_enqueue(&mut self, pool: &mut QueuePool) -> (r: LockAttempt)
        requires
            old(self).wf(),
            old(pool)@.serves(old(self).structure()),
        ensures
            final(self).wf(),
            r == old(self)@.queue.attempt(true),
            !(r is Absent),
            final(self)@ == if r is Held {
                OnceView {
                    queue: old(self)@.queue.locked(true),
                    hold: OnceHold::Enqueue { seen: false },
                    ..old(self)@
                }
            } else {
                old(self)@
            },
            traded(old(pool)@, old(self).structure(), final(pool)@, final(self).structure()),
    {
        let r = self.queue.lock(true, pool);
        proof {
            if r is Held {
                self.hold = Ghost(OnceHold::Enqueue { seen: false });
            }
        }
        r
    }

    /// Looks for a running initializer while holding the queue: one that is
    /// done by now is seen here, and one that is done later finds the waiter
    /// in line.
    pub fn fresh(&mut self) -> (r: bool)
        requires
            old(self).wf(),
            old(self)@.hold is Enqueue,
        ensures
            final(self).wf(),
            final(self).structure() == old(self).structure(),
            r == (old(self)@.phase is Running),
            final(self)@ == (OnceView { hold: OnceHold::Enqueue { seen: r }, ..old(self)@ }),
    {
        let running = self.phase == Phase::Running;
        proof {
            self.hold = Ghost(OnceHold::Enqueue { seen: running });
        }
        running
    }

    /// Adds a waiter to the end of the line.
    pub fn push_entry(&mut self, entry: usize)
        requires
            old(self).wf(),
            old(self)@.hold == (OnceHold::Enqueue { seen: true }),
            old(self)@.w().idle(entry),
            waiting(old(self)@.node(entry)),
        ensures
            final(self).wf(),
            final(self).structure() == old(self).structure(),
            final(self)@ == (OnceView {
                queue: old(self)@.queue.with(old(self)@.w().pushed(entry)),
                ..old(self)@
            }),
    {
        let ghost before = self@;
        self.queue.push(entry);
        proof {
            let after = self@;
            assert forall|id: usize| #[trigger] after.w().live(id) implies before.w().live(
                id,
            ) by {}
            assert forall|id: usize| #[trigger] after.heirs.contains(id) implies after.w().live(
                id,
            ) && (after.w().popped.contains(id) || after.node(id).value == SIGNAL_RETRY) by {
                assert(before.w().live(id));
            }
            assert forall|i: int| 0 <= i < after.line().len() implies waiting(
                after.node(#[trigger] after.line()[i]),
            ) && !after.heirs.contains(after.line()[i]) by {
                if i < before.line().len() {
                    assert(after.line()[i] == before.line()[i]);
                }
            }
        }
    }

    /// Leaves the queue.
    pub fn end(&mut self, pool: &mut QueuePool)
        requires
            old(self).wf(),
            !(old(self)@.hold is Free),
            !(old(self)@.hold is WakeOne),
            old(self)@.hold is WakeAll ==> old(self)@.line().len() == 0,
            old(pool)@.lends(old(self).structure()),
        ensures
            final(self).wf(),
            final(self)@ == old(self)@.after_end(),
            returned(old(pool)@, old(self).structure(), final(pool)@, final(self).structure()),
    {
        self.queue.unlock(pool);
        proof {
            self.hold = Ghost(OnceHold::Free);
        }
    }

    /// Takes the queue in order to leave the line, if there is a queue.
    pub fn begin_remove(&mut self) -> (r: LockAttempt)
        requires
            old(self).wf(),
        ensures
            final(self).wf(),
            final(self).structure() == old(self).structure(),
            r == old(self)@.queue.attempt(false),
            final(self)@ == if r is Held {
                OnceView {
                    queue: old(self)@.queue.locked(false),
                    hold: OnceHold::Remove,
                    ..old(self)@
                }
            } else {
                old(self)@
            },
    {
        let r = self.queue.lock_existing();
        proof {
            if r is Held {
                self.hold = Ghost(OnceHold::Remove);
            }
        }
        r
    }

    /// Takes a waiter out of the line. Returns whether it was in line.
    pub fn remove_entry(&mut self, entry: usize) -> (r: bool)
        requires
            old(self).wf(),
            old(self)@.hold is Remove,
        ensures
            final(self).wf(),
            final(self).structure() == old(self).structure(),
            r == old(self)@.line().contains(entry),
            final(self)@ == (OnceView {
                queue: old(self)@.queue.with(old(self)@.w().removed(entry)),
                ..old(self)@
            }),
            r ==> final(self)@.w().idle(entry),
    {
        let ghost before = self@;
        let found = self.queue.remove(entry);
        proof {
            if found {
                let line = before.line();
                lemma_remove(line, entry);
                let k = line.index_of(entry);
                let left = self@.line();
                assert forall|i: int| 0 <= i < left.len() implies #[trigger] left[i] == line[if i
                    < k {
                    i
                } else {
                    i + 1
                }] by {}
                assert forall|id: usize| #[trigger] self@.w().live(id) implies before.w().live(
                    id,
                ) by {}
            }
        }
        found
    }

    /// Tells the waiter that was chosen that the role is its to take.
    pub fn offer(&mut self, entry: usize) -> (r: Wake)
        requires
            old(self).wf(),
            old(self)@.w().popped.contains(entry),
            old(self)@.heirs.contains(entry),
        ensures
            final(self).wf(),
            final(self).structure() == old(self).structure(),
            final(self)@ == (OnceView {
                queue: old(self)@.queue.with(old(self)@.w().after_signal(entry, SIGNAL_RETRY)),
                ..old(self)@
            }),
            r == old(self)@.node(entry).wake(),
            final(self)@.w().idle(entry),
    {
        let ghost before = self@;
        let r = self.queue.signal(entry, SIGNAL_RETRY);
        proof {
            assert(before.w().live(entry));
            assert(seq![entry][0] == entry);
            assert(forall|j: usize| seq![entry].contains(j) ==> j == entry);
            assert(seq![entry].contains(entry));
            lemma_once_signaled(before, self@, seq![entry], SIGNAL_RETRY);
        }
        r
    }

    /// Tells the waiters of a chain that the value is there, front to back.
    /// Returns whom to wake.
    pub fn signal_all(&mut self, chain: PoppedChain) -> (r: Vec<Wake>)
        requires
            old(self).wf(),
            old(self)@.phase is Ready,
            old(self)@.w().owns_chain(chain@),
            forall|i: int|
                0 <= i < chain@.len() ==> !old(self)@.heirs.contains(#[trigger] chain@[i]),
        ensures
            final(self).wf(),
            final(self).structure() == old(self).structure(),
            final(self)@ == (OnceView {
                queue: old(self)@.queue.with(
                    old(self)@.w().after_signals(chain@, SIGNAL_SIGNALED),
                ),
                ..old(self)@
            }),
            r@ == old(self)@.w().wakes(chain@),
    {
        let ghost before = self@;
        let ghost ids = chain@;
        let wakes = chain.signal_all(&mut self.queue, SIGNAL_SIGNALED);
        proof {
            lemma_once_signaled(before, self@, ids, SIGNAL_SIGNALED);
        }
        wakes
    }

    /// A waiter that was offered the role takes a stand: its node is fresh
    /// again, and it is no heir any more. Either the cell is not empty, or the
    /// waiter takes the role in the same go.
    pub fn accept(&mut self, entry: usize) -> (r: Phase)
        requires
            old(self).wf(),
            old(self)@.w().idle(entry),
            old(self)@.node(entry).value == SIGNAL_RETRY,
        ensures
            final(self).wf(),
            final(self).structure() == old(self).structure(),
            r == old(self)@.phase,
            final(self)@ == (OnceView {
                phase: if r is Empty {
                    Phase::Running
                } else {
                    r
                },
                heirs: old(self)@.heirs.remove(entry),
                ..old(self)@.with_node(entry, SignalView::fresh_none())
            }),
    {
        let ghost before = self@;
        let phase = self.phase;
        if phase == Phase::Empty {
            self.phase = Phase::Running;
        }
        self.queue.reset(entry);
        proof {
            self.heirs = Ghost(self.heirs@.remove(entry));
            let after = self@;
            assert(after.w() =~= before.w().with_node(entry, SignalView::fresh_none()));
            lemma_once_node(before, after, entry, SignalView::fresh_none());
        }
        phase
    }

    /// A waiter that was offered the role is dropped: the caller owes the next
    /// in line an offer.
    pub fn decline(&mut self, entry: usize)
        requires
            old(self).wf(),
            old(self)@.w().idle(entry),
            old(self)@.node(entry).value == SIGNAL_RETRY,
        ensures
            final(self).wf(),
            final(self).structure() == old(self).structure(),
            final(self)@ == (OnceView {
                heirs: old(self)@.heirs.remove(entry),
                offers: old(self)@.offers + 1,
                ..old(self)@.with_node(entry, SignalView::dead())
            }),
    {
        let ghost before = self@;
        self.queue.discard(entry);
        proof {
            self.heirs = Ghost(self.heirs@.remove(entry));
            self.offers = Ghost(self.offers@ + 1);
            lemma_once_node(before, self@, entry, SignalView::dead());
        }
    }

    /// Makes the node of a thread.
    pub fn prepare_sync(&mut self, thread: usize) -> (entry: usize)
        requires
            old(self).wf(),
        ensures
            final(self).wf(),
            final(self).structure() == old(self).structure(),
            old(self)@.w().vacant(entry),
            final(self)@ == old(self)@.with_new(entry, SignalView::fresh_sync(thread)),
            final(self)@.w().idle(entry),
            final(self)@.node(entry) == SignalView::fresh_sync(thread),
    {
        let ghost before = self@;
        let entry: usize = self.queue.add_sync(thread);
        proof {
            lemma_once_new(before, entry, SignalView::fresh_sync(thread));
        }
        entry
    }

    /// Makes the node of a task.
    pub fn prepare_async(&mut self) -> (entry: usize)
        requires
            old(self).wf(),
        ensures
            final(self).wf(),
            final(self).structure() == old(self).structure(),
            old(self)@.w().vacant(entry),
            final(self)@ == old(self)@.with_new(entry, SignalView::fresh_none()),
            final(self)@.w().idle(entry),
            final(self)@.node(entry) == SignalView::fresh_none(),
    {
        let ghost before = self@;
        let entry: usize = self.queue.add_none();
        proof {
            lemma_once_new(before, entry, SignalView::fresh_none());
        }
        entry
    }

    /// Reads the signal.
    pub fn value(&self, entry: usize) -> (r: usize)
        requires
            self.wf(),
            self@.w().live(entry),
        ensures
            r == self@.node(entry).value,
    {
        self.queue.value(entry)
    }

    /// Registers the task to wake, which from now on waits.
    pub fn arm(&mut self, entry: usize, waker: usize)
        requires
            old(self).wf(),
            old(self)@.w().live(entry),
            old(self)@.node(entry).value != SIGNAL_RETRY,
        ensures
            final(self).wf(),
            final(self).structure() == old(self).structure(),
            final(self)@ == old(self)@.with_node(
                entry,
                (SignalView {
                    value: SIGNAL_INIT_WAITING,
                    waker: WakerSlot::Async(waker),
                    ..old(self)@.node(entry)
                }),
            ),
    {
        let ghost before = self@;
        let ghost node = SignalView {
            value: SIGNAL_INIT_WAITING,
            waker: WakerSlot::Async(waker),
            ..before.node(entry)
        };
        self.queue.set_value(entry, SIGNAL_INIT_WAITING);
        self.queue.register(entry, waker);
        proof {
            assert(self@ =~= before.with_node(entry, node));
            lemma_once_node(before, self@, entry, node);
        }
    }

    /// Marks a task's request as completed.
    pub fn complete_request(&mut self, entry: usize)
        requires
            old(self).wf(),
            old(self)@.w().idle(entry),
            old(self)@.node(entry).value != SIGNAL_RETRY,
        ensures
            final(self).wf(),
            final(self).structure() == old(self).structure(),
            final(self)@ == old(self)@.with_node(
                entry,
                (SignalView { value: SIGNAL_RETURNED, ..old(self)@.node(entry) }),
            ),
    {
        let ghost before = self@;
        self.queue.set_value(entry, SIGNAL_RETURNED);
        proof {
            lemma_once_node(
                before,
                self@,
                entry,
                SignalView { value: SIGNAL_RETURNED, ..before.node(entry) },
            );
        }
    }

    /// Gives a node back.
    pub fn discard(&mut self, entry: usize)
        requires
            old(self).wf(),
            old(self)@.w().idle(entry),
            old(self)@.node(entry).value != SIGNAL_RETRY,
        ensures
            final(self).wf(),
            final(self).structure() == old(self).structure(),
            final(self)@ == old(self)@.with_node(entry, SignalView::dead()),
    {
        let ghost before = self@;
        self.queue.discard(entry);
        proof {
            lemma_once_node(before, self@, entry, SignalView::dead());
        }
    }

    /// One look of a waiting thread at its node.
    pub fn sync_step(&mut self, waiter: &mut SyncWaiter) -> (r: SyncStep)
        requires
            old(self).wf(),
            old(self)@.w().live(old(waiter)@.entry),
            !(old(self)@.node(old(waiter)@.entry).waker is Empty) || old(self)@.node(
                old(waiter)@.entry,
            ).value >= SIGNAL_SIGNALED,
        ensures
            final(self).wf(),
            final(self).structure() == old(self).structure(),
            r == old(waiter)@.step(old(self)@.node(old(waiter)@.entry).value),
            final(waiter)@ == old(waiter)@.after_step(old(self)@.node(old(waiter)@.entry).value),
            final(self)@ == (OnceView {
                queue: after_sync_step(old(self)@.queue, old(waiter)@),
                ..old(self)@
            }),
    {
        let ghost before = self@;
        let ghost entry = waiter@.entry;
        let ghost node = SignalView {
            value: waiter@.value_after(before.node(entry).value),
            ..before.node(entry)
        };
        let r = waiter.step(&mut self.queue);
        proof {
            assert(self@ =~= before.with_node(entry, node));
            assert(before.w().live(entry));
            if before.line().contains(entry) {
                assert(waiting(before.node(before.line()[before.line().index_of(entry)])));
            }
            if before.w().popped.contains(entry) {
                assert(waiting(before.node(entry)));
            }
            lemma_once_node(before, self@, entry, node);
        }
        r
    }
}

/// A new node keeps what every turn keeps.
proof fn lemma_once_new<T>(v: OnceView<T>, id: usize, node: SignalView)
    requires
        v.ok(),
        !v.w().live(id),
        id <= v.w().nodes.len(),
        v.with_new(id, node).w().ok(),
        node.value == SIGNAL_UNINIT,
        node.aux == 0,
        node.granted == 0,
    ensures
        v.with_new(id, node).ok(),
{
    let a = v.with_new(id, node);
    assert forall|i: int| 0 <= i < a.line().len() implies a.node(#[trigger] a.line()[i]) == v.node(
        v.line()[i],
    ) by {
        assert(v.w().live(v.line()[i]));
    }
    assert forall|x: usize| #[trigger] a.w().popped.contains(x) implies a.node(x) == v.node(x) by {
        assert(v.w().live(x));
    }
    assert forall|x: usize| #[trigger] a.w().live(x) && x != id implies v.w().live(x) && a.node(x)
        == v.node(x) by {}
    assert forall|x: usize| #[trigger] a.heirs.contains(x) implies a.w().live(x) && (
    a.w().popped.contains(x) || a.node(x).value == SIGNAL_RETRY) by {
        assert(v.w().live(x));
    }
}

/// Taking everybody out of the line keeps what every turn keeps.
proof fn lemma_once_popped<T>(before: OnceView<T>, after: OnceView<T>, k: int)
    requires
        before.ok(),
        before.hold is WakeAll,
        before.phase is Ready,
        k == before.line().len(),
        after == (OnceView { queue: before.queue.with(before.w().popped_front(k)), ..before }),
        after.w().ok(),
    ensures
        after.ok(),
{
    let w = before.w();
    assert forall|id: usize| #[trigger] after.w().popped.contains(id) implies waiting(
        after.node(id),
    ) by {
        if !w.popped.contains(id) {
            let p = w.line.take(k).index_of(id);
            assert(w.line[p] == id);
            assert(waiting(before.node(before.line()[p])));
        } else {
            assert(waiting(before.node(id)));
        }
    }
    assert forall|id: usize| #[trigger] after.w().live(id) implies before.w().live(id) by {}
    assert forall|id: usize| #[trigger] after.heirs.contains(id) implies after.w().live(id) && (
    after.w().popped.contains(id) || after.node(id).value == SIGNAL_RETRY) by {
        assert(before.w().live(id));
    }
}

/// Offering the role to the first in line keeps what every turn keeps.
proof fn lemma_heir<T>(before: OnceView<T>, after: OnceView<T>, id: usize)
    requires
        before.ok(),
        before.hold is WakeOne,
        before.line().len() > 0,
        id == before.line()[0],
        after == (OnceView {
            queue: before.queue.with(before.w().popped_front(1)),
            heirs: before.heirs.insert(id),
            ..before
        }).after_end(),
        after.w().ok(),
    ensures
        after.ok(),
{
    let w = before.w();
    assert(w.live(w.line[0]));
    assert forall|x: usize| #[trigger] after.w().live(x) implies before.w().live(x) by {}
    assert forall|x: usize| w.line.take(1).contains(x) implies x == id by {
        assert(w.line.take(1)[w.line.take(1).index_of(x)] == w.line[0]);
    }
    assert forall|x: usize| #[trigger] after.w().popped.contains(x) implies waiting(after.node(x))
        && (after.heirs.contains(x) || after.phase is Ready) by {
        if before.w().popped.contains(x) {
            assert(waiting(before.node(x)));
        } else {
            assert(w.line.take(1).contains(x));
            assert(waiting(before.node(before.line()[0])));
        }
    }
    assert forall|i: int| 0 <= i < after.line().len() implies waiting(
        after.node(#[trigger] after.line()[i]),
    ) && !after.heirs.contains(after.line()[i]) by {
        assert(after.line()[i] == before.line()[i + 1]);
        assert(waiting(before.node(before.line()[i + 1])));
    }
    assert forall|x: usize| #[trigger] after.heirs.contains(x) implies after.w().live(x) && (
    after.w().popped.contains(x) || after.node(x).value == SIGNAL_RETRY) by {
        if x == id {
            assert(w.line.take(1)[0] == id);
            assert(w.line.take(1).contains(id));
        } else {
            assert(before.heirs.contains(x));
            assert(before.w().live(x));
        }
    }
    assert(after.heirs.contains(id));
    assert(after.heirs.len() > 0);
}

/// Signaling waiters that were taken out keeps what every turn keeps.
proof fn lemma_once_signaled<T>(
    before: OnceView<T>,
    after: OnceView<T>,
    ids: Seq<usize>,
    value: usize,
)
    requires
        before.ok(),
        before.w().owns_chain(ids),
        after == (OnceView { queue: before.queue.with(after.w()), ..before }),
        after.w().ok(),
        after.line() == before.line(),
        after.w().nodes.len() == before.w().nodes.len(),
        value == SIGNAL_RETRY && (forall|i: int|
            0 <= i < ids.len() ==> before.heirs.contains(#[trigger] ids[i])) || value
            == SIGNAL_SIGNALED && before.phase is Ready && (forall|i: int|
            0 <= i < ids.len() ==> !before.heirs.contains(#[trigger] ids[i])),
        forall|id: usize| #[trigger]
            after.w().popped.contains(id) <==> before.w().popped.contains(id) && !ids.contains(id),
        forall|j: usize|
            j < before.w().nodes.len() ==> #[trigger] after.node(j) == if ids.contains(j) {
                before.node(j).signaled(value)
            } else {
                before.node(j)
            },
    ensures
        after.ok(),
{
    assert forall|id: usize| #[trigger] after.w().live(id) implies before.w().live(id)
        && after.node(id) == if ids.contains(id) {
        before.node(id).signaled(value)
    } else {
        before.node(id)
    } by {
        assert(after.node(id).live);
    }
    assert forall|id: usize| #[trigger] after.w().live(id) implies once_node_ok(
        after.node(id),
    ) && (after.node(id).value == SIGNAL_SIGNALED ==> after.phase is Ready) && (after.node(id).value
        == SIGNAL_RETRY ==> after.heirs.contains(id)) by {
        assert(before.w().live(id));
        if ids.contains(id) {
            let p = ids.index_of(id);
            assert(value == SIGNAL_RETRY ==> before.heirs.contains(ids[p]));
        }
    }
    assert forall|i: int| 0 <= i < after.line().len() implies waiting(
        after.node(#[trigger] after.line()[i]),
    ) && !after.heirs.contains(after.line()[i]) by {
        let id = before.line()[i];
        assert(before.line().contains(id));
        assert(before.w().live(id));
        if ids.contains(id) {
            assert(before.w().popped.contains(ids[ids.index_of(id)]));
        }
        assert(after.node(id) == before.node(id));
        assert(waiting(before.node(before.line()[i])));
    }
    assert forall|id: usize| #[trigger] after.w().popped.contains(id) implies waiting(
        after.node(id),
    ) && (after.heirs.contains(id) || after.phase is Ready) by {
        assert(before.w().popped.contains(id));
        assert(before.w().live(id));
        assert(after.node(id) == before.node(id));
        assert(waiting(before.node(id)));
    }
    assert forall|id: usize| #[trigger] after.heirs.contains(id) implies after.w().live(id) && (
    after.w().popped.contains(id) || after.node(id).value == SIGNAL_RETRY) by {
        assert(before.heirs.contains(id));
        assert(before.w().live(id));
        assert(after.node(id).live);
        if ids.contains(id) {
            assert(ids[ids.index_of(id)] == id);
        }
        assert(after.w().popped.contains(id) <==> before.w().popped.contains(id) && !ids.contains(
            id,
        ));
    }
}

/// Rewriting a node keeps what every turn keeps, as long as a queued waiter
/// stays one, and an heir only stops being one when the role is taken, the
/// cell is not empty, or the next in line is owed an offer.
proof fn lemma_once_node<T>(
    before: OnceView<T>,
    after: OnceView<T>,
    id: usize,
    node: SignalView,
)
    requires
        before.ok(),
        before.w().live(id),
        after.queue == before.queue.with(before.w().with_node(id, node)),
        after.value == before.value,
        after.hold == before.hold,
        after.drains == before.drains,
        after.offers >= before.offers,
        after.phase == before.phase || before.phase is Empty && after.phase is Running,
        after.heirs == before.heirs || after.heirs == before.heirs.remove(id) && (!(
        after.phase is Empty) || after.offers > 0),
        node.live ==> once_node_ok(node) && (node.value == SIGNAL_SIGNALED
            ==> after.phase is Ready) && (node.value == SIGNAL_RETRY ==> after.heirs.contains(id)),
        after.heirs.contains(id) ==> node.live && (before.w().popped.contains(id) || node.value
            == SIGNAL_RETRY),
        before.w().idle(id) || node.live && waiting(node) && after.heirs == before.heirs,
    ensures
        after.ok(),
{
    assert forall|i: int| 0 <= i < after.line().len() implies after.w().live(
        #[trigger] after.line()[i],
    ) && waiting(after.node(after.line()[i])) && !after.heirs.contains(after.line()[i]) by {
        assert(before.w().live(before.line()[i]));
        assert(waiting(before.node(before.line()[i])));
        assert(before.line().contains(before.line()[i]));
    }
    assert forall|x: usize| #[trigger] after.w().popped.contains(x) implies after.w().live(x)
        && !after.line().contains(x) && waiting(after.node(x)) && (after.heirs.contains(x)
        || after.phase is Ready) by {
        assert(before.w().popped.contains(x));
        assert(waiting(before.node(x)));
    }
    assert forall|x: usize| #[trigger] after.w().live(x) && x != id implies before.w().live(x)
        && after.node(x) == before.node(x) by {}
    assert forall|x: usize| #[trigger] after.heirs.contains(x) implies after.w().live(x) && (
    after.w().popped.contains(x) || after.node(x).value == SIGNAL_RETRY) by {
        assert(before.heirs.contains(x));
        assert(before.w().live(x));
    }
    if after.line().len() > 0 && before.phase is Ready {
        assert(after.drains > 0 || after.hold is WakeAll);
    }
}

} // verus!
