//! The state machine behind the mutex: who owns the lock, who waits for it,
//! and how it is handed on.
//!
//! One pointer word says it all. Null is free, all ones is held with nobody
//! waiting, anything else is held with a wait queue. A thread that unlocks
//! while others wait does not free the lock: it hands it to the first in line,
//! whose signal is the ownership. So nobody can overtake the line.
//!
//! As in the semaphore, a first layer of methods are the turns threads take, in
//! any order, and a second layer strings them together.
use vstd::prelude::*;

use crate::pool::{returned, traded, QueuePool};
use crate::queue_word::{QueueWord, Word};
use crate::sem_core::waiting;
use crate::signal::{
    SignalView, Wake, WakerSlot, SIGNAL_INIT_WAITING, SIGNAL_RETURNED, SIGNAL_SIGNALED,
    SIGNAL_UNINIT,
};
use crate::sync_wait::{SyncStep, SyncWaiter};
use crate::waiters::{lemma_remove, Waiters, WaitersView};

verus! {

/// Who owns the lock.
pub enum Owner {
    /// It is free.
    Nobody,
    /// A guard, which has the protected value with it.
    Guard,
    /// A thread that has given up its guard and is about to hand the lock on.
    Releasing,
    /// A waiter that has not taken it over yet.
    Granted(usize),
}

/// Who has the queue to itself.
pub enum MutexHold {
    /// Nobody.
    Free,
    /// A thread that queues a waiter.
    Enqueue,
    /// The thread that hands the lock on.
    Unlock,
    /// A thread that takes a waiter out of the line.
    Remove,
}

/// The state of a mutex.
#[verifier::ext_equal]
pub struct MutexView<T> {
    /// The pointer word.
    pub door: Word,
    /// Those who wait.
    pub waiters: WaitersView,
    /// The protected value, unless a guard has it.
    pub data: Option<T>,
    /// Who owns the lock.
    pub owner: Owner,
    /// Who has the queue to itself.
    pub hold: MutexHold,
    /// A mark that the mutex keeps and that its guards carry. Nothing is said of
    /// its value: that a guard carries it is only known of a guard that was got
    /// from this mutex. That another mutex has another mark is not said either;
    /// whoever holds guards of several tells them apart at run time.
    pub id: int,
}

/// The values a mutex waiter's node takes.
pub open spec fn mutex_node_ok(node: SignalView) -> bool {
    node.value == SIGNAL_UNINIT || node.value == SIGNAL_INIT_WAITING || node.value
        == SIGNAL_SIGNALED || node.value == SIGNAL_RETURNED
}

impl<T> MutexView<T> {
    /// A free mutex that protects `data`, with nobody waiting.
    pub open spec fn fresh(data: T, id: int) -> MutexView<T> {
        MutexView {
            door: Word::Unlocked,
            waiters: WaitersView::empty(),
            data: Some(data),
            owner: Owner::Nobody,
            hold: MutexHold::Free,
            id,
        }
    }

    /// The node of a waiter.
    pub open spec fn node(self, id: usize) -> SignalView {
        self.waiters.nodes[id as int]
    }

    /// The waiters in line.
    pub open spec fn line(self) -> Seq<usize> {
        self.waiters.line
    }

    /// No thread has the queue to itself or is in the middle of unlocking.
    pub open spec fn quiet(self) -> bool {
        self.hold is Free && !(self.owner is Releasing)
    }

    /// The pointer word agrees with the owner, the holder and the line.
    pub open spec fn door_ok(self) -> bool {
        &&& (self.door is Unlocked) == (self.owner is Nobody)
        &&& (self.hold is Free) == !self.door.held()
        &&& self.hold is Unlock ==> self.owner is Releasing
        &&& self.door is Updating ==> self.hold is Enqueue && self.line().len() == 0
        &&& self.door is Unlocked || self.door is Locked ==> self.line().len() == 0
        &&& self.owner is Releasing ==> !(self.door is Locked)
    }

    /// The protected value is with the guard, if there is one.
    pub open spec fn data_ok(self) -> bool {
        (self.owner is Guard) == (self.data is None)
    }

    /// At most one waiter has been given the lock: the one that owns it.
    pub open spec fn grant_ok(self) -> bool {
        &&& self.owner matches Owner::Granted(id) ==> self.waiters.live(id) && (
        self.waiters.popped.contains(id) || !self.line().contains(id) && self.node(id).value
            == SIGNAL_SIGNALED)
        &&& forall|id: usize| #[trigger]
            self.waiters.popped.contains(id) ==> self.owner == Owner::Granted(id) && waiting(
                self.node(id),
            )
        &&& forall|id: usize| #[trigger]
            self.waiters.live(id) ==> mutex_node_ok(self.node(id)) && (self.node(id).value
                == SIGNAL_SIGNALED ==> self.owner == Owner::Granted(id))
        &&& forall|i: int|
            0 <= i < self.line().len() ==> waiting(self.node(#[trigger] self.line()[i]))
    }

    /// What every turn of every thread keeps.
    pub open spec fn ok(self) -> bool {
        &&& self.waiters.ok()
        &&& self.door_ok()
        &&& self.data_ok()
        &&& self.grant_ok()
    }

    /// The state with another node.
    pub open spec fn with_node(self, id: usize, node: SignalView) -> MutexView<T> {
        MutexView { waiters: self.waiters.with_node(id, node), ..self }
    }

    /// The state with a new node.
    pub open spec fn with_new(self, id: usize, node: SignalView) -> MutexView<T> {
        MutexView { waiters: self.waiters.with_new(id, node), ..self }
    }

    /// The state after a guard was handed out.
    pub open spec fn guarded(self) -> MutexView<T> {
        MutexView {
            door: if self.door is Unlocked {
                Word::Locked
            } else {
                self.door
            },
            data: None,
            owner: Owner::Guard,
            ..self
        }
    }
}

/// A guard: the owner's exclusive access to the protected value, which it
/// carries.
pub struct MutexGuard<T> {
    data: T,
    of: Ghost<int>,
}

impl<T> View for MutexGuard<T> {
    type V = T;

    closed spec fn view(&self) -> T {
        self.data
    }
}

impl<T> MutexGuard<T> {
    /// The mark of the mutex that it is a guard of.
    pub closed spec fn source(&self) -> int {
        self.of@
    }

    /// The protected value, to change.
    pub fn deref_mut(&mut self) -> (r: &mut T)
        ensures
            *r == old(self)@,
            final(self)@ == *final(r),
            final(self).source() == old(self).source(),
    {
        &mut self.data
    }
}

impl<T> core::ops::Deref for MutexGuard<T> {
    type Target = T;

    /// The protected value.
    fn deref(&self) -> (r: &T)
        ensures
            *r == self@,
    {
        &self.data
    }
}

/// How an attempt to get at the queue of a mutex ended.
pub enum OpenTurn<T> {
    /// The lock was free and is now taken.
    Acquired(MutexGuard<T>),
    /// Somebody else is at the queue: spin and try again.
    Spin,
    /// The caller has the queue to itself.
    Held,
}

/// How the first turn of an unlock ended.
#[derive(Clone, Copy, Debug, PartialEq, Eq, Structural)]
pub enum UnlockTurn {
    /// The lock is free.
    Done,
    /// There is a queue; the lock has to be handed on.
    Slow,
}

/// How an attempt to get at the queue, to leave the line, ended.
#[derive(Clone, Copy, Debug, PartialEq, Eq, Structural)]
pub enum RemoveTurn {
    /// There is no queue.
    Absent,
    /// Somebody else is at the queue: spin and try again.
    Spin,
    /// The caller has the queue to itself.
    Held,
}

/// A mutex and its waiters.
pub struct MutexInternal<T> {
    queue: QueueWord,
    waiters: Waiters,
    inner: Option<T>,
    owner: Ghost<Owner>,
    hold: Ghost<MutexHold>,
    id: Ghost<int>,
}

impl<T> View for MutexInternal<T> {
    type V = MutexView<T>;

    closed spec fn view(&self) -> MutexView<T> {
        MutexView {
            door: self.queue@,
            waiters: self.waiters@,
            data: self.inner,
            owner: self.owner@,
            hold: self.hold@,
            id: self.id@,
        }
    }
}

impl<T> MutexInternal<T> {
    /// The representation behind the view.
    pub closed spec fn inv(&self) -> bool {
        self.queue.agrees(self.waiters.home()) && self.waiters.inv()
    }

    /// The address of the structure that the line stands in.
    pub closed spec fn structure(&self) -> Option<usize> {
        self.waiters.home()
    }

    /// There is a structure exactly while there is a queue.
    pub proof fn lemma_structure(&self)
        requires
            self.wf(),
        ensures
            (self.structure() is None) == (self@.door is Unlocked || self@.door is Locked),
    {
        self.queue.lemma_agrees(self.waiters.home());
    }

    /// Well-formedness, kept by every turn.
    pub open spec fn wf(&self) -> bool {
        self@.ok() && self.inv()
    }

    /// A free mutex that protects `data`.
    pub fn new(data: T) -> (r: Self)
        ensures
            r.wf(),
            r.structure() is None,
            r@ == MutexView::fresh(data, r@.id),
    {
        MutexInternal {
            queue: QueueWord::new(),
            waiters: Waiters::new(),
            inner: Some(data),
            owner: Ghost(Owner::Nobody),
            hold: Ghost(MutexHold::Free),
            id: Ghost(arbitrary()),
        }
    }

    /// Takes the lock if it is free.
    pub fn try_lock(&mut self) -> (r: Option<MutexGuard<T>>)
        requires
            old(self).wf(),
        ensures
            final(self).wf(),
            final(self).structure() == old(self).structure(),
            (r is Some) == (old(self)@.owner is Nobody),
            r matches Some(guard) ==> Some(guard@) == old(self)@.data && guard.source()
                == old(self)@.id && final(self)@ == old(self)@.guarded(),
            r is None ==> final(self)@ == old(self)@,
    {
        if branches::likely(self.queue.try_lock()) {
            Some(self.create_guard())
        } else {
            None
        }
    }

    /// Takes the protected value out, for the owner.
    fn create_guard(&mut self) -> (r: MutexGuard<T>)
        requires
            old(self).inner is Some,
        ensures
            final(self).structure() == old(self).structure(),
            Some(r@) == old(self)@.data,
            r.source() == old(self)@.id,
            final(self)@ == (MutexView { data: None, owner: Owner::Guard, ..old(self)@ }),
            final(self).inv() == old(self).inv(),
    {
        let data = self.inner.take().unwrap();
        proof {
            self.owner = Ghost(Owner::Guard);
        }
        MutexGuard { data, of: Ghost(self.id@) }
    }

    /// Whether somebody is in line.
    pub fn has_waiters(&self) -> (r: bool)
        requires
            self.wf(),
        ensures
            r == (self@.line().len() > 0),
    {
        !self.waiters.is_empty()
    }

    /// Takes the lock if it is free; otherwise takes the queue, fetching one
    /// if there is none.
    pub fn open_queue(&mut self, pool: &mut QueuePool) -> (r: OpenTurn<T>)
        requires
            old(self).wf(),
            old(pool)@.serves(old(self).structure()),
        ensures
            final(self).wf(),
            match r {
                OpenTurn::Acquired(guard) => old(self)@.owner is Nobody && Some(guard@)
                    == old(self)@.data && guard.source() == old(self)@.id
                        && final(self)@ == old(self)@.guarded(),
                OpenTurn::Spin => old(self)@.door.held() && final(self)@ == old(self)@,
                OpenTurn::Held => (old(self)@.door is Locked || old(self)@.door is Queue)
                    && final(self)@ == (MutexView {
                    door: if old(self)@.door is Locked {
                        Word::Updating
                    } else {
                        Word::Tagged
                    },
                    hold: MutexHold::Enqueue,
                    ..old(self)@
                }),
            },
            traded(old(pool)@, old(self).structure(), final(pool)@, final(self).structure()),
    {
        proof {
            self.lemma_structure();
        }
        match self.queue.load() {
            Word::Unlocked => {
                self.queue.try_lock();
                OpenTurn::Acquired(self.create_guard())
            },
            Word::Locked => {
                self.queue.begin_init(&mut self.waiters, pool);
                proof {
                    self.hold = Ghost(MutexHold::Enqueue);
                }
                OpenTurn::Held
            },
            Word::Queue => {
                self.queue.tag();
                proof {
                    self.hold = Ghost(MutexHold::Enqueue);
                }
                OpenTurn::Held
            },
            _ => OpenTurn::Spin,
        }
    }

    /// Adds a waiter to the end of the line and publishes the queue. Returns
    /// whether it is first.
    pub fn push_and_publish(&mut self, entry: usize) -> (first: bool)
        requires
            old(self).wf(),
            old(self)@.hold is Enqueue,
            old(self)@.waiters.idle(entry),
            waiting(old(self)@.node(entry)),
        ensures
            final(self).wf(),
            final(self).structure() == old(self).structure(),
            first == (old(self)@.line().len() == 0),
            final(self)@ == (MutexView {
                door: Word::Queue,
                waiters: old(self)@.waiters.pushed(entry),
                hold: MutexHold::Free,
                ..old(self)@
            }),
    {
        let ghost before = self@;
        proof {
            self.lemma_structure();
        }
        let first = self.waiters.push(entry);
        self.queue.publish(&self.waiters);
        proof {
            self.hold = Ghost(MutexHold::Free);
            assert forall|id: usize| #[trigger] self@.waiters.live(id) implies before.waiters.live(
                id,
            ) && self@.node(id) == before.node(id) by {}
            let line = self@.line();
            assert forall|i: int| 0 <= i < line.len() implies waiting(
                self@.node(#[trigger] line[i]),
            ) by {
                if i < before.line().len() {
                    assert(line[i] == before.line()[i]);
                }
            }
            if before.owner is Granted {
                let id = before.owner->Granted_0;
                if line.contains(id) {
                    let p = line.index_of(id);
                    if p < before.line().len() {
                        assert(before.line()[p] == id);
                    }
                }
            }
        }
        first
    }

    /// First turn of an unlock: the guard gives the value back, and the lock is
    /// free unless there is a queue.
    pub fn begin_unlock(&mut self, guard: MutexGuard<T>) -> (r: UnlockTurn)
        requires
            old(self).wf(),
            old(self)@.owner is Guard,
            guard.source() == old(self)@.id,
        ensures
            final(self).wf(),
            final(self).structure() == old(self).structure(),
            (r is Done) == (old(self)@.door is Locked),
            final(self)@ == (MutexView {
                door: if r is Done {
                    Word::Unlocked
                } else {
                    old(self)@.door
                },
                data: Some(guard@),
                owner: if r is Done {
                    Owner::Nobody
                } else {
                    Owner::Releasing
                },
                ..old(self)@
            }),
    {
        self.inner = Some(guard.data);
        if branches::likely(self.queue.try_unlock()) {
            proof {
                self.owner = Ghost(Owner::Nobody);
            }
            UnlockTurn::Done
        } else {
            proof {
                self.owner = Ghost(Owner::Releasing);
            }
            UnlockTurn::Slow
        }
    }

    /// Takes the queue in order to hand the lock on. Returns whether it did;
    /// if not, spin and try again.
    pub fn take_queue(&mut self) -> (r: bool)
        requires
            old(self).wf(),
            old(self)@.owner is Releasing,
        ensures
            final(self).wf(),
            final(self).structure() == old(self).structure(),
            r == (old(self)@.door is Queue),
            final(self)@ == if r {
                MutexView { door: Word::Tagged, hold: MutexHold::Unlock, ..old(self)@ }
            } else {
                old(self)@
            },
    {
        match self.queue.load() {
            Word::Queue => {
                self.queue.tag();
                proof {
                    self.hold = Ghost(MutexHold::Unlock);
                }
                true
            },
            _ => false,
        }
    }

    /// Hands the lock to the first in line, or frees it if nobody is. Returns
    /// whom to signal.
    pub fn hand_over(&mut self, pool: &mut QueuePool) -> (r: Option<usize>)
        requires
            old(self).wf(),
            old(self)@.hold is Unlock,
            old(pool)@.lends(old(self).structure()),
        ensures
            final(self).wf(),
            match r {
                Some(id) => old(self)@.line().len() > 0 && id == old(self)@.line()[0]
                    && final(self)@ == (MutexView {
                    door: Word::Queue,
                    waiters: old(self)@.waiters.popped_front(1),
                    owner: Owner::Granted(id),
                    hold: MutexHold::Free,
                    ..old(self)@
                }),
                None => old(self)@.line().len() == 0 && final(self)@ == (MutexView {
                    door: Word::Unlocked,
                    owner: Owner::Nobody,
                    hold: MutexHold::Free,
                    ..old(self)@
                }),
            },
            returned(old(pool)@, old(self).structure(), final(pool)@, final(self).structure()),
    {
        let ghost before = self@;
        match self.waiters.pop() {
            Some(entry) => {
                self.queue.publish(&self.waiters);
                proof {
                    self.owner = Ghost(Owner::Granted(entry));
                    self.hold = Ghost(MutexHold::Free);
                    assert forall|id: usize| #[trigger]
                        self@.waiters.live(id) implies before.waiters.live(id) && self@.node(id)
                        == before.node(id) by {}
                    let line = self@.line();
                    assert forall|i: int| 0 <= i < line.len() implies #[trigger] line[i]
                        == before.line()[i + 1] by {}
                    assert(before.waiters.live(before.line()[0]));
                    assert(before.line().take(1) =~= seq![entry]);
                    assert forall|id: usize| #[trigger] self@.waiters.popped.contains(id) implies id
                        == entry by {
                        assert(seq![entry].to_set().contains(id) ==> id == entry);
                    }
                    assert(seq![entry].to_set().contains(entry)) by {
                        assert(seq![entry][0] == entry);
                    }
                    assert(waiting(before.node(before.line()[0])));
                }
                Some(entry)
            },
            None => {
                self.queue.retire(&mut self.waiters, pool);
                proof {
                    self.owner = Ghost(Owner::Nobody);
                    self.hold = Ghost(MutexHold::Free);
                }
                None
            },
        }
    }

    /// Signals the waiter that was given the lock.
    pub fn signal(&mut self, entry: usize) -> (r: Wake)
        requires
            old(self).wf(),
            old(self)@.waiters.popped.contains(entry),
        ensures
            final(self).wf(),
            final(self).structure() == old(self).structure(),
            final(self)@ == (MutexView {
                waiters: old(self)@.waiters.after_signal(entry, SIGNAL_SIGNALED),
                ..old(self)@
            }),
            r == old(self)@.node(entry).wake(),
    {
        let ghost before = self@;
        let r = self.waiters.signal(entry, SIGNAL_SIGNALED);
        proof {
            let after = self@;
            assert(before.waiters.live(entry));
            assert forall|i: int| 0 <= i < after.line().len() implies waiting(
                after.node(#[trigger] after.line()[i]),
            ) by {
                assert(before.line().contains(before.line()[i]));
                assert(waiting(before.node(before.line()[i])));
            }
            assert forall|id: usize| #[trigger] after.waiters.live(id) implies mutex_node_ok(
                after.node(id),
            ) && (after.node(id).value == SIGNAL_SIGNALED ==> after.owner == Owner::Granted(
                id,
            )) by {
                assert(before.waiters.live(id));
            }
            assert forall|id: usize| #[trigger] after.waiters.popped.contains(id) implies after.owner
                == Owner::Granted(id) && waiting(after.node(id)) by {
                assert(before.waiters.popped.contains(id));
            }
        }
        r
    }

    /// Takes over the lock that a waiter was given.
    pub fn claim(&mut self, entry: usize) -> (r: MutexGuard<T>)
        requires
            old(self).wf(),
            old(self)@.waiters.live(entry),
            old(self)@.node(entry).value == SIGNAL_SIGNALED,
        ensures
            final(self).wf(),
            final(self).structure() == old(self).structure(),
            old(self)@.owner == Owner::Granted(entry),
            old(self)@.waiters.idle(entry),
            Some(r@) == old(self)@.data,
            r.source() == old(self)@.id,
            final(self)@ == old(self)@.guarded().with_node(
                entry,
                (SignalView { value: SIGNAL_RETURNED, ..old(self)@.node(entry) }),
            ),
    {
        let ghost before = self@;
        self.waiters.set_value(entry, SIGNAL_RETURNED);
        let guard = self.create_guard();
        proof {
            let node = SignalView { value: SIGNAL_RETURNED, ..before.node(entry) };
            lemma_mutex_node(before, self@, entry, node);
        }
        guard
    }

    /// Takes the queue in order to leave the line, if there is a queue.
    pub fn begin_remove(&mut self) -> (r: RemoveTurn)
        requires
            old(self).wf(),
        ensures
            final(self).wf(),
            final(self).structure() == old(self).structure(),
            r == match old(self)@.door {
                Word::Unlocked => RemoveTurn::Absent,
                Word::Locked => RemoveTurn::Absent,
                Word::Queue => RemoveTurn::Held,
                _ => RemoveTurn::Spin,
            },
            final(self)@ == if r is Held {
                MutexView { door: Word::Tagged, hold: MutexHold::Remove, ..old(self)@ }
            } else {
                old(self)@
            },
    {
        match self.queue.load() {
            Word::Unlocked => RemoveTurn::Absent,
            Word::Locked => RemoveTurn::Absent,
            Word::Queue => {
                self.queue.tag();
                proof {
                    self.hold = Ghost(MutexHold::Remove);
                }
                RemoveTurn::Held
            },
            _ => RemoveTurn::Spin,
        }
    }

    /// Takes a waiter out of the line and publishes the queue, even if nobody
    /// is left in it. Returns whether the waiter was in line.
    pub fn remove_and_publish(&mut self, entry: usize) -> (r: bool)
        requires
            old(self).wf(),
            old(self)@.hold is Remove,
        ensures
            final(self).wf(),
            final(self).structure() == old(self).structure(),
            r == old(self)@.line().contains(entry),
            r ==> final(self)@.waiters.idle(entry),
            final(self)@ == (MutexView {
                door: Word::Queue,
                waiters: old(self)@.waiters.removed(entry),
                hold: MutexHold::Free,
                ..old(self)@
            }),
    {
        let ghost before = self@;
        let found = self.waiters.remove(entry);
        self.queue.publish(&self.waiters);
        proof {
            self.hold = Ghost(MutexHold::Free);
            assert forall|id: usize| #[trigger] self@.waiters.live(id) implies before.waiters.live(
                id,
            ) && self@.node(id) == before.node(id) by {}
            if found {
                let line = before.line();
                lemma_remove(line, entry);
                let k = line.index_of(entry);
                let left = self@.line();
                assert forall|i: int| 0 <= i < left.len() implies #[trigger] left[i] == line[if i
                    < k {
                    i
                } else {
                    i + 1
                }] by {}
            }
        }
        found
    }

    /// Makes the node of a thread.
    pub fn prepare_sync(&mut self, thread: usize) -> (entry: usize)
        requires
            old(self).wf(),
        ensures
            final(self).wf(),
            final(self).structure() == old(self).structure(),
            old(self)@.waiters.vacant(entry),
            final(self)@ == old(self)@.with_new(entry, SignalView::fresh_sync(thread)),
            final(self)@.waiters.idle(entry),
            final(self)@.node(entry) == SignalView::fresh_sync(thread),
    {
        let ghost before = self@;
        let entry: usize = self.waiters.add_sync(thread);
        proof {
            lemma_mutex_new(before, self@, entry, SignalView::fresh_sync(thread));
        }
        entry
    }

    /// Makes the node of a task.
    pub fn prepare_async(&mut self) -> (entry: usize)
        requires
            old(self).wf(),
        ensures
            final(self).wf(),
            final(self).structure() == old(self).structure(),
            old(self)@.waiters.vacant(entry),
            final(self)@ == old(self)@.with_new(entry, SignalView::fresh_none()),
            final(self)@.waiters.idle(entry),
            final(self)@.node(entry) == SignalView::fresh_none(),
    {
        let ghost before = self@;
        let entry: usize = self.waiters.add_none();
        proof {
            lemma_mutex_new(before, self@, entry, SignalView::fresh_none());
        }
        entry
    }

    /// Reads the signal.
    pub fn value(&self, entry: usize) -> (r: usize)
        requires
            self.wf(),
            self@.waiters.live(entry),
        ensures
            r == self@.node(entry).value,
    {
        self.waiters.value(entry)
    }

    /// Registers the task to wake, which from now on waits.
    pub fn arm(&mut self, entry: usize, waker: usize)
        requires
            old(self).wf(),
            old(self)@.waiters.live(entry),
            old(self)@.node(entry).value == SIGNAL_UNINIT || old(self)@.node(entry).value
                == SIGNAL_INIT_WAITING,
        ensures
            final(self).wf(),
            final(self).structure() == old(self).structure(),
            final(self)@ == old(self)@.with_node(
                entry,
                (SignalView {
                    value: SIGNAL_INIT_WAITING,
                    waker: WakerSlot::Async(waker),
                    ..old(self)@.node(entry)
                }),
            ),
    {
        let ghost before = self@;
        let ghost node = SignalView {
            value: SIGNAL_INIT_WAITING,
            waker: WakerSlot::Async(waker),
            ..before.node(entry)
        };
        self.waiters.set_value(entry, SIGNAL_INIT_WAITING);
        self.waiters.register(entry, waker);
        proof {
            assert(self@ =~= before.with_node(entry, node));
            lemma_mutex_node(before, self@, entry, node);
        }
    }

    /// Marks a task's request as completed.
    pub fn complete(&mut self, entry: usize)
        requires
            old(self).wf(),
            old(self)@.waiters.idle(entry),
            old(self)@.node(entry).value != SIGNAL_SIGNALED,
        ensures
            final(self).wf(),
            final(self).structure() == old(self).structure(),
            final(self)@ == old(self)@.with_node(
                entry,
                (SignalView { value: SIGNAL_RETURNED, ..old(self)@.node(entry) }),
            ),
    {
        let ghost before = self@;
        self.waiters.set_value(entry, SIGNAL_RETURNED);
        proof {
            let node = SignalView { value: SIGNAL_RETURNED, ..before.node(entry) };
            lemma_mutex_node(before, self@, entry, node);
        }
    }

    /// Gives a node back.
    pub fn discard(&mut self, entry: usize)
        requires
            old(self).wf(),
            old(self)@.waiters.idle(entry),
            old(self)@.node(entry).value != SIGNAL_SIGNALED,
        ensures
            final(self).wf(),
            final(self).structure() == old(self).structure(),
            final(self)@ == old(self)@.with_node(entry, SignalView::dead()),
    {
        let ghost before = self@;
        self.waiters.discard(entry);
        proof {
            lemma_mutex_node(before, self@, entry, SignalView::dead());
        }
    }

    /// One look of a waiting thread at its node.
    pub fn sync_step(&mut self, waiter: &mut SyncWaiter) -> (r: SyncStep)
        requires
            old(self).wf(),
            old(self)@.waiters.live(old(waiter)@.entry),
            !(old(self)@.node(old(waiter)@.entry).waker is Empty) || old(self)@.node(
                old(waiter)@.entry,
            ).value >= SIGNAL_SIGNALED,
        ensures
            final(self).wf(),
            final(self).structure() == old(self).structure(),
            r == old(waiter)@.step(old(self)@.node(old(waiter)@.entry).value),
            final(waiter)@ == old(waiter)@.after_step(old(self)@.node(old(waiter)@.entry).value),
            final(self)@ == old(self)@.with_node(
                old(waiter)@.entry,
                (SignalView {
                    value: old(waiter)@.value_after(old(self)@.node(old(waiter)@.entry).value),
                    ..old(self)@.node(old(waiter)@.entry)
                }),
            ),
    {
        let ghost before = self@;
        let entry: usize = waiter.entry();
        let ghost node = SignalView {
            value: waiter@.value_after(before.node(entry).value),
            ..before.node(entry)
        };
        let (step, announce) = waiter.look(self.waiters.value(entry));
        if announce {
            self.waiters.set_value(entry, SIGNAL_INIT_WAITING);
        }
        proof {
            assert(self@ =~= before.with_node(entry, node));
            assert(before.waiters.live(entry));
            lemma_mutex_node(before, self@, entry, node);
        }
        step
    }
}

/// Rewriting a node keeps what every turn keeps, as long as a queued waiter
/// stays one; the node of the waiter that owns the lock may only change hands.
proof fn lemma_mutex_node<T>(
    before: MutexView<T>,
    after: MutexView<T>,
    id: usize,
    node: SignalView,
)
    requires
        before.ok(),
        before.waiters.live(id),
        after.waiters == before.waiters.with_node(id, node),
        after.door == before.door,
        after.hold == before.hold,
        after.id == before.id,
        after.owner == before.owner && after.data == before.data || before.owner == Owner::Granted(
            id,
        ) && !before.waiters.popped.contains(id) && after.owner is Guard && after.data is None,
        node.live ==> mutex_node_ok(node),
        node.value == SIGNAL_SIGNALED ==> before.node(id).value == SIGNAL_SIGNALED && after.owner
            == before.owner,
        before.owner == Owner::Granted(id) && after.owner == before.owner ==> node.live && (
        before.waiters.popped.contains(id) || node.value == before.node(id).value),
        before.waiters.idle(id) || node.live && waiting(node),
    ensures
        after.ok(),
{
    assert forall|i: int| 0 <= i < after.line().len() implies after.waiters.live(
        #[trigger] after.line()[i],
    ) && waiting(after.node(after.line()[i])) by {
        assert(before.waiters.live(before.line()[i]));
        assert(waiting(before.node(before.line()[i])));
        assert(before.line().contains(before.line()[i]));
    }
    assert forall|x: usize| #[trigger] after.waiters.popped.contains(x) implies after.waiters.live(
        x,
    ) && !after.line().contains(x) && waiting(after.node(x)) && after.owner == Owner::Granted(
        x,
    ) by {
        assert(before.waiters.popped.contains(x));
        assert(waiting(before.node(x)));
    }
    assert forall|x: usize| #[trigger] after.waiters.live(x) implies mutex_node_ok(after.node(x))
        && (after.node(x).value == SIGNAL_SIGNALED ==> after.owner == Owner::Granted(x)) by {
        assert(before.waiters.live(x));
    }
}

/// So does a new node.
proof fn lemma_mutex_new<T>(before: MutexView<T>, after: MutexView<T>, id: usize, node: SignalView)
    requires
        before.ok(),
        !before.waiters.live(id),
        id <= before.waiters.nodes.len(),
        after == before.with_new(id, node),
        after.waiters.ok(),
        node.value == SIGNAL_UNINIT,
    ensures
        after.ok(),
{
    assert forall|x: usize| #[trigger] after.waiters.live(x) && x != id implies before.waiters.live(
        x,
    ) && after.node(x) == before.node(x) by {}
    assert forall|i: int| 0 <= i < after.line().len() implies after.node(
        #[trigger] after.line()[i],
    ) == before.node(before.line()[i]) by {
        assert(before.waiters.live(before.line()[i]));
    }
    assert forall|x: usize| #[trigger] after.waiters.popped.contains(x) implies after.node(x)
        == before.node(x) by {
        assert(before.waiters.live(x));
    }
}

} // verus!
