//! The state machine behind the notification primitive.
//!
//! The state is one word, `generation << 3 | PERMIT | HAS_QUEUE`, and a wait
//! queue; a waiter's `aux` is the generation in which its wait began.
//! Notifying one waiter takes the first out of the line, or stores a permit if
//! nobody waits. Notifying all of them starts a new generation: whoever waits
//! since an older one is released.
//!
//! A first layer of methods are the turns threads take, in any order; the
//! whole operations are strung together from them.
use vstd::prelude::*;

use crate::generations::{born, lemma_older, older};
use crate::pool::{returned, traded, QueuePool};
use crate::queue_word::Word;
use crate::sem_core::{pay, waiting};
use crate::signal::{
    SignalView, Wake, WakerSlot, SIGNAL_INIT_WAITING, SIGNAL_RETURNED, SIGNAL_SIGNALED,
};
use crate::sync_wait::{after_sync_step, SyncStep, SyncWaiter};
use crate::wait_queue::{LockAttempt, PoppedChain, WaitQueue, WaitQueueView};
use crate::waiters::{lemma_popped_front, lemma_remove, WaitersView};

verus! {

/// Bit 1: a wait queue exists. Bit 0 is not used.
pub const HAS_QUEUE: usize = 2;

/// Bit 2: a stored notification.
pub const PERMIT: usize = 4;

/// Where the generation starts.
pub const GEN_SHIFT: u32 = 3;

/// One generation.
pub const GEN_ONE: usize = 8;

/// The last generation before the count starts again at zero.
pub const GEN_LAST: usize = usize::MAX / 8;

/// The generation in a state word.
pub open spec fn word_generation(word: usize) -> usize {
    word / 8
}

/// The stored notification in a state word.
pub open spec fn word_permit(word: usize) -> bool {
    (word / 4) % 2 == 1
}

/// The waiter flag in a state word.
pub open spec fn word_waiters(word: usize) -> bool {
    (word / 2) % 2 == 1
}

/// The generation after `g`.
pub open spec fn next_generation(g: usize) -> usize {
    if g == GEN_LAST {
        0
    } else {
        (g + 1) as usize
    }
}

/// The generation in a state word.
pub fn generation(state: usize) -> (r: usize)
    ensures
        r == word_generation(state),
{
    proof {
        lemma_state(state);
    }
    state >> GEN_SHIFT
}

/// Shifts and masks of a state word, as arithmetic.
proof fn lemma_state(word: usize)
    ensures
        word >> GEN_SHIFT == word / 8,
        word / 8 <= GEN_LAST,
        (word & PERMIT != 0) == word_permit(word),
        (word & HAS_QUEUE != 0) == word_waiters(word),
        word | HAS_QUEUE == if word_waiters(word) {
            word as int
        } else {
            word + 2
        },
        word & !HAS_QUEUE == if word_waiters(word) {
            word - 2
        } else {
            word as int
        },
        word | PERMIT == if word_permit(word) {
            word as int
        } else {
            word + 4
        },
        word & !PERMIT == if word_permit(word) {
            word - 4
        } else {
            word as int
        },
        word & 7 == word % 8,
        word / 8 < GEN_LAST ==> word + 8 <= usize::MAX,
{
    assert(word >> 3u32 == word / 8) by (bit_vector);
    assert((word & 4 != 0) == ((word / 4) % 2 == 1)) by (bit_vector);
    assert((word & 2 != 0) == ((word / 2) % 2 == 1)) by (bit_vector);
    assert(word | 2 == if (word / 2) % 2 == 1 {
        word as int
    } else {
        word + 2
    }) by (bit_vector);
    assert(word & !2 == if (word / 2) % 2 == 1 {
        word - 2
    } else {
        word as int
    }) by (bit_vector);
    assert(word | 4 == if (word / 4) % 2 == 1 {
        word as int
    } else {
        word + 4
    }) by (bit_vector);
    assert(word & !4 == if (word / 4) % 2 == 1 {
        word - 4
    } else {
        word as int
    }) by (bit_vector);
    assert(word & 7 == word % 8) by (bit_vector);
}

/// Setting the waiter flag leaves the rest alone.
proof fn lemma_mark(word: usize)
    ensures
        word_generation(word | HAS_QUEUE) == word_generation(word),
        word_permit(word | HAS_QUEUE) == word_permit(word),
        word_waiters(word | HAS_QUEUE),
        (word | HAS_QUEUE) % 2 == word % 2,
{
    assert((word | 2) / 8 == word / 8 && ((word | 2) / 4) % 2 == (word / 4) % 2 && ((word | 2) / 2)
        % 2 == 1 && (word | 2) % 2 == word % 2) by (bit_vector);
}

/// The flags do not count: setting any of them leaves the generation alone.
pub proof fn generation_ignores_flags(state: usize, flags: usize)
    requires
        flags < GEN_ONE,
    ensures
        word_generation(state | flags) == word_generation(state),
{
    assert((state | flags) / 8 == state / 8) by (bit_vector)
        requires
            flags < 8,
    ;
}

/// One more generation in a state word is the next generation; the count starts
/// again at zero when it has used up its bits.
pub proof fn generation_counts_up(state: usize)
    ensures
        word_generation(state.wrapping_add(GEN_ONE)) == next_generation(word_generation(state)),
        next_generation(word_generation(state)) == (word_generation(state) + 1) % (GEN_LAST + 1),
{
    if word_generation(state) < GEN_LAST {
        vstd::arithmetic::div_mod::lemma_small_mod(
            (word_generation(state) + 1) as nat,
            (GEN_LAST + 1) as nat,
        );
    } else {
        vstd::arithmetic::div_mod::lemma_mod_self_0(GEN_LAST + 1);
    }
}

/// A new generation leaves the flags alone.
proof fn lemma_bump(word: usize)
    ensures
        word / 8 == GEN_LAST ==> word_generation(word & 7) == 0 && word_permit(word & 7)
            == word_permit(word) && word_waiters(word & 7) == word_waiters(word) && (word & 7) % 2
            == word % 2,
        word / 8 < GEN_LAST ==> word + 8 <= usize::MAX && word_generation((word + 8) as usize)
            == word / 8 + 1 && word_permit((word + 8) as usize) == word_permit(word)
            && word_waiters((word + 8) as usize) == word_waiters(word) && ((word + 8) as usize) % 2
            == word % 2,
{
    lemma_state(word);
    assert((word & 7) / 8 == 0 && ((word & 7) / 4) % 2 == (word / 4) % 2 && ((word & 7) / 2) % 2
        == (word / 2) % 2 && (word & 7) % 2 == word % 2) by (bit_vector);
    if word / 8 < GEN_LAST {
        assert((word + 8) / 4 == word / 4 + 2);
        assert((word + 8) / 2 == word / 2 + 4);
    }
}

/// Who has the queue to itself.
pub enum NotifyHold {
    /// Nobody.
    Free,
    /// A thread that wants to queue a waiter; `seen` is the state word it saw
    /// last, once it has set the waiter flag.
    Enqueue { seen: Option<usize> },
    /// A thread that notifies one waiter.
    One,
    /// A thread that notifies all older waiters, and has not taken them out
    /// yet.
    All,
    /// The same, after it took them out.
    AllDone,
    /// A thread that takes a waiter out of the line.
    Remove,
}

/// The state of a notifier.
#[verifier::ext_equal]
pub struct NotifyView {
    /// The current generation.
    pub generation: usize,
    /// A notification is stored.
    pub permit: bool,
    /// The waiter flag.
    pub flag: bool,
    /// The wait queue.
    pub queue: WaitQueueView,
    /// Who has the queue to itself.
    pub hold: NotifyHold,
    /// Threads that started a new generation, saw the waiter flag, and have
    /// not yet taken the queue to release the older waiters.
    pub owed: nat,
}

impl NotifyView {
    /// No notification stored and nobody waiting.
    pub open spec fn fresh() -> NotifyView {
        NotifyView {
            generation: 0,
            permit: false,
            flag: false,
            queue: WaitQueueView { door: Word::Unlocked, waiters: WaitersView::empty() },
            hold: NotifyHold::Free,
            owed: 0,
        }
    }

    /// The waiters.
    pub open spec fn w(self) -> WaitersView {
        self.queue.waiters
    }

    /// The node of a waiter.
    pub open spec fn node(self, id: usize) -> SignalView {
        self.queue.waiters.nodes[id as int]
    }

    /// The waiters in line.
    pub open spec fn line(self) -> Seq<usize> {
        self.queue.waiters.line
    }

    /// No thread has the queue to itself.
    pub open spec fn quiet(self) -> bool {
        self.hold is Free
    }

    /// The pointer word and the waiter flag agree with the line.
    pub open spec fn door_ok(self) -> bool {
        match self.hold {
            NotifyHold::Free => {
                &&& self.flag == (self.line().len() > 0)
                &&& self.queue.door == if self.line().len() > 0 {
                    Word::Queue
                } else {
                    Word::Unlocked
                }
            },
            _ => {
                &&& self.queue.door.held()
                &&& self.line().len() > 0 ==> self.flag
            },
        }
    }

    /// What the thread that has the queue relies on: once it has set the
    /// waiter flag no notification can be stored, and a thread that starts a
    /// new generation owes the line a look.
    pub open spec fn hold_ok(self) -> bool {
        match self.hold {
            NotifyHold::Enqueue { seen } => match seen {
                None => true,
                Some(cur) => {
                    &&& cur % 2 == 0
                    &&& self.flag
                    &&& self.permit ==> word_permit(cur)
                    &&& self.generation != word_generation(cur) ==> self.owed > 0 && forall|i: int|
                        0 <= i < self.line().len() ==> #[trigger] born(self.w(), i) != self.generation
                },
            },
            _ => true,
        }
    }

    /// The line: its waiters are waiting, and those of the current generation
    /// are its end.
    pub open spec fn line_ok(self) -> bool {
        &&& forall|i: int|
            0 <= i < self.line().len() ==> waiting(self.node(#[trigger] self.line()[i]))
        &&& forall|id: usize| #[trigger]
            self.w().popped.contains(id) ==> waiting(self.node(id))
        &&& forall|i: int, j: int|
            0 <= i < j < self.line().len() && #[trigger] born(self.w(), i) == self.generation
                ==> #[trigger] born(self.w(), j) == self.generation
    }

    /// No notification is lost: nobody waits while one is stored, and nobody
    /// waits since an older generation unless a thread is about to look.
    pub open spec fn no_lost_wakeup(self) -> bool {
        &&& self.line().len() > 0 ==> !self.permit
        &&& forall|i: int|
            0 <= i < self.line().len() && #[trigger] born(self.w(), i) != self.generation ==> self.owed
                > 0 || self.hold is All
    }

    /// What every turn of every thread keeps.
    pub open spec fn ok(self) -> bool {
        &&& self.generation <= GEN_LAST
        &&& self.w().ok()
        &&& self.door_ok()
        &&& self.hold_ok()
        &&& self.line_ok()
        &&& self.no_lost_wakeup()
    }

    /// The state word is `word`.
    pub open spec fn word_is(self, word: usize) -> bool {
        self.generation == word_generation(word) && self.permit == word_permit(word) && self.flag
            == word_waiters(word)
    }

    /// The state with another node.
    pub open spec fn with_node(self, id: usize, node: SignalView) -> NotifyView {
        NotifyView { queue: self.queue.with(self.w().with_node(id, node)), ..self }
    }

    /// The state with a new node.
    pub open spec fn with_new(self, id: usize, node: SignalView) -> NotifyView {
        NotifyView { queue: self.queue.with(self.w().with_new(id, node)), ..self }
    }

    /// The state after the thread that had the queue left it.
    pub open spec fn after_end(self) -> NotifyView {
        NotifyView {
            flag: self.flag && self.line().len() > 0,
            queue: self.queue.unlocked(),
            hold: NotifyHold::Free,
            ..self
        }
    }
}

/// Result of one look at the state word during an enqueue attempt.
#[derive(Debug, PartialEq, Eq, Clone, Copy, Structural)]
pub enum WaitTurn {
    /// The wait is over.
    Completed,
    /// The word has changed; look again at this one.
    Retry(usize),
    /// Nothing has happened: queue up.
    Queue,
}

/// A notifier.
pub struct NotifyCore {
    state: usize,
    queue: WaitQueue,
    hold: Ghost<NotifyHold>,
    owed: Ghost<nat>,
}

impl View for NotifyCore {
    type V = NotifyView;

    closed spec fn view(&self) -> NotifyView {
        NotifyView {
            generation: word_generation(self.state),
            permit: word_permit(self.state),
            flag: word_waiters(self.state),
            queue: self.queue@,
            hold: self.hold@,
            owed: self.owed@,
        }
    }
}

impl NotifyCore {
    /// The representation behind the view.
    pub closed spec fn inv(&self) -> bool {
        self.queue.inv() && self.state % 2 == 0
    }

    /// The address of the structure that the line stands in.
    pub closed spec fn structure(&self) -> Option<usize> {
        self.queue.structure()
    }

    /// There is a structure exactly while there is a queue, and a published
    /// queue is never empty.
    pub proof fn lemma_structure(&self)
        requires
            self.wf(),
        ensures
            (self.structure() is None) == (self@.queue.door is Unlocked),
            self@.queue.door is Unlocked ==> self@.queue.waiters.line.len() == 0,
            self@.queue.door is Queue ==> self@.queue.waiters.line.len() > 0,
    {
        self.queue.lemma_wf();
    }

    /// Well-formedness, kept by every turn.
    pub open spec fn wf(&self) -> bool {
        self@.ok() && self.inv()
    }

    /// A notifier with nothing stored.
    pub fn new() -> (r: Self)
        ensures
            r.wf(),
            r.structure() is None,
            r@ == NotifyView::fresh(),
    {
        NotifyCore {
            state: 0,
            queue: WaitQueue::new(),
            hold: Ghost(NotifyHold::Free),
            owed: Ghost(0),
        }
    }

    /// The current generation.
    pub fn current(&self) -> (r: usize)
        ensures
            r == self@.generation,
    {
        generation(self.state)
    }

    /// Completes a wait that began in generation `captured`, if there is a
    /// newer one or a stored notification, which is used up.
    #[verifier::spinoff_prover]
    #[verifier::rlimit(60)]
    pub fn try_complete(&mut self, captured: usize) -> (r: bool)
        requires
            old(self).wf(),
        ensures
            final(self).wf(),
            final(self).structure() == old(self).structure(),
            r == (old(self)@.generation != captured || old(self)@.permit),
            final(self)@ == (NotifyView {
                permit: old(self)@.permit && old(self)@.generation != captured,
                ..old(self)@
            }),
    {
        let ghost before = self@;
        let cur: usize = self.state;
        proof {
            lemma_state(cur);
        }
        if generation(cur) != captured {
            assert(self@ == before);
            return true;
        }
        if cur & PERMIT == 0 {
            assert(self@ == before);
            return false;
        }
        self.state = cur & !PERMIT;
        assert(self@ == (NotifyView { permit: false, ..before }));
        true
    }

    /// Takes the queue in order to queue a waiter.
    pub fn begin_enqueue(&mut self, pool: &mut QueuePool) -> (r: LockAttempt)
        requires
            old(self).wf(),
            old(pool)@.serves(old(self).structure()),
        ensures
            final(self).wf(),
            r == old(self)@.queue.attempt(true),
            !(r is Absent),
            final(self)@ == if r is Held {
                NotifyView {
                    queue: old(self)@.queue.locked(true),
                    hold: NotifyHold::Enqueue { seen: None },
                    ..old(self)@
                }
            } else {
                old(self)@
            },
            traded(old(pool)@, old(self).structure(), final(pool)@, final(self).structure()),
    {
        let r = self.queue.lock(true, pool);
        proof {
            if r is Held {
                self.hold = Ghost(NotifyHold::Enqueue { seen: None });
            }
        }
        r
    }

    /// Sets the waiter flag and reads the state, in one go: a notifier either
    /// sees the flag or is seen here.
    #[verifier::spinoff_prover]
    #[verifier::rlimit(60)]
    pub fn mark(&mut self) -> (cur: usize)
        requires
            old(self).wf(),
            old(self)@.hold is Enqueue,
        ensures
            final(self).wf(),
            final(self).structure() == old(self).structure(),
            final(self)@ == (NotifyView {
                flag: true,
                hold: NotifyHold::Enqueue { seen: Some(cur) },
                ..old(self)@
            }),
            final(self)@.word_is(cur),
    {
        proof {
            lemma_mark(self.state);
        }
        self.state = self.state | HAS_QUEUE;
        proof {
            self.hold = Ghost(NotifyHold::Enqueue { seen: Some(self.state) });
        }
        self.state
    }

    /// One attempt to complete the wait before queueing up.
    #[verifier::spinoff_prover]
    #[verifier::rlimit(60)]
    pub fn attempt(&mut self, cur: usize, captured: usize) -> (r: WaitTurn)
        requires
            old(self).wf(),
            old(self)@.hold == (NotifyHold::Enqueue { seen: Some(cur) }),
        ensures
            final(self).wf(),
            final(self).structure() == old(self).structure(),
            match r {
                WaitTurn::Completed => if word_generation(cur) != captured {
                    final(self)@ == old(self)@
                } else {
                    word_permit(cur) && old(self)@.word_is(cur) && final(self)@ == (NotifyView {
                        permit: false,
                        ..old(self)@
                    })
                },
                WaitTurn::Retry(actual) => word_generation(cur) == captured && word_permit(cur)
                    && !old(self)@.word_is(cur) && old(self)@.word_is(actual) && final(self)@ == (
                NotifyView { hold: NotifyHold::Enqueue { seen: Some(actual) }, ..old(self)@ }),
                WaitTurn::Queue => word_generation(cur) == captured && !word_permit(cur)
                    && final(self)@ == old(self)@,
            },
    {
        proof {
            lemma_state(cur);
            lemma_state(self.state);
        }
        if generation(cur) != captured {
            return WaitTurn::Completed;
        }
        if cur & PERMIT != 0 {
            if self.state == cur {
                self.state = cur & !PERMIT;
                return WaitTurn::Completed;
            }
            proof {
                self.hold = Ghost(NotifyHold::Enqueue { seen: Some(self.state) });
            }
            return WaitTurn::Retry(self.state);
        }
        WaitTurn::Queue
    }

    /// Adds a waiter whose wait began in generation `captured` to the end of
    /// the line.
    pub fn push_entry(&mut self, entry: usize, captured: usize)
        requires
            old(self).wf(),
            old(self)@.hold matches NotifyHold::Enqueue { seen: Some(cur) } && word_generation(cur)
                == captured && !word_permit(cur),
            old(self)@.w().idle(entry),
            waiting(old(self)@.node(entry)),
        ensures
            final(self).wf(),
            final(self).structure() == old(self).structure(),
            final(self)@ == (NotifyView {
                queue: old(self)@.queue.with(
                    old(self)@.w().with_node(
                        entry,
                        (SignalView { aux: captured, ..old(self)@.node(entry) }),
                    ).pushed(entry),
                ),
                ..old(self)@
            }),
    {
        let ghost before = self@;
        self.queue.set_aux(entry, captured);
        self.queue.push(entry);
        proof {
            let after = self@;
            let n = before.line().len();
            assert(after.line()[n as int] == entry);
            assert(born(after.w(), n as int) == captured);
            assert forall|i: int| 0 <= i < n implies #[trigger] after.line()[i] == before.line()[i]
                && after.node(after.line()[i]) == before.node(before.line()[i]) && born(after.w(), i)
                == born(before.w(), i) by {
                assert(before.line().contains(before.line()[i]));
                assert(before.w().live(before.line()[i]));
            }
            assert forall|id: usize| #[trigger] after.w().popped.contains(id) implies waiting(
                after.node(id),
            ) by {
                assert(before.w().popped.contains(id));
                assert(waiting(before.node(id)));
            }
            assert forall|i: int, j: int|
                0 <= i < j < after.line().len() && #[trigger] born(after.w(), i)
                    == after.generation implies #[trigger] born(after.w(), j) == after.generation by {
                assert(after.line()[i] == before.line()[i]);
                if j < n {
                    assert(after.line()[j] == before.line()[j]);
                    assert(born(before.w(), j) == before.generation);
                } else {
                    assert(born(before.w(), i) == before.generation);
                }
            }
            assert forall|i: int|
                0 <= i < after.line().len() && #[trigger] born(after.w(), i)
                    != after.generation implies after.owed > 0 || after.hold is All by {
                if i < n {
                    assert(after.line()[i] == before.line()[i]);
                    assert(born(before.w(), i) != before.generation);
                }
            }
            assert forall|i: int| 0 <= i < after.line().len() implies waiting(
                after.node(#[trigger] after.line()[i]),
            ) by {
                if i < n {
                    assert(waiting(before.node(before.line()[i])));
                }
            }
            if after.generation != captured {
                assert forall|i: int| 0 <= i < after.line().len() implies #[trigger] born(after.w(), i)
                    != after.generation by {
                    if i < n {
                        assert(after.line()[i] == before.line()[i]);
                        assert(born(before.w(), i) != before.generation);
                    }
                }
            }
        }
    }

    /// Leaves the queue; if nobody is in line any more, the waiter flag goes
    /// with it.
    #[verifier::spinoff_prover]
    #[verifier::rlimit(60)]
    pub fn end(&mut self, pool: &mut QueuePool)
        requires
            old(self).wf(),
            !(old(self)@.hold is Free),
            !(old(self)@.hold is All),
            old(pool)@.lends(old(self).structure()),
        ensures
            final(self).wf(),
            final(self)@ == old(self)@.after_end(),
            returned(old(pool)@, old(self).structure(), final(pool)@, final(self).structure()),
    {
        let ghost before = self@;
        proof {
            lemma_state(self.state);
        }
        let is_empty = self.queue.unlock(pool);
        if is_empty {
            self.state = self.state & !HAS_QUEUE;
        }
        proof {
            self.hold = Ghost(NotifyHold::Free);
            lemma_same_line(before, self@);
        }
    }

    /// Stores a notification if nobody waits; there is never more than one.
    /// Returns whether nobody waits.
    #[verifier::spinoff_prover]
    #[verifier::rlimit(60)]
    pub fn store_permit(&mut self) -> (r: bool)
        requires
            old(self).wf(),
        ensures
            final(self).wf(),
            final(self).structure() == old(self).structure(),
            r == !old(self)@.flag,
            final(self)@ == if r {
                NotifyView { permit: true, ..old(self)@ }
            } else {
                old(self)@
            },
    {
        let cur: usize = self.state;
        proof {
            lemma_state(cur);
        }
        if cur & HAS_QUEUE != 0 {
            return false;
        }
        if cur & PERMIT != 0 {
            return true;
        }
        self.state = cur | PERMIT;
        true
    }

    /// Takes the queue in order to notify one waiter, if there is a queue.
    pub fn begin_one(&mut self) -> (r: LockAttempt)
        requires
            old(self).wf(),
        ensures
            final(self).wf(),
            final(self).structure() == old(self).structure(),
            r == old(self)@.queue.attempt(false),
            final(self)@ == if r is Held {
                NotifyView {
                    queue: old(self)@.queue.locked(false),
                    hold: NotifyHold::One,
                    ..old(self)@
                }
            } else {
                old(self)@
            },
    {
        let r = self.queue.lock_existing();
        proof {
            if r is Held {
                self.hold = Ghost(NotifyHold::One);
            }
        }
        r
    }

    /// Takes the first in line out.
    pub fn pop_one(&mut self) -> (r: Option<usize>)
        requires
            old(self).wf(),
            old(self)@.hold is One,
        ensures
            final(self).wf(),
            final(self).structure() == old(self).structure(),
            match r {
                Some(id) => old(self)@.line().len() > 0 && id == old(self)@.line()[0]
                    && final(self)@ == (NotifyView {
                    queue: old(self)@.queue.with(old(self)@.w().popped_front(1)),
                    ..old(self)@
                }) && final(self)@.w().popped.contains(id),
                None => old(self)@.line().len() == 0 && final(self)@ == old(self)@,
            },
    {
        let ghost before = self@;
        let r = self.queue.pop();
        proof {
            if r is Some {
                lemma_popped_ok(before, self@, 1);
                assert(before.line().take(1)[0] == before.line()[0]);
                assert(before.line().take(1).contains(before.line()[0]));
            }
        }
        r
    }

    /// Starts a new generation. Returns whether the caller owes the line a
    /// look.
    #[verifier::spinoff_prover]
    #[verifier::rlimit(60)]
    pub fn bump(&mut self) -> (r: bool)
        requires
            old(self).wf(),
            forall|i: int|
                0 <= i < old(self)@.line().len() ==> #[trigger] born(old(self)@.w(), i)
                    != next_generation(old(self)@.generation),
        ensures
            final(self).wf(),
            final(self).structure() == old(self).structure(),
            r == old(self)@.flag,
            final(self)@ == (NotifyView {
                generation: next_generation(old(self)@.generation),
                owed: if r {
                    old(self)@.owed + 1
                } else {
                    old(self)@.owed
                },
                ..old(self)@
            }),
    {
        let ghost before = self@;
        let prev: usize = self.state;
        proof {
            lemma_state(prev);
            lemma_bump(prev);
        }
        self.state = if generation(prev) == GEN_LAST {
            prev & 7
        } else {
            prev + GEN_ONE
        };
        let has_queue = prev & HAS_QUEUE != 0;
        proof {
            if has_queue {
                self.owed = Ghost(self.owed@ + 1);
            }
            let after = self@;
            assert forall|i: int| 0 <= i < after.line().len() implies #[trigger] born(after.w(), i)
                != after.generation by {
                assert(born(before.w(), i) == born(after.w(), i));
            }
        }
        has_queue
    }

    /// Takes the queue in order to release the older waiters, if there is a
    /// queue.
    pub fn begin_all(&mut self) -> (r: LockAttempt)
        requires
            old(self).wf(),
        ensures
            final(self).wf(),
            final(self).structure() == old(self).structure(),
            r == old(self)@.queue.attempt(false),
            final(self)@ == match r {
                LockAttempt::Busy => old(self)@,
                LockAttempt::Absent => (NotifyView { owed: pay(old(self)@.owed), ..old(self)@ }),
                LockAttempt::Held => (NotifyView {
                    owed: pay(old(self)@.owed),
                    queue: old(self)@.queue.locked(false),
                    hold: NotifyHold::All,
                    ..old(self)@
                }),
            },
    {
        let ghost before = self@;
        let r = self.queue.lock_existing();
        proof {
            if !(r is Busy) {
                self.owed = Ghost(pay(self.owed@));
            }
            if r is Held {
                self.hold = Ghost(NotifyHold::All);
                assert forall|i: int, j: int|
                    0 <= i < j < self@.line().len() && #[trigger] born(self@.w(), i)
                        == self@.generation implies #[trigger] born(self@.w(), j)
                    == self@.generation by {
                    assert(born(before.w(), i) == born(self@.w(), i));
                    assert(born(before.w(), j) == born(self@.w(), j));
                }
            }
        }
        r
    }

    /// Takes those out of the line that wait since an older generation.
    pub fn pop_older(&mut self) -> (chain: PoppedChain)
        requires
            old(self).wf(),
            old(self)@.hold is All,
        ensures
            final(self).wf(),
            final(self).structure() == old(self).structure(),
            chain@ == old(self)@.line().take(
                older(old(self)@.w(), old(self)@.generation, 0) as int,
            ),
            final(self)@ == (NotifyView {
                queue: old(self)@.queue.with(
                    old(self)@.w().popped_front(
                        older(old(self)@.w(), old(self)@.generation, 0) as int,
                    ),
                ),
                hold: NotifyHold::AllDone,
                ..old(self)@
            }),
            final(self)@.w().owns_chain(chain@),
    {
        let ghost before = self@;
        let ghost w0 = self@.w();
        let ghost state = self.state;
        let live: usize = generation(self.state);
        let mut chain = PoppedChain::new();
        let ghost mut i: int = 0;
        let mut more: bool = true;
        proof {
            assert(w0.popped_front(0) =~= w0);
            assert(w0.line.take(0) =~= Seq::<usize>::empty());
        }
        while more
            invariant
                before.ok(),
                w0 == before.w(),
                live == before.generation,
                self.state == state,
                before.queue.held(),
                self.queue.wf(),
                self.queue.structure() == old(self).queue.structure(),
                self@ == (NotifyView { queue: self.queue@, ..before }),
                0 <= i <= w0.line.len(),
                chain@ == w0.line.take(i),
                self.queue@ == before.queue.with(w0.popped_front(i)),
                older(w0, live, 0) == i + if more {
                    older(w0, live, i)
                } else {
                    0
                },
            decreases w0.line.len() - i, if more { 1int } else { 0 },
        {
            match self.queue.first() {
                Some(front) => {
                    assert(front == w0.line[i]);
                    assert(w0.live(w0.line[i]));
                    if self.queue.aux(front) == live {
                        more = false;
                    } else {
                        let popped = self.queue.pop();
                        if let Some(id) = popped {
                            chain.append(id);
                        }
                        proof {
                            lemma_popped_front(w0, i);
                            assert(w0.line.take(i + 1) =~= w0.line.take(i).push(w0.line[i]));
                            i = i + 1;
                        }
                    }
                },
                None => {
                    more = false;
                },
            }
        }
        proof {
            self.hold = Ghost(NotifyHold::AllDone);
            lemma_older(w0, live, 0);
            lemma_popped_ok(before, self@, i);
            let ids = chain@;
            assert forall|p: int| 0 <= p < ids.len() implies self@.w().popped.contains(
                #[trigger] ids[p],
            ) by {
                assert(ids.to_set().contains(ids[p]));
            }
        }
        chain
    }

    /// Takes the queue in order to leave the line, if there is a queue.
    pub fn begin_remove(&mut self) -> (r: LockAttempt)
        requires
            old(self).wf(),
        ensures
            final(self).wf(),
            final(self).structure() == old(self).structure(),
            r == old(self)@.queue.attempt(false),
            final(self)@ == if r is Held {
                NotifyView {
                    queue: old(self)@.queue.locked(false),
                    hold: NotifyHold::Remove,
                    ..old(self)@
                }
            } else {
                old(self)@
            },
    {
        let ghost before = self@;
        let r = self.queue.lock_existing();
        proof {
            if r is Held {
                self.hold = Ghost(NotifyHold::Remove);
                lemma_same_line(before, self@);
            }
        }
        r
    }

    /// Takes a waiter out of the line. Returns whether it was in line.
    pub fn remove_entry(&mut self, entry: usize) -> (r: bool)
        requires
            old(self).wf(),
            old(self)@.hold is Remove,
            old(self)@.w().live(entry),
        ensures
            final(self).wf(),
            final(self).structure() == old(self).structure(),
            r == old(self)@.line().contains(entry),
            final(self)@ == (NotifyView {
                queue: old(self)@.queue.with(old(self)@.w().removed(entry)),
                ..old(self)@
            }),
            r ==> final(self)@.w().idle(entry),
    {
        let ghost before = self@;
        let found = self.queue.remove(entry);
        proof {
            if found {
                let line = before.line();
                lemma_remove(line, entry);
                let k = line.index_of(entry);
                let after = self@;
                let left = after.line();
                assert forall|i: int| 0 <= i < left.len() implies #[trigger] left[i] == line[if i
                    < k {
                    i
                } else {
                    i + 1
                }] by {}
                assert forall|i: int| 0 <= i < left.len() implies #[trigger] born(after.w(), i)
                    == born(before.w(), 
                    if i < k {
                        i
                    } else {
                        i + 1
                    },
                ) by {
                    assert(left[i] == line[if i < k {
                        i
                    } else {
                        i + 1
                    }]);
                }
            }
        }
        found
    }

    /// Sends a signal to one waiter that was taken out of the line.
    pub fn signal(&mut self, entry: usize, value: usize) -> (r: Wake)
        requires
            old(self).wf(),
            old(self)@.w().popped.contains(entry),
        ensures
            final(self).wf(),
            final(self).structure() == old(self).structure(),
            final(self)@ == (NotifyView {
                queue: old(self)@.queue.with(old(self)@.w().after_signal(entry, value)),
                ..old(self)@
            }),
            r == old(self)@.node(entry).wake(),
            final(self)@.w().idle(entry),
    {
        let ghost before = self@;
        let r = self.queue.signal(entry, value);
        proof {
            assert(before.w().live(entry));
            assert(seq![entry][0] == entry);
            assert(forall|j: usize| seq![entry].contains(j) ==> j == entry);
            assert(seq![entry].contains(entry));
            lemma_signaled_ok(before, self@, seq![entry]);
        }
        r
    }

    /// Sends `value` to the waiters of a chain, front to back. Returns whom to
    /// wake.
    pub fn signal_all(&mut self, chain: PoppedChain, value: usize) -> (r: Vec<Wake>)
        requires
            old(self).wf(),
            old(self)@.w().owns_chain(chain@),
        ensures
            final(self).wf(),
            final(self).structure() == old(self).structure(),
            final(self)@ == (NotifyView {
                queue: old(self)@.queue.with(old(self)@.w().after_signals(chain@, value)),
                ..old(self)@
            }),
            r@ == old(self)@.w().wakes(chain@),
    {
        let ghost before = self@;
        let ghost ids = chain@;
        let wakes = chain.signal_all(&mut self.queue, value);
        proof {
            lemma_signaled_ok(before, self@, ids);
        }
        wakes
    }

    /// Makes the node of a thread.
    pub fn prepare_sync(&mut self, thread: usize) -> (entry: usize)
        requires
            old(self).wf(),
        ensures
            final(self).wf(),
            final(self).structure() == old(self).structure(),
            old(self)@.w().vacant(entry),
            final(self)@ == old(self)@.with_new(entry, SignalView::fresh_sync(thread)),
            final(self)@.w().idle(entry),
            final(self)@.node(entry) == SignalView::fresh_sync(thread),
    {
        let ghost before = self@;
        let entry: usize = self.queue.add_sync(thread);
        proof {
            lemma_notify_new(before, entry, SignalView::fresh_sync(thread));
        }
        entry
    }

    /// Makes the node of a task.
    pub fn prepare_async(&mut self) -> (entry: usize)
        requires
            old(self).wf(),
        ensures
            final(self).wf(),
            final(self).structure() == old(self).structure(),
            old(self)@.w().vacant(entry),
            final(self)@ == old(self)@.with_new(entry, SignalView::fresh_none()),
            final(self)@.w().idle(entry),
            final(self)@.node(entry) == SignalView::fresh_none(),
    {
        let ghost before = self@;
        let entry: usize = self.queue.add_none();
        proof {
            lemma_notify_new(before, entry, SignalView::fresh_none());
        }
        entry
    }

    /// Reads the signal.
    pub fn value(&self, entry: usize) -> (r: usize)
        requires
            self.wf(),
            self@.w().live(entry),
        ensures
            r == self@.node(entry).value,
    {
        self.queue.value(entry)
    }

    /// Registers the task to wake, which from now on waits.
    pub fn arm(&mut self, entry: usize, waker: usize)
        requires
            old(self).wf(),
            old(self)@.w().live(entry),
        ensures
            final(self).wf(),
            final(self).structure() == old(self).structure(),
            final(self)@ == old(self)@.with_node(
                entry,
                (SignalView {
                    value: SIGNAL_INIT_WAITING,
                    waker: WakerSlot::Async(waker),
                    ..old(self)@.node(entry)
                }),
            ),
    {
        let ghost before = self@;
        let ghost node = SignalView {
            value: SIGNAL_INIT_WAITING,
            waker: WakerSlot::Async(waker),
            ..before.node(entry)
        };
        self.queue.set_value(entry, SIGNAL_INIT_WAITING);
        self.queue.register(entry, waker);
        proof {
            assert(self@ =~= before.with_node(entry, node));
            lemma_notify_node(before, entry, node);
        }
    }

    /// Marks a task's request as completed.
    pub fn complete(&mut self, entry: usize)
        requires
            old(self).wf(),
            old(self)@.w().idle(entry),
        ensures
            final(self).wf(),
            final(self).structure() == old(self).structure(),
            final(self)@ == old(self)@.with_node(
                entry,
                (SignalView { value: SIGNAL_RETURNED, ..old(self)@.node(entry) }),
            ),
    {
        let ghost before = self@;
        self.queue.set_value(entry, SIGNAL_RETURNED);
        proof {
            lemma_notify_node(
                before,
                entry,
                SignalView { value: SIGNAL_RETURNED, ..before.node(entry) },
            );
        }
    }

    /// Gives a node back.
    pub fn discard(&mut self, entry: usize)
        requires
            old(self).wf(),
            old(self)@.w().idle(entry),
        ensures
            final(self).wf(),
            final(self).structure() == old(self).structure(),
            final(self)@ == old(self)@.with_node(entry, SignalView::dead()),
    {
        let ghost before = self@;
        self.queue.discard(entry);
        proof {
            lemma_notify_node(before, entry, SignalView::dead());
        }
    }

    /// One look of a waiting thread at its node.
    pub fn sync_step(&mut self, waiter: &mut SyncWaiter) -> (r: SyncStep)
        requires
            old(self).wf(),
            old(self)@.w().live(old(waiter)@.entry),
            !(old(self)@.node(old(waiter)@.entry).waker is Empty) || old(self)@.node(
                old(waiter)@.entry,
            ).value >= SIGNAL_SIGNALED,
        ensures
            final(self).wf(),
            final(self).structure() == old(self).structure(),
            r == old(waiter)@.step(old(self)@.node(old(waiter)@.entry).value),
            final(waiter)@ == old(waiter)@.after_step(old(self)@.node(old(waiter)@.entry).value),
            final(self)@ == (NotifyView {
                queue: after_sync_step(old(self)@.queue, old(waiter)@),
                ..old(self)@
            }),
    {
        let ghost before = self@;
        let ghost entry = waiter@.entry;
        let ghost node = SignalView {
            value: waiter@.value_after(before.node(entry).value),
            ..before.node(entry)
        };
        let r = waiter.step(&mut self.queue);
        proof {
            assert(self@ =~= before.with_node(entry, node));
            if before.line().contains(entry) {
                assert(waiting(before.node(before.line()[before.line().index_of(entry)])));
            }
            if before.w().popped.contains(entry) {
                assert(waiting(before.node(entry)));
            }
            lemma_notify_node(before, entry, node);
        }
        r
    }
}

/// What the line keeps when only the door changes.
proof fn lemma_same_line(before: NotifyView, after: NotifyView)
    requires
        before.ok(),
        !(before.hold is All),
        after.w() == before.w(),
        after.generation == before.generation,
        after.owed == before.owed,
        after.permit == before.permit,
    ensures
        after.line_ok(),
        after.no_lost_wakeup(),
{
    assert forall|i: int| 0 <= i < after.line().len() implies #[trigger] born(after.w(), i)
        == born(before.w(), i) by {}
}

/// Taking waiters out at the front keeps what every turn keeps.
proof fn lemma_popped_ok(before: NotifyView, after: NotifyView, k: int)
    requires
        before.ok(),
        0 <= k <= before.line().len(),
        after == (NotifyView {
            queue: before.queue.with(before.w().popped_front(k)),
            hold: after.hold,
            ..before
        }),
        before.hold is One && after.hold is One && k == 1 || before.hold is All
            && after.hold is AllDone && k == older(before.w(), before.generation, 0),
        after.w().ok(),
    ensures
        after.ok(),
{
    lemma_older(before.w(), before.generation, 0);
    let w = before.w();
    assert forall|i: int| 0 <= i < after.line().len() implies #[trigger] after.line()[i]
        == before.line()[i + k] by {}
    assert forall|i: int| 0 <= i < after.line().len() implies #[trigger] born(after.w(), i)
        == born(before.w(), i + k) by {
        assert(after.line()[i] == before.line()[i + k]);
    }
    if before.hold is All && k < before.line().len() {
        assert(born(before.w(), k) == before.generation);
        assert forall|i: int| 0 <= i < after.line().len() implies #[trigger] born(after.w(), i)
            == after.generation by {
            assert(born(after.w(), i) == born(before.w(), i + k));
        }
    }
    assert forall|id: usize| #[trigger] after.w().popped.contains(id) implies waiting(
        after.node(id),
    ) by {
        if !before.w().popped.contains(id) {
            let p = w.line.take(k).index_of(id);
            assert(w.line[p] == id);
            assert(waiting(before.node(before.line()[p])));
        } else {
            assert(waiting(before.node(id)));
        }
    }
}

/// Signaling waiters that were taken out keeps what every turn keeps.
proof fn lemma_signaled_ok(before: NotifyView, after: NotifyView, ids: Seq<usize>)
    requires
        before.ok(),
        before.w().owns_chain(ids),
        after == (NotifyView { queue: after.queue, ..before }),
        after.queue == before.queue.with(after.w()),
        after.w().ok(),
        after.line() == before.line(),
        after.w().nodes.len() == before.w().nodes.len(),
        forall|id: usize| #[trigger]
            after.w().popped.contains(id) ==> before.w().popped.contains(id) && !ids.contains(id),
        forall|j: usize|
            j < before.w().nodes.len() && !ids.contains(j) ==> #[trigger] after.node(j)
                == before.node(j),
    ensures
        after.ok(),
{
    assert forall|i: int| 0 <= i < after.line().len() implies after.node(
        #[trigger] after.line()[i],
    ) == before.node(before.line()[i]) && born(after.w(), i) == born(before.w(), i) by {
        let id = before.line()[i];
        assert(before.line().contains(id));
        assert(before.w().live(id));
        if ids.contains(id) {
            assert(before.w().popped.contains(ids[ids.index_of(id)]));
        }
        assert(after.node(id) == before.node(id));
    }
    assert forall|i: int, j: int|
        0 <= i < j < after.line().len() && #[trigger] born(after.w(), i)
            == after.generation implies #[trigger] born(after.w(), j) == after.generation by {
        assert(after.node(after.line()[i]) == before.node(before.line()[i]));
        assert(after.node(after.line()[j]) == before.node(before.line()[j]));
        assert(born(before.w(), i) == before.generation);
        assert(born(before.w(), j) == before.generation);
    }
    assert forall|i: int|
        0 <= i < after.line().len() && #[trigger] born(after.w(), i)
            != after.generation implies after.owed > 0 || after.hold is All by {
        assert(after.node(after.line()[i]) == before.node(before.line()[i]));
        assert(born(before.w(), i) != before.generation);
    }
    assert forall|id: usize| #[trigger] after.w().popped.contains(id) implies waiting(
        after.node(id),
    ) by {
        assert(before.w().live(id));
        assert(waiting(before.node(id)));
    }
    if before.hold is Enqueue && before.hold->seen is Some && before.generation != word_generation(
        before.hold->seen->0,
    ) {
        assert forall|i: int| 0 <= i < after.line().len() implies #[trigger] born(after.w(), i)
            != after.generation by {
            assert(after.node(after.line()[i]) == before.node(before.line()[i]));
            assert(born(before.w(), i) != before.generation);
        }
    }
}

/// Rewriting a node keeps what every turn keeps, as long as a queued waiter
/// stays one of its generation.
proof fn lemma_notify_node(v: NotifyView, id: usize, node: SignalView)
    requires
        v.ok(),
        v.w().live(id),
        v.w().idle(id) || node.live && waiting(node) && node.aux == v.node(id).aux,
    ensures
        v.with_node(id, node).ok(),
{
    let a = v.with_node(id, node);
    assert forall|i: int| 0 <= i < a.line().len() implies a.w().live(#[trigger] a.line()[i])
        && waiting(a.node(a.line()[i])) && born(a.w(), i) == born(v.w(), i) by {
        assert(v.w().live(v.line()[i]));
        assert(waiting(v.node(v.line()[i])));
        assert(v.line().contains(v.line()[i]));
    }
    lemma_same_born(v, a);
    assert forall|x: usize| #[trigger] a.w().popped.contains(x) implies a.w().live(x)
        && !a.line().contains(x) && waiting(a.node(x)) by {
        assert(v.w().popped.contains(x));
        assert(waiting(v.node(x)));
    }
}

/// So does a new node.
proof fn lemma_notify_new(v: NotifyView, id: usize, node: SignalView)
    requires
        v.ok(),
        !v.w().live(id),
        id <= v.w().nodes.len(),
        v.with_new(id, node).w().ok(),
    ensures
        v.with_new(id, node).ok(),
{
    let a = v.with_new(id, node);
    assert forall|i: int| 0 <= i < a.line().len() implies a.node(#[trigger] a.line()[i]) == v.node(
        v.line()[i],
    ) && born(a.w(), i) == born(v.w(), i) by {
        assert(v.w().live(v.line()[i]));
    }
    lemma_same_born(v, a);
    assert forall|x: usize| #[trigger] a.w().popped.contains(x) implies a.node(x) == v.node(x) by {
        assert(v.w().live(x));
    }
}

/// A line in which nobody's generation has changed.
proof fn lemma_same_born(v: NotifyView, a: NotifyView)
    requires
        v.ok(),
        a.line() == v.line(),
        a.generation == v.generation,
        a.hold == v.hold,
        a.owed == v.owed,
        a.permit == v.permit,
        a.flag == v.flag,
        forall|i: int| 0 <= i < v.line().len() ==> a.node(#[trigger] v.line()[i]).aux == born(v.w(), i),
    ensures
        a.hold_ok(),
        a.no_lost_wakeup(),
        forall|i: int, j: int|
            0 <= i < j < a.line().len() && #[trigger] born(a.w(), i) == a.generation
                ==> #[trigger] born(a.w(), j) == a.generation,
{
    assert forall|i: int| 0 <= i < a.line().len() implies #[trigger] born(a.w(), i)
        == born(v.w(), i) by {
        assert(a.node(v.line()[i]).aux == born(v.w(), i));
    }
}

} // verus!
