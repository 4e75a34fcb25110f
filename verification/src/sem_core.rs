//! The permit-counting core of the semaphore and of the reader-writer lock.
//!
//! The state is one word, `permits << 2 | HAS_QUEUE | CLOSED`, and a wait
//! queue; a waiter's `aux` is the number of permits it still needs. Releases
//! put permits into the word and then hand them to the waiters in line order.
//!
//! The methods come in two layers. The first are the turns a thread takes: one
//! read-modify-write of the word, or work on the queue while the thread has it
//! to itself. Turns of several threads may alternate in any order, and every
//! one of them keeps [`SemView::ok`]. The second are whole operations, which
//! string turns together where no other thread comes between.
use vstd::prelude::*;

use crate::pool::{returned, traded, QueuePool};
use crate::queue_word::Word;
use crate::sem_word::{
    lemma_shift, lemma_word, word_closed, word_flag, word_permits, CLOSED,
    HAS_QUEUE, MAX_PERMITS, PERMIT_SHIFT,
};
use crate::signal::{
    Poll, SignalView, Wake, WakerSlot, SIGNAL_CLOSED, SIGNAL_INIT_WAITING, SIGNAL_RETURNED,
    SIGNAL_SIGNALED, SIGNAL_UNINIT,
};
use crate::sync_wait::{after_sync_step, SyncStep, SyncWaiter};
use crate::totals::{lemma_total_push, lemma_total_same, lemma_total_update, total_granted};
use crate::wait_queue::{LockAttempt, PoppedChain, WaitQueue, WaitQueueView};
use crate::waiters::{lemma_popped_front, lemma_remove, WaitersView};

verus! {

/// Error returned when acquiring permits from a closed semaphore.
#[derive(Debug, PartialEq, Eq, Clone, Copy)]
pub struct AcquireError(());

impl AcquireError {
    /// There is only one such error.
    pub closed spec fn the() -> AcquireError {
        AcquireError(())
    }

    /// The error.
    pub fn new() -> (r: Self)
        ensures
            r == AcquireError::the(),
    {
        AcquireError(())
    }

    /// The error's message.
    pub fn message(&self) -> (r: &'static str)
        ensures
            r@ == "semaphore closed"@,
    {
        "semaphore closed"
    }
}

/// Error returned by non-blocking permit acquisition.
#[derive(Debug, PartialEq, Eq, Clone, Copy, Structural)]
pub enum TryAcquireError {
    /// The semaphore has been closed and no further permits can be acquired.
    Closed,
    /// The semaphore has insufficient available permits, or waiters are queued
    /// ahead, which would make taking permits unfair.
    NoPermits,
}

impl TryAcquireError {
    /// The error's message.
    pub fn message(&self) -> (r: &'static str)
        ensures
            r@ == match self {
                TryAcquireError::Closed => "semaphore closed"@,
                TryAcquireError::NoPermits => "no permits available"@,
            },
    {
        match self {
            TryAcquireError::Closed => "semaphore closed",
            TryAcquireError::NoPermits => "no permits available",
        }
    }
}

/// Result of an enqueue attempt.
#[derive(Debug, PartialEq, Eq, Clone, Copy, Structural)]
pub enum EnqueueResult {
    /// The permits were acquired directly while holding the queue.
    Acquired,
    /// The semaphore is closed; nothing was acquired or queued.
    Closed,
    /// The entry was pushed to the wait queue. The flag says whether it was
    /// first, which is when a thread spins before it parks.
    Enqueued(bool),
}

/// Result of one look at the permit word during an enqueue attempt.
#[derive(Debug, PartialEq, Eq, Clone, Copy, Structural)]
pub enum EnqueueTurn {
    /// The permits were taken.
    Acquired,
    /// The word says closed.
    Closed,
    /// The word has changed; look again at this one.
    Retry(usize),
    /// The permits are not there: queue up.
    Queue,
}

/// Who has the queue to itself, and how far it is.
pub enum Hold {
    /// Nobody.
    Free,
    /// A thread that wants to queue a waiter; `seen` is the permit word it saw
    /// last, once it has set the waiter flag.
    Enqueue { seen: Option<usize> },
    /// A thread that hands out permits and has taken none yet.
    DrainStart,
    /// The same, with `available` permits in hand.
    DrainTaken { available: nat },
    /// The same, after it served whom it could.
    DrainServed { available: nat },
    /// A thread that fails the waiters of a closed semaphore.
    Sweep,
    /// A thread that takes a waiter out of the line.
    Cancel,
}

/// The state of a semaphore.
#[verifier::ext_equal]
pub struct SemView {
    /// Permits in stock.
    pub permits: nat,
    /// The waiter flag.
    pub flag: bool,
    /// The closed flag.
    pub closed: bool,
    /// The wait queue.
    pub queue: WaitQueueView,
    /// Who has the queue to itself.
    pub hold: Hold,
    /// Threads that put permits into the stock, saw the waiter flag, and have
    /// not yet taken the queue to hand the permits out.
    pub owed: nat,
    /// Threads that closed the semaphore, saw the waiter flag, and have not
    /// yet taken the queue to fail the waiters.
    pub sweeps: nat,
}

/// A node whose waiter is in line, or was taken out and not yet signaled.
pub open spec fn waiting(node: SignalView) -> bool {
    (node.value == SIGNAL_UNINIT || node.value == SIGNAL_INIT_WAITING) && !(node.waker is Empty)
}

/// What holds of every node: it is never promised more than a semaphore can
/// hold, a served one needs nothing more, and one that holds no request holds
/// no permits.
pub open spec fn sem_node_ok(node: SignalView) -> bool {
    &&& node.granted + node.aux <= MAX_PERMITS
    &&& node.value == SIGNAL_SIGNALED ==> node.aux == 0
    &&& node.value == SIGNAL_RETURNED ==> node.granted == 0
    &&& node.value == SIGNAL_UNINIT && node.waker is Empty ==> node.granted == 0
    &&& !node.live ==> node.granted == 0
}

/// How many of the waiters from position `i` on can be served in full, one
/// after the other, from `available` permits.
pub open spec fn served(w: WaitersView, available: nat, i: int) -> nat
    decreases w.line.len() - i,
{
    if i < 0 || i >= w.line.len() || w.nodes[w.line[i] as int].aux > available {
        0
    } else {
        1 + served(w, (available - w.nodes[w.line[i] as int].aux) as nat, i + 1)
    }
}

/// The permits that are left after they were served.
pub open spec fn left_over(w: WaitersView, available: nat, i: int) -> nat
    decreases w.line.len() - i,
{
    if i < 0 || i >= w.line.len() || w.nodes[w.line[i] as int].aux > available {
        available
    } else {
        left_over(w, (available - w.nodes[w.line[i] as int].aux) as nat, i + 1)
    }
}

/// Node `j` after the first `k` waiters were served in full and the one
/// behind them got `extra` permits.
pub open spec fn serve_node(w: WaitersView, k: int, extra: nat, j: int) -> SignalView {
    let node = w.nodes[j];
    if !w.line.contains(j as usize) {
        node
    } else if w.line.index_of(j as usize) < k {
        SignalView { aux: 0, granted: node.granted + node.aux as nat, ..node }
    } else if w.line.index_of(j as usize) == k {
        SignalView {
            aux: (node.aux - extra) as usize,
            granted: node.granted + extra,
            ..node
        }
    } else {
        node
    }
}

/// The waiters after the first `k` were served in full and taken out of the
/// line, and the one behind them got `extra` permits.
pub open spec fn serve(w: WaitersView, k: int, extra: nat) -> WaitersView {
    WaitersView {
        line: w.line.skip(k),
        nodes: Seq::new(w.nodes.len(), |j: int| serve_node(w, k, extra, j)),
        popped: w.popped.union(w.line.take(k).to_set()),
    }
}

impl SemView {
    /// An open semaphore with `permits` permits and nobody waiting.
    pub open spec fn fresh(permits: nat) -> SemView {
        SemView {
            permits,
            flag: false,
            closed: false,
            queue: WaitQueueView { door: Word::Unlocked, waiters: WaitersView::empty() },
            hold: Hold::Free,
            owed: 0,
            sweeps: 0,
        }
    }

    /// The waiters.
    pub open spec fn w(self) -> WaitersView {
        self.queue.waiters
    }

    /// The node of a waiter.
    pub open spec fn node(self, id: usize) -> SignalView {
        self.queue.waiters.nodes[id as int]
    }

    /// The waiters in line.
    pub open spec fn line(self) -> Seq<usize> {
        self.queue.waiters.line
    }

    /// Permits that a thread handing out permits has in hand.
    pub open spec fn in_hand(self) -> nat {
        match self.hold {
            Hold::DrainTaken { available } => available,
            Hold::DrainServed { available } => available,
            _ => 0,
        }
    }

    /// Every permit that is in stock, in a drainer's hand, or assigned to a
    /// waiter that has not taken it over yet.
    pub open spec fn total(self) -> nat {
        self.permits + self.in_hand() + total_granted(self.queue.waiters.nodes)
    }

    /// No thread has the queue to itself.
    pub open spec fn quiet(self) -> bool {
        self.hold is Free
    }

    /// The pointer word and the waiter flag agree with the line.
    pub open spec fn door_ok(self) -> bool {
        match self.hold {
            Hold::Free => {
                &&& self.flag == (self.line().len() > 0)
                &&& self.queue.door == if self.line().len() > 0 {
                    Word::Queue
                } else {
                    Word::Unlocked
                }
            },
            _ => {
                &&& self.queue.door.held()
                &&& self.line().len() > 0 ==> self.flag
            },
        }
    }

    /// What the thread that has the queue relies on.
    pub open spec fn hold_ok(self) -> bool {
        match self.hold {
            Hold::Free => true,
            Hold::Enqueue { seen } => match seen {
                None => true,
                Some(cur) => {
                    &&& self.flag
                    &&& self.permits > word_permits(cur) ==> self.owed > 0
                    &&& self.closed && !word_closed(cur) ==> self.sweeps > 0
                },
            },
            Hold::DrainStart => self.flag,
            Hold::DrainTaken { available } => {
                &&& self.flag
                &&& self.permits > 0 ==> self.owed > 0
                &&& available <= MAX_PERMITS
            },
            Hold::DrainServed { available } => {
                &&& self.flag
                &&& available > 0 ==> self.line().len() == 0
                &&& available <= MAX_PERMITS
            },
            Hold::Sweep => self.closed,
            Hold::Cancel => true,
        }
    }

    /// The line: its waiters are waiting, and nobody behind the first holds
    /// any permit.
    pub open spec fn line_ok(self) -> bool {
        &&& forall|i: int|
            0 <= i < self.line().len() ==> waiting(self.node(#[trigger] self.line()[i]))
        &&& forall|i: int|
            0 < i < self.line().len() ==> self.node(#[trigger] self.line()[i]).granted == 0
        &&& forall|id: usize| #[trigger]
            self.w().popped.contains(id) ==> waiting(self.node(id))
        &&& forall|j: int|
            0 <= j < self.w().nodes.len() ==> sem_node_ok(#[trigger] self.w().nodes[j])
    }

    /// No wakeup is lost: if the first in line could be served from the stock,
    /// some thread is about to hand out the stock.
    pub open spec fn no_lost_wakeup(self) -> bool {
        self.line().len() > 0 && self.node(self.line()[0]).aux <= self.permits ==> self.owed > 0
            || self.hold is DrainStart || self.hold is DrainTaken
    }

    /// No waiter outlives the closing: if somebody is in line after it, some
    /// thread is about to fail the line.
    pub open spec fn no_lost_close(self) -> bool {
        self.closed && self.line().len() > 0 ==> self.sweeps > 0 || self.hold is Sweep
    }

    /// Nobody is told that the semaphore is closed before it is.
    pub open spec fn told_ok(self) -> bool {
        forall|j: int|
            0 <= j < self.w().nodes.len() && (#[trigger] self.w().nodes[j]).value == SIGNAL_CLOSED
                ==> self.closed
    }

    /// What every turn of every thread keeps.
    pub open spec fn ok(self) -> bool {
        &&& self.permits <= MAX_PERMITS
        &&& self.w().ok()
        &&& self.door_ok()
        &&& self.hold_ok()
        &&& self.line_ok()
        &&& self.no_lost_wakeup()
        &&& self.no_lost_close()
        &&& self.told_ok()
    }

    /// The same state with another node.
    pub open spec fn with_node(self, id: usize, node: SignalView) -> SemView {
        SemView { queue: self.queue.with(self.w().with_node(id, node)), ..self }
    }

    /// The same state with a new node.
    pub open spec fn with_new(self, id: usize, node: SignalView) -> SemView {
        SemView { queue: self.queue.with(self.w().with_new(id, node)), ..self }
    }

    /// The permit word is `word`.
    pub open spec fn word_is(self, word: usize) -> bool {
        self.permits == word_permits(word) && self.flag == word_flag(word) && self.closed
            == word_closed(word)
    }

    /// The thread that has the queue is done with it.
    pub open spec fn may_end(self) -> bool {
        match self.hold {
            Hold::Free => false,
            Hold::Enqueue { .. } => true,
            Hold::DrainStart => false,
            Hold::DrainTaken { .. } => false,
            Hold::DrainServed { available } => available == 0,
            Hold::Sweep => self.line().len() == 0,
            Hold::Cancel => true,
        }
    }

    /// The state after that thread left the queue.
    pub open spec fn after_end(self) -> SemView {
        SemView {
            flag: self.flag && self.line().len() > 0,
            queue: self.queue.unlocked(),
            hold: Hold::Free,
            ..self
        }
    }

    /// `entry` may be queued: the thread that has the queue saw an open
    /// semaphore, with too few permits if nobody is in line.
    pub open spec fn may_push(self, entry: usize) -> bool {
        &&& self.hold matches Hold::Enqueue { seen: Some(cur) } && !word_closed(cur) && (
        self.line().len() == 0 ==> word_permits(cur) < self.node(entry).aux)
        &&& self.w().idle(entry)
        &&& waiting(self.node(entry))
        &&& self.node(entry).granted == 0
    }

    /// The state after a drainer served the line from `available` permits.
    pub open spec fn after_serve(self, available: nat) -> SemView {
        let w = self.w();
        let k = served(w, available, 0) as int;
        let left = left_over(w, available, 0);
        let short = k < w.line.len();
        SemView {
            queue: self.queue.with(
                serve(
                    w,
                    k,
                    if short {
                        left
                    } else {
                        0
                    },
                ),
            ),
            hold: Hold::DrainServed {
                available: if short {
                    0
                } else {
                    left
                },
            },
            ..self
        }
    }

    /// `id` is the node of a waiter that asked for `n` permits: while it waits
    /// or holds an answer, what it was assigned and what it still needs add up
    /// to `n`.
    pub open spec fn asked(self, id: usize, n: usize) -> bool {
        &&& self.w().live(id)
        &&& self.node(id).value != SIGNAL_RETURNED && !(self.node(id).value == SIGNAL_UNINIT
            && self.node(id).waker is Empty) ==> self.node(id).granted + self.node(id).aux == n
    }
}

/// Serving is bounded by the line and by the permits at hand, and stops only
/// at a waiter that needs more than is left.
pub proof fn lemma_served(w: WaitersView, available: nat, i: int)
    requires
        0 <= i <= w.line.len(),
    ensures
        i + served(w, available, i) <= w.line.len(),
        left_over(w, available, i) <= available,
        i + served(w, available, i) < w.line.len() ==> w.nodes[w.line[i + served(
            w,
            available,
            i,
        )] as int].aux > left_over(w, available, i),
    decreases w.line.len() - i,
{
    if i < w.line.len() && w.nodes[w.line[i] as int].aux <= available {
        lemma_served(w, (available - w.nodes[w.line[i] as int].aux) as nat, i + 1);
    }
}

/// One more waiter served in full.
proof fn lemma_serve_step(w: WaitersView, i: int)
    requires
        w.ok(),
        0 <= i < w.line.len(),
    ensures
        serve(w, i, 0).line[0] == w.line[i],
        serve(w, i, 0).nodes[w.line[i] as int] == w.nodes[w.line[i] as int],
        serve(w, i, 0).with_node(
            w.line[i],
            (SignalView {
                aux: 0,
                granted: w.nodes[w.line[i] as int].granted + w.nodes[w.line[i] as int].aux as nat,
                ..w.nodes[w.line[i] as int]
            }),
        ).popped_front(1) == serve(w, i + 1, 0),
{
    let id = w.line[i];
    assert(w.live(id));
    assert(w.line.contains(id));
    assert(w.line.index_of(id) == i);
    let node = SignalView {
        aux: 0,
        granted: w.nodes[id as int].granted + w.nodes[id as int].aux as nat,
        ..w.nodes[id as int]
    };
    let a = serve(w, i, 0).with_node(id, node).popped_front(1);
    let b = serve(w, i + 1, 0);
    assert forall|j: int| 0 <= j < w.nodes.len() implies a.nodes[j] == b.nodes[j] by {
        if w.line.contains(j as usize) {
            let p = w.line.index_of(j as usize);
            assert(w.line[p] == j);
        }
    }
    assert(a.nodes =~= b.nodes);
    assert(a.line =~= b.line);
    let taken = serve(w, i, 0).line.take(1);
    assert forall|x: usize| w.line.take(i + 1).contains(x) <==> w.line.take(i).contains(x)
        || taken.contains(x) by {
        if w.line.take(i + 1).contains(x) {
            let p = w.line.take(i + 1).index_of(x);
            if p < i {
                assert(w.line.take(i)[p] == x);
            } else {
                assert(taken[0] == x);
            }
        }
        if w.line.take(i).contains(x) {
            assert(w.line.take(i + 1)[w.line.take(i).index_of(x)] == x);
        }
        if taken.contains(x) {
            assert(w.line.take(i + 1)[i] == x);
        }
    }
    assert(a.popped =~= b.popped);
    assert(a =~= b);
}

/// The first in line gets a part of what it needs.
proof fn lemma_serve_part(w: WaitersView, i: int, extra: nat)
    requires
        w.ok(),
        0 <= i < w.line.len(),
        extra <= w.nodes[w.line[i] as int].aux,
    ensures
        serve(w, i, 0).with_node(
            w.line[i],
            (SignalView {
                aux: (w.nodes[w.line[i] as int].aux - extra) as usize,
                granted: w.nodes[w.line[i] as int].granted + extra,
                ..w.nodes[w.line[i] as int]
            }),
        ) == serve(w, i, extra),
{
    let id = w.line[i];
    assert(w.live(id));
    assert(w.line.contains(id));
    assert(w.line.index_of(id) == i);
    assert forall|j: int| 0 <= j < w.nodes.len() implies #[trigger] serve_node(w, i, extra, j)
        == if j == id {
        SignalView {
            aux: (w.nodes[id as int].aux - extra) as usize,
            granted: w.nodes[id as int].granted + extra,
            ..w.nodes[id as int]
        }
    } else {
        serve_node(w, i, 0, j)
    } by {
        if w.line.contains(j as usize) {
            let p = w.line.index_of(j as usize);
            assert(w.line[p] == j);
        }
    }
    assert(serve(w, i, 0).with_node(
        id,
        (SignalView {
            aux: (w.nodes[id as int].aux - extra) as usize,
            granted: w.nodes[id as int].granted + extra,
            ..w.nodes[id as int]
        }),
    ) =~= serve(w, i, extra));
}

/// Nothing served, nothing changed.
proof fn lemma_serve_none(w: WaitersView)
    requires
        w.ok(),
    ensures
        serve(w, 0, 0) == w,
{
    assert forall|j: int| 0 <= j < w.nodes.len() implies #[trigger] serve_node(w, 0, 0, j)
        == w.nodes[j] by {
        if w.line.contains(j as usize) {
            let p = w.line.index_of(j as usize);
            assert(w.line[p] == j);
        }
    }
    assert(serve(w, 0, 0) =~= w);
}

/// A task's node, ready to be queued for `n` permits.
pub open spec fn armed(n: usize, waker: usize) -> SignalView {
    SignalView {
        value: SIGNAL_INIT_WAITING,
        aux: n,
        waker: WakerSlot::Async(waker),
        live: true,
        granted: 0,
    }
}

/// A node whose request is completed.
pub open spec fn completed(node: SignalView) -> SignalView {
    SignalView { value: SIGNAL_RETURNED, granted: 0, ..node }
}

/// Rewriting a node keeps what every turn keeps, as long as a queued waiter
/// stays one and its needs stay the same.
proof fn lemma_node(v: SemView, id: usize, node: SignalView)
    requires
        v.ok(),
        v.w().live(id),
        sem_node_ok(node),
        node.value == SIGNAL_CLOSED ==> v.closed,
        v.w().idle(id) || node.live && waiting(node) && node.aux == v.node(id).aux && node.granted
            == v.node(id).granted,
    ensures
        v.with_node(id, node).ok(),
        v.with_node(id, node).total() == v.total() - v.node(id).granted + node.granted,
{
    let a = v.with_node(id, node);
    lemma_total_update(v.w().nodes, id as int, node);
    assert forall|i: int| 0 <= i < a.line().len() implies a.w().live(#[trigger] a.line()[i])
        && waiting(a.node(a.line()[i])) && a.node(a.line()[i]).aux == v.node(v.line()[i]).aux
        && a.node(a.line()[i]).granted == v.node(v.line()[i]).granted by {
        assert(v.w().live(v.line()[i]));
        assert(waiting(v.node(v.line()[i])));
        assert(v.line().contains(v.line()[i]));
    }
    assert forall|x: usize| #[trigger] a.w().popped.contains(x) implies a.w().live(x)
        && !a.line().contains(x) && waiting(a.node(x)) by {
        assert(v.w().popped.contains(x));
        assert(waiting(v.node(x)));
    }
    assert forall|j: int| 0 <= j < a.w().nodes.len() implies sem_node_ok(
        #[trigger] a.w().nodes[j],
    ) by {
        assert(sem_node_ok(v.w().nodes[j]));
    }
    assert forall|j: int|
        0 <= j < a.w().nodes.len() && (#[trigger] a.w().nodes[j]).value
            == SIGNAL_CLOSED implies a.closed by {
        if j != id {
            assert(a.w().nodes[j] == v.w().nodes[j]);
        }
    }
}

/// So does a new node that holds no permits.
proof fn lemma_new(v: SemView, id: usize, node: SignalView)
    requires
        v.ok(),
        !v.w().live(id),
        id <= v.w().nodes.len(),
        v.with_new(id, node).w().ok(),
        sem_node_ok(node),
        node.granted == 0,
        node.value != SIGNAL_CLOSED,
    ensures
        v.with_new(id, node).ok(),
        v.with_new(id, node).total() == v.total(),
{
    let a = v.with_new(id, node);
    if id < v.w().nodes.len() {
        lemma_total_update(v.w().nodes, id as int, node);
        assert(sem_node_ok(v.w().nodes[id as int]));
    } else {
        lemma_total_push(v.w().nodes, node);
    }
    assert forall|i: int| 0 <= i < a.line().len() implies a.node(#[trigger] a.line()[i]) == v.node(
        v.line()[i],
    ) by {
        assert(v.w().live(v.line()[i]));
    }
    assert forall|x: usize| #[trigger] a.w().popped.contains(x) implies a.node(x) == v.node(x) by {
        assert(v.w().live(x));
    }
    assert forall|j: int| 0 <= j < a.w().nodes.len() implies sem_node_ok(
        #[trigger] a.w().nodes[j],
    ) by {
        if j < v.w().nodes.len() {
            assert(sem_node_ok(v.w().nodes[j]));
        }
    }
    assert forall|j: int|
        0 <= j < a.w().nodes.len() && (#[trigger] a.w().nodes[j]).value
            == SIGNAL_CLOSED implies a.closed by {
        if j != id {
            assert(a.w().nodes[j] == v.w().nodes[j]);
        }
    }
}

/// One debt less.
pub open spec fn pay(owed: nat) -> nat {
    if owed > 0 {
        (owed - 1) as nat
    } else {
        0
    }
}

/// Serving the line keeps what every turn keeps.
proof fn lemma_after_serve_ok(v: SemView, available: nat)
    requires
        v.ok(),
        v.hold == (Hold::DrainTaken { available }),
    ensures
        v.after_serve(available).ok(),
        v.after_serve(available).w().owns_chain(
            v.line().take(served(v.w(), available, 0) as int),
        ),
{
    let w = v.w();
    lemma_served(w, available, 0);
    let k = served(w, available, 0) as int;
    let left = left_over(w, available, 0);
    let a = v.after_serve(available);
    assert forall|p: int| 0 <= p < w.line.len() implies w.live(#[trigger] w.line[p])
        && w.line.contains(w.line[p]) && w.line.index_of(w.line[p]) == p by {
        assert(w.line[w.line.index_of(w.line[p])] == w.line[p]);
    }
    assert forall|p: int| 0 <= p < a.line().len() implies #[trigger] a.line()[p] == w.line[p
        + k] by {}
    assert forall|x: usize| w.line.take(k).contains(x) implies w.line.contains(x)
        && w.line.index_of(x) < k by {
        let p = w.line.take(k).index_of(x);
        assert(w.line[p] == x);
    }
    assert forall|x: usize| a.line().contains(x) implies w.line.contains(x) && w.line.index_of(x)
        >= k by {
        let p = a.line().index_of(x);
        assert(w.line[p + k] == x);
    }
    assert(a.line().no_duplicates());
    assert(a.w().ok());
    assert forall|p: int| 0 <= p < w.line.take(k).len() implies a.w().popped.contains(
        #[trigger] w.line.take(k)[p],
    ) by {
        assert(w.line.take(k).contains(w.line.take(k)[p]));
    }
    assert forall|id: usize| #[trigger] a.w().popped.contains(id) implies waiting(a.node(id)) by {
        if v.w().popped.contains(id) {
            assert(waiting(v.node(id)));
            assert(a.node(id) == v.node(id));
        } else {
            let p = w.line.index_of(id);
            assert(waiting(v.node(v.line()[p])));
        }
    }
    assert forall|i: int| 0 <= i < a.line().len() implies waiting(
        a.node(#[trigger] a.line()[i]),
    ) by {
        assert(waiting(v.node(v.line()[i + k])));
    }
    assert forall|i: int| 0 < i < a.line().len() implies a.node(
        #[trigger] a.line()[i],
    ).granted == 0 by {
        assert(v.node(v.line()[i + k]).granted == 0);
    }
    assert forall|j: int| 0 <= j < a.w().nodes.len() implies sem_node_ok(
        #[trigger] a.w().nodes[j],
    ) by {
        assert(sem_node_ok(w.nodes[j]));
        if w.line.contains(j as usize) {
            let p = w.line.index_of(j as usize);
            assert(waiting(v.node(v.line()[p])));
        }
    }
}

/// A counting semaphore's core.
pub struct SemCore {
    state: usize,
    queue: WaitQueue,
    hold: Ghost<Hold>,
    owed: Ghost<nat>,
    sweeps: Ghost<nat>,
}

impl View for SemCore {
    type V = SemView;

    closed spec fn view(&self) -> SemView {
        SemView {
            permits: word_permits(self.state),
            flag: word_flag(self.state),
            closed: word_closed(self.state),
            queue: self.queue@,
            hold: self.hold@,
            owed: self.owed@,
            sweeps: self.sweeps@,
        }
    }
}

impl SemCore {
    /// The representation behind the view.
    pub closed spec fn inv(&self) -> bool {
        self.queue.inv()
    }

    /// The address of the structure that the line stands in.
    pub closed spec fn structure(&self) -> Option<usize> {
        self.queue.structure()
    }

    /// There is a structure exactly while there is a queue, and a published
    /// queue is never empty.
    pub proof fn lemma_structure(&self)
        requires
            self.wf(),
        ensures
            (self.structure() is None) == (self@.queue.door is Unlocked),
            self@.queue.door is Unlocked ==> self@.queue.waiters.line.len() == 0,
            self@.queue.door is Queue ==> self@.queue.waiters.line.len() > 0,
    {
        self.queue.lemma_wf();
    }

    /// Well-formedness, kept by every turn.
    pub open spec fn wf(&self) -> bool {
        self@.ok() && self.inv()
    }

    /// A semaphore with `permits` permits.
    pub fn new(permits: usize) -> (r: Self)
        requires
            permits <= MAX_PERMITS,
        ensures
            r.wf(),
            r.structure() is None,
            r@ == SemView::fresh(permits as nat),
            r@.total() == permits,
    {
        proof {
            lemma_shift(permits);
        }
        SemCore {
            state: permits << PERMIT_SHIFT,
            queue: WaitQueue::new(),
            hold: Ghost(Hold::Free),
            owed: Ghost(0),
            sweeps: Ghost(0),
        }
    }

    /// The number of permits in stock.
    pub fn available_permits(&self) -> (r: usize)
        ensures
            r == self@.permits,
    {
        proof {
            lemma_word(self.state);
        }
        self.state >> PERMIT_SHIFT
    }

    /// Whether the semaphore has been closed.
    pub fn is_closed(&self) -> (r: bool)
        ensures
            r == self@.closed,
    {
        proof {
            lemma_word(self.state);
        }
        self.state & CLOSED != 0
    }

    /// Takes `n` permits if they are in stock and nobody is in line.
    #[verifier::spinoff_prover]
    #[verifier::rlimit(60)]
    pub fn try_acquire(&mut self, n: usize) -> (r: Result<(), TryAcquireError>)
        requires
            old(self).wf(),
        ensures
            final(self).wf(),
            final(self).structure() == old(self).structure(),
            r == (if old(self)@.closed {
                Err(TryAcquireError::Closed)
            } else if old(self)@.flag || old(self)@.permits < n {
                Err(TryAcquireError::NoPermits)
            } else {
                Ok(())
            }),
            final(self)@ == if r is Ok {
                SemView { permits: (old(self)@.permits - n) as nat, ..old(self)@ }
            } else {
                old(self)@
            },
    {
        let cur: usize = self.state;
        proof {
            lemma_word(cur);
        }
        if branches::unlikely(cur & CLOSED != 0) {
            return Err(TryAcquireError::Closed);
        }
        if branches::unlikely(cur & HAS_QUEUE != 0) || (cur >> PERMIT_SHIFT) < n {
            return Err(TryAcquireError::NoPermits);
        }
        proof {
            lemma_shift(n);
        }
        self.state = cur - (n << PERMIT_SHIFT);
        Ok(())
    }

    /// First turn of a release: puts `n` permits into the stock. Returns
    /// whether waiters may be parked, in which case the caller owes a drain.
    #[verifier::spinoff_prover]
    #[verifier::rlimit(60)]
    pub fn add(&mut self, n: usize) -> (r: bool)
        requires
            old(self).wf(),
            old(self)@.permits + n <= MAX_PERMITS,
        ensures
            final(self).wf(),
            final(self).structure() == old(self).structure(),
            r == old(self)@.flag,
            final(self)@ == (SemView {
                permits: old(self)@.permits + n as nat,
                owed: if r {
                    old(self)@.owed + 1
                } else {
                    old(self)@.owed
                },
                ..old(self)@
            }),
    {
        let prev: usize = self.state;
        proof {
            lemma_word(prev);
            lemma_shift(n);
        }
        self.state = prev + (n << PERMIT_SHIFT);
        let has_queue = branches::unlikely(prev & HAS_QUEUE != 0);
        proof {
            if has_queue {
                self.owed = Ghost(self.owed@ + 1);
            }
        }
        has_queue
    }

    /// Removes up to `n` permits from the stock; returns how many.
    #[verifier::spinoff_prover]
    #[verifier::rlimit(60)]
    pub fn forget_permits(&mut self, n: usize) -> (r: usize)
        requires
            old(self).wf(),
        ensures
            final(self).wf(),
            final(self).structure() == old(self).structure(),
            r == if old(self)@.permits < n {
                old(self)@.permits
            } else {
                n as nat
            },
            final(self)@ == (SemView { permits: (old(self)@.permits - r) as nat, ..old(self)@ }),
    {
        let cur: usize = self.state;
        proof {
            lemma_word(cur);
        }
        let count: usize = cur >> PERMIT_SHIFT;
        let forget: usize = if count < n {
            count
        } else {
            n
        };
        if forget == 0 {
            return 0;
        }
        proof {
            lemma_shift(forget);
        }
        self.state = cur - (forget << PERMIT_SHIFT);
        forget
    }

    /// First turn of closing: sets the flag. Returns whether the caller owes a
    /// sweep of the line.
    #[verifier::spinoff_prover]
    #[verifier::rlimit(60)]
    pub fn start_close(&mut self) -> (r: bool)
        requires
            old(self).wf(),
        ensures
            final(self).wf(),
            final(self).structure() == old(self).structure(),
            r == (!old(self)@.closed && old(self)@.flag),
            final(self)@ == (SemView {
                closed: true,
                sweeps: if r {
                    old(self)@.sweeps + 1
                } else {
                    old(self)@.sweeps
                },
                ..old(self)@
            }),
    {
        let prev: usize = self.state;
        proof {
            lemma_word(prev);
        }
        self.state = prev | CLOSED;
        if prev & CLOSED != 0 {
            return false;
        }
        let has_queue = prev & HAS_QUEUE != 0;
        proof {
            if has_queue {
                self.sweeps = Ghost(self.sweeps@ + 1);
            }
        }
        has_queue
    }

    /// Takes the queue in order to hand out permits, if there is a queue.
    pub fn begin_drain(&mut self) -> (r: LockAttempt)
        requires
            old(self).wf(),
        ensures
            final(self).wf(),
            final(self).structure() == old(self).structure(),
            r == old(self)@.queue.attempt(false),
            final(self)@ == match r {
                LockAttempt::Busy => old(self)@,
                LockAttempt::Absent => (SemView {
                    owed: pay(old(self)@.owed),
                    ..old(self)@
                }),
                LockAttempt::Held => (SemView {
                    owed: pay(old(self)@.owed),
                    queue: old(self)@.queue.locked(false),
                    hold: Hold::DrainStart,
                    ..old(self)@
                }),
            },
            final(self)@.total() == old(self)@.total(),
    {
        let r = self.queue.lock_existing();
        proof {
            if !(r is Busy) {
                self.owed = Ghost(pay(self.owed@));
            }
            if r is Held {
                self.hold = Ghost(Hold::DrainStart);
            }
        }
        r
    }

    /// Takes every permit that is in stock; the flags stay.
    #[verifier::spinoff_prover]
    #[verifier::rlimit(60)]
    pub fn take_all(&mut self) -> (r: usize)
        requires
            old(self).wf(),
            old(self)@.hold is DrainStart,
        ensures
            final(self).wf(),
            final(self).structure() == old(self).structure(),
            r == old(self)@.permits,
            final(self)@ == (SemView {
                permits: 0,
                hold: Hold::DrainTaken { available: r as nat },
                ..old(self)@
            }),
            final(self)@.total() == old(self)@.total(),
    {
        let cur: usize = self.state;
        proof {
            lemma_word(cur);
        }
        let available: usize = cur >> PERMIT_SHIFT;
        if available != 0 {
            self.state = cur & (CLOSED | HAS_QUEUE);
        }
        proof {
            self.hold = Ghost(Hold::DrainTaken { available: available as nat });
        }
        available
    }

    /// Serves the line, front to back: whoever can be satisfied is popped, and
    /// the first that cannot gets what is left. Returns the popped waiters,
    /// and the permits that nobody needs.
    pub fn serve(&mut self, available: usize) -> (r: (PoppedChain, usize))
        requires
            old(self).wf(),
            old(self)@.hold == (Hold::DrainTaken { available: available as nat }),
        ensures
            final(self).wf(),
            final(self).structure() == old(self).structure(),
            final(self)@ == old(self)@.after_serve(available as nat),
            final(self)@.hold == (Hold::DrainServed { available: r.1 as nat }),
            r.0@ == old(self)@.line().take(served(old(self)@.w(), available as nat, 0) as int),
            final(self)@.w().owns_chain(r.0@),
            final(self)@.total() == old(self)@.total(),
    {
        let ghost before = self@;
        let ghost w0 = self@.w();
        let mut available: usize = available;
        let ghost all = available as nat;
        let mut chain = PoppedChain::new();
        let mut blocked: bool = false;
        let ghost mut i: int = 0;
        let ghost mut extra: nat = 0;
        let mut rest: bool = self.queue.is_empty();
        proof {
            lemma_serve_none(w0);
        }
        while !blocked && !rest
            invariant
                before.ok(),
                w0 == before.w(),
                self.queue.wf(),
                self.queue.structure() == old(self).queue.structure(),
                self@ == (SemView { queue: self.queue@, ..before }),
                before.queue.held(),
                0 <= i <= w0.line.len(),
                rest == (i == w0.line.len()),
                chain@ == w0.line.take(i),
                self.queue@ == before.queue.with(serve(w0, i, extra)),
                served(w0, all, 0) == i + (if blocked {
                    0
                } else {
                    served(w0, available as nat, i)
                }),
                left_over(w0, all, 0) == if blocked {
                    extra
                } else {
                    left_over(w0, available as nat, i)
                },
                blocked ==> i < w0.line.len() && available == 0 && extra < w0.nodes[
                    w0.line[i] as int
                ].aux,
                !blocked ==> extra == 0,
                available <= all,
                total_granted(serve(w0, i, extra).nodes) + available == total_granted(w0.nodes)
                    + all,
            decreases w0.line.len() - i, if blocked { 0int } else { 1 },
        {
            proof {
                lemma_serve_step(w0, i);
                assert(w0.live(w0.line[i]));
                assert(sem_node_ok(w0.nodes[w0.line[i] as int]));
            }
            match self.queue.first() {
                Some(front) => {
                    let remaining: usize = self.queue.aux(front);
                    let ghost node = w0.nodes[front as int];
                    if remaining > available {
                        proof {
                            lemma_serve_part(w0, i, available as nat);
                            lemma_total_update(
                                serve(w0, i, 0).nodes,
                                front as int,
                                SignalView {
                                    aux: (remaining - available) as usize,
                                    granted: node.granted + available as nat,
                                    ..node
                                },
                            );
                        }
                        if available > 0 {
                            self.queue.set_aux(front, remaining - available);
                            self.queue.set_granted(
                                front,
                                Ghost(node.granted + available as nat),
                            );
                        }
                        proof {
                            extra = available as nat;
                            assert(self.queue@.waiters =~= serve(w0, i, extra));
                        }
                        available = 0;
                        blocked = true;
                    } else {
                        proof {
                            lemma_total_update(
                                serve(w0, i, 0).nodes,
                                front as int,
                                SignalView {
                                    aux: 0,
                                    granted: node.granted + remaining as nat,
                                    ..node
                                },
                            );
                        }
                        available = available - remaining;
                        self.queue.set_aux(front, 0);
                        self.queue.set_granted(front, Ghost(node.granted + remaining as nat));
                        proof {
                            assert(self.queue@.waiters =~= serve(w0, i, 0).with_node(
                                front,
                                (SignalView {
                                    aux: 0,
                                    granted: node.granted + remaining as nat,
                                    ..node
                                }),
                            ));
                        }
                        let popped = self.queue.pop();
                        if let Some(id) = popped {
                            chain.append(id);
                        }
                        proof {
                            assert(w0.line.take(i + 1) =~= w0.line.take(i).push(w0.line[i]));
                            i = i + 1;
                        }
                        rest = self.queue.is_empty();
                    }
                },
                None => {},
            }
        }
        proof {
            self.hold = Ghost(Hold::DrainServed { available: available as nat });
            lemma_served(w0, all, 0);
            let k = i;
            let after = self@;
            assert(after =~= before.after_serve(all));
            lemma_after_serve_ok(before, all);
        }
        (chain, available)
    }

    /// Puts back the permits that nobody needed.
    #[verifier::spinoff_prover]
    #[verifier::rlimit(60)]
    pub fn give_back(&mut self, available: usize)
        requires
            old(self).wf(),
            old(self)@.hold == (Hold::DrainServed { available: available as nat }),
            old(self)@.permits + available <= MAX_PERMITS,
        ensures
            final(self).wf(),
            final(self).structure() == old(self).structure(),
            final(self)@ == (SemView {
                permits: old(self)@.permits + available as nat,
                hold: Hold::DrainServed { available: 0 },
                ..old(self)@
            }),
            final(self)@.total() == old(self)@.total(),
    {
        proof {
            lemma_word(self.state);
            lemma_shift(available);
        }
        if available > 0 {
            self.state = self.state + (available << PERMIT_SHIFT);
        }
        proof {
            self.hold = Ghost(Hold::DrainServed { available: 0 });
        }
    }

    /// Leaves the queue; if nobody is in line any more, the waiter flag goes
    /// with it.
    #[verifier::spinoff_prover]
    #[verifier::rlimit(60)]
    pub fn end(&mut self, pool: &mut QueuePool)
        requires
            old(self).wf(),
            old(self)@.may_end(),
            old(pool)@.lends(old(self).structure()),
        ensures
            final(self).wf(),
            final(self)@ == old(self)@.after_end(),
            final(self)@.total() == old(self)@.total(),
            returned(old(pool)@, old(self).structure(), final(pool)@, final(self).structure()),
    {
        proof {
            lemma_word(self.state);
        }
        let is_empty = self.queue.unlock(pool);
        if is_empty {
            self.state = self.state & !HAS_QUEUE;
        }
        proof {
            self.hold = Ghost(Hold::Free);
        }
    }

    /// Takes the queue in order to queue a waiter.
    pub fn begin_enqueue(&mut self, pool: &mut QueuePool) -> (r: LockAttempt)
        requires
            old(self).wf(),
            old(pool)@.serves(old(self).structure()),
        ensures
            final(self).wf(),
            r == old(self)@.queue.attempt(true),
            !(r is Absent),
            final(self)@ == if r is Held {
                SemView {
                    queue: old(self)@.queue.locked(true),
                    hold: Hold::Enqueue { seen: None },
                    ..old(self)@
                }
            } else {
                old(self)@
            },
            traded(old(pool)@, old(self).structure(), final(pool)@, final(self).structure()),
    {
        let r = self.queue.lock(true, pool);
        proof {
            if r is Held {
                self.hold = Ghost(Hold::Enqueue { seen: None });
            }
        }
        r
    }

    /// Sets the waiter flag and reads the permit count, in one go: a release
    /// either sees the flag or is seen here.
    #[verifier::spinoff_prover]
    #[verifier::rlimit(60)]
    pub fn mark(&mut self) -> (cur: usize)
        requires
            old(self).wf(),
            old(self)@.hold is Enqueue,
        ensures
            final(self).wf(),
            final(self).structure() == old(self).structure(),
            final(self)@ == (SemView {
                flag: true,
                hold: Hold::Enqueue { seen: Some(cur) },
                ..old(self)@
            }),
            final(self)@.word_is(cur),
    {
        proof {
            lemma_word(self.state);
        }
        self.state = self.state | HAS_QUEUE;
        proof {
            self.hold = Ghost(Hold::Enqueue { seen: Some(self.state) });
        }
        self.state
    }

    /// One attempt at the permits before queueing up: only the head of the
    /// line may take from the stock.
    #[verifier::spinoff_prover]
    #[verifier::rlimit(60)]
    pub fn attempt(&mut self, cur: usize, n: usize) -> (r: EnqueueTurn)
        requires
            old(self).wf(),
            old(self)@.hold == (Hold::Enqueue { seen: Some(cur) }),
            n <= MAX_PERMITS,
        ensures
            final(self).wf(),
            final(self).structure() == old(self).structure(),
            match r {
                EnqueueTurn::Closed => word_closed(cur) && final(self)@ == old(self)@,
                EnqueueTurn::Acquired => !word_closed(cur) && old(self)@.line().len() == 0
                    && word_permits(cur) >= n && old(self)@.word_is(cur) && final(self)@ == (
                SemView { permits: (old(self)@.permits - n) as nat, ..old(self)@ }),
                EnqueueTurn::Retry(actual) => !word_closed(cur) && old(self)@.line().len() == 0
                    && word_permits(cur) >= n && !old(self)@.word_is(cur) && old(self)@.word_is(
                    actual,
                ) && final(self)@ == (SemView {
                    hold: Hold::Enqueue { seen: Some(actual) },
                    ..old(self)@
                }),
                EnqueueTurn::Queue => !word_closed(cur) && (old(self)@.line().len() > 0
                    || word_permits(cur) < n) && final(self)@ == old(self)@,
            },
    {
        let queue_empty = self.queue.is_empty();
        proof {
            lemma_word(cur);
            lemma_shift(n);
        }
        if branches::unlikely(cur & CLOSED != 0) {
            return EnqueueTurn::Closed;
        }
        if queue_empty && (cur >> PERMIT_SHIFT) >= n {
            if self.state == cur {
                self.state = cur - (n << PERMIT_SHIFT);
                return EnqueueTurn::Acquired;
            }
            proof {
                self.hold = Ghost(Hold::Enqueue { seen: Some(self.state) });
            }
            return EnqueueTurn::Retry(self.state);
        }
        EnqueueTurn::Queue
    }

    /// Adds a waiter that needs what its node says to the end of the line.
    /// Returns whether it is first.
    pub fn push_entry(&mut self, entry: usize) -> (first: bool)
        requires
            old(self).wf(),
            old(self)@.may_push(entry),
        ensures
            final(self).wf(),
            final(self).structure() == old(self).structure(),
            final(self)@ == (SemView {
                queue: old(self)@.queue.with(old(self)@.w().pushed(entry)),
                ..old(self)@
            }),
            first == (old(self)@.line().len() == 0),
    {
        let ghost before = self@;
        let first = self.queue.push(entry);
        proof {
            let line = self@.line();
            assert forall|i: int| 0 <= i < line.len() - 1 implies #[trigger] line[i]
                == before.line()[i] by {}
            assert(line[line.len() - 1] == entry);
            if before.line().len() > 0 {
                assert(line[0] == before.line()[0]);
            }
        }
        first
    }

    /// Takes the queue of a closed semaphore in order to fail its waiters, if
    /// there is a queue.
    pub fn begin_sweep(&mut self) -> (r: LockAttempt)
        requires
            old(self).wf(),
            old(self)@.closed,
        ensures
            final(self).wf(),
            final(self).structure() == old(self).structure(),
            r == old(self)@.queue.attempt(false),
            final(self)@ == match r {
                LockAttempt::Busy => old(self)@,
                LockAttempt::Absent => (SemView {
                    sweeps: pay(old(self)@.sweeps),
                    ..old(self)@
                }),
                LockAttempt::Held => (SemView {
                    sweeps: pay(old(self)@.sweeps),
                    queue: old(self)@.queue.locked(false),
                    hold: Hold::Sweep,
                    ..old(self)@
                }),
            },
    {
        let r = self.queue.lock_existing();
        proof {
            if !(r is Busy) {
                self.sweeps = Ghost(pay(self.sweeps@));
            }
            if r is Held {
                self.hold = Ghost(Hold::Sweep);
            }
        }
        r
    }

    /// Takes everybody out of the line.
    pub fn pop_all(&mut self) -> (chain: PoppedChain)
        requires
            old(self).wf(),
            old(self)@.hold is Sweep,
        ensures
            final(self).wf(),
            final(self).structure() == old(self).structure(),
            chain@ == old(self)@.line(),
            final(self)@ == (SemView {
                queue: old(self)@.queue.with(
                    old(self)@.w().popped_front(old(self)@.line().len() as int),
                ),
                ..old(self)@
            }),
            final(self)@.w().owns_chain(chain@),
    {
        let ghost before = self@;
        let ghost w0 = self@.w();
        let ghost mut i: int = 0;
        let mut chain = PoppedChain::new();
        proof {
            assert(w0.popped_front(0) =~= w0);
        }
        let mut next = self.queue.pop();
        while next.is_some()
            invariant
                before.ok(),
                w0 == before.w(),
                self.queue.wf(),
                self.queue.structure() == old(self).queue.structure(),
                before.queue.held(),
                self@ == (SemView { queue: self.queue@, ..before }),
                0 <= i <= w0.line.len(),
                chain@ == w0.line.take(i),
                next is Some ==> i < w0.line.len() && next->0 == w0.line[i] && self.queue@
                    == before.queue.with(w0.popped_front(i + 1)),
                next is None ==> i == w0.line.len() && self.queue@ == before.queue.with(
                    w0.popped_front(i),
                ),
            decreases w0.line.len() - i, if next is Some { 1int } else { 0 },
        {
            if let Some(id) = next {
                chain.append(id);
            }
            proof {
                assert(w0.line.take(i + 1) =~= w0.line.take(i).push(w0.line[i]));
                i = i + 1;
            }
            next = self.queue.pop();
            proof {
                if next is Some {
                    lemma_popped_front(w0, i);
                }
            }
        }
        proof {
            assert(chain@ =~= w0.line);
            let after = self@;
            assert(w0.line.take(w0.line.len() as int) =~= w0.line);
            assert forall|p: int| 0 <= p < w0.line.len() implies after.w().popped.contains(
                #[trigger] w0.line[p],
            ) by {
                assert(w0.line.to_set().contains(w0.line[p]));
            }
            assert forall|id: usize| #[trigger] after.w().popped.contains(id) implies waiting(
                after.node(id),
            ) by {
                if !w0.popped.contains(id) {
                    let p = w0.line.index_of(id);
                    assert(waiting(before.node(before.line()[p])));
                } else {
                    assert(waiting(before.node(id)));
                }
            }
        }
        chain
    }

    /// Takes the queue in order to leave the line, if there is a queue.
    pub fn begin_cancel(&mut self) -> (r: LockAttempt)
        requires
            old(self).wf(),
        ensures
            final(self).wf(),
            final(self).structure() == old(self).structure(),
            r == old(self)@.queue.attempt(false),
            final(self)@ == if r is Held {
                SemView {
                    queue: old(self)@.queue.locked(false),
                    hold: Hold::Cancel,
                    ..old(self)@
                }
            } else {
                old(self)@
            },
    {
        let r = self.queue.lock_existing();
        proof {
            if r is Held {
                self.hold = Ghost(Hold::Cancel);
            }
        }
        r
    }

    /// Takes a waiter out of the line. Returns whether it was in line, and
    /// whether somebody else is now first: the caller then owes a drain,
    /// because what it waited for may already be in stock.
    pub fn remove_entry(&mut self, entry: usize) -> (r: (bool, bool))
        requires
            old(self).wf(),
            old(self)@.hold is Cancel,
            old(self)@.w().live(entry),
        ensures
            final(self).wf(),
            final(self).structure() == old(self).structure(),
            r.0 == old(self)@.line().contains(entry),
            r.1 == (r.0 && old(self)@.line()[0] == entry && old(self)@.line().len() > 1),
            final(self)@ == (SemView {
                queue: old(self)@.queue.with(old(self)@.w().removed(entry)),
                owed: if r.1 {
                    old(self)@.owed + 1
                } else {
                    old(self)@.owed
                },
                ..old(self)@
            }),
            r.0 ==> final(self)@.w().idle(entry),
    {
        let ghost before = self@;
        let was_head = match self.queue.first() {
            Some(first) => first == entry,
            None => false,
        };
        let found = self.queue.remove(entry);
        let head_changed = found && was_head && !self.queue.is_empty();
        proof {
            if head_changed {
                self.owed = Ghost(self.owed@ + 1);
            }
            if found {
                let line = before.line();
                lemma_remove(line, entry);
                let k = line.index_of(entry);
                let left = self@.line();
                assert forall|i: int| 0 <= i < left.len() implies #[trigger] left[i] == line[if i
                    < k {
                    i
                } else {
                    i + 1
                }] by {}
                if k > 0 && left.len() > 0 {
                    assert(left[0] == line[0]);
                }
                if was_head {
                    assert(k == 0);
                }
            }
        }
        (found, head_changed)
    }

    /// Puts back permits that were assigned to a waiter that left, on behalf
    /// of a thread that may already owe a drain (`owing`). Returns whether it
    /// owes one now.
    #[verifier::spinoff_prover]
    #[verifier::rlimit(60)]
    pub fn redistribute(&mut self, n: usize, owing: bool) -> (r: bool)
        requires
            old(self).wf(),
            old(self)@.permits + n <= MAX_PERMITS,
            owing ==> old(self)@.owed > 0,
        ensures
            final(self).wf(),
            final(self).structure() == old(self).structure(),
            r == old(self)@.flag,
            final(self)@ == (SemView {
                permits: old(self)@.permits + n as nat,
                owed: if r && !owing {
                    old(self)@.owed + 1
                } else if !r && owing {
                    (old(self)@.owed - 1) as nat
                } else {
                    old(self)@.owed
                },
                ..old(self)@
            }),
    {
        proof {
            lemma_word(self.state);
            lemma_shift(n);
        }
        let prev: usize = self.state;
        self.state = prev + (n << PERMIT_SHIFT);
        let has_queue = prev & HAS_QUEUE != 0;
        proof {
            if has_queue && !owing {
                self.owed = Ghost(self.owed@ + 1);
            }
            if !has_queue && owing {
                self.owed = Ghost((self.owed@ - 1) as nat);
            }
        }
        has_queue
    }

    /// Sends `value` to the waiters of a chain, front to back. Returns whom to
    /// wake.
    pub fn signal_all(&mut self, chain: PoppedChain, value: usize) -> (r: Vec<Wake>)
        requires
            old(self).wf(),
            old(self)@.w().owns_chain(chain@),
            value == SIGNAL_SIGNALED || value == SIGNAL_CLOSED && old(self)@.closed,
            value == SIGNAL_SIGNALED ==> forall|i: int|
                0 <= i < chain@.len() ==> old(self)@.node(#[trigger] chain@[i]).aux == 0,
        ensures
            final(self).wf(),
            final(self).structure() == old(self).structure(),
            final(self)@ == (SemView {
                queue: old(self)@.queue.with(old(self)@.w().after_signals(chain@, value)),
                ..old(self)@
            }),
            r@ == old(self)@.w().wakes(chain@),
            final(self)@.total() == old(self)@.total(),
    {
        let ghost before = self@;
        let ghost ids = chain@;
        let wakes = chain.signal_all(&mut self.queue, value);
        proof {
            let after = self@;
            lemma_total_same(before.w().nodes, after.w().nodes);
            assert forall|id: usize| ids.contains(id) implies before.w().popped.contains(id) by {
                assert(before.w().popped.contains(ids[ids.index_of(id)]));
            }
            assert forall|i: int| 0 <= i < after.line().len() implies after.node(
                #[trigger] after.line()[i],
            ) == before.node(before.line()[i]) by {
                assert(before.line().contains(before.line()[i]));
                assert(before.w().live(before.line()[i]));
            }
            assert forall|id: usize| #[trigger] after.w().popped.contains(id) implies waiting(
                after.node(id),
            ) by {
                assert(waiting(before.node(id)));
            }
            assert forall|j: int| 0 <= j < after.w().nodes.len() implies sem_node_ok(
                #[trigger] after.w().nodes[j],
            ) by {
                assert(sem_node_ok(before.w().nodes[j]));
                if ids.contains(j as usize) {
                    let p = ids.index_of(j as usize);
                    assert(value == SIGNAL_SIGNALED ==> before.node(ids[p]).aux == 0);
                    assert(before.w().popped.contains(j as usize));
                    assert(waiting(before.node(j as usize)));
                }
            }
        }
        wakes
    }

    /// Makes the node of a thread that wants `n` permits.
    pub fn prepare_sync(&mut self, n: usize, thread: usize) -> (entry: usize)
        requires
            old(self).wf(),
            n <= MAX_PERMITS,
        ensures
            final(self).wf(),
            final(self).structure() == old(self).structure(),
            old(self)@.w().vacant(entry),
            final(self)@ == old(self)@.with_new(
                entry,
                (SignalView { aux: n, ..SignalView::fresh_sync(thread) }),
            ),
            final(self)@.w().idle(entry),
            final(self)@.node(entry) == (SignalView { aux: n, ..SignalView::fresh_sync(thread) }),
            final(self)@.total() == old(self)@.total(),
    {
        let ghost before = self@;
        let entry: usize = self.queue.add_sync(thread);
        self.queue.set_aux(entry, n);
        proof {
            let node = SignalView { aux: n, ..SignalView::fresh_sync(thread) };
            assert(self@ =~= before.with_new(entry, node));
            lemma_new(before, entry, node);
        }
        entry
    }

    /// Makes the node of a task.
    pub fn prepare_async(&mut self) -> (entry: usize)
        requires
            old(self).wf(),
        ensures
            final(self).wf(),
            final(self).structure() == old(self).structure(),
            old(self)@.w().vacant(entry),
            final(self)@ == old(self)@.with_new(entry, SignalView::fresh_none()),
            final(self)@.w().idle(entry),
            final(self)@.node(entry) == SignalView::fresh_none(),
            final(self)@.total() == old(self)@.total(),
    {
        let ghost before = self@;
        let entry: usize = self.queue.add_none();
        proof {
            lemma_new(before, entry, SignalView::fresh_none());
        }
        entry
    }

    /// Prepares a task's node for the line: it waits for `n` permits.
    pub fn arm(&mut self, entry: usize, n: usize, waker: usize)
        requires
            old(self).wf(),
            old(self)@.w().idle(entry),
            old(self)@.node(entry).granted == 0,
            n <= MAX_PERMITS,
        ensures
            final(self).wf(),
            final(self).structure() == old(self).structure(),
            final(self)@ == old(self)@.with_node(entry, armed(n, waker)),
            final(self)@.total() == old(self)@.total(),
    {
        let ghost before = self@;
        self.queue.set_value(entry, SIGNAL_INIT_WAITING);
        self.queue.register(entry, waker);
        self.queue.set_aux(entry, n);
        proof {
            assert(self@ =~= before.with_node(entry, armed(n, waker)));
            lemma_node(before, entry, armed(n, waker));
        }
    }

    /// Reads the signal.
    pub fn value(&self, entry: usize) -> (r: usize)
        requires
            self.wf(),
            self@.w().live(entry),
        ensures
            r == self@.node(entry).value,
    {
        self.queue.value(entry)
    }

    /// Reads how many permits are still needed.
    pub fn remaining(&self, entry: usize) -> (r: usize)
        requires
            self.wf(),
            self@.w().live(entry),
        ensures
            r == self@.node(entry).aux,
    {
        self.queue.aux(entry)
    }

    /// How many permits are assigned to a request for `n` and not yet taken
    /// over.
    pub fn assigned(&self, entry: usize, n: usize) -> (r: usize)
        requires
            self.wf(),
            self@.asked(entry, n),
        ensures
            r == self@.node(entry).granted,
    {
        proof {
            assert(sem_node_ok(self@.w().nodes[entry as int]));
        }
        let value: usize = self.queue.value(entry);
        if value == SIGNAL_RETURNED || value == SIGNAL_UNINIT && !self.queue.has_waker(entry) {
            0
        } else {
            n - self.queue.aux(entry)
        }
    }

    /// Re-arms the waker of a queued task, or learns that its signal is there.
    pub fn rearm(&mut self, entry: usize, waker: usize) -> (r: Poll<usize>)
        requires
            old(self).wf(),
            old(self)@.w().live(entry),
        ensures
            final(self).wf(),
            final(self).structure() == old(self).structure(),
            old(self)@.node(entry).waker is Empty ==> final(self)@ == old(self)@ && r
                == Poll::Ready(old(self)@.node(entry).value),
            !(old(self)@.node(entry).waker is Empty)
                ==> r is Pending && final(self)@ == old(self)@.with_node(
                entry,
                (SignalView { waker: WakerSlot::Async(waker), ..old(self)@.node(entry) }),
            ),
            final(self)@.total() == old(self)@.total(),
    {
        let ghost before = self@;
        let r = self.queue.rearm(entry, waker);
        proof {
            if r is Pending {
                let node = SignalView { waker: WakerSlot::Async(waker), ..before.node(entry) };
                assert(self@ =~= before.with_node(entry, node));
                assert(sem_node_ok(before.w().nodes[entry as int]));
                if before.line().contains(entry) {
                    assert(waiting(before.node(before.line()[before.line().index_of(entry)])));
                }
                lemma_node(before, entry, node);
            }
        }
        r
    }

    /// Completes a request: its node says so from now on, and the permits that
    /// were assigned to it are its owner's.
    pub fn complete(&mut self, entry: usize)
        requires
            old(self).wf(),
            old(self)@.w().idle(entry),
        ensures
            final(self).wf(),
            final(self).structure() == old(self).structure(),
            final(self)@ == old(self)@.with_node(entry, completed(old(self)@.node(entry))),
            final(self)@.total() == old(self)@.total() - old(self)@.node(entry).granted,
    {
        let ghost before = self@;
        self.queue.set_value(entry, SIGNAL_RETURNED);
        self.queue.set_granted(entry, Ghost(0));
        proof {
            assert(self@ =~= before.with_node(entry, completed(before.node(entry))));
            assert(sem_node_ok(before.w().nodes[entry as int]));
            lemma_node(before, entry, completed(before.node(entry)));
        }
    }

    /// Gives a node back; the permits that were assigned to it are its owner's.
    pub fn discard(&mut self, entry: usize)
        requires
            old(self).wf(),
            old(self)@.w().idle(entry),
        ensures
            final(self).wf(),
            final(self).structure() == old(self).structure(),
            final(self)@ == old(self)@.with_node(entry, SignalView::dead()),
            final(self)@.total() == old(self)@.total() - old(self)@.node(entry).granted,
    {
        let ghost before = self@;
        self.queue.discard(entry);
        proof {
            lemma_node(before, entry, SignalView::dead());
        }
    }

    /// One look of a waiting thread at its node.
    pub fn sync_step(&mut self, waiter: &mut SyncWaiter) -> (r: SyncStep)
        requires
            old(self).wf(),
            old(self)@.w().live(old(waiter)@.entry),
            !(old(self)@.node(old(waiter)@.entry).waker is Empty) || old(self)@.node(
                old(waiter)@.entry,
            ).value >= SIGNAL_SIGNALED,
        ensures
            final(self).wf(),
            final(self).structure() == old(self).structure(),
            r == old(waiter)@.step(old(self)@.node(old(waiter)@.entry).value),
            final(waiter)@ == old(waiter)@.after_step(old(self)@.node(old(waiter)@.entry).value),
            final(self)@ == (SemView {
                queue: after_sync_step(old(self)@.queue, old(waiter)@),
                ..old(self)@
            }),
            final(self)@.total() == old(self)@.total(),
    {
        let ghost before = self@;
        let ghost entry = waiter@.entry;
        let ghost node = SignalView {
            value: waiter@.value_after(before.node(entry).value),
            ..before.node(entry)
        };
        let r = waiter.step(&mut self.queue);
        proof {
            assert(self@ =~= before.with_node(entry, node));
            assert(sem_node_ok(before.w().nodes[entry as int]));
            if before.line().contains(entry) {
                assert(waiting(before.node(before.line()[before.line().index_of(entry)])));
            }
            lemma_node(before, entry, node);
        }
        r
    }
}

} // verus!
