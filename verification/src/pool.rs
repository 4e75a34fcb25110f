//! The pool of queue structures.
//!
//! A queue structure is the only thing a contended primitive takes from the
//! heap. Structures are recycled: one that is no longer needed goes back to a
//! bounded pool, and is freed only when the pool is full. One pool serves all
//! primitives of a program: whoever may need a structure, or give one back, is
//! handed the pool.
use vstd::prelude::*;

use crate::outside::{
    array_queue_capacity, array_queue_items, array_queue_new, array_queue_pop, array_queue_push,
};
use crate::signal_queue::SignalQueue;

verus! {

/// A queue structure: a list of waiters with an address.
pub struct QueueStructure {
    address: usize,
    inner: SignalQueue,
}

impl QueueStructure {
    /// Where it is.
    pub closed spec fn address(&self) -> usize {
        self.address
    }

    /// The list in it.
    pub closed spec fn list(&self) -> SignalQueue {
        self.inner
    }

    /// Nobody is in the list.
    pub open spec fn is_empty(&self) -> bool {
        self.list()@.len() == 0 && self.list().ends()
    }

    /// Where it is.
    pub fn at(&self) -> (r: usize)
        ensures
            r == self.address(),
    {
        self.address
    }

    /// A list in a structure at `address`.
    pub(crate) fn new(address: usize, inner: SignalQueue) -> (r: Self)
        ensures
            r.address() == address,
            r.list() == inner,
    {
        QueueStructure { address, inner }
    }

    /// Its address and its list.
    pub(crate) fn into_parts(self) -> (r: (usize, SignalQueue))
        ensures
            r.0 == self.address(),
            r.1 == self.list(),
    {
        (self.address, self.inner)
    }

    /// The list in it, to use.
    pub fn with_mut(&mut self) -> (r: &mut SignalQueue)
        ensures
            *r == old(self).list(),
            final(self).list() == *final(r),
            final(self).address() == old(self).address(),
    {
        &mut self.inner
    }
}

/// The most structures a pool keeps.
pub const POOL_LIMIT: usize = 128;

/// Structures per logical processor.
pub const POOL_PER_CORE: usize = 16;

/// The first address past those that structures are given: the two words above
/// stand for states of a lock.
pub const ADDRESS_END: usize = usize::MAX - 1;

/// What a pool holds.
#[verifier::ext_equal]
pub struct PoolView {
    /// Addresses of the structures that wait to be used, the next one first.
    pub idle: Seq<usize>,
    /// How many idle structures are kept at most.
    pub capacity: nat,
    /// Addresses of the structures in use.
    pub out: Set<usize>,
    /// How many structures were ever made.
    pub made: nat,
}

impl PoolView {
    /// The address of the structure that would be made next.
    pub open spec fn next_address(self) -> int {
        2 * (self.made as int + 1)
    }

    /// The address that the next allocation returns.
    pub open spec fn next(self) -> int {
        if self.idle.len() > 0 {
            self.idle[0] as int
        } else {
            self.next_address()
        }
    }

    /// The pool after that allocation.
    pub open spec fn allocated(self) -> PoolView {
        if self.idle.len() > 0 {
            PoolView { idle: self.idle.skip(1), out: self.out.insert(self.idle[0]), ..self }
        } else {
            PoolView {
                out: self.out.insert(self.next_address() as usize),
                made: self.made + 1,
                ..self
            }
        }
    }

    /// The pool after a structure came back.
    pub open spec fn released(self, address: usize) -> PoolView {
        PoolView {
            idle: if self.idle.len() < self.capacity {
                self.idle.push(address)
            } else {
                self.idle
            },
            out: self.out.remove(address),
            ..self
        }
    }

    /// Another structure can be had: the addresses have not run out.
    pub open spec fn has_room(self) -> bool {
        self.idle.len() > 0 || self.next_address() < ADDRESS_END
    }

    /// The pool is in order, and the structure at `home`, if there is one, is
    /// from it.
    pub open spec fn lends(self, home: Option<usize>) -> bool {
        &&& self.ok()
        &&& home matches Some(address) ==> self.out.contains(address)
    }

    /// The pool is in order, and has a structure for whoever has none.
    pub open spec fn serves(self, home: Option<usize>) -> bool {
        self.lends(home) && (home is None ==> self.has_room())
    }

    /// `address` was given to a structure.
    pub open spec fn given(self, address: usize) -> bool {
        address % 2 == 0 && 0 < address <= 2 * self.made
    }

    /// Every structure has an address of its own, aligned and below the words
    /// that mean something else, and is either idle or in use.
    pub open spec fn ok(self) -> bool {
        &&& 2 * self.made < ADDRESS_END
        &&& 0 < self.capacity
        &&& self.idle.len() <= self.capacity
        &&& self.idle.no_duplicates()
        &&& forall|i: int|
            0 <= i < self.idle.len() ==> self.given(#[trigger] self.idle[i]) && !self.out.contains(
                self.idle[i],
            )
        &&& forall|a: usize| #[trigger] self.out.contains(a) ==> self.given(a)
    }
}

/// A primitive that had the structure at `had` has the one at `has`, and the
/// pool changed from `before` to `after` accordingly: either nothing happened,
/// or the structure is back in the pool. Which of the two it was follows from
/// the primitive's state, since it has a structure only while it has a queue.
pub open spec fn returned(
    before: PoolView,
    had: Option<usize>,
    after: PoolView,
    has: Option<usize>,
) -> bool {
    &&& after.lends(has)
    &&& {
        ||| has == had && after == before
        ||| had is Some && has is None && after == before.released(had->0)
    }
}

/// The same where the primitive may also have fetched a structure: if it had
/// none and has one now, that is the next one of the pool.
pub open spec fn traded(
    before: PoolView,
    had: Option<usize>,
    after: PoolView,
    has: Option<usize>,
) -> bool {
    ||| returned(before, had, after, has)
    ||| had is None && has is Some && has->0 == before.next() && after == before.allocated()
        && after.lends(has)
}

/// A primitive had the queue to itself for a moment and left nobody in it: a
/// structure that was fetched for that is back in the pool.
pub open spec fn visited(
    before: PoolView,
    had: Option<usize>,
    after: PoolView,
    has: Option<usize>,
) -> bool {
    &&& has == had
    &&& after.lends(has)
    &&& after == if had is None {
        before.allocated().released(before.next() as usize)
    } else {
        before
    }
}

/// A pool of queue structures. One that is idle is empty, so that its address is
/// all that is kept of it.
pub struct QueuePool {
    idle: crossbeam_queue::ArrayQueue<usize>,
    made: usize,
    out: Ghost<Set<usize>>,
}

impl View for QueuePool {
    type V = PoolView;

    closed spec fn view(&self) -> PoolView {
        PoolView {
            idle: array_queue_items(self.idle),
            capacity: array_queue_capacity(self.idle),
            out: self.out@,
            made: self.made as nat,
        }
    }
}

/// How many structures a pool keeps on a machine with `parallelism` logical
/// processors.
pub open spec fn pool_capacity(parallelism: usize) -> int {
    if parallelism * POOL_PER_CORE < POOL_LIMIT {
        parallelism * POOL_PER_CORE
    } else {
        POOL_LIMIT as int
    }
}

/// The pool that [`QueuePool::new`] makes: full.
pub open spec fn full_pool(parallelism: usize) -> PoolView {
    PoolView {
        idle: Seq::new(pool_capacity(parallelism) as nat, |i: int| (2 * (i + 1)) as usize),
        capacity: pool_capacity(parallelism) as nat,
        out: Set::empty(),
        made: pool_capacity(parallelism) as nat,
    }
}

impl QueuePool {
    /// Well-formedness.
    pub open spec fn wf(&self) -> bool {
        self@.ok()
    }

    /// Makes a pool and fills it.
    pub fn new(parallelism: usize) -> (r: Self)
        requires
            0 < parallelism,
        ensures
            r.wf(),
            r@ == full_pool(parallelism),
    {
        let capacity: usize = if parallelism >= POOL_LIMIT / POOL_PER_CORE {
            POOL_LIMIT
        } else {
            parallelism * POOL_PER_CORE
        };
        let mut idle = array_queue_new(capacity);
        let mut i: usize = 0;
        while i < capacity
            invariant
                0 < capacity <= POOL_LIMIT,
                i <= capacity,
                array_queue_capacity(idle) == capacity,
                array_queue_items(idle) == Seq::new(i as nat, |j: int| (2 * (j + 1)) as usize),
            decreases capacity - i,
        {
            let _ = array_queue_push(&mut idle, 2 * (i + 1));
            i = i + 1;
            assert(array_queue_items(idle) =~= Seq::new(
                i as nat,
                |j: int| (2 * (j + 1)) as usize,
            ));
        }
        QueuePool { idle, made: capacity, out: Ghost(Set::empty()) }
    }

    /// Whether another structure could be made.
    pub fn can_make(&self) -> (r: bool)
        requires
            self.wf(),
        ensures
            r == (self@.next_address() < ADDRESS_END),
    {
        self.made < ADDRESS_END / 2 - 1
    }

    /// Takes a structure from the pool, or makes one if the pool has none. It is
    /// empty, and no structure that is in use is where it is.
    pub fn allocate_queue(&mut self) -> (r: QueueStructure)
        requires
            old(self).wf(),
            old(self)@.has_room(),
        ensures
            final(self).wf(),
            r.is_empty(),
            r.address() == old(self)@.next(),
            !old(self)@.out.contains(r.address()),
            final(self)@ == old(self)@.allocated(),
            r.address() % 2 == 0,
            0 < r.address() < ADDRESS_END,
    {
        let ghost before = self@;
        let r: usize = match array_queue_pop(&mut self.idle) {
            Some(address) => {
                self.out = Ghost(self.out@.insert(address));
                assert(address == before.idle[0]);
                assert forall|i: int| 0 <= i < self@.idle.len() implies #[trigger] self@.idle[i]
                    == before.idle[i + 1] && self@.idle[i] != address by {}
                address
            },
            None => {
                self.made = self.made + 1;
                let address: usize = 2 * self.made;
                self.out = Ghost(self.out@.insert(address));
                address
            },
        };
        assert forall|a: usize| #[trigger] self@.out.contains(a) implies self@.given(a) by {
            if a != r {
                assert(before.out.contains(a));
            }
        }
        assert(before.out.contains(r) ==> before.given(r));
        QueueStructure::new(r, SignalQueue::new())
    }

    /// Returns an empty structure to the pool; a full pool frees it instead.
    pub fn deallocate_queue(&mut self, structure: QueueStructure)
        requires
            old(self).wf(),
            structure.is_empty(),
            old(self)@.out.contains(structure.address()),
        ensures
            final(self).wf(),
            final(self)@ == old(self)@.released(structure.address()),
    {
        let ghost before = self@;
        let (address, _) = structure.into_parts();
        let _ = array_queue_push(&mut self.idle, address);
        self.out = Ghost(self.out@.remove(address));
        assert forall|i: int| 0 <= i < before.idle.len() implies #[trigger] self@.idle[i]
            == before.idle[i] by {}
    }
}

/// A call at a pool.
pub enum PoolMove {
    /// Somebody takes a structure.
    Take,
    /// The structure at this address comes back.
    Back(usize),
}

/// The pool after a call.
pub open spec fn pool_moved(v: PoolView, m: PoolMove) -> PoolView {
    match m {
        PoolMove::Take => v.allocated(),
        PoolMove::Back(address) => v.released(address),
    }
}

/// The pool after the first `k` of some calls.
pub open spec fn after_moves(v: PoolView, moves: Seq<PoolMove>, k: nat) -> PoolView
    decreases k,
{
    if k == 0 {
        v
    } else {
        pool_moved(after_moves(v, moves, (k - 1) as nat), moves[k - 1])
    }
}

/// The calls can be made: only structures in use come back, and there is room
/// for those that are taken.
pub open spec fn possible(v: PoolView, moves: Seq<PoolMove>) -> bool {
    forall|k: int|
        0 <= k < moves.len() ==> {
            let now = #[trigger] after_moves(v, moves, k as nat);
            match moves[k] {
                PoolMove::Take => now.has_room(),
                PoolMove::Back(address) => now.out.contains(address),
            }
        }
}

/// A call keeps the pool in order.
proof fn lemma_pool_moved(v: PoolView, m: PoolMove)
    requires
        v.ok(),
        m is Take ==> v.has_room(),
        m matches PoolMove::Back(address) ==> v.out.contains(address),
    ensures
        pool_moved(v, m).ok(),
{
    let after = pool_moved(v, m);
    match m {
        PoolMove::Take => {
            assert forall|i: int| 0 <= i < after.idle.len() implies after.given(
                #[trigger] after.idle[i],
            ) && !after.out.contains(after.idle[i]) by {
                if v.idle.len() > 0 {
                    assert(after.idle[i] == v.idle[i + 1]);
                }
            }
            assert forall|a: usize| #[trigger] after.out.contains(a) implies after.given(a) by {
                if v.out.contains(a) {
                    assert(v.given(a));
                } else if v.idle.len() > 0 {
                    assert(v.given(v.idle[0]));
                }
            }
        },
        PoolMove::Back(address) => {
            assert(v.given(address));
            assert forall|i: int| 0 <= i < after.idle.len() implies after.given(
                #[trigger] after.idle[i],
            ) && !after.out.contains(after.idle[i]) by {
                if i < v.idle.len() {
                    assert(after.idle[i] == v.idle[i]);
                }
            }
            assert forall|a: usize| #[trigger] after.out.contains(a) implies after.given(a) by {
                assert(v.out.contains(a));
            }
        },
    }
}

/// Whatever was taken and given back before, the structure that is handed out
/// next is nobody else's, and its address can be told from the words that stand
/// for states of a lock and can carry a mark.
pub proof fn handed_out_once(v: PoolView, moves: Seq<PoolMove>, k: nat)
    requires
        v.ok(),
        possible(v, moves),
        k <= moves.len(),
    ensures
        after_moves(v, moves, k).ok(),
        after_moves(v, moves, k).has_room() ==> {
            let now = after_moves(v, moves, k);
            &&& !now.out.contains(now.next() as usize)
            &&& now.next() % 2 == 0
            &&& 0 < now.next() < ADDRESS_END
        },
    decreases k,
{
    let now = after_moves(v, moves, k);
    if k > 0 {
        handed_out_once(v, moves, (k - 1) as nat);
        let last = after_moves(v, moves, (k - 1) as nat);
        lemma_pool_moved(last, moves[k - 1]);
    }
    if now.idle.len() > 0 {
        assert(now.given(now.idle[0]));
    } else if now.has_room() {
        let a = now.next_address() as usize;
        assert(now.out.contains(a) ==> now.given(a));
    }
}

/// What one primitive fetches or gives back takes nothing from the others: the
/// structure of another one stays in use, and is not the one that was fetched.
pub proof fn others_keep_theirs(
    before: PoolView,
    had: Option<usize>,
    after: PoolView,
    has: Option<usize>,
    other: usize,
)
    requires
        before.lends(had),
        before.lends(Some(other)),
        had != Some(other),
        traded(before, had, after, has),
    ensures
        after.lends(Some(other)),
        has != Some(other),
{
    if before.idle.len() == 0 {
        let a = before.next_address();
        assert(before.given(other));
    }
}

/// A structure comes back as it went: a primitive that fetches one and gives it
/// back leaves as many structures in use as there were, the same ones, and the
/// pool has at least one idle structure from then on.
pub proof fn fetched_and_returned(v: PoolView)
    requires
        v.ok(),
        v.has_room(),
    ensures
        visited(v, None, v.allocated().released(v.next() as usize), None),
        v.allocated().released(v.next() as usize).out == v.out,
        v.allocated().released(v.next() as usize).idle.contains(v.next() as usize),
{
    let a = v.next() as usize;
    let mid = v.allocated();
    handed_out_once(v, Seq::empty(), 0);
    lemma_pool_moved(v, PoolMove::Take);
    assert(mid.out.contains(a));
    lemma_pool_moved(mid, PoolMove::Back(a));
    let end = mid.released(a);
    assert(end.out =~= v.out);
    assert(mid.idle.len() < mid.capacity);
    assert(end.idle.last() == a);
}

} // verus!
