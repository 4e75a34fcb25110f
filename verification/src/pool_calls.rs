//! What the calls of a pool do, seen from outside: every structure is idle, in use
//! or freed, nobody gets one that somebody else uses, and the one that has waited
//! longest is used first.
use vstd::prelude::*;

use crate::pool::{
    traded, PoolView, QueuePool, QueueStructure, ADDRESS_END, POOL_LIMIT, POOL_PER_CORE,
};

verus! {

/// A structure is fetched: the one that has been idle longest, or a new one if none is
/// idle.
pub open spec fn fetches(before: PoolView, after: PoolView, address: usize) -> bool {
    &&& after.capacity == before.capacity
    &&& after.out.contains(address)
    &&& forall|a: usize| a != address ==> #[trigger] after.out.contains(a) == before.out.contains(a)
    &&& if before.idle.len() > 0 {
        &&& address == before.idle[0]
        &&& after.made == before.made
        &&& after.idle.len() == before.idle.len() - 1
        &&& forall|i: int|
            0 <= i < after.idle.len() ==> #[trigger] after.idle[i] == before.idle[i + 1]
    } else {
        &&& after.made == before.made + 1
        &&& after.idle.len() == 0
        &&& forall|a: usize| before.given(a) ==> #[trigger] after.given(a) && a != address
    }
}

/// A structure comes back: it is the last to be used again, or freed if the pool is full.
pub open spec fn gets_back(before: PoolView, after: PoolView, address: usize) -> bool {
    &&& after.capacity == before.capacity
    &&& after.made == before.made
    &&& !after.out.contains(address)
    &&& forall|a: usize| a != address ==> #[trigger] after.out.contains(a) == before.out.contains(a)
    &&& forall|i: int| 0 <= i < before.idle.len() ==> #[trigger] after.idle[i] == before.idle[i]
    &&& if before.idle.len() < before.capacity {
        after.idle.len() == before.idle.len() + 1 && after.idle.last() == address
    } else {
        after.idle.len() == before.idle.len()
    }
}

/// What a primitive fetches comes from the pool, what it gives up is back there, and
/// otherwise the pool is as it was.
pub open spec fn accounts(
    before: PoolView,
    had: Option<usize>,
    after: PoolView,
    has: Option<usize>,
) -> bool {
    match (had, has) {
        (None, Some(address)) => fetches(before, after, address),
        (Some(address), None) => gets_back(before, after, address),
        (Some(old_address), Some(address)) => address == old_address && after == before,
        (None, None) => after == before,
    }
}

/// `QueuePool::new`: full, with as many as there are processors for, but no more than the
/// limit, each at an address of its own.
pub proof fn new(parallelism: usize, r: QueuePool)
    requires
        call_ensures(QueuePool::new, (parallelism,), r),
    ensures
        r.wf(),
        r@.idle.len() == r@.capacity,
        r@.capacity <= POOL_LIMIT,
        r@.capacity == parallelism * POOL_PER_CORE || r@.capacity == POOL_LIMIT && parallelism
            * POOL_PER_CORE > POOL_LIMIT,
        r@.idle.no_duplicates(),
        forall|a: usize| !#[trigger] r@.out.contains(a),
{
}

/// `QueuePool::allocate_queue` and `QueueStructure::at`: see [`fetches`]. It is nobody
/// else's, nobody is in it, and it is at an address that can be told from the words that
/// stand for states of a lock and can carry a mark.
pub proof fn allocate_queue(s: &mut QueuePool, r: QueueStructure, at: usize)
    requires
        s.wf(),
        s@.has_room(),
        call_ensures(QueuePool::allocate_queue, (s,), r),
        call_ensures(QueueStructure::at, (&r,), at),
    ensures
        fetches(old(s)@, final(s)@, at),
        !old(s)@.out.contains(at),
        r.list()@.len() == 0,
        at % 2 == 0,
        0 < at < ADDRESS_END,
{
    assert forall|a: usize| s@.given(a) && s@.idle.len() == 0 implies #[trigger] final(s)@.given(a)
        && a != at by {}
}

/// `QueuePool::can_make`: whether a pool with none idle could hand one out.
pub proof fn can_make(s: &QueuePool, r: bool)
    requires
        call_ensures(QueuePool::can_make, (s,), r),
    ensures
        r == (2 * (s@.made + 1) < ADDRESS_END),
        r ==> s@.has_room(),
        s@.idle.len() == 0 ==> r == s@.has_room(),
{
}

/// `QueuePool::deallocate_queue`: see [`gets_back`].
pub proof fn deallocate_queue(s: &mut QueuePool, structure: QueueStructure)
    requires
        s.wf(),
        call_ensures(QueuePool::deallocate_queue, (s, structure), ()),
    ensures
        gets_back(old(s)@, final(s)@, structure.address()),
{
}

/// A structure that comes back to a pool with none idle is the next one that is handed
/// out.
pub proof fn used_again(
    s: &mut QueuePool,
    structure: QueueStructure,
    s1: &mut QueuePool,
    r: QueueStructure,
)
    requires
        s.wf(),
        s@.idle.len() == 0,
        call_ensures(QueuePool::deallocate_queue, (s, structure), ()),
        *s1 == *final(s),
        call_ensures(QueuePool::allocate_queue, (s1,), r),
    ensures
        r.address() == structure.address(),
        final(s1)@.made == old(s)@.made,
{
}

/// The two ways in which a primitive's account with the pool is stated agree.
pub(crate) proof fn lemma_accounts(
    before: PoolView,
    had: Option<usize>,
    after: PoolView,
    has: Option<usize>,
)
    requires
        traded(before, had, after, has),
    ensures
        accounts(before, had, after, has),
{
    if had is None && has is Some {
        assert forall|a: usize| before.given(a) && before.idle.len() == 0 implies #[trigger] after.given(
            a,
        ) && a != has->0 by {}
    }
}

} // verus!
