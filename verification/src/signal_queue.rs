//! The intrusive FIFO queue of waiter nodes.
//!
//! Nodes stand in a vector and are named by their index. The queue holds the
//! first and the last node; the rest is found by following the link that each
//! node carries, so that queueing a waiter allocates nothing.
use vstd::prelude::*;

use crate::signal::{Signal, SignalView};

verus! {

/// A node that can be linked into a [`SignalQueue`].
pub trait Node: Sized {
    /// Everything the node holds besides the link.
    type Rest;

    /// The node after this one.
    spec fn link(&self) -> Option<usize>;

    /// What the node holds besides the link.
    spec fn rest(&self) -> Self::Rest;

    /// Reads the link.
    fn get_next(&self) -> (r: Option<usize>)
        ensures
            r == self.link(),
    ;

    /// Writes the link and nothing else.
    fn set_next(&mut self, next: Option<usize>)
        ensures
            final(self).link() == next,
            final(self).rest() == old(self).rest(),
    ;
}

impl Node for Signal {
    type Rest = SignalView;

    open spec fn link(&self) -> Option<usize> {
        self.next
    }

    open spec fn rest(&self) -> SignalView {
        self@
    }

    fn get_next(&self) -> (r: Option<usize>) {
        self.next
    }

    fn set_next(&mut self, next: Option<usize>) {
        self.next = next;
    }
}

/// The entry that follows position `i` of `items`.
pub open spec fn successor(items: Seq<usize>, i: int) -> Option<usize> {
    if i + 1 < items.len() {
        Some(items[i + 1])
    } else {
        None
    }
}

/// An intrusive FIFO queue.
pub struct SignalQueue {
    first: Option<usize>,
    last: Option<usize>,
    items: Ghost<Seq<usize>>,
}

impl View for SignalQueue {
    type V = Seq<usize>;

    closed spec fn view(&self) -> Seq<usize> {
        self.items@
    }
}

impl SignalQueue {
    /// The queue's two ends point at the ends of the sequence.
    pub closed spec fn ends(&self) -> bool {
        &&& self.first == if self@.len() == 0 {
            None
        } else {
            Some(self@[0])
        }
        &&& self.last == if self@.len() == 0 {
            None
        } else {
            Some(self@.last())
        }
    }

    /// The queue's entries are distinct nodes of `nodes`, chained in order by
    /// their links, and the queue's two ends point at the ends of the chain.
    pub open spec fn linked<N: Node>(&self, nodes: Seq<N>) -> bool {
        &&& self.ends()
        &&& self@.no_duplicates()
        &&& forall|i: int| 0 <= i < self@.len() ==> (#[trigger] self@[i]) < nodes.len()
        &&& forall|i: int|
            0 <= i < self@.len() ==> nodes[(#[trigger] self@[i]) as int].link() == successor(
                self@,
                i,
            )
    }

    /// Creates an empty queue.
    pub fn new() -> (r: Self)
        ensures
            r@ == Seq::<usize>::empty(),
            r.ends(),
    {
        SignalQueue { first: None, last: None, items: Ghost(Seq::empty()) }
    }

    /// Appends a node. Returns `true` if the queue was empty, as a hint that
    /// the caller may spin for a while.
    pub fn push<N: Node>(&mut self, nodes: &mut Vec<N>, entry: usize) -> (r: bool)
        requires
            old(self).linked(old(nodes)@),
            entry < old(nodes)@.len(),
            !old(self)@.contains(entry),
            old(nodes)@[entry as int].link() is None,
        ensures
            final(self).linked(final(nodes)@),
            final(self)@ == old(self)@.push(entry),
            r == (old(self)@.len() == 0),
            final(nodes)@.len() == old(nodes)@.len(),
            forall|j: int|
                0 <= j < old(nodes)@.len()
                    ==> (#[trigger] final(nodes)@[j]).rest() == old(nodes)@[j].rest(),
            forall|j: usize|
                j < old(nodes)@.len() && !old(self)@.contains(j)
                    ==> #[trigger] final(nodes)@[j as int] == old(nodes)@[j as int],
    {
        let ghost items = self.items@;
        let old_last = self.last;
        self.last = Some(entry);
        self.items = Ghost(items.push(entry));
        let was_empty = match old_last {
            Some(last) => {
                assert(last == items[items.len() - 1]);
                nodes[last].set_next(Some(entry));
                false
            },
            None => {
                self.first = Some(entry);
                true
            },
        };
        proof {
            assert(self@.no_duplicates());
            assert forall|i: int| 0 <= i < self@.len() implies nodes@[(
            #[trigger] self@[i]) as int].link() == successor(self@, i) by {
                if i < items.len() {
                    assert(self@[i] == items[i]);
                    if i + 1 < items.len() {
                        assert(items[i] != items[items.len() - 1]);
                    }
                }
            }
        }
        was_empty
    }

    /// The node at the front.
    pub fn first<N: Node>(&self, nodes: &Vec<N>) -> (r: Option<usize>)
        requires
            self.linked(nodes@),
        ensures
            r == if self@.len() == 0 {
                None
            } else {
                Some(self@[0])
            },
    {
        self.first
    }

    /// Whether no node is queued.
    pub fn is_empty<N: Node>(&self, nodes: &Vec<N>) -> (r: bool)
        requires
            self.linked(nodes@),
        ensures
            r == (self@.len() == 0),
    {
        self.first.is_none()
    }

    /// Takes the node at the front.
    pub fn pop<N: Node>(&mut self, nodes: &Vec<N>) -> (r: Option<usize>)
        requires
            old(self).linked(nodes@),
        ensures
            final(self).linked(nodes@),
            match r {
                Some(entry) => old(self)@.len() > 0 && entry == old(self)@[0] && final(self)@
                    == old(self)@.skip(1),
                None => old(self)@.len() == 0 && final(self)@ == old(self)@,
            },
    {
        let ghost items = self.items@;
        match self.first {
            None => None,
            Some(first) => {
                assert(first == items[0]);
                match nodes[first].get_next() {
                    Some(next) => {
                        self.first = Some(next);
                    },
                    None => {
                        self.first = None;
                        self.last = None;
                    },
                }
                self.items = Ghost(items.skip(1));
                proof {
                    assert forall|i: int| 0 <= i < self@.len() implies nodes@[(
                    #[trigger] self@[i]) as int].link() == successor(self@, i) by {
                        assert(self@[i] == items[i + 1]);
                    }
                }
                Some(first)
            },
        }
    }

    /// Takes a given node out of the queue, wherever it stands. Returns
    /// whether it was queued.
    pub fn remove<N: Node>(&mut self, nodes: &mut Vec<N>, entry: usize) -> (r: bool)
        requires
            old(self).linked(old(nodes)@),
        ensures
            final(self).linked(final(nodes)@),
            r == old(self)@.contains(entry),
            !r ==> final(self)@ == old(self)@ && final(nodes)@ == old(nodes)@,
            r ==> final(self)@ == old(self)@.remove(old(self)@.index_of(entry)),
            final(nodes)@.len() == old(nodes)@.len(),
            forall|j: int|
                0 <= j < old(nodes)@.len()
                    ==> (#[trigger] final(nodes)@[j]).rest() == old(nodes)@[j].rest(),
            forall|j: usize|
                j < old(nodes)@.len() && !old(self)@.contains(j)
                    ==> #[trigger] final(nodes)@[j as int] == old(nodes)@[j as int],
    {
        let ghost items = self.items@;
        let mut cur = self.first;
        let mut prev: Option<usize> = None;
        let ghost mut k: int = 0;
        while cur.is_some()
            invariant
                self.linked(nodes@),
                nodes@ == old(nodes)@,
                *self == *old(self),
                items == self@,
                0 <= k <= items.len(),
                cur == if k < items.len() {
                    Some(items[k])
                } else {
                    None
                },
                prev == if k > 0 {
                    Some(items[k - 1])
                } else {
                    None
                },
                forall|i: int| 0 <= i < k ==> #[trigger] items[i] != entry,
            decreases items.len() - k,
        {
            let cur_ptr: usize = cur.unwrap();
            if cur_ptr == entry {
                let next = nodes[cur_ptr].get_next();
                match prev {
                    Some(prev) => {
                        nodes[prev].set_next(next);
                    },
                    None => {
                        self.first = next;
                    },
                }
                if self.last == Some(cur_ptr) {
                    self.last = prev;
                }
                self.items = Ghost(items.remove(k));
                proof {
                    assert(items.contains(entry));
                    assert(items.index_of(entry) == k);
                    let left = items.remove(k);
                    assert forall|i: int| 0 <= i < left.len() implies #[trigger] left[i] == items[if i
                        < k {
                        i
                    } else {
                        i + 1
                    }] by {}
                    assert forall|i: int| 0 <= i < left.len() implies nodes@[(
                    #[trigger] left[i]) as int].link() == successor(left, i) by {
                        if i < k {
                            assert(left[i] == items[i]);
                            if i + 1 < k {
                                assert(items[i] != items[k - 1]);
                            }
                        } else {
                            assert(left[i] == items[i + 1]);
                            if k > 0 {
                                assert(items[i + 1] != items[k - 1]);
                            }
                        }
                    }
                    assert(left.no_duplicates());
                }
                return true;
            }
            prev = Some(cur_ptr);
            cur = nodes[cur_ptr].get_next();
            proof {
                k = k + 1;
            }
        }
        false
    }
}

} // verus!
