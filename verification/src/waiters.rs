//! The waiters of one primitive: their nodes, and the line they stand in.
use vstd::prelude::*;

use crate::pool::QueueStructure;
use crate::signal::{Signal, SignalView, Wake, WakerSlot};
use crate::signal_queue::{Node, SignalQueue};

verus! {

/// The waiters of a primitive.
#[verifier::ext_equal]
pub struct WaitersView {
    /// The waiters in line, the one that has waited longest first.
    pub line: Seq<usize>,
    /// Every node, by number.
    pub nodes: Seq<SignalView>,
    /// Waiters that were taken out of the line and whose signal is on its way.
    pub popped: Set<usize>,
}

impl WaitersView {
    /// No waiter at all.
    pub open spec fn empty() -> WaitersView {
        WaitersView { line: Seq::empty(), nodes: Seq::empty(), popped: Set::empty() }
    }

    /// `id` is the node of a waiter.
    pub open spec fn live(self, id: usize) -> bool {
        id < self.nodes.len() && self.nodes[id as int].live
    }

    /// A new waiter may get the number `id`.
    pub open spec fn vacant(self, id: usize) -> bool {
        !self.live(id) && id <= self.nodes.len()
    }

    /// The node is a waiter's, in no line, and no signal is on its way to it.
    pub open spec fn idle(self, id: usize) -> bool {
        self.live(id) && !self.line.contains(id) && !self.popped.contains(id)
    }

    /// The line holds distinct waiters, none of which is also being signaled.
    pub open spec fn ok(self) -> bool {
        &&& self.nodes.len() <= usize::MAX
        &&& self.line.no_duplicates()
        &&& forall|i: int| 0 <= i < self.line.len() ==> self.live(#[trigger] self.line[i])
        &&& forall|id: usize| #[trigger]
            self.popped.contains(id) ==> self.live(id) && !self.line.contains(id)
    }

    /// The same waiters, with node `id` holding `node`.
    pub open spec fn with_node(self, id: usize, node: SignalView) -> WaitersView {
        WaitersView { nodes: self.nodes.update(id as int, node), ..self }
    }

    /// The same waiters and a new one, with number `id`.
    pub open spec fn with_new(self, id: usize, node: SignalView) -> WaitersView {
        WaitersView {
            nodes: if id < self.nodes.len() {
                self.nodes.update(id as int, node)
            } else {
                self.nodes.push(node)
            },
            ..self
        }
    }

    /// The waiters after `id` joined the end of the line.
    pub open spec fn pushed(self, id: usize) -> WaitersView {
        WaitersView { line: self.line.push(id), ..self }
    }

    /// The waiters after the first `k` in line were taken out to be signaled.
    pub open spec fn popped_front(self, k: int) -> WaitersView {
        WaitersView {
            line: self.line.skip(k),
            popped: self.popped.union(self.line.take(k).to_set()),
            ..self
        }
    }

    /// The waiters after `id` left the line.
    pub open spec fn removed(self, id: usize) -> WaitersView {
        if self.line.contains(id) {
            WaitersView { line: self.line.remove(self.line.index_of(id)), ..self }
        } else {
            self
        }
    }

    /// The waiters after `value` was sent to `id`.
    pub open spec fn after_signal(self, id: usize, value: usize) -> WaitersView {
        WaitersView {
            nodes: self.nodes.update(id as int, self.nodes[id as int].signaled(value)),
            popped: self.popped.remove(id),
            ..self
        }
    }
}

/// Taking one entry out of a line leaves the others, each once.
pub proof fn lemma_remove(line: Seq<usize>, id: usize)
    requires
        line.no_duplicates(),
        line.contains(id),
    ensures
        0 <= line.index_of(id) < line.len(),
        line[line.index_of(id)] == id,
        line.remove(line.index_of(id)).no_duplicates(),
        forall|x: usize| #[trigger]
            line.remove(line.index_of(id)).contains(x) <==> line.contains(x) && x != id,
{
    let k = line.index_of(id);
    let left = line.remove(k);
    assert forall|i: int| 0 <= i < left.len() implies #[trigger] left[i] == line[if i < k {
        i
    } else {
        i + 1
    }] by {}
    assert forall|x: usize| #[trigger] left.contains(x) <==> line.contains(x) && x != id by {
        if line.contains(x) && x != id {
            let i = line.index_of(x);
            assert(left[if i < k {
                i
            } else {
                i - 1
            }] == x);
        }
        if left.contains(x) {
            let i = left.index_of(x);
            assert(line[if i < k {
                i
            } else {
                i + 1
            }] == x);
        }
    }
}

/// Popping one more.
pub proof fn lemma_popped_front(w: WaitersView, i: int)
    requires
        0 <= i < w.line.len(),
    ensures
        w.popped_front(i).popped_front(1) == w.popped_front(i + 1),
{
    let a = w.popped_front(i).popped_front(1);
    let b = w.popped_front(i + 1);
    assert(a.line =~= b.line);
    let taken = w.popped_front(i).line.take(1);
    assert forall|x: usize| w.line.take(i + 1).contains(x) <==> w.line.take(i).contains(x)
        || taken.contains(x) by {
        if w.line.take(i + 1).contains(x) {
            let p = w.line.take(i + 1).index_of(x);
            if p < i {
                assert(w.line.take(i)[p] == x);
            } else {
                assert(taken[0] == x);
            }
        }
        if w.line.take(i).contains(x) {
            assert(w.line.take(i + 1)[w.line.take(i).index_of(x)] == x);
        }
        if taken.contains(x) {
            assert(w.line.take(i + 1)[i] == x);
        }
    }
    assert(a.popped =~= b.popped);
}

/// Waiter nodes and the line that runs through them.
///
/// The line stands in the list of a queue structure, which is there while
/// somebody may be in line; without one the list is empty.
pub struct Waiters {
    nodes: Vec<Signal>,
    free: Vec<usize>,
    list: SignalQueue,
    home: Option<usize>,
    popped: Ghost<Set<usize>>,
}

impl View for Waiters {
    type V = WaitersView;

    closed spec fn view(&self) -> WaitersView {
        WaitersView {
            line: self.list@,
            nodes: self.nodes@.map_values(|s: Signal| s@),
            popped: self.popped@,
        }
    }
}

impl Waiters {
    /// The representation behind the view: the list runs through the nodes,
    /// nodes outside the line carry no link, and the free list names nodes
    /// that belong to nobody.
    pub closed spec fn inv(&self) -> bool {
        &&& self.list.linked(self.nodes@)
        &&& self.home is None ==> self.list@.len() == 0
        &&& forall|j: usize|
            j < self.nodes@.len() && !self.list@.contains(j) ==> (
            #[trigger] self.nodes@[j as int]).next is None
        &&& self.free@.no_duplicates()
        &&& forall|i: int|
            0 <= i < self.free@.len() ==> (#[trigger] self.free@[i]) < self.nodes@.len()
                && !self.nodes@[self.free@[i] as int].live
    }

    /// The address of the structure that the line stands in.
    pub closed spec fn home(&self) -> Option<usize> {
        self.home
    }

    /// Well-formedness.
    pub open spec fn wf(&self) -> bool {
        self@.ok() && self.inv()
    }

    /// The address of the structure that the line stands in.
    pub fn address(&self) -> (r: Option<usize>)
        ensures
            r == self.home(),
    {
        self.home
    }

    /// Lets the line stand in the list of an empty structure.
    pub fn open(&mut self, structure: QueueStructure)
        requires
            old(self).wf(),
            old(self).home() is None,
            structure.is_empty(),
        ensures
            final(self).wf(),
            final(self)@ == old(self)@,
            final(self).home() == Some(structure.address()),
    {
        let ghost before = *self;
        let (address, list) = structure.into_parts();
        self.list = list;
        self.home = Some(address);
        assert(self@ =~= before@);
    }

    /// Gives the structure back, which nobody is in any more.
    pub fn close(&mut self) -> (r: QueueStructure)
        requires
            old(self).wf(),
            old(self).home() is Some,
            old(self)@.line.len() == 0,
        ensures
            final(self).wf(),
            final(self)@ == old(self)@,
            final(self).home() is None,
            r.is_empty(),
            Some(r.address()) == old(self).home(),
    {
        let ghost before = *self;
        let mut list = SignalQueue::new();
        core::mem::swap(&mut list, &mut self.list);
        let address: usize = self.home.take().unwrap();
        assert(self@ =~= before@);
        QueueStructure::new(address, list)
    }

    /// No waiters.
    pub fn new() -> (r: Self)
        ensures
            r.wf(),
            r@ == WaitersView::empty(),
            r.home() is None,
    {
        let r = Waiters {
            nodes: Vec::new(),
            free: Vec::new(),
            list: SignalQueue::new(),
            home: None,
            popped: Ghost(Set::empty()),
        };
        assert(r@ =~= WaitersView::empty());
        r
    }

    fn place(&mut self, node: Signal) -> (id: usize)
        requires
            old(self).wf(),
            node.next is None,
            node@.live,
        ensures
            final(self).wf(),
            final(self).home() == old(self).home(),
            old(self)@.vacant(id),
            final(self)@ == old(self)@.with_new(id, node@),
            final(self)@.idle(id),
    {
        let ghost before = *self;
        let id: usize = match self.free.pop() {
            Some(id) => {
                assert(id == before.free@.last());
                self.nodes[id] = node;
                id
            },
            None => {
                let id: usize = self.nodes.len();
                self.nodes.push(node);
                id
            },
        };
        proof {
            assert(self.nodes.len() == self.nodes@.len());
            assert(self@.nodes =~= before@.with_new(id, node@).nodes);
            if self@.line.contains(id) {
                let i = self@.line.index_of(id);
                assert(before@.live(before@.line[i]));
            }
            assert forall|i: int| 0 <= i < self@.line.len() implies self@.live(
                #[trigger] self@.line[i],
            ) by {
                assert(before@.live(before@.line[i]));
            }
            assert forall|i: int| 0 <= i < self.list@.len() implies self.nodes@[(
            #[trigger] self.list@[i]) as int].next == before.nodes@[self.list@[i] as int].next by {
                assert(before@.live(before@.line[i]));
            }
            assert forall|i: int| 0 <= i < self.free@.len() implies (#[trigger] self.free@[i])
                != id by {
                assert(self.free@[i] == before.free@[i]);
            }
        }
        id
    }

    /// Makes a node for a task.
    pub fn add_none(&mut self) -> (id: usize)
        requires
            old(self).wf(),
        ensures
            final(self).wf(),
            final(self).home() == old(self).home(),
            old(self)@.vacant(id),
            final(self)@ == old(self)@.with_new(id, SignalView::fresh_none()),
            final(self)@.idle(id),
    {
        self.place(Signal::new_none())
    }

    /// Makes a node for a thread.
    pub fn add_sync(&mut self, thread: usize) -> (id: usize)
        requires
            old(self).wf(),
        ensures
            final(self).wf(),
            final(self).home() == old(self).home(),
            old(self)@.vacant(id),
            final(self)@ == old(self)@.with_new(id, SignalView::fresh_sync(thread)),
            final(self)@.idle(id),
    {
        self.place(Signal::new_sync(thread))
    }

    /// Gives a node back.
    pub fn discard(&mut self, id: usize)
        requires
            old(self).wf(),
            old(self)@.idle(id),
        ensures
            final(self).wf(),
            final(self).home() == old(self).home(),
            final(self)@ == old(self)@.with_node(id, SignalView::dead()),
    {
        let ghost before = *self;
        let mut node = Signal::new_none();
        node.live = false;
        self.nodes[id] = node;
        self.free.push(id);
        proof {
            assert(self@.nodes =~= before@.with_node(id, SignalView::dead()).nodes);
            assert forall|i: int| 0 <= i < self@.line.len() implies self@.live(
                #[trigger] self@.line[i],
            ) by {
                assert(before@.live(before@.line[i]));
                assert(before@.line.contains(before@.line[i]));
            }
            assert forall|i: int| 0 <= i < self.list@.len() implies self.nodes@[(
            #[trigger] self.list@[i]) as int].next == before.nodes@[self.list@[i] as int].next by {
                assert(before@.line.contains(before@.line[i]));
            }
            assert forall|i: int| 0 <= i < before.free@.len() implies (#[trigger] before.free@[i])
                != id by {}
            assert(self.free@.no_duplicates());
        }
    }

    /// Makes a node what it was when it was new.
    pub fn reset(&mut self, id: usize)
        requires
            old(self).wf(),
            old(self)@.idle(id),
        ensures
            final(self).wf(),
            final(self).home() == old(self).home(),
            final(self)@ == old(self)@.with_node(id, SignalView::fresh_none()),
    {
        let ghost before = *self;
        self.nodes[id] = Signal::new_none();
        proof {
            assert(self@.nodes =~= before@.with_node(id, SignalView::fresh_none()).nodes);
            assert forall|i: int| 0 <= i < self@.line.len() implies self@.live(
                #[trigger] self@.line[i],
            ) by {
                assert(before@.live(before@.line[i]));
                assert(before@.line.contains(before@.line[i]));
            }
            assert forall|i: int| 0 <= i < self.list@.len() implies self.nodes@[(
            #[trigger] self.list@[i]) as int].next == before.nodes@[self.list@[i] as int].next by {
                assert(before@.line.contains(before@.line[i]));
            }
        }
    }

    /// Adds a waiter to the end of the line. Returns whether the line was
    /// empty.
    pub fn push(&mut self, id: usize) -> (r: bool)
        requires
            old(self).wf(),
            old(self).home() is Some,
            old(self)@.idle(id),
        ensures
            final(self).wf(),
            final(self).home() == old(self).home(),
            final(self)@ == old(self)@.pushed(id),
            r == (old(self)@.line.len() == 0),
    {
        let ghost before = *self;
        let r = self.list.push(&mut self.nodes, id);
        proof {
            self.lemma_same_rest(before);
            assert forall|j: usize|
                j < self.nodes@.len() && !self.list@.contains(j) implies (
            #[trigger] self.nodes@[j as int]).next is None by {
                if before.list@.contains(j) {
                    let i = before.list@.index_of(j);
                    assert(self.list@[i] == j);
                }
            }
            assert forall|i: int| 0 <= i < self@.line.len() implies self@.live(
                #[trigger] self@.line[i],
            ) by {
                if i < before@.line.len() {
                    assert(before@.live(before@.line[i]));
                }
            }
            assert forall|x: usize| #[trigger] self@.popped.contains(x) implies self@.live(x)
                && !self@.line.contains(x) by {
                assert(before@.popped.contains(x));
                if self@.line.contains(x) {
                    let i = self@.line.index_of(x);
                    if i < before@.line.len() {
                        assert(before@.line[i] == x);
                    }
                }
            }
        }
        r
    }

    proof fn lemma_same_rest(&self, before: Waiters)
        requires
            self.nodes@.len() == before.nodes@.len(),
            forall|j: int|
                0 <= j < self.nodes@.len() ==> (#[trigger] self.nodes@[j]).rest()
                    == before.nodes@[j].rest(),
        ensures
            self@.nodes == before@.nodes,
            forall|j: int|
                0 <= j < self.nodes@.len() ==> (#[trigger] self.nodes@[j])@ == before.nodes@[j]@,
    {
        assert forall|j: int| 0 <= j < self.nodes@.len() implies (#[trigger] self.nodes@[j])@
            == before.nodes@[j]@ by {
            assert(self.nodes@[j].rest() == before.nodes@[j].rest());
        }
        assert(self@.nodes =~= before@.nodes);
    }

    /// The waiter at the front of the line.
    pub fn first(&self) -> (r: Option<usize>)
        requires
            self.wf(),
        ensures
            r == if self@.line.len() == 0 {
                None
            } else {
                Some(self@.line[0])
            },
    {
        self.list.first(&self.nodes)
    }

    /// Whether nobody is in line.
    pub fn is_empty(&self) -> (r: bool)
        requires
            self.wf(),
        ensures
            r == (self@.line.len() == 0),
    {
        self.list.is_empty(&self.nodes)
    }

    /// Takes the first waiter out of the line, to be signaled.
    pub fn pop(&mut self) -> (r: Option<usize>)
        requires
            old(self).wf(),
        ensures
            final(self).wf(),
            final(self).home() == old(self).home(),
            match r {
                Some(id) => old(self)@.line.len() > 0 && id == old(self)@.line[0] && final(self)@
                    == old(self)@.popped_front(1),
                None => old(self)@.line.len() == 0 && final(self)@ == old(self)@,
            },
    {
        let ghost before = *self;
        match self.list.pop(&self.nodes) {
            None => None,
            Some(id) => {
                let ghost line = before@.line;
                assert(id == line[0]);
                self.nodes[id].set_next(None);
                self.popped = Ghost(self.popped@.insert(id));
                proof {
                    self.lemma_same_rest(before);
                    let left = line.skip(1);
                    assert(line.take(1).to_set() =~= set![id]) by {
                        assert(line.take(1)[0] == id);
                        assert(line.take(1).contains(id));
                    }
                    assert(before.popped@.union(line.take(1).to_set()) =~= before.popped@.insert(
                        id,
                    ));
                    assert forall|i: int| 0 <= i < left.len() implies #[trigger] left[i] == line[i
                        + 1] && left[i] != id by {}
                    assert(!left.contains(id));
                    assert forall|j: usize|
                        j < self.nodes@.len() && !left.contains(j) implies (
                    #[trigger] self.nodes@[j as int]).next is None by {
                        if j != id && line.contains(j) {
                            let i = line.index_of(j);
                            assert(left[i - 1] == j);
                        }
                    }
                    assert forall|i: int| 0 <= i < left.len() implies self@.live(
                        #[trigger] left[i],
                    ) by {
                        assert(before@.live(line[i + 1]));
                    }
                    assert(before@.live(line[0]));
                    assert forall|x: usize| #[trigger] self@.popped.contains(x) implies self@.live(
                        x,
                    ) && !self@.line.contains(x) by {
                        if x != id {
                            assert(before@.popped.contains(x));
                            if left.contains(x) {
                                let i = left.index_of(x);
                                assert(line[i + 1] == x);
                            }
                        }
                    }
                    assert(self@ =~= before@.popped_front(1));
                }
                Some(id)
            },
        }
    }

    /// Takes a waiter out of the line, wherever it stands. Returns whether it
    /// was in line.
    pub fn remove(&mut self, id: usize) -> (r: bool)
        requires
            old(self).wf(),
        ensures
            final(self).wf(),
            final(self).home() == old(self).home(),
            final(self)@ == old(self)@.removed(id),
            r == old(self)@.line.contains(id),
            r ==> final(self)@.idle(id),
    {
        let ghost before = *self;
        let found = self.list.remove(&mut self.nodes, id);
        if found {
            self.nodes[id].set_next(None);
        }
        proof {
            let line = before@.line;
            self.lemma_same_rest(before);
            if found {
                lemma_remove(line, id);
                let left = line.remove(line.index_of(id));
                assert forall|j: usize|
                    j < self.nodes@.len() && !left.contains(j) implies (
                #[trigger] self.nodes@[j as int]).next is None by {
                    if j != id {
                        assert(!line.contains(j));
                    }
                }
                assert forall|i: int| 0 <= i < left.len() implies self@.live(#[trigger] left[i]) by {
                    assert(left.contains(left[i]));
                    let k = line.index_of(left[i]);
                    assert(before@.live(line[k]));
                }
                assert(before@.live(line[line.index_of(id)]));
                assert forall|x: usize| #[trigger] self@.popped.contains(x) implies self@.live(x)
                    && !self@.line.contains(x) by {
                    assert(before@.popped.contains(x));
                }
                if before@.popped.contains(id) {
                    assert(!before@.line.contains(id));
                }
            } else {
                assert(self@ =~= before@);
            }
        }
        found
    }

    /// Sends a signal to a waiter that was taken out of the line.
    pub fn signal(&mut self, id: usize, value: usize) -> (r: Wake)
        requires
            old(self).wf(),
            old(self)@.popped.contains(id),
        ensures
            final(self).wf(),
            final(self).home() == old(self).home(),
            final(self)@ == old(self)@.after_signal(id, value),
            r == old(self)@.nodes[id as int].wake(),
            final(self)@.idle(id),
    {
        let ghost before = *self;
        let r = self.nodes[id].signal_node(value);
        self.popped = Ghost(self.popped@.remove(id));
        proof {
            self.lemma_node_written(before, id);
            assert(self@ =~= before@.after_signal(id, value));
        }
        r
    }

    /// Rewriting a node in place, its link and its liveness aside, keeps the
    /// representation.
    proof fn lemma_node_written(&self, before: Waiters, id: usize)
        requires
            before.wf(),
            before@.live(id),
            self.list == before.list,
            self.home == before.home,
            self.free == before.free,
            self.popped@.subset_of(before.popped@),
            self.nodes@.len() == before.nodes@.len(),
            self.nodes@[id as int].live,
            self.nodes@[id as int].next == before.nodes@[id as int].next,
            forall|j: int|
                0 <= j < self.nodes@.len() && j != id ==> #[trigger] self.nodes@[j]
                    == before.nodes@[j],
        ensures
            self.wf(),
            self@.line == before@.line,
            self@.nodes == before@.nodes.update(id as int, self.nodes@[id as int]@),
    {
        assert(self@.nodes =~= before@.nodes.update(id as int, self.nodes@[id as int]@));
        assert forall|i: int| 0 <= i < self@.line.len() implies self@.live(
            #[trigger] self@.line[i],
        ) by {
            assert(before@.live(before@.line[i]));
        }
        assert forall|x: usize| #[trigger] self@.popped.contains(x) implies self@.live(x)
            && !self@.line.contains(x) by {
            assert(before@.popped.contains(x));
        }
    }

    /// Reads the signal.
    pub fn value(&self, id: usize) -> (r: usize)
        requires
            self.wf(),
            self@.live(id),
        ensures
            r == self@.nodes[id as int].value,
    {
        self.nodes[id].value
    }

    /// Writes the signal (the waiter's own write).
    pub fn set_value(&mut self, id: usize, value: usize)
        requires
            old(self).wf(),
            old(self)@.live(id),
        ensures
            final(self).wf(),
            final(self).home() == old(self).home(),
            final(self)@ == old(self)@.with_node(
                id,
                (SignalView { value, ..old(self)@.nodes[id as int] }),
            ),
    {
        let ghost before = *self;
        self.nodes[id].value = value;
        proof {
            self.lemma_node_written(before, id);
        }
    }

    /// Reads the primitive's word.
    pub fn aux(&self, id: usize) -> (r: usize)
        requires
            self.wf(),
            self@.live(id),
        ensures
            r == self@.nodes[id as int].aux,
    {
        self.nodes[id].aux
    }

    /// Writes the primitive's word.
    pub fn set_aux(&mut self, id: usize, aux: usize)
        requires
            old(self).wf(),
            old(self)@.live(id),
        ensures
            final(self).wf(),
            final(self).home() == old(self).home(),
            final(self)@ == old(self)@.with_node(
                id,
                (SignalView { aux, ..old(self)@.nodes[id as int] }),
            ),
    {
        let ghost before = *self;
        self.nodes[id].aux = aux;
        proof {
            self.lemma_node_written(before, id);
        }
    }

    /// Records how many permits are assigned to the waiter.
    pub(crate) fn set_granted(&mut self, id: usize, Ghost(granted): Ghost<nat>)
        requires
            old(self).wf(),
            old(self)@.live(id),
        ensures
            final(self).wf(),
            final(self).home() == old(self).home(),
            final(self)@ == old(self)@.with_node(
                id,
                (SignalView { granted, ..old(self)@.nodes[id as int] }),
            ),
    {
        let ghost before = *self;
        self.nodes[id].granted = Ghost(granted);
        proof {
            self.lemma_node_written(before, id);
        }
    }

    /// Registers the task to wake.
    pub fn register(&mut self, id: usize, waker: usize)
        requires
            old(self).wf(),
            old(self)@.live(id),
        ensures
            final(self).wf(),
            final(self).home() == old(self).home(),
            final(self)@ == old(self)@.with_node(
                id,
                (SignalView { waker: WakerSlot::Async(waker), ..old(self)@.nodes[id as int] }),
            ),
    {
        let ghost before = *self;
        self.nodes[id].waker.register(waker);
        proof {
            self.lemma_node_written(before, id);
        }
    }

    /// The stored waker.
    pub fn waker(&self, id: usize) -> (r: WakerSlot)
        requires
            self.wf(),
            self@.live(id),
        ensures
            r == self@.nodes[id as int].waker,
    {
        self.nodes[id].waker.peek()
    }
}

} // verus!
