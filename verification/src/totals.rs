//! Sums over waiter nodes.
use vstd::prelude::*;

use crate::signal::SignalView;

verus! {

/// The permits assigned to all the nodes together.
pub open spec fn total_granted(nodes: Seq<SignalView>) -> nat
    decreases nodes.len(),
{
    if nodes.len() == 0 {
        0
    } else {
        total_granted(nodes.drop_last()) + nodes.last().granted
    }
}

/// Rewriting one node changes the sum by the difference.
pub proof fn lemma_total_update(nodes: Seq<SignalView>, i: int, node: SignalView)
    requires
        0 <= i < nodes.len(),
    ensures
        total_granted(nodes.update(i, node)) == total_granted(nodes) - nodes[i].granted
            + node.granted,
    decreases nodes.len(),
{
    let changed = nodes.update(i, node);
    if i == nodes.len() - 1 {
        assert(changed.drop_last() =~= nodes.drop_last());
    } else {
        lemma_total_update(nodes.drop_last(), i, node);
        assert(changed.drop_last() =~= nodes.drop_last().update(i, node));
    }
}

/// A new node adds what it holds.
pub proof fn lemma_total_push(nodes: Seq<SignalView>, node: SignalView)
    ensures
        total_granted(nodes.push(node)) == total_granted(nodes) + node.granted,
{
    assert(nodes.push(node).drop_last() =~= nodes);
}

/// No single node holds more than all of them.
pub proof fn lemma_total_bounds(nodes: Seq<SignalView>, i: int)
    requires
        0 <= i < nodes.len(),
    ensures
        nodes[i].granted <= total_granted(nodes),
    decreases nodes.len(),
{
    if i < nodes.len() - 1 {
        lemma_total_bounds(nodes.drop_last(), i);
    }
}

/// Nodes that differ in nothing but other fields hold the same in all.
pub proof fn lemma_total_same(a: Seq<SignalView>, b: Seq<SignalView>)
    requires
        a.len() == b.len(),
        forall|i: int| 0 <= i < a.len() ==> (#[trigger] a[i]).granted == b[i].granted,
    ensures
        total_granted(a) == total_granted(b),
    decreases a.len(),
{
    if a.len() > 0 {
        assert forall|i: int| 0 <= i < a.drop_last().len() implies (
        #[trigger] a.drop_last()[i]).granted == b.drop_last()[i].granted by {
            assert(a[i].granted == b[i].granted);
        }
        lemma_total_same(a.drop_last(), b.drop_last());
        assert(a[a.len() - 1].granted == b[b.len() - 1].granted);
    }
}

} // verus!
