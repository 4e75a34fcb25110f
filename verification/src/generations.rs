//! Waiters that are told apart by the generation in which they began to wait.
use vstd::prelude::*;

use crate::waiters::WaitersView;

verus! {

/// The generation in which the `i`th in line began to wait.
pub open spec fn born(w: WaitersView, i: int) -> usize {
    w.nodes[w.line[i] as int].aux
}

/// How many waiters from position `i` on, one after the other, began in
/// another generation than `generation`.
pub open spec fn older(w: WaitersView, generation: usize, i: int) -> nat
    decreases w.line.len() - i,
{
    if i < 0 || i >= w.line.len() || w.nodes[w.line[i] as int].aux == generation {
        0
    } else {
        1 + older(w, generation, i + 1)
    }
}

/// They are the first in line, up to one of the current generation.
pub proof fn lemma_older(w: WaitersView, generation: usize, i: int)
    requires
        0 <= i <= w.line.len(),
    ensures
        i + older(w, generation, i) <= w.line.len(),
        forall|j: int|
            i <= j < i + older(w, generation, i) ==> w.nodes[#[trigger] w.line[j] as int].aux
                != generation,
        i + older(w, generation, i) < w.line.len() ==> w.nodes[w.line[i + older(
            w,
            generation,
            i,
        )] as int].aux == generation,
    decreases w.line.len() - i,
{
    if i < w.line.len() && w.nodes[w.line[i] as int].aux != generation {
        lemma_older(w, generation, i + 1);
    }
}

} // verus!
