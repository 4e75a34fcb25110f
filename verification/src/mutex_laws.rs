//! A mutex under many threads, each of which locks it, adds one to the value
//! and unlocks it, again and again.
use vstd::prelude::*;

use crate::mutex_core::MutexView;

verus! {

/// What one thread does at the mutex.
pub enum Move {
    /// It gets the lock, and with it the value.
    Enter,
    /// It adds one to the value and gives the lock up.
    Leave,
    /// Anything else: it tries, queues up, looks, is signaled, or gives up.
    Other,
}

impl MutexView<usize> {
    /// One move takes the mutex from here to `after`; `held` and `held_after`
    /// are the value in the guard that is out, if one is.
    pub open spec fn moved(
        self,
        by: Move,
        held: Option<usize>,
        after: MutexView<usize>,
        held_after: Option<usize>,
    ) -> bool {
        match by {
            Move::Enter => {
                &&& after.owner is Guard
                &&& after.data is None
                &&& self.data is Some && held_after == self.data
            },
            Move::Leave => {
                &&& self.owner is Guard
                &&& held matches Some(x) && x < usize::MAX && after == self.unlocked(
                    (x + 1) as usize,
                )
                &&& held_after is None
            },
            Move::Other => {
                &&& after.data == self.data
                &&& held_after == held
            },
        }
    }
}

/// How often the lock was taken.
pub open spec fn enters(moves: Seq<(nat, Move)>) -> nat
    decreases moves.len(),
{
    if moves.len() == 0 {
        0
    } else {
        enters(moves.drop_last()) + if moves.last().1 is Enter {
            1nat
        } else {
            0
        }
    }
}

/// How often it was given up.
pub open spec fn leaves(moves: Seq<(nat, Move)>) -> nat
    decreases moves.len(),
{
    if moves.len() == 0 {
        0
    } else {
        leaves(moves.drop_last()) + if moves.last().1 is Leave {
            1nat
        } else {
            0
        }
    }
}

/// How often thread `t` gave it up.
pub open spec fn leaves_of(moves: Seq<(nat, Move)>, t: nat) -> nat
    decreases moves.len(),
{
    if moves.len() == 0 {
        0
    } else {
        leaves_of(moves.drop_last(), t) + if moves.last().1 is Leave && moves.last().0 == t {
            1nat
        } else {
            0
        }
    }
}

/// How often the threads below `threads` did.
spec fn leaves_below(moves: Seq<(nat, Move)>, threads: nat) -> nat
    decreases threads,
{
    if threads == 0 {
        0
    } else {
        leaves_below(moves, (threads - 1) as nat) + leaves_of(moves, (threads - 1) as nat)
    }
}

proof fn lemma_one_more(moves: Seq<(nat, Move)>, threads: nat)
    requires
        moves.len() > 0,
    ensures
        leaves_below(moves, threads) == leaves_below(moves.drop_last(), threads) + if moves.last().1
            is Leave && moves.last().0 < threads {
            1nat
        } else {
            0
        },
    decreases threads,
{
    if threads > 0 {
        lemma_one_more(moves, (threads - 1) as nat);
    }
}

proof fn lemma_everybody(moves: Seq<(nat, Move)>, threads: nat)
    requires
        forall|i: int| 0 <= i < moves.len() ==> (#[trigger] moves[i]).0 < threads,
    ensures
        leaves_below(moves, threads) == leaves(moves),
    decreases moves.len(),
{
    if moves.len() == 0 {
        lemma_nothing(moves, threads);
    } else {
        lemma_one_more(moves, threads);
        assert forall|i: int| 0 <= i < moves.drop_last().len() implies (
        #[trigger] moves.drop_last()[i]).0 < threads by {
            assert(moves.drop_last()[i] == moves[i]);
        }
        lemma_everybody(moves.drop_last(), threads);
    }
}

proof fn lemma_nothing(moves: Seq<(nat, Move)>, threads: nat)
    requires
        moves.len() == 0,
    ensures
        leaves_below(moves, threads) == 0,
    decreases threads,
{
    if threads > 0 {
        lemma_nothing(moves, (threads - 1) as nat);
    }
}

proof fn lemma_each(moves: Seq<(nat, Move)>, threads: nat, times: nat)
    requires
        forall|t: nat| t < threads ==> #[trigger] leaves_of(moves, t) == times,
    ensures
        leaves_below(moves, threads) == threads * times,
    decreases threads,
{
    if threads > 0 {
        lemma_each(moves, (threads - 1) as nat, times);
        vstd::arithmetic::mul::lemma_mul_is_distributive_add_other_way(
            times as int,
            threads - 1,
            1,
        );
    }
    vstd::arithmetic::mul::lemma_mul_basics(times as int);
}

/// Whatever the schedule, no two guards are out at once, and the value counts
/// the times the lock was given up: it is in the mutex, or with the one guard
/// that is out.
pub proof fn every_turn_counts(
    states: Seq<MutexView<usize>>,
    held: Seq<Option<usize>>,
    moves: Seq<(nat, Move)>,
)
    requires
        states.len() == moves.len() + 1,
        held.len() == moves.len() + 1,
        forall|i: int| 0 <= i < states.len() ==> (#[trigger] states[i]).ok(),
        states[0].data is Some,
        held[0] is None,
        forall|i: int|
            0 <= i < moves.len() ==> states[i].moved(
                (#[trigger] moves[i]).1,
                held[i],
                states[i + 1],
                held[i + 1],
            ),
    ensures
        (held.last() is Some) == (states.last().owner is Guard),
        enters(moves) == leaves(moves) + if held.last() is Some {
            1nat
        } else {
            0
        },
        match held.last() {
            Some(x) => x == states[0].data->0 + leaves(moves),
            None => states.last().data is Some && states.last().data->0 == states[0].data->0
                + leaves(moves),
        },
    decreases moves.len(),
{
    if moves.len() > 0 {
        let k = moves.len() - 1;
        let earlier = states.drop_last();
        let before = held.drop_last();
        let fewer = moves.drop_last();
        assert forall|i: int| 0 <= i < earlier.len() implies (#[trigger] earlier[i]).ok() by {
            assert(earlier[i] == states[i]);
        }
        assert forall|i: int| 0 <= i < fewer.len() implies earlier[i].moved(
            (#[trigger] fewer[i]).1,
            before[i],
            earlier[i + 1],
            before[i + 1],
        ) by {
            assert(fewer[i] == moves[i]);
        }
        every_turn_counts(earlier, before, fewer);
        assert(states[k].ok() && states[k + 1].ok());
        assert(states[k].moved(moves[k].1, held[k], states[k + 1], held[k + 1]));
        assert(earlier.last() == states[k] && before.last() == held[k]);
    }
}

/// Many threads that each lock, add one and unlock `times` times: when all are
/// done, the value has grown by one for every time of every thread.
pub proof fn nothing_is_lost(
    states: Seq<MutexView<usize>>,
    held: Seq<Option<usize>>,
    moves: Seq<(nat, Move)>,
    threads: nat,
    times: nat,
)
    requires
        states.len() == moves.len() + 1,
        held.len() == moves.len() + 1,
        forall|i: int| 0 <= i < states.len() ==> (#[trigger] states[i]).ok(),
        states[0].data is Some,
        held[0] is None,
        forall|i: int|
            0 <= i < moves.len() ==> states[i].moved(
                (#[trigger] moves[i]).1,
                held[i],
                states[i + 1],
                held[i + 1],
            ),
        forall|i: int| 0 <= i < moves.len() ==> (#[trigger] moves[i]).0 < threads,
        forall|t: nat| t < threads ==> #[trigger] leaves_of(moves, t) == times,
        held.last() is None,
    ensures
        states.last().data is Some,
        states.last().data->0 == states[0].data->0 + threads * times,
        enters(moves) == threads * times,
{
    every_turn_counts(states, held, moves);
    lemma_everybody(moves, threads);
    lemma_each(moves, threads, times);
}

} // verus!
