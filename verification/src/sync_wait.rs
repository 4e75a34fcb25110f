//! How a thread waits for the signal on its own node.
//!
//! A thread that is first in line spins for a while, because its turn often
//! comes within a few hundred cycles. Then it announces that it is about to
//! park, and parks until the signal is there; it may wake up for no reason and
//! then parks again.
use vstd::prelude::*;

use crate::backoff::{pause_after, Backoff, Pause};
use crate::signal::{SignalView, SIGNAL_INIT_WAITING, SIGNAL_SIGNALED};
use crate::wait_queue::{WaitQueue, WaitQueueView};

verus! {

/// How far a waiting thread is.
#[derive(Clone, Copy, Debug, PartialEq, Eq, Structural)]
pub enum Stage {
    /// Spinning before the first park.
    Spinning,
    /// About to park for the first time.
    Arming,
    /// Has announced that it parks.
    Parked,
}

/// What a waiting thread does next.
#[derive(Clone, Copy, Debug, PartialEq, Eq, Structural)]
pub enum SyncStep {
    /// The signal is there, with this value.
    Signaled(usize),
    /// Pause, and look again.
    Pause(Pause),
    /// Park, and look again.
    Park,
}

/// A thread that waits for the signal on node `entry`.
#[derive(Debug)]
pub struct SyncWaiter {
    entry: usize,
    stage: Stage,
    backoff: Backoff,
}

/// The state of a waiting thread.
pub struct SyncWaiterView {
    pub entry: usize,
    pub stage: Stage,
    pub spins: u32,
}

impl View for SyncWaiter {
    type V = SyncWaiterView;

    closed spec fn view(&self) -> SyncWaiterView {
        SyncWaiterView { entry: self.entry, stage: self.stage, spins: self.backoff@ }
    }
}

impl SyncWaiterView {
    /// What the thread does next, if its node holds `value`.
    pub open spec fn step(self, value: usize) -> SyncStep {
        if value >= SIGNAL_SIGNALED {
            SyncStep::Signaled(value)
        } else if self.stage is Spinning && self.spins <= 32 {
            SyncStep::Pause(pause_after(self.spins))
        } else {
            SyncStep::Park
        }
    }

    /// Its state after that.
    pub open spec fn after_step(self, value: usize) -> SyncWaiterView {
        match self.step(value) {
            SyncStep::Signaled(_) => self,
            SyncStep::Pause(_) => SyncWaiterView { spins: (self.spins + 1) as u32, ..self },
            SyncStep::Park => SyncWaiterView { stage: Stage::Parked, ..self },
        }
    }

    /// The thread is about to park for the first time.
    pub open spec fn announces(self, value: usize) -> bool {
        self.step(value) is Park && !(self.stage is Parked)
    }

    /// The node's value after that: a thread announces its first park.
    pub open spec fn value_after(self, value: usize) -> usize {
        if self.announces(value) {
            SIGNAL_INIT_WAITING
        } else {
            value
        }
    }
}

impl SyncWaiter {
    /// A thread that starts to wait; `first` says whether it spins first.
    pub fn new(entry: usize, first: bool) -> (r: Self)
        ensures
            r@ == (SyncWaiterView {
                entry,
                stage: if first {
                    Stage::Spinning
                } else {
                    Stage::Arming
                },
                spins: 0,
            }),
    {
        SyncWaiter {
            entry,
            stage: if first {
                Stage::Spinning
            } else {
                Stage::Arming
            },
            backoff: Backoff::new(),
        }
    }

    /// The node the thread waits on.
    pub fn entry(&self) -> (r: usize)
        ensures
            r == self@.entry,
    {
        self.entry
    }

    /// One look at the node, which holds `value`. Returns what to do next, and
    /// whether the thread has to announce its first park on the node.
    pub fn look(&mut self, value: usize) -> (r: (SyncStep, bool))
        ensures
            r.0 == old(self)@.step(value),
            r.1 == old(self)@.announces(value),
            final(self)@ == old(self)@.after_step(value),
    {
        if value >= SIGNAL_SIGNALED {
            return (SyncStep::Signaled(value), false);
        }
        if self.stage == Stage::Spinning && !self.backoff.is_completed() {
            return (SyncStep::Pause(self.backoff.snooze()), false);
        }
        let announce = self.stage != Stage::Parked;
        self.stage = Stage::Parked;
        (SyncStep::Park, announce)
    }

    /// One look at the node.
    pub fn step(&mut self, queue: &mut WaitQueue) -> (r: SyncStep)
        requires
            old(queue).wf(),
            old(queue)@.waiters.live(old(self)@.entry),
        ensures
            final(queue).wf(),
            final(queue).structure() == old(queue).structure(),
            r == old(self)@.step(old(queue)@.waiters.nodes[old(self)@.entry as int].value),
            final(self)@ == old(self)@.after_step(
                old(queue)@.waiters.nodes[old(self)@.entry as int].value,
            ),
            final(queue)@ == after_sync_step(old(queue)@, old(self)@),
    {
        let value: usize = queue.value(self.entry);
        let (step, announce) = self.look(value);
        if announce {
            queue.set_value(self.entry, SIGNAL_INIT_WAITING);
        }
        assert(queue@ =~= after_sync_step(old(queue)@, old(self)@));
        step
    }
}

/// The queue after a waiting thread looked at its node.
pub open spec fn after_sync_step(queue: WaitQueueView, waiter: SyncWaiterView) -> WaitQueueView {
    let node = queue.waiters.nodes[waiter.entry as int];
    queue.with(
        queue.waiters.with_node(
            waiter.entry,
            SignalView { value: waiter.value_after(node.value), ..node },
        ),
    )
}

} // verus!
