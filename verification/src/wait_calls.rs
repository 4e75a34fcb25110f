//! How a thread waits, seen from outside: how long it spins, when it parks, and
//! how its pauses grow.
use vstd::prelude::*;

use crate::backoff::{get_parallelism, pause_after, Backoff, Pause};
use crate::lines::wrote;
use crate::signal::{SIGNAL_INIT_WAITING, SIGNAL_SIGNALED};
use crate::sync_wait::{Stage, SyncStep, SyncWaiter, SyncWaiterView};
use crate::wait_queue::WaitQueue;

verus! {

/// A thread that has just begun to wait. One that is first in line may spin before it
/// parks.
pub open spec fn begins(waiter: SyncWaiterView, spins: bool) -> bool {
    &&& waiter.spins == 0
    &&& waiter.stage == if spins {
        Stage::Spinning
    } else {
        Stage::Arming
    }
}

/// What a look that found no answer makes of the thread: it pauses while it still spins,
/// a bounded number of times, and parks otherwise.
pub open spec fn looks(before: SyncWaiterView, step: SyncStep, after: SyncWaiterView) -> bool {
    &&& after.entry == before.entry
    &&& match step {
        SyncStep::Pause(pause) => {
            &&& before.stage is Spinning && after.stage is Spinning
            &&& before.spins <= 32
            &&& after.spins == before.spins + 1
            &&& pause == pause_after(before.spins)
        },
        SyncStep::Park => {
            &&& before.stage is Spinning ==> before.spins > 32
            &&& after.stage is Parked
            &&& after.spins == before.spins
        },
        SyncStep::Signaled(_) => false,
    }
}

/// `Backoff::new` and `snooze`: the first pause is a single round of the spin hint.
pub proof fn first_pause(b: Backoff, b1: &mut Backoff, r: Pause, done: bool)
    requires
        call_ensures(Backoff::new, (), b),
        *b1 == b,
        call_ensures(Backoff::snooze, (b1,), r),
        call_ensures(Backoff::is_completed, (&b,), done),
    ensures
        r == Pause::Spin(1),
        final(b1)@ == 1,
        !done,
{
    reveal_with_fuel(crate::backoff::doublings, 7);
}

/// `Backoff::snooze`: a pause is as long as the one before, or twice as long, up to a
/// limit; then the thread yields, and from then on always.
pub proof fn next_pause(b: &mut Backoff, r: Pause, b1: &mut Backoff, r1: Pause)
    requires
        call_ensures(Backoff::snooze, (b,), r),
        *b1 == *final(b),
        call_ensures(Backoff::snooze, (b1,), r1),
    ensures
        match (r, r1) {
            (Pause::Spin(n), Pause::Spin(n1)) => if n < 32 {
                n1 == 2 * n
            } else {
                n == 32 && n1 == 32
            },
            (Pause::Spin(n), Pause::Yield) => n == 32,
            (Pause::Yield, Pause::Spin(_)) => false,
            (Pause::Yield, Pause::Yield) => true,
        },
        (r is Spin) == (old(b)@ < 7),
{
    reveal_with_fuel(crate::backoff::doublings, 7);
}

/// `Backoff::snooze` and `is_completed`: every pause is counted, and after more than
/// thirty-two of them the loop has spun for long enough, for good.
pub proof fn counted(b: &mut Backoff, r: Pause, done: bool, done_after: bool)
    requires
        call_ensures(Backoff::snooze, (b,), r),
        call_ensures(Backoff::is_completed, (&*old(b),), done),
        call_ensures(Backoff::is_completed, (&*final(b),), done_after),
    ensures
        old(b)@ < u32::MAX ==> final(b)@ == old(b)@ + 1,
        done == (old(b)@ >= 33),
        done ==> done_after,
        done_after == (old(b)@ >= 32),
{
}

/// `Pause::on`: nobody spins on a single processor; with more of them the pause is what
/// it is.
pub proof fn on(pause: Pause, parallelism: usize, r: Pause)
    requires
        call_ensures(Pause::on, (pause, parallelism), r),
    ensures
        parallelism <= 1 ==> r is Yield,
        parallelism > 1 ==> r == pause,
        pause is Yield ==> r is Yield,
{
}

/// `get_parallelism`: the answer is kept, whatever the system says later.
pub proof fn looked_up_once(
    slot: &mut usize,
    available: Option<usize>,
    r: usize,
    slot1: &mut usize,
    later: Option<usize>,
    r1: usize,
)
    requires
        *slot == 0,
        call_ensures(get_parallelism, (slot, available), r),
        r != 0,
        *slot1 == *final(slot),
        call_ensures(get_parallelism, (slot1, later), r1),
    ensures
        available matches Some(n) ==> r == n,
        available is None ==> r == 1,
        r1 == r,
        *final(slot1) == r,
{
}

/// `SyncWaiter::new` and `entry`: see [`begins`].
pub proof fn new_waiter(entry: usize, first: bool, r: SyncWaiter, at: usize)
    requires
        call_ensures(SyncWaiter::new, (entry, first), r),
        call_ensures(SyncWaiter::entry, (&r,), at),
    ensures
        at == entry,
        r@.entry == entry,
        begins(r@, first),
{
}

/// `SyncWaiter::look`: an answer ends the wait; see [`looks`] for the rest. The thread
/// announces itself before it parks for the first time, and only then.
pub proof fn look(waiter: &mut SyncWaiter, value: usize, r: (SyncStep, bool))
    requires
        call_ensures(SyncWaiter::look, (waiter, value), r),
    ensures
        if value >= SIGNAL_SIGNALED {
            r.0 == SyncStep::Signaled(value) && !r.1 && final(waiter)@ == old(waiter)@
        } else {
            looks(old(waiter)@, r.0, final(waiter)@)
        },
        r.1 == (r.0 is Park && !(old(waiter)@.stage is Parked)),
{
}

/// `SyncWaiter::step`: an answer ends the wait and is handed out as it is; a thread that
/// parks has announced that on its node; nothing else is written.
pub proof fn step(waiter: &mut SyncWaiter, queue: &mut WaitQueue, r: SyncStep)
    requires
        queue.wf(),
        queue@.waiters.live(waiter@.entry),
        waiter@.stage is Parked ==> queue@.waiters.nodes[waiter@.entry as int].value
            >= SIGNAL_INIT_WAITING,
        call_ensures(SyncWaiter::step, (waiter, queue), r),
    ensures
        final(queue)@.door == old(queue)@.door,
        match r {
            SyncStep::Signaled(value) => {
                &&& value == old(queue)@.waiters.nodes[old(waiter)@.entry as int].value
                &&& value >= SIGNAL_SIGNALED
                &&& final(waiter)@ == old(waiter)@
                &&& final(queue)@.waiters == old(queue)@.waiters
            },
            SyncStep::Pause(_) => {
                &&& looks(old(waiter)@, r, final(waiter)@)
                &&& final(queue)@.waiters == old(queue)@.waiters
            },
            SyncStep::Park => {
                &&& looks(old(waiter)@, r, final(waiter)@)
                &&& wrote(
                    old(queue)@.waiters,
                    final(queue)@.waiters,
                    old(waiter)@.entry,
                    SIGNAL_INIT_WAITING,
                    old(queue)@.waiters.nodes[old(waiter)@.entry as int].waker,
                )
            },
        },
{
    let w = queue@.waiters;
    if !(r is Park) {
        assert(final(queue)@.waiters.nodes =~= w.nodes);
    }
}

} // verus!
