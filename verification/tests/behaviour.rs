//! What the primitives promise, on examples, down to the parts they are made
//! of.
use xutex::backoff::{get_parallelism, Backoff, Pause};
use xutex::barrier_ops::{BarrierStep, BarrierWait};
use xutex::mutex_ops::{Lock, LockStep};
use xutex::notify_ops::Wait;
use xutex::once_ops::{GetOrInit, OnceStep, Step};
use xutex::pool::{QueuePool, QueueStructure};
use xutex::queue_word::{decode, tag_pointer, untag_pointer, Word};
use xutex::reentrant::{Bump, ReentrantLock, ReentrantStep};
use xutex::rwlock_core::{Enter, EnterStep};
use xutex::sem_core::SemCore;
use xutex::semaphore::{AcquireProgress, AcquireStart};
use xutex::signal::{Poll, Wake, Withdrawn, SIGNAL_ALL, SIGNAL_SIGNALED};
use xutex::signal_queue::{Node, SignalQueue};
use xutex::sync_wait::{SyncStep, SyncWaiter};
use xutex::wait_queue::{LockAttempt, PoppedChain, WaitQueue};
use xutex::{
    barrier_word, notify_core, AcquireError, AsyncBarrier, AsyncMutex, AsyncNotify, AsyncOnceCell,
    AsyncRwLock, AsyncSemaphore, Barrier, Mutex, Notify, OnceCell, ReentrantMutex, RwLock,
    Semaphore, SetError, TryAcquireError,
};

struct TestNode {
    next: Option<usize>,
    value: u32,
}

impl Node for TestNode {
    type Rest = u32;

    fn link(&self) -> Option<usize> {
        self.next
    }

    fn rest(&self) -> u32 {
        self.value
    }

    fn get_next(&self) -> Option<usize> {
        self.next
    }

    fn set_next(&mut self, next: Option<usize>) {
        self.next = next;
    }
}

fn node(value: u32) -> TestNode {
    TestNode { next: None, value }
}

fn value_of(nodes: &[TestNode], id: Option<usize>) -> u32 {
    nodes[id.unwrap()].value
}

fn done(withdrawn: Withdrawn) -> Vec<Wake> {
    match withdrawn {
        Withdrawn::Done(wakes) => wakes,
        Withdrawn::InFlight => panic!("no signal is on its way"),
    }
}

#[test]
fn queue_fifo_and_remove() {
    let mut nodes = vec![node(1), node(2), node(3)];
    let (a, b, c) = (0, 1, 2);
    let mut q = SignalQueue::new();
    assert!(q.is_empty(&nodes));
    assert!(q.push(&mut nodes, a));
    assert!(!q.push(&mut nodes, b));
    assert!(!q.push(&mut nodes, c));
    assert_eq!(value_of(&nodes, q.first(&nodes)), 1);
    assert!(q.remove(&mut nodes, b));
    assert!(!q.remove(&mut nodes, b));
    let first = q.pop(&nodes);
    assert_eq!(value_of(&nodes, first), 1);
    let second = q.pop(&nodes);
    assert_eq!(value_of(&nodes, second), 3);
    assert!(q.pop(&nodes).is_none());
    assert!(q.is_empty(&nodes));
}

#[test]
fn allocate_recycle_roundtrip() {
    let mut pool = QueuePool::new(1);
    let mut q = pool.allocate_queue();
    let mut nodes = vec![node(7)];
    // The queue must arrive empty and be usable immediately.
    let queue = q.with_mut();
    assert!(queue.is_empty(&nodes));
    queue.push(&mut nodes, 0);
    let popped = queue.pop(&nodes);
    assert_eq!(value_of(&nodes, popped), 7);
    pool.deallocate_queue(q);
}

#[test]
fn overflow_allocates_and_frees() {
    // Drain past the pool capacity to make new structures, then return
    // everything, so that a full pool frees some.
    let mut pool = QueuePool::new(1);
    let queues: Vec<QueueStructure> = (0..256).map(|_| pool.allocate_queue()).collect();
    for i in 0..256 {
        for j in 0..i {
            assert_ne!(queues[i].at(), queues[j].at());
        }
    }
    for queue in queues {
        pool.deallocate_queue(queue);
    }
    // Only sixteen were kept.
    let again: Vec<usize> = (0..17).map(|_| pool.allocate_queue().at()).collect();
    assert_eq!(again[15], 32);
    assert_eq!(again[16], 514);
}

#[test]
fn pool_hands_out_what_came_back_first() {
    let mut pool = QueuePool::new(1);
    // Sixteen structures per processor, in order.
    let mut out: Vec<QueueStructure> = (0..16).map(|_| pool.allocate_queue()).collect();
    assert_eq!(out[0].at(), 2);
    assert_eq!(out[15].at(), 32);
    // The pool is empty: the next one is new.
    assert_eq!(pool.allocate_queue().at(), 34);
    pool.deallocate_queue(out.remove(5));
    pool.deallocate_queue(out.remove(3));
    assert_eq!(pool.allocate_queue().at(), 12);
    assert_eq!(pool.allocate_queue().at(), 8);
    // Never more than 128, however many processors there are.
    let mut big = QueuePool::new(64);
    let last = (0..128).map(|_| big.allocate_queue().at()).last();
    assert_eq!(last, Some(256));
}

#[test]
fn primitives_share_one_pool() {
    let mut pool = QueuePool::new(1);
    let mut mutex = Mutex::new(1);
    let mut sem = Semaphore::new(0);
    let guard = mutex.try_lock().unwrap();
    // Without contention nobody takes a structure.
    let first = pool.allocate_queue();
    assert_eq!(first.at(), 2);
    // Each that has somebody waiting has one of its own.
    let mut waiter = match mutex.lock(1, &mut pool) {
        Lock::Wait(waiter) => waiter,
        Lock::Ready(_) => panic!("the lock is taken"),
    };
    let mut wait = match sem.acquire(2, &mut pool) {
        AcquireStart::Wait(wait) => wait,
        AcquireStart::Ready(_) => panic!("no permits"),
    };
    let fourth = pool.allocate_queue();
    assert_eq!(fourth.at(), 8);
    for _ in 4..16 {
        pool.allocate_queue();
    }
    // The semaphore's comes back when its line is empty, the mutex's when the
    // last owner unlocks, and they are handed out in that order.
    sem.add_permits(1, &mut pool);
    assert!(matches!(
        sem.wait_step(&mut wait, &mut pool),
        AcquireProgress::Done(Ok(_), _)
    ));
    mutex.unlock(guard, &mut pool);
    let guard = match mutex.wait_step(&mut waiter) {
        LockStep::Done(guard) => guard,
        LockStep::Again(_) => panic!("the lock was handed over"),
    };
    mutex.unlock(guard, &mut pool);
    assert_eq!(pool.allocate_queue().at(), 6);
    assert_eq!(pool.allocate_queue().at(), 4);
    assert_eq!(pool.allocate_queue().at(), 34);
}

#[test]
fn pointer_words() {
    assert_eq!(tag_pointer(64), 65);
    assert_eq!(untag_pointer(65), (64, true));
    assert_eq!(untag_pointer(64), (64, false));
    assert_eq!(decode(0), Word::Unlocked);
    assert_eq!(decode(usize::MAX), Word::Locked);
    assert_eq!(decode(usize::MAX - 1), Word::Updating);
    assert_eq!(decode(64), Word::Queue);
    assert_eq!(decode(65), Word::Tagged);
}

#[test]
fn backoff_doubles_and_then_yields() {
    let mut backoff = Backoff::new();
    let steps: Vec<Pause> = (0..9).map(|_| backoff.snooze()).collect();
    assert_eq!(
        steps,
        vec![
            Pause::Spin(1),
            Pause::Spin(2),
            Pause::Spin(4),
            Pause::Spin(8),
            Pause::Spin(16),
            Pause::Spin(32),
            Pause::Spin(32),
            Pause::Yield,
            Pause::Yield,
        ]
    );
    // On a single processor spinning makes no sense.
    assert_eq!(Pause::Spin(4).on(1), Pause::Yield);
    assert_eq!(Pause::Spin(4).on(2), Pause::Spin(4));
    assert!(!backoff.is_completed());
    for _ in 9..33 {
        backoff.snooze();
    }
    assert!(backoff.is_completed());
}

#[test]
fn parallelism_is_looked_up_once() {
    let mut slot = 0;
    assert_eq!(get_parallelism(&mut slot, Some(8)), 8);
    assert_eq!(get_parallelism(&mut slot, Some(4)), 8);
    let mut unknown = 0;
    assert_eq!(get_parallelism(&mut unknown, None), 1);
}

#[test]
fn one_thread_at_a_time_has_the_queue() {
    let mut pool = QueuePool::new(1);
    let mut queue = WaitQueue::new();
    assert!(queue.is_absent());
    assert_eq!(queue.lock(false, &mut pool), LockAttempt::Absent);
    assert_eq!(queue.lock(true, &mut pool), LockAttempt::Held);
    assert_eq!(queue.lock(true, &mut pool), LockAttempt::Busy);
    let a = queue.add_none();
    let b = queue.add_none();
    queue.register(a, 5);
    queue.register(b, 6);
    queue.push(a);
    queue.push(b);
    assert!(!queue.unlock(&mut pool));
    assert_eq!(queue.lock(false, &mut pool), LockAttempt::Held);
    assert_eq!(queue.lock(false, &mut pool), LockAttempt::Busy);
    let mut chain = PoppedChain::new();
    chain.append(queue.pop().unwrap());
    chain.append(queue.pop().unwrap());
    assert_eq!(chain.len(), 2);
    assert!(queue.unlock(&mut pool));
    let wakes = chain.signal_all(&mut queue, SIGNAL_ALL);
    assert_eq!(wakes, vec![Wake::Task(5), Wake::Task(6)]);
    assert_eq!(queue.value(a), SIGNAL_ALL);
    // The signal is there: there is nothing to re-arm.
    assert_eq!(queue.rearm(a, 9), Poll::Ready(SIGNAL_ALL));
}

#[test]
fn a_first_waiter_spins_and_then_parks() {
    let mut pool = QueuePool::new(1);
    let mut queue = WaitQueue::new();
    queue.lock(true, &mut pool);
    let id = queue.add_sync(3);
    queue.push(id);
    queue.unlock(&mut pool);
    let mut waiter = SyncWaiter::new(id, true);
    for _ in 0..33 {
        assert!(matches!(waiter.step(&mut queue), SyncStep::Pause(_)));
    }
    assert_eq!(waiter.step(&mut queue), SyncStep::Park);
    // It wakes up for no reason, and parks again.
    assert_eq!(waiter.step(&mut queue), SyncStep::Park);
    queue.lock(false, &mut pool);
    let popped = queue.pop().unwrap();
    queue.unlock(&mut pool);
    assert_eq!(queue.signal(popped, SIGNAL_SIGNALED), Wake::Unpark(3));
    assert_eq!(
        waiter.step(&mut queue),
        SyncStep::Signaled(SIGNAL_SIGNALED)
    );
}

#[test]
fn a_spinning_waiter_is_not_unparked() {
    let mut pool = QueuePool::new(1);
    let mut queue = WaitQueue::new();
    queue.lock(true, &mut pool);
    let id = queue.add_sync(3);
    queue.push(id);
    let popped = queue.pop().unwrap();
    queue.unlock(&mut pool);
    assert_eq!(queue.signal(popped, SIGNAL_SIGNALED), Wake::Nobody);
}

#[test]
fn mutex_goes_down_the_line() {
    let mut pool = QueuePool::new(1);
    let mut mutex = Mutex::new(String::from("a"));
    let mut guard = mutex.try_lock().unwrap();
    let mut first = match mutex.lock(1, &mut pool) {
        Lock::Wait(waiter) => waiter,
        Lock::Ready(_) => panic!("the lock is taken"),
    };
    let second = mutex.lock_async();
    assert!(mutex.poll(&second, 2, &mut pool).is_pending());
    assert!(mutex.has_waiters());
    guard.deref_mut().push('b');
    // The first has not parked yet, so nobody has to be unparked.
    assert_eq!(mutex.unlock(guard, &mut pool), vec![Wake::Nobody]);
    // Nobody overtakes it.
    assert!(mutex.try_lock().is_none());
    assert!(mutex.poll(&second, 2, &mut pool).is_pending());
    let guard = match mutex.wait_step(&mut first) {
        LockStep::Done(guard) => guard,
        LockStep::Again(_) => panic!("the lock was handed over"),
    };
    assert_eq!(*guard, "ab");
    assert_eq!(mutex.unlock(guard, &mut pool), vec![Wake::Task(2)]);
    assert!(mutex.poll(&second, 2, &mut pool).is_ready());
}

#[test]
fn a_dropped_lock_request_leaves_the_line() {
    let mut pool = QueuePool::new(1);
    let mut mutex = AsyncMutex::new(1);
    let guard = mutex.try_lock().unwrap();
    let a = mutex.lock();
    let b = mutex.lock();
    assert!(mutex.poll(&a, 1, &mut pool).is_pending());
    assert!(mutex.poll(&b, 2, &mut pool).is_pending());
    assert_eq!(done(mutex.drop_request(&a, &mut pool)), vec![]);
    assert_eq!(mutex.unlock(guard, &mut pool), vec![Wake::Task(2)]);
    // The lock is with the second, which is dropped: it must not stay there.
    assert_eq!(done(mutex.drop_request(&b, &mut pool)), vec![]);
    assert_eq!(*mutex.try_lock().unwrap(), 1);
}

#[test]
fn a_dropped_owner_hands_the_lock_on() {
    let mut pool = QueuePool::new(1);
    let mut mutex = AsyncMutex::new(1);
    let guard = mutex.try_lock().unwrap();
    let a = mutex.lock();
    let b = mutex.lock();
    assert!(mutex.poll(&a, 1, &mut pool).is_pending());
    assert!(mutex.poll(&b, 2, &mut pool).is_pending());
    assert_eq!(mutex.unlock(guard, &mut pool), vec![Wake::Task(1)]);
    assert_eq!(done(mutex.drop_request(&a, &mut pool)), vec![Wake::Task(2)]);
    assert!(mutex.poll(&b, 2, &mut pool).is_ready());
}

#[test]
fn a_request_that_was_never_polled_is_just_dropped() {
    let mut pool = QueuePool::new(1);
    let mut mutex = AsyncMutex::new(1);
    let a = mutex.lock();
    assert_eq!(done(mutex.drop_request(&a, &mut pool)), vec![]);
    let b = mutex.lock();
    assert!(mutex.poll(&b, 1, &mut pool).is_ready());
    assert_eq!(done(mutex.drop_request(&b, &mut pool)), vec![]);
    assert!(mutex.try_lock().is_none());
}

#[test]
fn permits_are_assigned_in_parts() {
    let mut pool = QueuePool::new(1);
    let mut sem = AsyncSemaphore::new(0);
    let big = sem.acquire_many(3);
    let small = sem.acquire();
    assert!(sem.poll(&big, 1, &mut pool).0.is_pending());
    assert!(sem.poll(&small, 2, &mut pool).0.is_pending());
    assert_eq!(sem.add_permits(2, &mut pool), vec![]);
    // They are assigned to the first in line, not in the pool.
    assert_eq!(sem.available_permits(), 0);
    assert_eq!(sem.add_permits(3, &mut pool), vec![Wake::Task(1), Wake::Task(2)]);
    assert_eq!(sem.available_permits(), 1);
    match sem.poll(&big, 1, &mut pool).0 {
        Poll::Ready(Ok(p)) => assert_eq!(p.num_permits(), 3),
        _ => panic!("served in full"),
    }
}

#[test]
fn a_dropped_request_gives_its_part_back() {
    let mut pool = QueuePool::new(1);
    let mut sem = AsyncSemaphore::new(0);
    let big = sem.acquire_many(3);
    let small = sem.acquire();
    sem.poll(&big, 1, &mut pool);
    sem.poll(&small, 2, &mut pool);
    sem.add_permits(2, &mut pool);
    assert_eq!(done(sem.drop_request(&big, &mut pool)), vec![Wake::Task(2)]);
    assert_eq!(sem.available_permits(), 1);
}

#[test]
fn a_granted_request_that_is_dropped_gives_back() {
    let mut pool = QueuePool::new(1);
    let mut sem = AsyncSemaphore::new(0);
    let a = sem.acquire_many(2);
    sem.poll(&a, 1, &mut pool);
    assert_eq!(sem.add_permits(2, &mut pool), vec![Wake::Task(1)]);
    assert_eq!(sem.available_permits(), 0);
    assert_eq!(done(sem.drop_request(&a, &mut pool)), vec![]);
    assert_eq!(sem.available_permits(), 2);
}

#[test]
fn closing_fails_everybody() {
    let mut pool = QueuePool::new(1);
    let mut sem = AsyncSemaphore::new(0);
    let big = sem.acquire_many(3);
    let small = sem.acquire();
    sem.poll(&big, 1, &mut pool);
    sem.poll(&small, 2, &mut pool);
    sem.add_permits(2, &mut pool);
    assert_eq!(sem.close(&mut pool), vec![Wake::Task(1), Wake::Task(2)]);
    assert!(sem.is_closed());
    assert_eq!(sem.close(&mut pool), vec![]);
    // What was assigned before the closing comes back.
    match sem.poll(&big, 1, &mut pool).0 {
        Poll::Ready(Err(e)) => {
            assert_eq!(e, AcquireError::new());
            assert_eq!(e.message(), "semaphore closed");
        }
        _ => panic!("closed"),
    }
    assert_eq!(sem.available_permits(), 2);
    assert!(matches!(
        sem.poll(&small, 2, &mut pool).0,
        Poll::Ready(Err(AcquireError { .. }))
    ));
    assert!(matches!(sem.try_acquire(), Err(TryAcquireError::Closed)));
    assert!(matches!(
        sem.acquire_sync(0, &mut pool),
        AcquireStart::Ready(Err(AcquireError { .. }))
    ));
    let late = sem.acquire();
    assert!(matches!(
        sem.poll(&late, 3, &mut pool).0,
        Poll::Ready(Err(AcquireError { .. }))
    ));
}

#[test]
fn a_thread_waits_for_permits() {
    let mut pool = QueuePool::new(1);
    let mut sem = Semaphore::new(1);
    let held = sem.try_acquire().ok().unwrap();
    let mut wait = match sem.acquire_many(2, 7, &mut pool) {
        AcquireStart::Wait(wait) => wait,
        AcquireStart::Ready(_) => panic!("too few permits"),
    };
    for _ in 0..33 {
        assert!(matches!(
            sem.wait_step(&mut wait, &mut pool),
            AcquireProgress::Again(SyncStep::Pause(_))
        ));
    }
    assert!(matches!(
        sem.wait_step(&mut wait, &mut pool),
        AcquireProgress::Again(SyncStep::Park)
    ));
    assert_eq!(sem.release(held, &mut pool), vec![]);
    assert_eq!(sem.add_permits(1, &mut pool), vec![Wake::Unpark(7)]);
    match sem.wait_step(&mut wait, &mut pool) {
        AcquireProgress::Done(Ok(p), wakes) => {
            assert_eq!(p.num_permits(), 2);
            assert_eq!(wakes, vec![]);
        }
        _ => panic!("served"),
    }
}

#[test]
fn a_waiting_thread_is_failed_by_the_closing() {
    let mut pool = QueuePool::new(1);
    let mut sem = Semaphore::new(0);
    let mut wait = match sem.acquire_many(2, 7, &mut pool) {
        AcquireStart::Wait(wait) => wait,
        AcquireStart::Ready(_) => panic!("too few permits"),
    };
    sem.add_permits(1, &mut pool);
    assert_eq!(sem.close(&mut pool), vec![Wake::Nobody]);
    assert!(matches!(
        sem.wait_step(&mut wait, &mut pool),
        AcquireProgress::Done(Err(AcquireError { .. }), _)
    ));
    assert_eq!(sem.available_permits(), 1);
}

#[test]
fn errors_have_messages() {
    assert_eq!(TryAcquireError::Closed.message(), "semaphore closed");
    assert_eq!(TryAcquireError::NoPermits.message(), "no permits available");
    let already = SetError::AlreadyInitializedError(1);
    assert_eq!(already.message(), "cell already initialized");
    assert_eq!(already.into_inner(), 1);
    let running = SetError::InitializingError(2);
    assert_eq!(running.message(), "cell is being initialized");
    assert_eq!(running.into_inner(), 2);
}

#[test]
fn semaphore_limits() {
    assert_eq!(Semaphore::MAX_PERMITS, usize::MAX >> 3);
    assert_eq!(AsyncSemaphore::MAX_PERMITS, usize::MAX >> 3);
    let sem = Semaphore::new(Semaphore::MAX_PERMITS);
    assert_eq!(sem.available_permits(), usize::MAX >> 3);
}

#[test]
fn turns_of_two_threads_alternate() {
    let mut pool = QueuePool::new(1);
    // One thread queues a waiter while another releases a permit: the flag is
    // set before the permit comes, so the releasing thread has to look.
    let mut sem = SemCore::new(0);
    let entry = sem.prepare_sync(1, 7);
    assert_eq!(sem.begin_enqueue(&mut pool), LockAttempt::Held);
    let cur = sem.mark();
    assert!(sem.add(1));
    assert_eq!(sem.begin_drain(), LockAttempt::Busy);
    sem.attempt(cur, 1);
    sem.push_entry(entry);
    sem.end(&mut pool);
    assert_eq!(sem.begin_drain(), LockAttempt::Held);
    let available = sem.take_all();
    assert_eq!(available, 1);
    let (chain, rest) = sem.serve(available);
    assert_eq!(chain.len(), 1);
    assert_eq!(rest, 0);
    sem.give_back(rest);
    sem.end(&mut pool);
    sem.signal_all(chain, SIGNAL_SIGNALED);
    assert_eq!(sem.value(entry), SIGNAL_SIGNALED);
    assert_eq!(sem.available_permits(), 0);
}

#[test]
fn writers_wait_for_readers_and_readers_for_writers() {
    let mut pool = QueuePool::new(1);
    let mut lock = RwLock::with_max_readers(1, 2);
    let a = lock.try_read().unwrap();
    let b = lock.try_read().unwrap();
    // No more than two readers.
    assert!(lock.try_read().is_none());
    let mut writer = match lock.write(1, &mut pool) {
        Enter::Wait(waiter) => waiter,
        Enter::Ready(_) => panic!("there are readers"),
    };
    let mut reader = match lock.read(2, &mut pool) {
        Enter::Wait(waiter) => waiter,
        Enter::Ready(_) => panic!("a writer is ahead"),
    };
    assert_eq!(lock.release_read(a, &mut pool), vec![]);
    assert!(lock.try_read().is_none());
    assert_eq!(lock.release_read(b, &mut pool), vec![Wake::Nobody]);
    let mut guard = match lock.write_step(&mut writer, &mut pool) {
        EnterStep::Done(guard) => guard,
        EnterStep::Again(_) => panic!("granted"),
    };
    *guard.deref_mut() = 2;
    assert!(matches!(lock.read_step(&mut reader, &mut pool), EnterStep::Again(_)));
    assert_eq!(lock.release_write(guard, &mut pool), vec![Wake::Unpark(2)]);
    match lock.read_step(&mut reader, &mut pool) {
        EnterStep::Done(guard) => assert_eq!(*lock.data(&guard), 2),
        EnterStep::Again(_) => panic!("granted"),
    }
}

#[test]
fn a_read_request_is_dropped() {
    let mut pool = QueuePool::new(1);
    let mut lock = AsyncRwLock::new(1);
    let w = lock.try_write().unwrap();
    let r = lock.read();
    assert!(lock.poll_read(&r, 1, &mut pool).is_pending());
    assert_eq!(done(lock.drop_read_request(&r, &mut pool)), vec![]);
    assert_eq!(*w, 1);
    assert_eq!(lock.release_write(w, &mut pool), vec![]);
    assert!(lock.try_write().is_some());
}

#[test]
fn notifications_saturate_at_one() {
    let mut pool = QueuePool::new(1);
    let mut notify = Notify::new();
    notify.notify_one(&mut pool);
    notify.notify_one(&mut pool);
    assert!(matches!(notify.wait(0, &mut pool), Wait::Ready));
    let mut waiter = match notify.wait(4, &mut pool) {
        Wait::Wait(waiter) => waiter,
        Wait::Ready => panic!("used up"),
    };
    assert_eq!(notify.wait_step(&mut waiter), Some(SyncStep::Park));
    assert_eq!(notify.notify_one(&mut pool), vec![Wake::Unpark(4)]);
    assert_eq!(notify.wait_step(&mut waiter), None);
}

#[test]
fn notify_waiters_stores_nothing() {
    let mut pool = QueuePool::new(1);
    let mut notify = AsyncNotify::new();
    let a = notify.notified();
    let b = notify.notified();
    assert!(notify.poll(&a, 1, &mut pool).is_pending());
    assert!(notify.poll(&b, 2, &mut pool).is_pending());
    assert_eq!(
        notify.notify_waiters(&mut pool),
        vec![Wake::Task(1), Wake::Task(2)]
    );
    assert!(notify.poll(&a, 1, &mut pool).is_ready());
    assert!(notify.poll(&b, 2, &mut pool).is_ready());
    let c = notify.notified();
    assert!(notify.poll(&c, 3, &mut pool).is_pending());
    // A wait that is dropped in line is not woken.
    assert_eq!(done(notify.drop_request(&c, &mut pool)), vec![]);
    assert_eq!(notify.notify_waiters(&mut pool), vec![]);
    assert_eq!(Notify::default().notify_waiters(&mut pool), vec![]);
}

#[test]
fn dropped_notification_is_stored_if_nobody_waits() {
    let mut pool = QueuePool::new(1);
    let mut notify = AsyncNotify::new();
    let a = notify.notified();
    assert!(notify.poll(&a, 1, &mut pool).is_pending());
    assert_eq!(notify.notify_one(&mut pool), vec![Wake::Task(1)]);
    assert_eq!(done(notify.drop_request(&a, &mut pool)), vec![]);
    assert!(matches!(notify.wait_sync(0, &mut pool), Wait::Ready));
}

#[test]
fn one_leader_in_every_round() {
    let mut pool = QueuePool::new(1);
    let mut barrier = Barrier::new(3);
    assert_eq!(barrier.parties(), 3);
    for _ in 0..4 {
        let mut waiters = vec![];
        for thread in 0..2 {
            match barrier.wait(thread, &mut pool) {
                BarrierWait::Wait(waiter) => waiters.push(waiter),
                BarrierWait::Ready(_, _) => panic!("the round is not complete"),
            }
        }
        for waiter in &mut waiters {
            assert!(matches!(
                barrier.wait_step(waiter),
                BarrierStep::Again(SyncStep::Park)
            ));
        }
        match barrier.wait(2, &mut pool) {
            BarrierWait::Ready(result, wakes) => {
                assert!(result.is_leader());
                assert_eq!(wakes, vec![Wake::Unpark(0), Wake::Unpark(1)]);
            }
            BarrierWait::Wait(_) => panic!("the round is complete"),
        }
        for waiter in &mut waiters {
            match barrier.wait_step(waiter) {
                BarrierStep::Done(result) => assert!(!result.is_leader()),
                BarrierStep::Again(_) => panic!("released"),
            }
        }
    }
}

#[test]
fn a_barrier_for_nobody_lets_everybody_pass() {
    let mut pool = QueuePool::new(1);
    let mut barrier = AsyncBarrier::new(0);
    assert_eq!(barrier.parties(), 1);
    for _ in 0..3 {
        let w = barrier.wait();
        match barrier.poll(&w, 0, &mut pool).0 {
            Poll::Ready(result) => assert!(result.is_leader()),
            Poll::Pending => panic!("one party is enough"),
        }
    }
}

#[test]
fn a_failed_initializer_is_replaced() {
    let mut pool = QueuePool::new(1);
    let mut cell: AsyncOnceCell<u32> = AsyncOnceCell::new();
    let mut a = cell.get_or_try_init();
    let mut b = cell.get_or_try_init();
    let mut c = cell.get_or_try_init();
    assert_eq!(cell.poll_wait(&mut a, 1, &mut pool), Poll::Ready(Step::Initializing));
    assert!(a.is_initializing());
    assert!(cell.poll_wait(&mut b, 2, &mut pool).is_pending());
    assert!(cell.poll_wait(&mut c, 3, &mut pool).is_pending());
    assert!(matches!(cell.set(9, &mut pool), Err(SetError::InitializingError(9))));
    assert_eq!(cell.fail(&mut a, &mut pool), vec![Wake::Task(2)]);
    // The heir is dropped: the next one is offered the role.
    assert_eq!(done(cell.drop_request(&b, &mut pool)), vec![Wake::Task(3)]);
    assert_eq!(cell.poll_wait(&mut c, 3, &mut pool), Poll::Ready(Step::Initializing));
    let mut d = cell.get_or_try_init();
    assert!(cell.poll_wait(&mut d, 4, &mut pool).is_pending());
    assert_eq!(cell.finish(&mut c, 5, &mut pool), vec![Wake::Task(4)]);
    assert_eq!(cell.poll_wait(&mut d, 4, &mut pool), Poll::Ready(Step::ValueReady));
    assert_eq!(cell.get(), Some(&5));
    assert!(cell.initialized());
}

#[test]
fn a_thread_takes_over_a_failed_initialization() {
    let mut pool = QueuePool::new(1);
    let mut cell: OnceCell<u32> = OnceCell::new();
    assert_eq!(cell.try_begin_init(), Ok(()));
    let (_f, mut waiter) = match cell.get_or_init(|| 1, 6, &mut pool) {
        Err(kept) => kept,
        Ok(_) => panic!("somebody is initializing"),
    };
    assert_eq!(
        cell.wait_step(&mut waiter),
        OnceStep::Again(SyncStep::Park)
    );
    assert_eq!(cell.abort(&mut pool), vec![Wake::Unpark(6)]);
    assert_eq!(
        cell.wait_step(&mut waiter),
        OnceStep::Done(Step::Initializing)
    );
    assert_eq!(cell.complete(1, &mut pool), vec![]);
    assert_eq!(cell.get(), Some(&1));
    let r = cell.get_or_try_init(|| Err::<u32, ()>(()), 6, &mut pool);
    assert!(matches!(r, GetOrInit::Ready(_)));
    assert_eq!(OnceCell::<u32>::default().get(), None);
    assert_eq!(OnceCell::new_with(Some(3)).into_inner(), Some(3));
}

#[test]
fn an_heir_that_comes_too_late_starts_again() {
    let mut pool = QueuePool::new(1);
    let mut cell: OnceCell<u32> = OnceCell::new();
    assert_eq!(cell.try_begin_init(), Ok(()));
    let (_f, mut waiter) = match cell.get_or_init(|| 1, 6, &mut pool) {
        Err(kept) => kept,
        Ok(_) => panic!("somebody is initializing"),
    };
    cell.abort(&mut pool);
    assert_eq!(cell.try_begin_init(), Ok(()));
    assert_eq!(cell.wait_step(&mut waiter), OnceStep::Restart);
}

#[test]
fn the_owner_locks_again() {
    let mut pool = QueuePool::new(1);
    let mut mutex = ReentrantMutex::new(10);
    let first = mutex.try_lock(1).unwrap();
    let second = match mutex.lock(1, 0, &mut pool) {
        ReentrantLock::Ready(guard) => guard,
        ReentrantLock::Wait(_) => panic!("the owner gets in"),
    };
    assert_eq!(mutex.owner(), 1);
    assert!(mutex.try_lock(2).is_none());
    assert_eq!(*mutex.data(&second), 10);
    assert_eq!(mutex.unlock(second, &mut pool), vec![]);
    assert!(mutex.try_lock(2).is_none());
    assert_eq!(mutex.unlock(first, &mut pool), vec![]);
    assert_eq!(mutex.owner(), 0);
    assert!(mutex.try_lock(2).is_some());
}

#[test]
fn the_owner_gives_way() {
    let mut pool = QueuePool::new(1);
    let mut mutex = ReentrantMutex::new(10);
    let guard = mutex.try_lock(1).unwrap();
    // Nobody waits: nothing happens.
    let guard = match mutex.bump(guard, 8, &mut pool) {
        Bump::Kept(guard) => guard,
        Bump::Yielded(_, _) => panic!("nobody waits"),
    };
    let mut request = mutex.lock_async();
    assert!(mutex.poll(&mut request, 2, 5, &mut pool).is_pending());
    assert!(mutex.has_waiters());
    let mut waiter = match mutex.bump(guard, 8, &mut pool) {
        Bump::Yielded(wakes, waiter) => {
            assert_eq!(wakes, vec![Wake::Task(5)]);
            waiter
        }
        Bump::Kept(_) => panic!("somebody waits"),
    };
    let other = match mutex.poll(&mut request, 2, 5, &mut pool) {
        Poll::Ready(guard) => guard,
        Poll::Pending => panic!("the lock was handed over"),
    };
    assert_eq!(mutex.owner(), 2);
    assert!(matches!(
        mutex.lock_step(&mut waiter, 1),
        ReentrantStep::Again(SyncStep::Pause(_))
    ));
    assert_eq!(mutex.unlock(other, &mut pool), vec![Wake::Nobody]);
    assert!(matches!(
        mutex.lock_step(&mut waiter, 1),
        ReentrantStep::Done(_)
    ));
    assert_eq!(mutex.owner(), 1);
}

#[test]
fn a_reentrant_request_is_dropped() {
    let mut pool = QueuePool::new(1);
    let mut mutex = ReentrantMutex::new(10);
    let guard = mutex.try_lock(1).unwrap();
    let mut request = mutex.lock_async();
    assert_eq!(done(mutex.drop_request(&request, &mut pool)), vec![]);
    assert!(mutex.poll(&mut request, 2, 5, &mut pool).is_pending());
    assert_eq!(done(mutex.drop_request(&request, &mut pool)), vec![]);
    assert!(!mutex.has_waiters());
    assert_eq!(mutex.unlock(guard, &mut pool), vec![]);
}

#[test]
fn what_is_assigned_to_a_request() {
    let mut pool = QueuePool::new(1);
    let mut sem = Semaphore::new(2);
    let request = sem.acquire_many_async(5);
    assert_eq!(sem.assigned(&request), 0);
    assert!(sem.poll(&request, 1, &mut pool).0.is_pending());
    assert!(sem.add_permits(1, &mut pool).is_empty());
    assert_eq!(sem.assigned(&request), 3);
    assert_eq!(sem.available_permits(), 0);
    assert_eq!(sem.close(&mut pool), vec![Wake::Task(1)]);
    assert_eq!(sem.assigned(&request), 3);
    assert!(sem.can_settle(&request));
    assert!(matches!(sem.poll(&request, 1, &mut pool).0, Poll::Ready(Err(_))));
    assert_eq!(sem.assigned(&request), 0);
    assert_eq!(sem.available_permits(), 3);
}

#[test]
fn requests_do_not_disturb_each_other() {
    let mut pool = QueuePool::new(1);
    let mut mutex = AsyncMutex::new(1u32);
    let guard = mutex.try_lock().unwrap();
    let first = mutex.lock();
    let second = mutex.lock();
    let third = mutex.lock();
    assert!(mutex.poll(&first, 1, &mut pool).is_pending());
    assert!(mutex.poll(&second, 2, &mut pool).is_pending());
    assert!(mutex.poll(&third, 3, &mut pool).is_pending());
    assert!(done(mutex.drop_request(&second, &mut pool)).is_empty());
    assert_eq!(mutex.unlock(guard, &mut pool), vec![Wake::Task(1)]);
    assert!(mutex.poll(&third, 4, &mut pool).is_pending());
    let guard = match mutex.poll(&first, 1, &mut pool) {
        Poll::Ready(guard) => guard,
        Poll::Pending => panic!("the first in line has the lock"),
    };
    assert_eq!(mutex.unlock(guard, &mut pool), vec![Wake::Task(4)]);
    assert!(mutex.poll(&third, 4, &mut pool).is_ready());
}

#[test]
fn how_often_the_owner_has_locked() {
    let mut pool = QueuePool::new(1);
    let mut mutex = ReentrantMutex::new(());
    assert_eq!(mutex.count(), 0);
    let outer = mutex.try_lock(7).unwrap();
    let inner = mutex.try_lock(7).unwrap();
    assert_eq!((mutex.owner(), mutex.count()), (7, 2));
    assert!(mutex.unlock(inner, &mut pool).is_empty());
    assert_eq!((mutex.owner(), mutex.count()), (7, 1));
    assert!(mutex.unlock(outer, &mut pool).is_empty());
    assert_eq!((mutex.owner(), mutex.count()), (0, 0));
}

#[test]
fn a_task_gets_the_value_of_a_cell_for_threads() {
    let mut pool = QueuePool::new(1);
    let mut cell = OnceCell::new();
    let mut wanted = cell.get_or_init_async();
    assert_eq!(cell.poll_wait(&mut wanted.request, 1, &mut pool), Poll::Ready(Step::Initializing));
    assert!(wanted.request.is_initializing());
    assert!(cell.finish(&mut wanted.request, 9u32, &mut pool).is_empty());
    assert_eq!(cell.get(), Some(&9));
    assert!(done(cell.drop_request(&wanted.request, &mut pool)).is_empty());
    assert_eq!(cell.take(), Some(9));
    assert_eq!(cell.into_inner(), None);
}

#[test]
fn the_most_parties_of_a_barrier() {
    let most = xutex::barrier_word::ARRIVED_MASK;
    assert_eq!(most, usize::MAX >> (usize::BITS / 2));
    assert_eq!(Barrier::new(most).parties(), most);
}

#[test]
fn permits_that_come_back_may_not_fit() {
    let mut pool = QueuePool::new(1);
    let mut sem = Semaphore::new(0);
    let mut wait = match sem.acquire_many(2, 7, &mut pool) {
        AcquireStart::Wait(wait) => wait,
        AcquireStart::Ready(_) => panic!("no permits"),
    };
    sem.add_permits(1, &mut pool);
    sem.close(&mut pool);
    assert!(sem.can_settle_sync(&wait));
    // Permits can be added to a closed semaphore: now there is no room for the
    // one that the thread was assigned.
    sem.add_permits(Semaphore::MAX_PERMITS, &mut pool);
    assert!(!sem.can_settle_sync(&wait));
    assert_eq!(sem.forget_permits(1), 1);
    assert!(sem.can_settle_sync(&wait));
    assert!(matches!(
        sem.wait_step(&mut wait, &mut pool),
        AcquireProgress::Done(Err(_), _)
    ));
    assert_eq!(sem.available_permits(), Semaphore::MAX_PERMITS);
}

#[test]
fn a_blocked_acquisition_is_all_or_nothing() {
    for close in [false, true] {
        let mut pool = QueuePool::new(1);
        let mut sem = Semaphore::new(2);
        let mut wait = match sem.acquire_many(5, 7, &mut pool) {
            AcquireStart::Wait(wait) => wait,
            AcquireStart::Ready(_) => panic!("too few permits"),
        };
        // Meanwhile others come and go.
        sem.add_permits(1, &mut pool);
        let other = sem.acquire_many_async(2);
        assert!(sem.poll(&other, 1, &mut pool).0.is_pending());
        sem.add_permits(1, &mut pool);
        assert_eq!(sem.available_permits(), 0);
        if close {
            sem.close(&mut pool);
        } else {
            sem.add_permits(2, &mut pool);
        }
        match sem.wait_step(&mut wait, &mut pool) {
            AcquireProgress::Done(Ok(permit), _) => {
                assert!(!close);
                assert_eq!(permit.num_permits(), 5);
            }
            AcquireProgress::Done(Err(_), _) => {
                assert!(close);
                assert_eq!(sem.available_permits(), 4);
            }
            AcquireProgress::Again(_) => panic!("it was answered"),
        }
    }
}

#[test]
fn nobody_adds_in_vain() {
    let mut pool = QueuePool::new(1);
    let mut mutex = Mutex::new(0);
    let mut guard = mutex.try_lock().unwrap();
    // Four threads want to add one, while a fifth holds the lock.
    let mut waiters: Vec<SyncWaiter> = (1..5)
        .map(|thread| match mutex.lock(thread, &mut pool) {
            Lock::Wait(waiter) => waiter,
            Lock::Ready(_) => panic!("the lock is taken"),
        })
        .collect();
    *guard.deref_mut() += 1;
    mutex.unlock(guard, &mut pool);
    for waiter in waiters.iter_mut() {
        let mut guard = match mutex.wait_step(waiter) {
            LockStep::Done(guard) => guard,
            LockStep::Again(_) => panic!("it is their turn"),
        };
        *guard.deref_mut() += 1;
        mutex.unlock(guard, &mut pool);
    }
    assert_eq!(*mutex.try_lock().unwrap(), 5);
}

#[test]
fn generations_in_state_words() {
    let half = usize::BITS / 2;
    assert_eq!(barrier_word::generation(0), 0);
    assert_eq!(barrier_word::generation(5 << half), 5);
    assert_eq!(barrier_word::generation((5 << half) | 3), 5);
    assert_eq!(notify_core::generation(0), 0);
    assert_eq!(notify_core::generation(0b111), 0);
    assert_eq!(notify_core::generation(9 << 3), 9);
    assert_eq!(notify_core::generation((9 << 3) | 0b101), 9);
}

#[test]
fn made_from_a_value() {
    assert_eq!(OnceCell::from(3).get(), Some(&3));
    assert_eq!(AsyncOnceCell::from("a").into_inner(), Some("a"));
    assert_eq!(RwLock::from(4).into_inner(), 4);
    assert_eq!(AsyncRwLock::from(5).into_inner(), 5);
    assert_eq!(RwLock::<u32>::default().into_inner(), 0);
    assert_eq!(AsyncRwLock::<String>::default().into_inner(), "");
}

#[test]
fn a_set_error_can_be_copied() {
    let mut pool = QueuePool::new(1);
    let mut cell = OnceCell::from(1);
    let error = cell.set(2, &mut pool).err().unwrap();
    let copy = error;
    assert!(error == copy);
    assert_eq!(error.into_inner(), 2);
}

#[test]
fn a_thread_queues_up_for_a_value() {
    let mut pool = QueuePool::new(1);
    let mut cell = OnceCell::new();
    assert!(cell.try_begin_init().is_ok());
    let mut waiter = cell.queue_up(4, &mut pool);
    assert_eq!(cell.wait_step(&mut waiter), OnceStep::Again(SyncStep::Park));
    assert_eq!(cell.complete(8, &mut pool), vec![Wake::Unpark(4)]);
    assert_eq!(
        cell.wait_step(&mut waiter),
        OnceStep::Done(Step::ValueReady)
    );
    assert_eq!(cell.get(), Some(&8));
}

#[test]
fn the_lock_comes_after_those_ahead() {
    let mut pool = QueuePool::new(1);
    let mut mutex = AsyncMutex::new(0);
    let mut guard = mutex.try_lock().unwrap();
    let requests: Vec<_> = (0..5).map(|_| mutex.lock()).collect();
    for (i, request) in requests.iter().enumerate() {
        assert!(mutex.poll(request, i, &mut pool).is_pending());
    }
    // Each time it is given up the next in line has it, whoever comes later.
    for (i, request) in requests.iter().enumerate() {
        let late = mutex.lock();
        assert!(mutex.poll(&late, 100, &mut pool).is_pending());
        assert_eq!(mutex.unlock(guard, &mut pool), vec![Wake::Task(i)]);
        guard = match mutex.poll(request, i, &mut pool) {
            Poll::Ready(guard) => guard,
            Poll::Pending => panic!("it is its turn"),
        };
    }
}

#[test]
fn permits_come_after_those_ahead() {
    let mut pool = QueuePool::new(1);
    let mut sem = Semaphore::new(1);
    let first = sem.acquire_many_async(3);
    let second = sem.acquire_many_async(4);
    assert!(sem.poll(&first, 1, &mut pool).0.is_pending());
    assert!(sem.poll(&second, 2, &mut pool).0.is_pending());
    // One is there, so that six are missing for the second.
    assert_eq!(sem.add_permits(1, &mut pool), vec![]);
    assert_eq!(sem.add_permits(2, &mut pool), vec![Wake::Task(1)]);
    assert!(sem.poll(&second, 2, &mut pool).0.is_pending());
    assert_eq!(sem.add_permits(2, &mut pool), vec![]);
    assert_eq!(sem.add_permits(1, &mut pool), vec![Wake::Task(2)]);
    match sem.poll(&second, 2, &mut pool).0 {
        Poll::Ready(Ok(permit)) => assert_eq!(permit.num_permits(), 4),
        _ => panic!("nothing is missing"),
    }
}

#[test]
fn a_crowd_gets_through() {
    // Four threads with three turns each; whoever is parked moves again only
    // when it is unparked.
    let mut pool = QueuePool::new(1);
    let mut mutex = Mutex::new(0);
    let mut left = [3; 4];
    let mut guards = [None, None, None, None];
    let mut waiters = [None, None, None, None];
    let mut parked = [false; 4];
    let mut moves = 0;
    while left.iter().any(|turns| *turns > 0) {
        moves += 1;
        assert!(moves < 10_000);
        for t in 0..4 {
            assert!(guards.iter().flatten().count() <= 1);
            if let Some(guard) = guards[t].take() {
                let mut guard: xutex::MutexGuard<u32> = guard;
                *guard.deref_mut() += 1;
                left[t] -= 1;
                for wake in mutex.unlock(guard, &mut pool) {
                    if let Wake::Unpark(u) = wake {
                        parked[u] = false;
                    }
                }
            } else if let Some(mut waiter) = waiters[t].take() {
                if parked[t] {
                    waiters[t] = Some(waiter);
                    continue;
                }
                match mutex.wait_step(&mut waiter) {
                    LockStep::Done(guard) => guards[t] = Some(guard),
                    LockStep::Again(step) => {
                        parked[t] = step == SyncStep::Park;
                        waiters[t] = Some(waiter);
                    }
                }
            } else if left[t] > 0 {
                match mutex.lock(t, &mut pool) {
                    Lock::Ready(guard) => guards[t] = Some(guard),
                    Lock::Wait(waiter) => waiters[t] = Some(waiter),
                }
            }
        }
    }
    assert!(!mutex.has_waiters());
    assert_eq!(*mutex.try_lock().unwrap(), 12);
}

#[test]
fn access_comes_after_those_ahead() {
    let mut pool = QueuePool::new(1);
    let mut lock = AsyncRwLock::with_max_readers(0, 4);
    let a = lock.try_read().unwrap();
    let b = lock.try_read().unwrap();
    let writer = lock.write();
    let reader = lock.read();
    assert!(lock.poll_write(&writer, 1, &mut pool).is_pending());
    assert!(lock.poll_read(&reader, 2, &mut pool).is_pending());
    // Two are missing for the writer, and three for the reader behind it.
    assert_eq!(lock.release_read(a, &mut pool), vec![]);
    assert!(lock.try_read().is_none());
    assert_eq!(lock.release_read(b, &mut pool), vec![Wake::Task(1)]);
    let guard = match lock.poll_write(&writer, 1, &mut pool) {
        Poll::Ready(guard) => guard,
        Poll::Pending => panic!("the readers have left"),
    };
    assert!(lock.poll_read(&reader, 2, &mut pool).is_pending());
    assert_eq!(lock.release_write(guard, &mut pool), vec![Wake::Task(2)]);
    assert!(lock.poll_read(&reader, 2, &mut pool).is_ready());
}
