//! The primitives on a single thread, step by step.
use xutex::backoff::Backoff;
use xutex::mutex_ops::Lock;
use xutex::notify_ops::Wait;
use xutex::once_ops::{GetOrInit, Step};
use xutex::pool::QueuePool;
use xutex::rwlock_core::Enter;
use xutex::semaphore::AcquireStart;
use xutex::signal::{Poll, Wake, Withdrawn};
use xutex::{
    AsyncBarrier, AsyncMutex, AsyncNotify, AsyncOnceCell, AsyncRwLock, AsyncSemaphore, Mutex,
    MutexGuard, Notify, OnceCell, RwLock, Semaphore, SemaphorePermit, SetError, TryAcquireError,
};

const THREAD: usize = 0;
const WAKER: usize = 0;

fn locked<T>(lock: Lock<T>) -> MutexGuard<T> {
    match lock {
        Lock::Ready(guard) => guard,
        Lock::Wait(_) => panic!("the lock must be free"),
    }
}

fn acquired(start: AcquireStart) -> SemaphorePermit {
    match start {
        AcquireStart::Ready(Ok(permit)) => permit,
        _ => panic!("the permits must be there"),
    }
}

fn entered<G>(enter: Enter<G>) -> G {
    match enter {
        Enter::Ready(guard) => guard,
        Enter::Wait(_) => panic!("access must be granted"),
    }
}

fn done(withdrawn: Withdrawn) -> Vec<Wake> {
    match withdrawn {
        Withdrawn::Done(wakes) => wakes,
        Withdrawn::InFlight => panic!("no signal is on its way"),
    }
}

#[test]
fn backoff_is_a_bare_counter() {
    assert_eq!(core::mem::size_of::<Backoff>(), core::mem::size_of::<u32>());
    let mut backoff = Backoff::new();
    for _ in 0..40 {
        backoff.snooze();
    }
    assert!(backoff.is_completed());
}

#[test]
fn test_mutex_new() {
    let mut pool = QueuePool::new(1);
    let mut mutex = Mutex::new(42);
    assert_eq!(*locked(mutex.lock(THREAD, &mut pool)), 42);
}

#[test]
fn test_mutex_lock_unlock() {
    let mut pool = QueuePool::new(1);
    let mut mutex = Mutex::new(0);
    {
        let mut guard = locked(mutex.lock(THREAD, &mut pool));
        *guard.deref_mut() = 10;
        mutex.unlock(guard, &mut pool);
    }
    assert_eq!(*locked(mutex.lock(THREAD, &mut pool)), 10);
}

#[test]
fn test_mutex_try_lock_success() {
    let mut mutex = Mutex::new(5);
    let guard = mutex.try_lock();
    assert!(guard.is_some());
    assert_eq!(*guard.unwrap(), 5);
}

#[test]
fn test_mutex_try_lock_fail() {
    let mut pool = QueuePool::new(1);
    let mut mutex = Mutex::new(5);
    let _guard = locked(mutex.lock(THREAD, &mut pool));
    assert!(mutex.try_lock().is_none());
}

#[test]
fn test_mutex_multiple_locks() {
    let mut pool = QueuePool::new(1);
    let mut mutex = Mutex::new(0);
    for i in 1..=10 {
        let mut guard = locked(mutex.lock(THREAD, &mut pool));
        *guard.deref_mut() += i;
        mutex.unlock(guard, &mut pool);
    }
    assert_eq!(*locked(mutex.lock(THREAD, &mut pool)), 55);
}

#[test]
fn test_mutex_as_async_conversion() {
    let mutex = Mutex::new(100);
    let mut as_async = mutex.to_async();
    assert_eq!(*as_async.try_lock().unwrap(), 100);
}

#[test]
fn test_async_mutex_as_sync_conversion() {
    let async_mutex = AsyncMutex::new(200);
    let mut as_sync = async_mutex.to_sync();
    assert_eq!(*as_sync.try_lock().unwrap(), 200);
}

#[test]
fn test_semaphore_basic() {
    let mut pool = QueuePool::new(1);
    let mut sem = Semaphore::new(3);
    assert_eq!(sem.available_permits(), 3);
    let p1 = acquired(sem.acquire(THREAD, &mut pool));
    let p2 = acquired(sem.acquire_many(2, THREAD, &mut pool));
    assert_eq!(sem.available_permits(), 0);
    assert!(matches!(sem.try_acquire(), Err(TryAcquireError::NoPermits)));
    sem.release(p1, &mut pool);
    assert_eq!(sem.available_permits(), 1);
    sem.release(p2, &mut pool);
    assert_eq!(sem.available_permits(), 3);
}

#[test]
fn test_semaphore_forget_and_add() {
    let mut pool = QueuePool::new(1);
    let mut sem = Semaphore::new(4);
    let p = acquired(sem.acquire_many(2, THREAD, &mut pool));
    let p = p.forget();
    assert_eq!(p.num_permits(), 0);
    sem.release(p, &mut pool);
    assert_eq!(sem.available_permits(), 2);
    sem.add_permits(3, &mut pool);
    assert_eq!(sem.available_permits(), 5);
    assert_eq!(sem.forget_permits(10), 5);
    assert_eq!(sem.available_permits(), 0);
}

#[test]
fn test_semaphore_permit_split_merge() {
    let mut pool = QueuePool::new(1);
    let mut sem = Semaphore::new(10);
    let mut p = acquired(sem.acquire_many(5, THREAD, &mut pool));
    let q = p.split(2).unwrap();
    assert_eq!(p.num_permits(), 3);
    assert_eq!(q.num_permits(), 2);
    assert!(p.split(4).is_none());
    p.merge(q);
    assert_eq!(p.num_permits(), 5);
    sem.release(p, &mut pool);
    assert_eq!(sem.available_permits(), 10);
}

#[test]
fn test_async_semaphore_cancellation() {
    let mut pool = QueuePool::new(1);
    let mut sem = AsyncSemaphore::new(1);
    let held = sem.try_acquire().ok().unwrap();
    {
        let fut = sem.acquire();
        assert!(sem.poll(&fut, WAKER, &mut pool).0.is_pending());
        done(sem.drop_request(&fut, &mut pool));
    }
    sem.release(held, &mut pool);
    let p = sem.try_acquire().ok().unwrap();
    sem.release(p, &mut pool);
    assert_eq!(sem.available_permits(), 1);
}

#[test]
fn test_async_semaphore_fifo_handoff() {
    let mut pool = QueuePool::new(1);
    let mut sem = AsyncSemaphore::new(1);
    let held = sem.try_acquire().ok().unwrap();

    let fut1 = sem.acquire();
    assert!(sem.poll(&fut1, 1, &mut pool).0.is_pending());

    let fut2 = sem.acquire();
    assert!(sem.poll(&fut2, 2, &mut pool).0.is_pending());

    // Releasing hands the permit to the first, not to the second.
    assert_eq!(sem.release(held, &mut pool), vec![Wake::Task(1)]);
    assert!(matches!(sem.try_acquire(), Err(TryAcquireError::NoPermits)));
    match sem.poll(&fut2, 2, &mut pool).0 {
        Poll::Pending => {}
        _ => panic!("fut2 must still be pending"),
    }
    let p1 = match sem.poll(&fut1, 1, &mut pool).0 {
        Poll::Ready(Ok(p)) => p,
        _ => panic!("fut1 must be ready"),
    };
    assert_eq!(sem.release(p1, &mut pool), vec![Wake::Task(2)]);
    match sem.poll(&fut2, 2, &mut pool).0 {
        Poll::Ready(Ok(_)) => {}
        _ => panic!("fut2 must be ready after p1 drop"),
    }
}

#[test]
fn test_semaphore_conversions() {
    let sem = Semaphore::new(2);
    let async_sem = sem.to_async();
    assert_eq!(async_sem.available_permits(), 2);
    let sem = async_sem.to_sync();
    assert_eq!(sem.available_permits(), 2);
    let async_sem = sem.to_async();
    assert_eq!(async_sem.available_permits(), 2);
}

#[test]
fn test_rwlock_basic() {
    let mut pool = QueuePool::new(1);
    let mut lock = RwLock::new(5);
    {
        let r1 = entered(lock.read(THREAD, &mut pool));
        let r2 = entered(lock.read(THREAD, &mut pool));
        assert_eq!(*lock.data(&r1) + *lock.data(&r2), 10);
        assert!(lock.try_write().is_none());
        lock.release_read(r1, &mut pool);
        lock.release_read(r2, &mut pool);
    }
    {
        let mut w = entered(lock.write(THREAD, &mut pool));
        *w.deref_mut() += 1;
        assert!(lock.try_read().is_none());
        assert!(lock.try_write().is_none());
        lock.release_write(w, &mut pool);
    }
    let r = entered(lock.read(THREAD, &mut pool));
    assert_eq!(*lock.data(&r), 6);
}

#[test]
fn test_rwlock_get_mut_into_inner() {
    let mut lock = RwLock::new(7);
    *lock.get_mut() += 1;
    assert_eq!(lock.into_inner(), 8);
}

#[test]
fn test_rwlock_downgrade() {
    let mut pool = QueuePool::new(1);
    let mut lock = RwLock::new(1);
    let mut w = entered(lock.write(THREAD, &mut pool));
    *w.deref_mut() = 2;
    let (r, _) = lock.downgrade(w, &mut pool);
    // Another reader can join while the first still reads.
    let r2 = lock.try_read().expect("read must be possible");
    assert_eq!(*lock.data(&r) + *lock.data(&r2), 4);
    lock.release_read(r, &mut pool);
    lock.release_read(r2, &mut pool);
    assert!(lock.try_write().is_some());
}

#[test]
fn test_async_rwlock_write_waits_for_readers() {
    let mut pool = QueuePool::new(1);
    let mut lock = AsyncRwLock::new(0);
    let r1 = lock.try_read().unwrap();
    let r2 = lock.try_read().unwrap();

    let w = lock.write();
    assert!(lock.poll_write(&w, WAKER, &mut pool).is_pending());

    // A queued writer blocks new readers.
    assert!(lock.try_read().is_none());

    lock.release_read(r1, &mut pool);
    assert!(lock.poll_write(&w, WAKER, &mut pool).is_pending());
    lock.release_read(r2, &mut pool);
    match lock.poll_write(&w, WAKER, &mut pool) {
        Poll::Ready(mut guard) => *guard.deref_mut() += 1,
        Poll::Pending => panic!("writer must acquire after all readers left"),
    }
}

#[test]
fn test_async_rwlock_cancellation() {
    let mut pool = QueuePool::new(1);
    let mut lock = AsyncRwLock::new(0);
    let r = lock.try_read().unwrap();
    {
        let w = lock.write();
        assert!(lock.poll_write(&w, WAKER, &mut pool).is_pending());
        done(lock.drop_write_request(&w, &mut pool));
    }
    lock.release_read(r, &mut pool);
    // All permits must be back: a writer can acquire immediately.
    assert!(lock.try_write().is_some());
}

#[test]
fn test_rwlock_conversions() {
    let mut pool = QueuePool::new(1);
    let lock = RwLock::new(3);
    let mut async_lock = lock.to_async();
    let r = async_lock.try_read().unwrap();
    assert_eq!(*async_lock.data(&r), 3);
    async_lock.release_read(r, &mut pool);
    let mut lock = async_lock.to_sync();
    let r = entered(lock.read(THREAD, &mut pool));
    assert_eq!(*lock.data(&r), 3);
    lock.release_read(r, &mut pool);
    let mut async_lock = lock.to_async();
    let r = entered(async_lock.read_sync(THREAD, &mut pool));
    assert_eq!(*async_lock.data(&r), 3);
}

#[test]
fn test_notify_permit_stored() {
    let mut pool = QueuePool::new(1);
    let mut notify = Notify::new();
    notify.notify_one(&mut pool);
    // Must not block: a notification is stored.
    assert!(matches!(notify.wait(THREAD, &mut pool), Wait::Ready));
}

#[test]
fn test_async_notified_created_before_notify_waiters() {
    let mut pool = QueuePool::new(1);
    let mut notify = AsyncNotify::new();
    let fut = notify.notified();
    notify.notify_waiters(&mut pool);
    // Must complete: the future was created before notify_waiters.
    assert!(notify.poll(&fut, WAKER, &mut pool).is_ready());

    // A future created after must not complete.
    let fut2 = notify.notified();
    assert!(notify.poll(&fut2, WAKER, &mut pool).is_pending());
}

#[test]
fn test_async_notify_drop_redelivers() {
    let mut pool = QueuePool::new(1);
    let mut notify = AsyncNotify::new();

    let fut1 = notify.notified();
    assert!(notify.poll(&fut1, 1, &mut pool).is_pending());

    let fut2 = notify.notified();
    assert!(notify.poll(&fut2, 2, &mut pool).is_pending());

    assert_eq!(notify.notify_one(&mut pool), vec![Wake::Task(1)]);
    // The first was signaled; dropping it must pass the wakeup to the second.
    assert_eq!(done(notify.drop_request(&fut1, &mut pool)), vec![Wake::Task(2)]);
    assert!(notify.poll(&fut2, 2, &mut pool).is_ready());
}

#[test]
fn test_async_barrier_cancellation_withdraws_arrival() {
    let mut pool = QueuePool::new(1);
    let mut barrier = AsyncBarrier::new(2);
    {
        let w = barrier.wait();
        assert!(barrier.poll(&w, WAKER, &mut pool).0.is_pending());
        done(barrier.drop_request(&w, &mut pool));
    }

    // A fresh pair must complete on its own.
    let w1 = barrier.wait();
    assert!(barrier.poll(&w1, WAKER, &mut pool).0.is_pending());
    let w2 = barrier.wait();
    match barrier.poll(&w2, WAKER, &mut pool).0 {
        Poll::Ready(result) => assert!(result.is_leader()),
        Poll::Pending => panic!("second arrival must complete the round"),
    }
    assert!(barrier.poll(&w1, WAKER, &mut pool).0.is_ready());
}

#[test]
fn test_once_cell_set_get_take() {
    let mut pool = QueuePool::new(1);
    let mut cell = OnceCell::new();
    assert_eq!(cell.get(), None);
    assert!(cell.set(5, &mut pool).is_ok());
    assert!(matches!(
        cell.set(6, &mut pool),
        Err(SetError::AlreadyInitializedError(6))
    ));
    assert_eq!(cell.get(), Some(&5));
    *cell.get_mut().unwrap() = 7;
    assert_eq!(cell.take(), Some(7));
    assert_eq!(cell.get(), None);
    assert!(cell.set(8, &mut pool).is_ok());
    assert_eq!(cell.into_inner(), Some(8));
}

#[test]
fn test_once_cell_try_init_failure_then_success() {
    let mut pool = QueuePool::new(1);
    let mut cell: OnceCell<i32> = OnceCell::new();
    let r = cell.get_or_try_init(|| Err::<i32, &str>("boom"), THREAD, &mut pool);
    match r {
        GetOrInit::Failed(e, _) => assert_eq!(e, "boom"),
        _ => panic!("the initializer fails"),
    }
    assert_eq!(cell.get(), None);
    assert!(cell.get_or_init(|| 42, THREAD, &mut pool).is_ok());
    assert_eq!(*cell.get().unwrap(), 42);
}

#[test]
fn test_async_once_cell_takeover_on_cancel() {
    let mut pool = QueuePool::new(1);
    let mut cell: AsyncOnceCell<i32> = AsyncOnceCell::new();

    // The first initializer starts and never completes.
    let mut pending_init = cell.get_or_init().request;
    assert_eq!(
        cell.poll_wait(&mut pending_init, 1, &mut pool),
        Poll::Ready(Step::Initializing)
    );

    // The second caller parks behind the initializer.
    let mut second = cell.get_or_init().request;
    assert!(cell.poll_wait(&mut second, 2, &mut pool).is_pending());

    // Cancelling the initializer must hand the role to the second caller.
    assert_eq!(done(cell.drop_request(&pending_init, &mut pool)), vec![Wake::Task(2)]);
    match cell.poll_wait(&mut second, 2, &mut pool) {
        Poll::Ready(Step::Initializing) => {
            cell.finish(&mut second, 7, &mut pool);
        }
        _ => panic!("second caller must take over initialization"),
    }
    assert_eq!(cell.get(), Some(&7));
}

#[test]
fn test_async_semaphore_cancelled_head_redrains_queue() {
    let mut pool = QueuePool::new(1);
    let mut sem = AsyncSemaphore::new(2);
    let small = sem.acquire();
    {
        // Head of the line: needs more than the pool holds, so it parks while
        // the two permits stay in the pool.
        let big = sem.acquire_many(3);
        assert!(sem.poll(&big, 1, &mut pool).0.is_pending());
        // Queued behind it although its single permit is available.
        assert!(sem.poll(&small, 2, &mut pool).0.is_pending());
        assert_eq!(sem.available_permits(), 2);
        done(sem.drop_request(&big, &mut pool));
    }
    let p = match sem.poll(&small, 2, &mut pool).0 {
        Poll::Ready(Ok(p)) => {
            assert_eq!(p.num_permits(), 1);
            assert_eq!(sem.available_permits(), 1);
            p
        }
        _ => panic!("waiter stranded behind a cancelled acquire_many"),
    };
    sem.release(p, &mut pool);
    assert_eq!(sem.available_permits(), 2);
}

#[test]
fn test_async_rwlock_cancelled_writer_unblocks_queued_reader() {
    let mut pool = QueuePool::new(1);
    let mut lock = AsyncRwLock::new(0);
    let r1 = lock.try_read().unwrap();
    let r2 = lock.read();
    {
        let w = lock.write();
        assert!(lock.poll_write(&w, 1, &mut pool).is_pending()); // waits for r1
        assert!(lock.poll_read(&r2, 2, &mut pool).is_pending()); // behind the writer
        done(lock.drop_write_request(&w, &mut pool));
    }
    let r2 = match lock.poll_read(&r2, 2, &mut pool) {
        Poll::Ready(guard) => guard,
        Poll::Pending => panic!("reader stranded behind a cancelled writer"),
    };
    lock.release_read(r2, &mut pool);
    lock.release_read(r1, &mut pool);
    assert!(lock.try_write().is_some());
}

#[test]
fn test_async_semaphore_zero_permit_request_behind_queue() {
    let mut pool = QueuePool::new(1);
    let mut sem = AsyncSemaphore::new(1);
    let held = sem.try_acquire().ok().unwrap();
    let one = sem.acquire();
    assert!(sem.poll(&one, 1, &mut pool).0.is_pending());
    let zero = sem.acquire_many(0);
    // Even a request for nothing queues behind an existing waiter.
    assert!(sem.poll(&zero, 2, &mut pool).0.is_pending());
    // Handing the permit to the first leaves nothing in the pool, but the
    // second needs nothing and must be released in the same drain.
    assert_eq!(sem.release(held, &mut pool), vec![Wake::Task(1), Wake::Task(2)]);
    let p1 = match sem.poll(&one, 1, &mut pool).0 {
        Poll::Ready(Ok(p)) => p,
        _ => panic!("first waiter must get the permit"),
    };
    match sem.poll(&zero, 2, &mut pool).0 {
        Poll::Ready(Ok(p)) => assert_eq!(p.num_permits(), 0),
        _ => panic!("zero-permit waiter stranded"),
    }
    sem.release(p1, &mut pool);
    assert_eq!(sem.available_permits(), 1);
}
