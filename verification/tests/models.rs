//! The primitives on several threads, in every order in which the threads can
//! take their turns.
use std::future::Future;
use std::sync::atomic::{AtomicUsize, Ordering};
use std::sync::Arc;
use std::task::{Context, Waker};

use loom::model::Builder;
use loom::thread;
use xutex::barrier_ops::{BarrierStep, BarrierWait};
use xutex::mutex_ops::{Lock, LockStep};
use xutex::notify_ops::Wait;
use xutex::once_ops::{OnceStep, Step};
use xutex::pool::QueuePool;
use xutex::rwlock_core::{Enter, EnterStep};
use xutex::semaphore::{AcquireProgress, AcquireStart};
use xutex::signal::{Poll, Wake, Withdrawn};
use xutex::sync_wait::SyncStep;
use xutex::{
    AcquireError, AsyncBarrier, AsyncMutex, AsyncNotify, AsyncOnceCell, AsyncRwLock,
    AsyncSemaphore, Barrier, Mutex, MutexGuard, Notify, OnceCell, RwLock, Semaphore,
    SemaphorePermit, TryAcquireError,
};

fn model(f: impl Fn() + Sync + Send + 'static) {
    let mut builder = Builder::new();
    builder.preemption_bound = Some(3);
    builder.max_branches = 50_000;
    builder.location = true;
    builder.check(f);
}

/// A primitive that threads share, with the threads and wakers that its numbers
/// stand for.
struct Shared<C> {
    state: loom::sync::Mutex<State<C>>,
}

struct State<C> {
    core: C,
    pool: QueuePool,
    threads: Vec<thread::Thread>,
    wakers: Vec<Waker>,
}

/// How a blocking operation goes on.
enum Go<R> {
    Again(SyncStep),
    Done(R, Vec<Wake>),
}

impl<C> Shared<C> {
    fn new(core: C) -> Arc<Self> {
        Arc::new(Shared {
            state: loom::sync::Mutex::new(State {
                core,
                pool: QueuePool::new(1),
                threads: Vec::new(),
                wakers: Vec::new(),
            }),
        })
    }

    /// One operation, after which whoever has to be woken is woken.
    fn run<R>(&self, f: impl FnOnce(&mut C, &mut QueuePool) -> (R, Vec<Wake>)) -> R {
        let mut guard = self.state.lock().unwrap();
        let state = &mut *guard;
        let (r, wakes) = f(&mut state.core, &mut state.pool);
        let mut threads = Vec::new();
        let mut wakers = Vec::new();
        for wake in wakes {
            match wake {
                Wake::Nobody => {}
                Wake::Unpark(n) => threads.push(state.threads[n].clone()),
                Wake::Task(n) => wakers.push(state.wakers[n].clone()),
            }
        }
        drop(guard);
        for thread in threads {
            thread.unpark();
        }
        for waker in wakers {
            waker.wake();
        }
        r
    }

    fn look<R>(&self, f: impl FnOnce(&mut C) -> R) -> R {
        self.run(|core, _| (f(core), Vec::new()))
    }

    fn turn<R>(&self, f: impl FnOnce(&mut C, &mut QueuePool) -> R) -> R {
        self.run(|core, pool| (f(core, pool), Vec::new()))
    }

    /// The number of this thread.
    fn me(&self) -> usize {
        let mut state = self.state.lock().unwrap();
        state.threads.push(thread::current());
        state.threads.len() - 1
    }

    fn waker(&self, cx: &mut Context<'_>) -> usize {
        let mut state = self.state.lock().unwrap();
        state.wakers.push(cx.waker().clone());
        state.wakers.len() - 1
    }

    /// Looks again and again until it is done.
    fn wait<R>(&self, mut step: impl FnMut(&mut C, &mut QueuePool) -> Go<R>) -> R {
        loop {
            let r = self.run(|core, pool| loop {
                match step(core, pool) {
                    Go::Done(r, wakes) => return (Some(r), wakes),
                    Go::Again(SyncStep::Park) => return (None, Vec::new()),
                    Go::Again(_) => {}
                }
            });
            match r {
                Some(r) => return r,
                None => thread::park(),
            }
        }
    }

    fn task<'a, R: 'a>(
        &'a self,
        mut poll: impl FnMut(&mut C, &mut QueuePool, usize) -> (Poll<R>, Vec<Wake>) + 'a,
    ) -> impl Future<Output = R> + 'a {
        std::future::poll_fn(move |cx: &mut Context<'_>| {
            let waker = self.waker(cx);
            match self.run(|core, pool| poll(core, pool, waker)) {
                Poll::Ready(r) => std::task::Poll::Ready(r),
                Poll::Pending => std::task::Poll::Pending,
            }
        })
    }
}

fn lock<T>(mutex: &Shared<Mutex<T>>) -> MutexGuard<T> {
    let me = mutex.me();
    let mut waiter = match mutex.turn(|m, pool| m.lock(me, pool)) {
        Lock::Ready(guard) => return guard,
        Lock::Wait(waiter) => waiter,
    };
    mutex.wait(|m, _| match m.wait_step(&mut waiter) {
        LockStep::Done(guard) => Go::Done(guard, Vec::new()),
        LockStep::Again(step) => Go::Again(step),
    })
}

fn unlock<T>(mutex: &Shared<Mutex<T>>, guard: MutexGuard<T>) {
    mutex.run(|m, pool| ((), m.unlock(guard, pool)));
}

fn acquire(sem: &Shared<Semaphore>, n: usize) -> Result<SemaphorePermit, AcquireError> {
    let me = sem.me();
    let mut wait = match sem.turn(|s, pool| s.acquire_many(n, me, pool)) {
        AcquireStart::Ready(r) => return r,
        AcquireStart::Wait(wait) => wait,
    };
    sem.wait(|s, pool| match s.wait_step(&mut wait, pool) {
        AcquireProgress::Done(r, wakes) => Go::Done(r, wakes),
        AcquireProgress::Again(step) => Go::Again(step),
    })
}

fn wait_sync(barrier: &Shared<Barrier>) -> bool {
    let me = barrier.me();
    let start = barrier.run(|b, pool| match b.wait(me, pool) {
        BarrierWait::Ready(r, wakes) => (Ok(r.is_leader()), wakes),
        BarrierWait::Wait(waiter) => (Err(waiter), Vec::new()),
    });
    let mut waiter = match start {
        Ok(leader) => return leader,
        Err(waiter) => waiter,
    };
    barrier.wait(|b, _| match b.wait_step(&mut waiter) {
        BarrierStep::Done(r) => Go::Done(r.is_leader(), Vec::new()),
        BarrierStep::Again(step) => Go::Again(step),
    })
}

fn get_or_init(cell: &Shared<OnceCell<usize>>, value: usize) -> usize {
    let me = cell.me();
    loop {
        let start = cell.run(|c, pool| match c.get_or_init(|| value, me, pool) {
            Ok(wakes) => (Ok(*c.get().unwrap()), wakes),
            Err((_, waiter)) => (Err(waiter), Vec::new()),
        });
        let mut waiter = match start {
            Ok(v) => return v,
            Err(waiter) => waiter,
        };
        let step = cell.wait(|c, _| match c.wait_step(&mut waiter) {
            OnceStep::Again(step) => Go::Again(step),
            other => Go::Done(other, Vec::new()),
        });
        if step == OnceStep::Done(Step::Initializing) {
            cell.run(|c, pool| ((), c.complete(value, pool)));
        }
    }
}

#[test]
fn loom_mutex_handoff() {
    model(|| {
        let mutex = Shared::new(Mutex::new(0usize));
        let handles: Vec<_> = (0..2)
            .map(|_| {
                let mutex = Arc::clone(&mutex);
                thread::spawn(move || {
                    let mut guard = lock(&mutex);
                    *guard.deref_mut() += 1;
                    unlock(&mutex, guard);
                })
            })
            .collect();
        for h in handles {
            h.join().unwrap();
        }
        assert_eq!(*lock(&mutex), 2);
    });
}

#[test]
fn loom_mutex_try_lock() {
    model(|| {
        let mutex = Shared::new(Mutex::new(0usize));
        let t = {
            let mutex = Arc::clone(&mutex);
            thread::spawn(move || {
                if let Some(mut g) = mutex.look(|m| m.try_lock()) {
                    *g.deref_mut() += 1;
                    unlock(&mutex, g);
                }
            })
        };
        if let Some(mut g) = mutex.look(|m| m.try_lock()) {
            *g.deref_mut() += 1;
            unlock(&mutex, g);
        }
        t.join().unwrap();
    });
}

fn add_one(mutex: &Shared<AsyncMutex<usize>>) {
    loom::future::block_on(async {
        let request = mutex.look(|m| m.lock());
        let mut guard = mutex
            .task(|m, pool, waker| (m.poll(&request, waker, pool), Vec::new()))
            .await;
        *guard.deref_mut() += 1;
        mutex.run(|m, pool| ((), m.unlock(guard, pool)));
    });
}

#[test]
fn loom_async_mutex() {
    model(|| {
        let mutex = Shared::new(AsyncMutex::new(0usize));
        let t = {
            let mutex = Arc::clone(&mutex);
            thread::spawn(move || add_one(&mutex))
        };
        add_one(&mutex);
        t.join().unwrap();
        assert_eq!(*mutex.look(|m| m.try_lock()).unwrap(), 2);
    });
}

#[test]
fn loom_semaphore_release_acquire() {
    model(|| {
        // One permit, two contenders: the permit must be handed over without
        // ever being lost.
        let sem = Shared::new(Semaphore::new(1));
        let t = {
            let sem = Arc::clone(&sem);
            thread::spawn(move || {
                let permit = acquire(&sem, 1).ok().unwrap();
                sem.run(|s, pool| ((), s.release(permit, pool)));
            })
        };
        let permit = acquire(&sem, 1).ok().unwrap();
        sem.run(|s, pool| ((), s.release(permit, pool)));
        t.join().unwrap();
        assert_eq!(sem.look(|s| s.available_permits()), 1);
    });
}

#[test]
fn loom_semaphore_acquire_many_partial() {
    model(|| {
        // The waiter needs 2 permits released one at a time by two threads.
        let sem = Shared::new(Semaphore::new(0));
        let releasers: Vec<_> = (0..2)
            .map(|_| {
                let sem = Arc::clone(&sem);
                thread::spawn(move || sem.run(|s, pool| ((), s.add_permits(1, pool))))
            })
            .collect();
        let permit = acquire(&sem, 2).ok().unwrap();
        sem.run(|s, pool| ((), s.release(permit, pool)));
        for h in releasers {
            h.join().unwrap();
        }
        assert_eq!(sem.look(|s| s.available_permits()), 2);
    });
}

#[test]
fn loom_semaphore_close_race() {
    model(|| {
        let sem = Shared::new(Semaphore::new(0));
        let closer = {
            let sem = Arc::clone(&sem);
            thread::spawn(move || sem.run(|s, pool| ((), s.close(pool))))
        };
        // Either we fail at once or we park and are woken with the error.
        assert!(acquire(&sem, 1).is_err());
        closer.join().unwrap();
    });
}

#[test]
fn loom_semaphore_try_acquire_vs_release() {
    model(|| {
        let sem = Shared::new(Semaphore::new(0));
        let t = {
            let sem = Arc::clone(&sem);
            thread::spawn(move || sem.run(|s, pool| ((), s.add_permits(1, pool))))
        };
        match sem.look(|s| s.try_acquire()) {
            Ok(p) => sem.run(|s, pool| ((), s.release(p, pool))),
            Err(TryAcquireError::NoPermits) => {}
            Err(TryAcquireError::Closed) => panic!("never closed"),
        }
        t.join().unwrap();
        assert_eq!(sem.look(|s| s.available_permits()), 1);
    });
}

#[test]
fn loom_async_semaphore_cancel_race() {
    model(|| {
        // A request that is polled once and dropped races with a release.
        // Afterwards exactly one permit must remain.
        let sem = Shared::new(AsyncSemaphore::new(0));
        let t = {
            let sem = Arc::clone(&sem);
            thread::spawn(move || sem.run(|s, pool| ((), s.add_permits(1, pool))))
        };
        {
            let request = sem.look(|s| s.acquire());
            let mut cx = Context::from_waker(Waker::noop());
            let waker = sem.waker(&mut cx);
            let polled = sem.run(|s, pool| s.poll(&request, waker, pool));
            sem.run(|s, pool| match s.drop_request(&request, pool) {
                Withdrawn::Done(wakes) => ((), wakes),
                Withdrawn::InFlight => panic!("signals are sent in the turn that pops"),
            });
            if let Poll::Ready(Ok(permit)) = polled {
                sem.run(|s, pool| ((), s.release(permit, pool)));
            }
        }
        t.join().unwrap();
        assert_eq!(sem.look(|s| s.available_permits()), 1);
    });
}

fn read<R>(lock: &Shared<RwLock<usize>>, f: impl FnOnce(usize) -> R) -> R {
    let me = lock.me();
    let guard = match lock.turn(|l, pool| l.read(me, pool)) {
        Enter::Ready(guard) => guard,
        Enter::Wait(mut waiter) => lock.wait(|l, pool| match l.read_step(&mut waiter, pool) {
            EnterStep::Done(guard) => Go::Done(guard, Vec::new()),
            EnterStep::Again(step) => Go::Again(step),
        }),
    };
    let value = lock.look(|l| *l.data(&guard));
    let r = f(value);
    lock.run(|l, pool| ((), l.release_read(guard, pool)));
    r
}

#[test]
fn loom_rwlock_read_write_exclusion() {
    model(|| {
        let lock = Shared::new(RwLock::with_max_readers(0usize, 2));
        let writers_active = Arc::new(AtomicUsize::new(0));
        let t = {
            let lock = Arc::clone(&lock);
            let writers_active = Arc::clone(&writers_active);
            thread::spawn(move || {
                let me = lock.me();
                let mut g = match lock.turn(|l, pool| l.write(me, pool)) {
                    Enter::Ready(guard) => guard,
                    Enter::Wait(mut waiter) => {
                        lock.wait(|l, pool| match l.write_step(&mut waiter, pool) {
                            EnterStep::Done(guard) => Go::Done(guard, Vec::new()),
                            EnterStep::Again(step) => Go::Again(step),
                        })
                    }
                };
                writers_active.store(1, Ordering::Relaxed);
                *g.deref_mut() += 1;
                writers_active.store(0, Ordering::Relaxed);
                lock.run(|l, pool| ((), l.release_write(g, pool)));
            })
        };
        read(&lock, |_| {
            // A writer can never be active while we hold a read guard.
            assert_eq!(writers_active.load(Ordering::Relaxed), 0);
        });
        t.join().unwrap();
        assert_eq!(read(&lock, |v| v), 1);
    });
}

#[test]
fn loom_rwlock_two_readers() {
    model(|| {
        let lock = Shared::new(RwLock::with_max_readers(7usize, 2));
        let t = {
            let lock = Arc::clone(&lock);
            thread::spawn(move || read(&lock, |v| v))
        };
        assert_eq!(read(&lock, |v| v), 7);
        assert_eq!(t.join().unwrap(), 7);
        assert!(lock.look(|l| l.try_write().is_some()));
    });
}

#[test]
fn loom_notify_no_lost_wakeup() {
    model(|| {
        // The notification must never be lost: the wait must always return.
        let notify = Shared::new(Notify::new());
        let waiter = {
            let notify = Arc::clone(&notify);
            thread::spawn(move || {
                let me = notify.me();
                if let Wait::Wait(mut waiter) = notify.turn(|n, pool| n.wait(me, pool)) {
                    notify.wait(|n, _| match n.wait_step(&mut waiter) {
                        None => Go::Done((), Vec::new()),
                        Some(step) => Go::Again(step),
                    });
                }
            })
        };
        notify.run(|n, pool| ((), n.notify_one(pool)));
        waiter.join().unwrap();
    });
}

#[test]
fn loom_notify_waiters_generation() {
    model(|| {
        let notify = Shared::new(AsyncNotify::new());
        let t = {
            let notify = Arc::clone(&notify);
            thread::spawn(move || {
                let request = notify.look(|n| n.notified());
                notify.run(|n, pool| ((), n.notify_one(pool)));
                loom::future::block_on(
                    notify.task(|n, pool, waker| (n.poll(&request, waker, pool), Vec::new())),
                );
            })
        };
        notify.run(|n, pool| ((), n.notify_waiters(pool)));
        t.join().unwrap();
    });
}

#[test]
fn loom_barrier_two_parties() {
    model(|| {
        let barrier = Shared::new(Barrier::new(2));
        let t = {
            let barrier = Arc::clone(&barrier);
            thread::spawn(move || wait_sync(&barrier))
        };
        let l1 = wait_sync(&barrier);
        let l2 = t.join().unwrap();
        // Exactly one leader.
        assert!(l1 ^ l2);
    });
}

#[test]
fn loom_barrier_reuse() {
    model(|| {
        let barrier = Shared::new(AsyncBarrier::new(2).to_sync());
        let t = {
            let barrier = Arc::clone(&barrier);
            thread::spawn(move || {
                wait_sync(&barrier);
                wait_sync(&barrier);
            })
        };
        wait_sync(&barrier);
        wait_sync(&barrier);
        t.join().unwrap();
    });
}

#[test]
fn loom_once_cell_racing_init() {
    model(|| {
        let cell = Shared::new(OnceCell::new());
        let t = {
            let cell = Arc::clone(&cell);
            thread::spawn(move || get_or_init(&cell, 1usize))
        };
        let a = get_or_init(&cell, 2usize);
        let b = t.join().unwrap();
        // Exactly one initializer wins and everyone agrees.
        assert_eq!(a, b);
        assert_eq!(cell.look(|c| *c.get().unwrap()), a);
    });
}

#[test]
fn loom_once_cell_set_race() {
    model(|| {
        let cell = Shared::new(AsyncOnceCell::new());
        let t = {
            let cell = Arc::clone(&cell);
            thread::spawn(move || cell.turn(|c, pool| c.set(1usize, pool).is_ok()))
        };
        let mine = cell.turn(|c, pool| c.set(2usize, pool).is_ok());
        let theirs = t.join().unwrap();
        // Exactly one set succeeds.
        assert!(mine ^ theirs);
        let v = cell.look(|c| *c.get().unwrap());
        assert!(v == 1 || v == 2);
    });
}

#[test]
fn loom_async_rwlock_write_handoff() {
    model(|| {
        let lock = Shared::new(AsyncRwLock::with_max_readers(0usize, 2));
        let t = {
            let lock = Arc::clone(&lock);
            thread::spawn(move || {
                loom::future::block_on(async {
                    let request = lock.look(|l| l.write());
                    let mut guard = lock
                        .task(|l, pool, waker| (l.poll_write(&request, waker, pool), Vec::new()))
                        .await;
                    *guard.deref_mut() += 1;
                    lock.run(|l, pool| ((), l.release_write(guard, pool)));
                });
            })
        };
        loom::future::block_on(async {
            let request = lock.look(|l| l.read());
            let guard = lock
                .task(|l, pool, waker| (l.poll_read(&request, waker, pool), Vec::new()))
                .await;
            lock.run(|l, pool| ((), l.release_read(guard, pool)));
        });
        t.join().unwrap();
        let guard = lock.look(|l| l.try_read()).unwrap();
        assert_eq!(lock.look(|l| *l.data(&guard)), 1);
    });
}
