//! The primitives for tasks, on a multi-threaded runtime.
use std::future::Future;
use std::sync::atomic::{AtomicUsize, Ordering};
use std::sync::Arc;
use std::task::{Context, Waker};

use tokio::runtime::{Builder, Runtime};
use xutex::once_ops::Step;
use xutex::pool::QueuePool;
use xutex::signal::{Poll, Wake};
use xutex::{AsyncBarrier, AsyncNotify, AsyncOnceCell, AsyncRwLock, AsyncSemaphore};

fn runtime(workers: usize) -> Runtime {
    Builder::new_multi_thread()
        .worker_threads(workers)
        .enable_all()
        .build()
        .unwrap()
}

/// A primitive that tasks share, with the wakers that its numbers stand for.
struct Shared<C> {
    state: std::sync::Mutex<State<C>>,
}

struct State<C> {
    core: C,
    pool: QueuePool,
    wakers: Vec<Waker>,
}

impl<C> Shared<C> {
    fn new(core: C) -> Arc<Self> {
        Arc::new(Shared {
            state: std::sync::Mutex::new(State {
                core,
                pool: QueuePool::new(1),
                wakers: Vec::new(),
            }),
        })
    }

    /// One operation, after which whoever has to be woken is woken.
    fn run<R>(&self, f: impl FnOnce(&mut C, &mut QueuePool) -> (R, Vec<Wake>)) -> R {
        let mut guard = self.state.lock().unwrap();
        let state = &mut *guard;
        let (r, wakes) = f(&mut state.core, &mut state.pool);
        let mut wakers = Vec::new();
        for wake in wakes {
            if let Wake::Task(n) = wake {
                wakers.push(state.wakers[n].clone());
            }
        }
        drop(guard);
        for waker in wakers {
            waker.wake();
        }
        r
    }

    fn look<R>(&self, f: impl FnOnce(&mut C) -> R) -> R {
        self.run(|core, _| (f(core), Vec::new()))
    }

    fn task<'a, R: 'a>(
        &'a self,
        mut poll: impl FnMut(&mut C, &mut QueuePool, usize) -> (Poll<R>, Vec<Wake>) + 'a,
    ) -> impl Future<Output = R> + 'a {
        std::future::poll_fn(move |cx: &mut Context<'_>| {
            let waker = {
                let mut state = self.state.lock().unwrap();
                state.wakers.push(cx.waker().clone());
                state.wakers.len() - 1
            };
            match self.run(|core, pool| poll(core, pool, waker)) {
                Poll::Ready(r) => std::task::Poll::Ready(r),
                Poll::Pending => std::task::Poll::Pending,
            }
        })
    }
}

#[test]
fn test_async_semaphore_tokio() {
    let rt = runtime(4);
    let sem = Shared::new(AsyncSemaphore::new(3));
    let active = Arc::new(AtomicUsize::new(0));

    rt.block_on(async {
        let mut handles = vec![];
        for _ in 0..64 {
            let sem = Arc::clone(&sem);
            let active = Arc::clone(&active);
            handles.push(tokio::spawn(async move {
                for _ in 0..64 {
                    let request = sem.look(|s| s.acquire());
                    let permit = sem
                        .task(|s, pool, waker| s.poll(&request, waker, pool))
                        .await
                        .ok()
                        .unwrap();
                    let now = active.fetch_add(1, Ordering::AcqRel) + 1;
                    assert!(now <= 3);
                    tokio::task::yield_now().await;
                    active.fetch_sub(1, Ordering::AcqRel);
                    sem.run(|s, pool| ((), s.release(permit, pool)));
                }
            }));
        }
        for h in handles {
            h.await.unwrap();
        }
    });
    assert_eq!(sem.look(|s| s.available_permits()), 3);
}

#[test]
fn test_async_rwlock_tokio() {
    let rt = runtime(4);
    let lock = Shared::new(AsyncRwLock::new(0usize));

    rt.block_on(async {
        let mut handles = vec![];
        for i in 0..32 {
            let lock = Arc::clone(&lock);
            handles.push(tokio::spawn(async move {
                for _ in 0..128 {
                    if i % 4 == 0 {
                        let request = lock.look(|l| l.write());
                        let mut guard = lock
                            .task(|l, pool, waker| {
                                (l.poll_write(&request, waker, pool), Vec::new())
                            })
                            .await;
                        *guard.deref_mut() += 1;
                        lock.run(|l, pool| ((), l.release_write(guard, pool)));
                    } else {
                        let request = lock.look(|l| l.read());
                        let guard = lock
                            .task(|l, pool, waker| (l.poll_read(&request, waker, pool), Vec::new()))
                            .await;
                        let _ = lock.look(|l| *l.data(&guard));
                        lock.run(|l, pool| ((), l.release_read(guard, pool)));
                    }
                    tokio::task::yield_now().await;
                }
            }));
        }
        for h in handles {
            h.await.unwrap();
        }
        let guard = lock.look(|l| l.try_read()).unwrap();
        assert_eq!(lock.look(|l| *l.data(&guard)), 8 * 128);
    });
}

#[test]
fn test_async_notify_tokio() {
    let rt = runtime(2);
    let notify = Shared::new(AsyncNotify::new());
    rt.block_on(async {
        let handle = {
            let notify = Arc::clone(&notify);
            tokio::spawn(async move {
                let request = notify.look(|n| n.notified());
                notify
                    .task(|n, pool, waker| (n.poll(&request, waker, pool), Vec::new()))
                    .await
            })
        };
        tokio::task::yield_now().await;
        notify.run(|n, pool| ((), n.notify_one(pool)));
        handle.await.unwrap();
    });
}

#[test]
fn test_async_barrier_tokio() {
    let rt = runtime(4);
    let barrier = Shared::new(AsyncBarrier::new(16));
    rt.block_on(async {
        let mut handles = vec![];
        for _ in 0..16 {
            let barrier = Arc::clone(&barrier);
            handles.push(tokio::spawn(async move {
                let request = barrier.look(|b| b.wait());
                barrier
                    .task(|b, pool, waker| b.poll(&request, waker, pool))
                    .await
                    .is_leader()
            }));
        }
        let mut leaders = 0;
        for h in handles {
            if h.await.unwrap() {
                leaders += 1;
            }
        }
        assert_eq!(leaders, 1);
    });
}

#[test]
fn test_async_once_cell_tokio() {
    let rt = runtime(4);
    let cell = Shared::new(AsyncOnceCell::new());
    let inits = Arc::new(AtomicUsize::new(0));
    rt.block_on(async {
        let mut handles = vec![];
        for i in 0..32 {
            let cell = Arc::clone(&cell);
            let inits = Arc::clone(&inits);
            handles.push(tokio::spawn(async move {
                let mut request = cell.look(|c| c.get_or_init()).request;
                let step = cell
                    .task(|c, pool, waker| (c.poll_wait(&mut request, waker, pool), Vec::new()))
                    .await;
                if step == Step::Initializing {
                    inits.fetch_add(1, Ordering::AcqRel);
                    tokio::task::yield_now().await;
                    cell.run(|c, pool| ((), c.finish(&mut request, i, pool)));
                }
                cell.look(|c| *c.get().unwrap())
            }));
        }
        let mut values: Vec<i32> = vec![];
        for h in handles {
            values.push(h.await.unwrap());
        }
        assert_eq!(inits.load(Ordering::Acquire), 1);
        assert!(values.iter().all(|v| v == &values[0]));
    });
}
