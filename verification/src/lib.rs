//! Synchronization primitives that work for threads and for tasks alike: a
//! mutex, a semaphore, a reader-writer lock, a notifier, a barrier, a once-cell
//! and a reentrant mutex.
//!
//! What is here is the whole of their logic: who gets in, who waits, who is
//! woken, in what order, and what happens when somebody gives up. Every
//! primitive is a state machine that takes its turns one at a time. Threads and
//! wakers are numbers; instead of parking or waking, a method says what is to be
//! done ([`signal::Wake`], [`sync_wait::SyncStep`], [`signal::Poll`]), and the
//! caller does it.
//!
//! All primitives but the mutex share the wait queue of [`wait_queue`]: a line
//! of waiter nodes behind a pointer word, fetched from a pool when the first
//! waiter comes and given back when the last one leaves. The mutex keeps its
//! whole state in such a word. The pool ([`pool::QueuePool`]) is one for all
//! primitives: an operation that may fetch a structure or give one back is
//! handed the pool, and says what it did to it.
//!
//! Each primitive comes in layers. The turns that threads take at its words and
//! at its queue (`*_core`) may alternate in any order, and every one of them
//! keeps the primitive's invariant, which says among other things that no
//! wakeup is lost. The operations (`*_ops`) string turns together, and leave
//! everybody alone who takes no part in them ([`keeps`]). The types for threads
//! and for tasks are on top. What holds over many operations, whoever makes them,
//! is stated of the operations (`*_laws`, `*_order`, [`crowd`]): nobody starves,
//! and nothing is lost.
//!
//! What a caller can rely on is stated of the calls themselves, and proved from
//! what they promise: of the methods in `*_calls`, one by one and one after the
//! other, and of the turns in `*_turns`. These modules speak of lines, answers,
//! wakes, permits and values ([`lines`], [`turns`]), not of how a method goes
//! about it.
pub mod backoff;
pub mod barrier;
pub mod barrier_calls;
pub mod barrier_core;
pub mod barrier_ops;
pub mod barrier_turns;
pub mod barrier_word;
pub mod crowd;
pub mod generations;
pub mod keeps;
pub mod lines;
pub mod mutex;
pub mod mutex_calls;
pub mod mutex_core;
pub mod mutex_laws;
pub mod mutex_ops;
pub mod mutex_order;
pub mod mutex_turns;
pub mod notify;
pub mod notify_calls;
pub mod notify_core;
pub mod notify_ops;
pub mod notify_turns;
pub mod once_calls;
pub mod once_cell;
pub mod once_core;
pub mod once_ops;
pub mod once_turns;
mod outside;
pub mod pool;
pub mod pool_calls;
pub mod queue_word;
pub mod reentrant;
pub mod reentrant_calls;
pub mod rwlock;
pub mod rwlock_calls;
pub mod rwlock_core;
pub mod rwlock_order;
pub mod sem_calls;
pub mod sem_core;
pub mod sem_laws;
pub mod sem_ops;
pub mod sem_order;
pub mod sem_turns;
pub mod sem_word;
pub mod semaphore;
pub mod signal;
pub mod signal_calls;
pub mod signal_queue;
pub mod sync_wait;
pub mod totals;
pub mod turns;
pub mod wait_calls;
pub mod wait_queue;
pub mod waiters;

pub use crate::barrier::{AsyncBarrier, AsyncBarrierWaitRequest, Barrier};
pub use crate::barrier_ops::BarrierWaitResult;
pub use crate::mutex::{AsyncLockRequest, AsyncMutex, Mutex};
pub use crate::mutex_core::MutexGuard;
pub use crate::notify::{AsyncNotified, AsyncNotify, Notify};
pub use crate::once_cell::{AsyncGetOrInit, AsyncGetOrTryInit, AsyncOnceCell, OnceCell};
pub use crate::once_ops::SetError;
pub use crate::reentrant::{ReentrantLockRequest, ReentrantMutex, ReentrantMutexGuard};
pub use crate::rwlock::{AsyncReadRequest, AsyncRwLock, AsyncWriteRequest, RwLock};
pub use crate::rwlock_core::{RwLockReadGuard, RwLockWriteGuard};
pub use crate::sem_core::{AcquireError, TryAcquireError};
pub use crate::semaphore::{AsyncAcquireRequest, AsyncSemaphore, Semaphore, SemaphorePermit};
