# xutex

Synchronization primitives for threads and tasks: a mutex, a semaphore, a
reader-writer lock, a notifier, a barrier, a once-cell and a reentrant mutex.
Each comes as a pair of types, one for threads and one for tasks, that are the
same underneath.

- `src/` is the logic, with contracts proved by Verus. A primitive is a state
  machine; its methods say who has to be woken and when a thread has to pause or
  park, and leave the doing to the caller. The structures in which waiters queue
  come from a pool that all primitives share, and go back to it.
- `app/` does it: it shares a primitive between real threads and wakers, holds
  the pool of the process, and wraps requests and permissions into futures and
  guards.
- `tests/` holds examples of both the parts and the whole.
