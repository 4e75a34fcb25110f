//! The pointer word through which a primitive reaches its queue structure.
//!
//! The word is null, or the address of a published structure, or that address
//! with its lowest bit set while one thread has the structure to itself. Two
//! more words mean that the lock the word stands for is held without a queue,
//! and that a thread is fetching a structure at this moment.
use vstd::prelude::*;

use crate::pool::{returned, traded, QueuePool, ADDRESS_END};
use crate::waiters::Waiters;

verus! {

/// The lock is free, or no queue exists.
pub const UNLOCKED: usize = 0;

/// The lock is held and there is no queue.
pub const LOCKED: usize = usize::MAX;

/// A thread is fetching a queue structure.
pub const UPDATING: usize = usize::MAX - 1;

/// Marks an address as taken.
pub fn tag_pointer(ptr: usize) -> (r: usize)
    requires
        ptr % 2 == 0,
    ensures
        r == ptr + 1,
{
    assert(ptr % 2 == 0 ==> ptr | 1 == ptr + 1) by (bit_vector);
    ptr | 1
}

/// Splits a word into the address and the mark.
pub fn untag_pointer(ptr: usize) -> (r: (usize, bool))
    ensures
        r.0 == ptr - ptr % 2,
        r.1 == (ptr % 2 == 1),
{
    assert(ptr & 1 == ptr % 2) by (bit_vector);
    assert(ptr & !1 == ptr - ptr % 2) by (bit_vector);
    (ptr & !1, ptr & 1 == 1)
}

/// What a pointer word means.
#[derive(Clone, Copy, Debug, PartialEq, Eq, Structural)]
pub enum Word {
    /// Null.
    Unlocked,
    /// Held, no queue.
    Locked,
    /// A structure is being fetched.
    Updating,
    /// A published structure.
    Queue,
    /// A structure that one thread has to itself.
    Tagged,
}

impl Word {
    /// One thread has the queue to itself.
    pub open spec fn held(self) -> bool {
        self is Updating || self is Tagged
    }
}

/// The meaning of a pointer word.
pub open spec fn meaning(word: usize) -> Word {
    if word == UNLOCKED {
        Word::Unlocked
    } else if word == LOCKED {
        Word::Locked
    } else if word == UPDATING {
        Word::Updating
    } else if word % 2 == 1 {
        Word::Tagged
    } else {
        Word::Queue
    }
}

/// Decodes a pointer word.
pub fn decode(word: usize) -> (r: Word)
    ensures
        r == meaning(word),
{
    if word == UNLOCKED {
        Word::Unlocked
    } else if word == LOCKED {
        Word::Locked
    } else if word == UPDATING {
        Word::Updating
    } else {
        let (_, tagged) = untag_pointer(word);
        if tagged {
            Word::Tagged
        } else {
            Word::Queue
        }
    }
}

/// A pointer word.
pub struct QueueWord {
    word: usize,
}

impl View for QueueWord {
    type V = Word;

    closed spec fn view(&self) -> Word {
        meaning(self.word)
    }
}

impl QueueWord {
    /// The word stands for the structure at `home`: it is published or marked
    /// under that address, or about to be; and there is none exactly while the
    /// word stands for none.
    pub closed spec fn agrees(&self, home: Option<usize>) -> bool {
        match meaning(self.word) {
            Word::Unlocked | Word::Locked => home is None,
            Word::Updating => home matches Some(address) && address % 2 == 0 && 0 < address
                < ADDRESS_END,
            Word::Queue => home == Some(self.word),
            Word::Tagged => home == Some((self.word - 1) as usize) && self.word > 1,
        }
    }

    /// A word without a queue.
    pub fn new() -> (r: Self)
        ensures
            r@ == Word::Unlocked,
            r.agrees(None),
    {
        QueueWord { word: UNLOCKED }
    }

    /// Reads the word.
    pub fn load(&self) -> (r: Word)
        ensures
            r == self@,
    {
        decode(self.word)
    }

    /// There is no structure exactly while the word stands for none.
    pub proof fn lemma_agrees(&self, home: Option<usize>)
        requires
            self.agrees(home),
        ensures
            (home is None) == (self@ is Unlocked || self@ is Locked),
    {
    }

    /// Exchanges `UNLOCKED` for `LOCKED`.
    pub fn try_lock(&mut self) -> (r: bool)
        ensures
            forall|home: Option<usize>| #[trigger]
                old(self).agrees(home) ==> final(self).agrees(home),
            r == (old(self)@ is Unlocked),
            final(self)@ == if r {
                Word::Locked
            } else {
                old(self)@
            },
    {
        if self.word == UNLOCKED {
            self.word = LOCKED;
            true
        } else {
            false
        }
    }

    /// Exchanges `LOCKED` for `UNLOCKED`.
    pub fn try_unlock(&mut self) -> (r: bool)
        ensures
            forall|home: Option<usize>| #[trigger]
                old(self).agrees(home) ==> final(self).agrees(home),
            r == (old(self)@ is Locked),
            final(self)@ == if r {
                Word::Unlocked
            } else {
                old(self)@
            },
    {
        if self.word == LOCKED {
            self.word = UNLOCKED;
            true
        } else {
            false
        }
    }

    /// Exchanges a word without a queue for `UPDATING` and fetches a structure
    /// for the waiters. The caller has it to itself until it publishes or
    /// retires it.
    pub fn begin_init(&mut self, waiters: &mut Waiters, pool: &mut QueuePool)
        requires
            old(waiters).wf(),
            old(self).agrees(old(waiters).home()),
            old(self)@ is Unlocked || old(self)@ is Locked,
            old(pool)@.serves(None),
        ensures
            final(waiters).wf(),
            final(waiters)@ == old(waiters)@,
            final(self).agrees(final(waiters).home()),
            final(self)@ == Word::Updating,
            old(waiters).home() is None,
            final(waiters).home() is Some,
            traded(old(pool)@, None, final(pool)@, final(waiters).home()),
    {
        let structure = pool.allocate_queue();
        waiters.open(structure);
        self.word = UPDATING;
    }

    /// Sets the mark on a published address, taking the structure.
    pub fn tag(&mut self)
        requires
            old(self)@ is Queue,
        ensures
            forall|home: Option<usize>| #[trigger]
                old(self).agrees(home) ==> final(self).agrees(home),
            final(self)@ == Word::Tagged,
    {
        self.word = tag_pointer(self.word);
    }

    /// Publishes the structure that the caller has to itself.
    pub fn publish(&mut self, waiters: &Waiters)
        requires
            old(self)@.held(),
            old(self).agrees(waiters.home()),
        ensures
            final(self).agrees(waiters.home()),
            final(self)@ == Word::Queue,
    {
        if let Some(address) = waiters.address() {
            self.word = address;
        }
    }

    /// Stores null and gives the empty structure back to the pool.
    pub fn retire(&mut self, waiters: &mut Waiters, pool: &mut QueuePool)
        requires
            old(waiters).wf(),
            old(waiters)@.line.len() == 0,
            old(self)@.held(),
            old(self).agrees(old(waiters).home()),
            old(pool)@.lends(old(waiters).home()),
        ensures
            final(waiters).wf(),
            final(waiters)@ == old(waiters)@,
            final(waiters).home() is None,
            final(self).agrees(None),
            final(self)@ == Word::Unlocked,
            returned(old(pool)@, old(waiters).home(), final(pool)@, None),
    {
        let structure = waiters.close();
        self.word = UNLOCKED;
        pool.deallocate_queue(structure);
    }
}

} // verus!
