//! The permit word of a semaphore: permits above two flag bits.
use vstd::prelude::*;

verus! {

/// Bit 0: the semaphore has been closed.
pub const CLOSED: usize = 1;

/// Bit 1: waiters may be parked. While it is set nobody takes permits past
/// them, which keeps the semaphore strictly FIFO.
pub const HAS_QUEUE: usize = 2;

/// Where the permit count starts.
pub const PERMIT_SHIFT: u32 = 2;

/// The most permits a semaphore can hold.
pub const MAX_PERMITS: usize = usize::MAX / 8;

/// The permits in a permit word.
pub open spec fn word_permits(word: usize) -> nat {
    (word / 4) as nat
}

/// The waiter flag of a permit word.
pub open spec fn word_flag(word: usize) -> bool {
    (word / 2) % 2 == 1
}

/// The closed flag of a permit word.
pub open spec fn word_closed(word: usize) -> bool {
    word % 2 == 1
}

/// Shifts and masks of a permit word, as arithmetic.
pub proof fn lemma_word(word: usize)
    ensures
        word >> PERMIT_SHIFT == word / 4,
        (word & CLOSED != 0) == word_closed(word),
        (word & HAS_QUEUE != 0) == word_flag(word),
        word | CLOSED == if word_closed(word) {
            word as int
        } else {
            word + 1
        },
        word | HAS_QUEUE == if word_flag(word) {
            word as int
        } else {
            word + 2
        },
        word & !HAS_QUEUE == if word_flag(word) {
            word - 2
        } else {
            word as int
        },
        word & (CLOSED | HAS_QUEUE) == word % 4,
{
    assert(word >> 2u32 == word / 4) by (bit_vector);
    assert((word & 1 != 0) == (word % 2 == 1)) by (bit_vector);
    assert((word & 2 != 0) == ((word / 2) % 2 == 1)) by (bit_vector);
    assert(word | 1 == if word % 2 == 1 {
        word as int
    } else {
        word + 1
    }) by (bit_vector);
    assert(word | 2 == if (word / 2) % 2 == 1 {
        word as int
    } else {
        word + 2
    }) by (bit_vector);
    assert(word & !2 == if (word / 2) % 2 == 1 {
        word - 2
    } else {
        word as int
    }) by (bit_vector);
    assert(word & (1usize | 2usize) == word % 4) by (bit_vector);
}

/// A permit count moved into place.
pub proof fn lemma_shift(n: usize)
    requires
        n <= MAX_PERMITS,
    ensures
        n << PERMIT_SHIFT == 4 * n,
{
    let max = usize::MAX;
    assert(n << 2u32 == 4 * n) by (bit_vector)
        requires
            n <= max / 8,
    ;
}

} // verus!
