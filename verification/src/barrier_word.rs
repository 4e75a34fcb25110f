//! The state word of a barrier: the arrivals of the current round below, the
//! round's generation above.
use vstd::prelude::*;

verus! {

/// Half the bits of a word.
pub const HALF: u32 = usize::BITS / 2;

/// The largest value of either half.
pub const ARRIVED_MASK: usize = !0usize >> HALF;

/// The most parties a barrier can have: what half a word can count to.
pub open spec fn most_parties() -> nat {
    if usize::BITS == 64 {
        0xffff_ffff
    } else {
        0xffff
    }
}

/// That is the largest value of the lower half.
pub proof fn lemma_most_parties()
    ensures
        most_parties() == ARRIVED_MASK,
{
    let half = HALF;
    let mask = ARRIVED_MASK;
    assert(mask == if usize::BITS == 64 {
        0xffff_ffffusize
    } else {
        0xffffusize
    }) by (bit_vector)
        requires
            half == usize::BITS / 2,
            mask == !0usize >> half,
    ;
}

/// The generation in a state word.
pub open spec fn round_of(word: usize) -> usize {
    word >> HALF
}

/// The generation in a state word.
pub fn generation(state: usize) -> (r: usize)
    ensures
        r == round_of(state),
{
    proof {
        lemma_halves(state);
    }
    state >> HALF
}

/// The arrivals in a state word.
pub open spec fn arrived_in(word: usize) -> usize {
    word & ARRIVED_MASK
}

/// The generation after `g`; the count starts again at zero when it has used
/// up its half of the word.
pub open spec fn next_round(g: usize) -> usize {
    if g == most_parties() {
        0
    } else {
        (g + 1) as usize
    }
}

/// The two halves of a state word, as numbers.
pub proof fn lemma_halves(word: usize)
    ensures
        HALF < usize::BITS,
        round_of(word) <= ARRIVED_MASK < usize::MAX,
        arrived_in(word) <= ARRIVED_MASK,
        arrived_in(word) < ARRIVED_MASK ==> word + 1 <= usize::MAX && round_of((word + 1) as usize)
            == round_of(word) && arrived_in((word + 1) as usize) == arrived_in(word) + 1,
        arrived_in(word) > 0 ==> word > 0 && round_of((word - 1) as usize) == round_of(word)
            && arrived_in((word - 1) as usize) == arrived_in(word) - 1,
{
    let half = HALF;
    let mask = ARRIVED_MASK;
    assert(word >> half <= mask && mask < !0usize && word & mask <= mask && (word & mask < mask
        ==> word < !0usize) && (word & mask > 0 ==> word > 0)) by (bit_vector)
        requires
            half == usize::BITS / 2,
            mask == !0usize >> half,
    ;
    if word & mask < mask {
        let up = (word + 1) as usize;
        assert(up >> half == word >> half && up & mask == (word & mask) + 1) by (bit_vector)
            requires
                up == word + 1,
                word & mask < mask,
                half == usize::BITS / 2,
                mask == !0usize >> half,
        ;
    }
    if word & mask > 0 {
        let down = (word - 1) as usize;
        assert(down >> half == word >> half && (down & mask) + 1 == word & mask) by (bit_vector)
            requires
                word == down + 1,
                word & mask > 0,
                half == usize::BITS / 2,
                mask == !0usize >> half,
        ;
    }
}

/// A state word holds its two halves and nothing else: the generation does not
/// depend on the arrivals, nor they on it.
pub proof fn generation_ignores_arrivals(g: usize, arrived: usize)
    requires
        g <= ARRIVED_MASK,
        arrived <= ARRIVED_MASK,
    ensures
        round_of((g << HALF) | arrived) == g,
        arrived_in((g << HALF) | arrived) == arrived,
{
    let half = HALF;
    let mask = ARRIVED_MASK;
    assert(((g << half) | arrived) >> half == g && ((g << half) | arrived) & mask == arrived)
        by (bit_vector)
        requires
            g <= mask,
            arrived <= mask,
            half == usize::BITS / 2,
            mask == !0usize >> half,
    ;
}

/// The word of a round that has just begun.
pub proof fn lemma_new_round(g: usize)
    requires
        g <= ARRIVED_MASK,
    ensures
        g + 1 <= usize::MAX,
        round_of(((g + 1) as usize) << HALF) == next_round(g),
        arrived_in(((g + 1) as usize) << HALF) == 0,
{
    let half = HALF;
    let mask = ARRIVED_MASK;
    lemma_halves(g);
    lemma_most_parties();
    let up = (g + 1) as usize;
    assert(up << half >> half == if g == mask {
        0
    } else {
        up
    } && (up << half) & mask == 0) by (bit_vector)
        requires
            up == g + 1,
            g <= mask,
            half == usize::BITS / 2,
            mask == !0usize >> half,
    ;
}

} // verus!
