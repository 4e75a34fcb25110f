//! Exponential back-off for loops that wait for another thread.
use vstd::prelude::*;

verus! {

/// What one back-off step asks of the thread.
#[derive(Clone, Copy, Debug, PartialEq, Eq, Structural)]
pub enum Pause {
    /// Run that many rounds of the processor's spin hint.
    Spin(u32),
    /// Give up the rest of the time slice.
    Yield,
}

/// Two to the power of `n`.
pub open spec fn doublings(n: nat) -> nat
    decreases n,
{
    if n == 0 {
        1
    } else {
        2 * doublings((n - 1) as nat)
    }
}

/// The pause after `spin` earlier steps: bursts that double with every step
/// up to 32 rounds, then yields.
pub open spec fn pause_after(spin: u32) -> Pause {
    if spin <= 6 {
        Pause::Spin(
            doublings(
                if spin < 5 {
                    spin as nat
                } else {
                    5
                },
            ) as u32,
        )
    } else {
        Pause::Yield
    }
}

impl Pause {
    /// The same pause on a machine with `parallelism` processors: spinning on
    /// a single one only wastes its cycles, so it becomes a yield there.
    pub fn on(self, parallelism: usize) -> (r: Pause)
        ensures
            r == if parallelism > 1 {
                self
            } else {
                Pause::Yield
            },
    {
        if parallelism > 1 {
            self
        } else {
            Pause::Yield
        }
    }
}

/// The back-off of one waiting loop: a bare counter of the steps taken.
#[derive(Clone, Copy, Debug, PartialEq, Eq, Structural)]
pub struct Backoff {
    spin: u32,
}

impl View for Backoff {
    type V = u32;

    closed spec fn view(&self) -> u32 {
        self.spin
    }
}

impl Backoff {
    /// No step taken yet.
    pub fn new() -> (r: Self)
        ensures
            r@ == 0,
    {
        Backoff { spin: 0 }
    }

    /// One back-off step.
    pub fn snooze(&mut self) -> (r: Pause)
        ensures
            final(self)@ == if old(self)@ < u32::MAX {
                (old(self)@ + 1) as u32
            } else {
                u32::MAX
            },
            r == pause_after(old(self)@),
    {
        let spin: u32 = self.spin;
        self.spin = spin.saturating_add(1);
        if spin <= 6 {
            let step: u32 = if spin < 5 {
                spin
            } else {
                5
            };
            proof {
                reveal_with_fuel(doublings, 7);
                assert(1u32 << 0u32 == 1 && 1u32 << 1u32 == 2 && 1u32 << 2u32 == 4 && 1u32 << 3u32
                    == 8 && 1u32 << 4u32 == 16 && 1u32 << 5u32 == 32) by (bit_vector);
            }
            Pause::Spin(1u32 << step)
        } else {
            Pause::Yield
        }
    }

    /// Whether the loop has spun for long enough to do something else.
    pub fn is_completed(&self) -> (r: bool)
        ensures
            r == (self@ > 32),
    {
        self.spin > 32
    }
}

/// The number of processors, looked up once.
///
/// `slot` caches the answer (zero: not looked up yet); `available` is what the
/// system says, if it says anything.
pub fn get_parallelism(slot: &mut usize, available: Option<usize>) -> (r: usize)
    ensures
        r == if *old(slot) != 0 {
            *old(slot)
        } else {
            parallelism_of(available)
        },
        *final(slot) == r,
{
    let cached: usize = *slot;
    if cached != 0 {
        return cached;
    }
    init_parallelism(slot, available)
}

/// What the system's answer stands for: one processor if it does not say.
pub open spec fn parallelism_of(available: Option<usize>) -> usize {
    match available {
        Some(n) => n,
        None => 1,
    }
}

fn init_parallelism(slot: &mut usize, available: Option<usize>) -> (r: usize)
    ensures
        r == parallelism_of(available),
        *final(slot) == r,
{
    let parallelism: usize = match available {
        Some(n) => n,
        None => 1,
    };
    *slot = parallelism;
    parallelism
}

} // verus!
