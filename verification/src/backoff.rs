//! How a thread stays out of the way of the others for a moment.

use vstd::prelude::*;

verus! {

/// `core::hint::spin_loop`: tells the processor that the thread is waiting in a loop. It returns
/// nothing and changes nothing that the program can see.
pub assume_specification[ core::hint::spin_loop ]();

/// The most times that `yield_now` spins.
pub const MAX_SPINS: usize = 127;

/// The fewest times that `yield_now` spins.
pub const MIN_SPINS: usize = 31;

/// How often `yield_now` spins, for a seed.
pub open spec fn spins_of(seed: usize) -> usize {
    ((seed >> 24) & 127) | 31
}

/// The seed that follows a seed.
pub open spec fn next_seed(seed: usize) -> usize {
    seed.wrapping_mul(1103515245).wrapping_add(12345)
}

/// A pause is of one of four lengths, 31, 63, 95 or 127, and two bits of the seed choose which.
pub proof fn law_spins(seed: usize)
    ensures
        spins_of(seed) == 31 + 32 * ((seed as int / 536870912) % 4),
        31 <= spins_of(seed) <= 127,
{
    assert(((seed >> 24usize) & 127) | 31 == 31 + 32 * ((seed / 536870912usize) % 4))
        by (bit_vector);
}

/// The seeds follow each other as in a linear congruential generator.
pub proof fn law_seeds(seed: usize)
    ensures
        next_seed(seed) as int == (seed * 1103515245 + 12345) % (usize::MAX + 1),
{
    let modulus = usize::MAX + 1;
    let product = seed * 1103515245;
    assert(seed.wrapping_mul(1103515245) as int == product % modulus);
    vstd::arithmetic::div_mod::lemma_add_mod_noop(product, 12345, modulus);
    assert(12345int % modulus == 12345) by (nonlinear_arith)
        requires
            modulus > 12345,
    ;
}

/// How many hints the next pause of a source is made of, and the source after it.
pub open spec fn paused(backoff: Backoff) -> (usize, Backoff) {
    if backoff.single {
        (1, backoff)
    } else {
        (spins_of(backoff.seed), Backoff { seed: next_seed(backoff.seed), single: false })
    }
}

/// Where a single hint is enough, every pause is one hint and the seed stays; elsewhere a pause is
/// as long as the seed says, and the seed moves on.
pub proof fn law_pause(backoff: Backoff)
    ensures
        paused(backoff).1.single == backoff.single,
        backoff.single ==> paused(backoff).0 == 1 && paused(backoff).1.seed == backoff.seed,
        !backoff.single ==> paused(backoff).0 == 31 + 32 * ((backoff.seed as int / 536870912) % 4),
        !backoff.single ==> paused(backoff).1.seed as int == (backoff.seed * 1103515245 + 12345)
            % (usize::MAX + 1),
{
    law_spins(backoff.seed);
    law_seeds(backoff.seed);
}

/// A source of pauses of random but bounded length, so that threads that got into each other's
/// way do not do so again at once.
///
/// On some processors a single hint takes the thread off the processor for long enough. There
/// `single` is set, and every pause is one hint.
#[derive(Clone, Copy, Debug)]
pub struct Backoff {
    pub seed: usize,
    pub single: bool,
}

impl Backoff {
    /// A source that starts from the given seed, on a processor for which a single hint is enough
    /// or is not.
    pub fn new(seed: usize, single: bool) -> (backoff: Backoff)
        ensures
            backoff.seed == seed,
            backoff.single == single,
    {
        Backoff { seed, single }
    }

    /// Lets the processor rest for a moment.
    pub fn spin_loop_hint() {
        core::hint::spin_loop()
    }

    /// How many hints the next pause is made of. Where a single one is not enough, the seed
    /// moves on.
    pub fn next_pause(&mut self) -> (spins: usize)
        ensures
            final(self).single == old(self).single,
            old(self).single ==> spins == 1 && final(self).seed == old(self).seed,
            !old(self).single ==> {
                &&& spins == spins_of(old(self).seed)
                &&& 31 <= spins <= 127
                &&& final(self).seed == next_seed(old(self).seed)
            },
            (spins, *final(self)) == paused(*old(self)),
    {
        if self.single {
            return 1;
        }
        let seed: usize = self.seed;
        self.seed = seed.wrapping_mul(1103515245).wrapping_add(12345);
        assert(31 <= ((seed >> 24usize) & 127) | 31 <= 127) by (bit_vector);
        ((seed >> 24) & MAX_SPINS) | MIN_SPINS
    }

    /// Spins for a while, and says how often it did.
    pub fn yield_now(&mut self) -> (spins: usize)
        ensures
            final(self).single == old(self).single,
            old(self).single ==> spins == 1 && final(self).seed == old(self).seed,
            !old(self).single ==> {
                &&& spins == spins_of(old(self).seed)
                &&& 31 <= spins <= 127
                &&& final(self).seed == next_seed(old(self).seed)
            },
            (spins, *final(self)) == paused(*old(self)),
    {
        let spins: usize = self.next_pause();
        let mut done: usize = 0;
        while done < spins
            invariant
                done <= spins,
            decreases spins - done,
        {
            Self::spin_loop_hint();
            done = done + 1;
        }
        done
    }
}

} // verus!
