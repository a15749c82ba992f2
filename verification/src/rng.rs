use vstd::prelude::*;

verus! {

/// Multiplier of the linear congruential step.
pub const LCG_MULTIPLIER: u64 = 6364136223846793005;

/// Increment of the linear congruential step.
pub const LCG_INCREMENT: u64 = 1442695040888963407;

/// The successor of a generator state: one linear congruential step modulo `2^64`.
pub open spec fn spec_next_state(s: u64) -> u64 {
    ((s * LCG_MULTIPLIER + LCG_INCREMENT) % 0x1_0000_0000_0000_0000) as u64
}

/// The sample drawn from the state reached after one step: the high bits of
/// the new state, reduced modulo `bound`.
pub open spec fn spec_sample(s: u64, bound: u64) -> u64
    recommends
        bound > 0,
{
    ((spec_next_state(s) / 0x2_0000_0000) % bound) as u64
}

/// Deterministic pseudo-random generator used for the packet-loss roll.
///
/// A plain linear congruential generator: the whole sequence is a function of
/// the seed, so a simulation run with a fixed seed is reproducible.  Samples
/// are taken from the high 31 bits of the state, where the generator's period
/// is long.
pub struct SimRng {
    state: u64,
}

impl SimRng {
    /// A generator starting from `seed`.
    pub fn new(seed: u64) -> (r: SimRng)
        ensures
            r.state() == seed,
    {
        SimRng { state: seed }
    }

    /// The current state of the generator.
    pub closed spec fn state(&self) -> u64 {
        self.state
    }

    /// Draws one value in `0 .. bound` from the high bits of the next state.
    pub fn sample(&mut self, bound: u64) -> (r: u64)
        requires
            bound > 0,
        ensures
            final(self).state() == spec_next_state(old(self).state()),
            r == spec_sample(old(self).state(), bound),
            r < bound,
    {
        proof {
            let s = self.state as int;
            assert(s * (LCG_MULTIPLIER as int) <= 0xFFFF_FFFF_FFFF_FFFF * (LCG_MULTIPLIER as int))
                by (nonlinear_arith)
                requires
                    0 <= s <= 0xFFFF_FFFF_FFFF_FFFF,
            ;
        }
        let wide: u128 = (self.state as u128) * (LCG_MULTIPLIER as u128) + (LCG_INCREMENT as u128);
        let next: u64 = (wide % 0x1_0000_0000_0000_0000u128) as u64;
        self.state = next;
        (next / 0x2_0000_0000) % bound
    }
}

} // verus!
