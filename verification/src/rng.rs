//! Seeded pseudorandom source, fully snapshot/restorable.
//!
//! The generator is a 64-bit linear congruential sequence.  Its whole
//! behaviour is a function of the last seed set and the number of draws made
//! since, which is what makes savestate round-trips and replay exact: equal
//! seed and equal draw sequence give equal values, every time.

use vstd::prelude::*;

verus! {

/// Multiplier of the linear congruential step.
pub const RNG_MULTIPLIER: u64 = 6364136223846793005;

/// Increment of the linear congruential step.
pub const RNG_INCREMENT: u64 = 1442695040888963407;

/// The internal state that follows `s` in the linear congruential sequence.
pub open spec fn rng_next_state(s: u64) -> u64 {
    vstd::wrapping::u64_specs::wrapping_add(
        vstd::wrapping::u64_specs::wrapping_mul(s, RNG_MULTIPLIER),
        RNG_INCREMENT,
    )
}

/// Mathematical model of a generator: the seed last set, for display and for
/// replay headers, and the live internal state the next draw will step from.
#[verifier::ext_equal]
pub struct RngV {
    pub seed: u64,
    pub state: u64,
}

/// Deterministic pseudorandom source.
pub struct Rng {
    seed: u64,
    state: u64,
}

impl View for Rng {
    type V = RngV;

    closed spec fn view(&self) -> RngV {
        RngV { seed: self.seed, state: self.state }
    }
}

impl Rng {
    /// A generator freshly seeded with `value`.
    pub fn new(value: u64) -> (r: Rng)
        ensures
            r@ == (RngV { seed: value, state: value }),
    {
        Rng { seed: value, state: value }
    }

    /// Resets the internal state from a 64-bit seed.
    pub fn seed(&mut self, value: u64)
        ensures
            final(self)@ == (RngV { seed: value, state: value }),
    {
        self.seed = value;
        self.state = value;
    }

    /// The seed last set, for display and logging; draws do not change it.
    pub fn current_seed(&self) -> (r: u64)
        ensures
            r == self@.seed,
    {
        self.seed
    }

    /// Draws the next value: steps the internal state once and returns it.
    pub fn next(&mut self) -> (r: u64)
        ensures
            final(self)@ == (RngV {
                seed: old(self)@.seed,
                state: rng_next_state(old(self)@.state),
            }),
            r == rng_next_state(old(self)@.state),
    {
        self.state = self.state.wrapping_mul(RNG_MULTIPLIER).wrapping_add(RNG_INCREMENT);
        self.state
    }

    /// An exact copy, owned independently of `self`.
    pub fn duplicate(&self) -> (r: Rng)
        ensures
            r@ == self@,
    {
        Rng { seed: self.seed, state: self.state }
    }
}

} // verus!
