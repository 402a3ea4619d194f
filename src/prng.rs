use vstd::prelude::*;
use vstd::wrapping::u64_specs::wrapping_mul;

verus! {

/// A xorshift pseudorandom generator with a fixed, caller-chosen seed.
pub struct Prng {
    pub state: u64,
}

pub const PRNG_MULTIPLIER: u64 = 2685821657736338717;

/// One xorshift step of the state.
pub open spec fn xorshift(s: u64) -> u64 {
    let a = s ^ (s >> 12u64);
    let b = a ^ (a << 25u64);
    b ^ (b >> 27u64)
}

impl Prng {
    pub fn new(seed: u64) -> (r: Prng)
        ensures
            r.state == seed,
    {
        Prng { state: seed }
    }

    /// Advances the state by one xorshift step and returns it scrambled by a fixed multiplier.
    pub fn random_u64(&mut self) -> (r: u64)
        ensures
            final(self).state == xorshift(old(self).state),
            r == wrapping_mul(xorshift(old(self).state), PRNG_MULTIPLIER),
    {
        let mut result = self.state;
        result = result ^ (result >> 12);
        result = result ^ (result << 25);
        result = result ^ (result >> 27);
        self.state = result;
        result.wrapping_mul(PRNG_MULTIPLIER)
    }

    /// A random number with few bits set: the AND of three draws.
    pub fn sparse_random_u64(&mut self) -> (r: u64)
        ensures
            final(self).state == xorshift(xorshift(xorshift(old(self).state))),
            r == wrapping_mul(xorshift(old(self).state), PRNG_MULTIPLIER) & wrapping_mul(
                xorshift(xorshift(old(self).state)),
                PRNG_MULTIPLIER,
            ) & wrapping_mul(xorshift(xorshift(xorshift(old(self).state))), PRNG_MULTIPLIER),
    {
        let a = self.random_u64();
        let b = self.random_u64();
        let c = self.random_u64();
        a & b & c
    }
}

} // verus!
