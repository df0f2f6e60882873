//! Deterministic pseudo-random source, injected wherever the library needs
//! randomness so that construction is reproducible from a seed: a
//! splitmix-style generator over a 64-bit additive state.
use vstd::prelude::*;
use vstd::wrapping::u64_specs;

verus! {

/// One advance of the generator state: an additive 64-bit Weyl step.
pub open spec fn next_state(s: u64) -> u64 {
    u64_specs::wrapping_add(s, 0x9E37_79B9_7F4A_7C15)
}

/// The output mixing of a state word: xor-shifts and odd-constant products.
pub open spec fn mix(s: u64) -> u64 {
    let a = u64_specs::wrapping_mul(s ^ (s >> 30u64), 0xBF58_476D_1CE4_E5B9);
    let b = u64_specs::wrapping_mul(a ^ (a >> 27u64), 0x94D0_49BB_1331_11EB);
    b ^ (b >> 31u64)
}

/// A seedable random source; every draw is a function of the state alone.
pub struct Rand64 {
    pub state: u64,
}

impl Rand64 {
    /// Starts the generator at the given seed.
    pub fn new(seed: u64) -> (r: Self)
        ensures
            r.state == seed,
    {
        Rand64 { state: seed }
    }

    /// Draws one 64-bit word and advances the state.
    pub fn next_u64(&mut self) -> (r: u64)
        ensures
            final(self).state == next_state(old(self).state),
            r == mix(next_state(old(self).state)),
    {
        self.state = self.state.wrapping_add(0x9E37_79B9_7F4A_7C15);
        let s = self.state;
        let a = (s ^ (s >> 30u64)).wrapping_mul(0xBF58_476D_1CE4_E5B9);
        let b = (a ^ (a >> 27u64)).wrapping_mul(0x94D0_49BB_1331_11EB);
        b ^ (b >> 31u64)
    }

    /// Draws a value below `bound` and advances the state.
    pub fn next_below(&mut self, bound: u64) -> (r: u64)
        requires
            1 <= bound,
        ensures
            final(self).state == next_state(old(self).state),
            r == mix(next_state(old(self).state)) % bound,
            r < bound,
    {
        let v = self.next_u64();
        v % bound
    }
}

} // verus!
