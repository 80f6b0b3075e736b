//! Xorshift64 pseudo random numbers: deterministic, seeded, with no outside dependency.

use vstd::prelude::*;

verus! {

/// The state that `Rng::new` derives from a seed: the seed is offset by the
/// golden-ratio constant and mixed once, so that neighbouring seeds start far apart.
pub open spec fn seeded_state(seed: u64) -> u64 {
    let s0 = seed.wrapping_add(0x9E37_79B9_7F4A_7C15u64);
    let s1 = (s0 ^ (s0 >> 30u64)).wrapping_mul(0xBF58_476D_1CE4_E5B9u64);
    let s2 = (s1 ^ (s1 >> 27u64)).wrapping_mul(0x94D0_49BB_1331_11EBu64);
    s2 ^ (s2 >> 31u64)
}

/// One xorshift64 step (shifts 13, 7, 17).
pub open spec fn xorshift(x: u64) -> u64 {
    let a = x ^ ((x << 13u64) as u64);
    let b = a ^ (a >> 7u64);
    b ^ ((b << 17u64) as u64)
}

/// A xorshift64 generator.
pub struct Rng {
    state: u64,
}

impl View for Rng {
    type V = u64;

    closed spec fn view(&self) -> u64 {
        self.state
    }
}

impl Rng {
    /// A generator seeded with `seed`.
    pub fn new(seed: u64) -> (rng: Self)
        ensures
            rng@ == seeded_state(seed),
    {
        let mut state = seed.wrapping_add(0x9E37_79B9_7F4A_7C15);
        state = (state ^ (state >> 30)).wrapping_mul(0xBF58_476D_1CE4_E5B9);
        state = (state ^ (state >> 27)).wrapping_mul(0x94D0_49BB_1331_11EB);
        Rng { state: state ^ (state >> 31) }
    }

    /// The next 64 random bits; the state advances to the value returned.
    pub fn next_u64(&mut self) -> (x: u64)
        ensures
            x == xorshift(old(self)@),
            final(self)@ == x,
    {
        let mut x = self.state;
        x ^= x << 13;
        x ^= x >> 7;
        x ^= x << 17;
        self.state = x;
        x
    }
}

} // verus!
