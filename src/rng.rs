use vstd::prelude::*;

verus! {

/// Increment of the generator's state on each draw.
pub const GAMMA: u64 = 0x9e37_79b9_7f4a_7c15;

/// First and second multipliers of the output mix.
pub const MIX_A: u64 = 0xbf58_476d_1ce4_e5b9;
pub const MIX_B: u64 = 0x94d0_49bb_1331_11eb;

/// The state that follows `s`.
pub open spec fn step(s: u64) -> u64 {
    s.wrapping_add(GAMMA)
}

/// The number drawn from state `s` (a SplitMix64 output mix).
#[verifier::opaque]
pub open spec fn mix(s: u64) -> u64 {
    let z1 = (s ^ (s >> 30u64)).wrapping_mul(MIX_A);
    let z2 = (z1 ^ (z1 >> 27u64)).wrapping_mul(MIX_B);
    z2 ^ (z2 >> 31u64)
}

/// The state after `n` draws from a generator seeded with `seed`.
pub open spec fn state_after(seed: u64, n: nat) -> u64
    decreases n,
{
    if n == 0 {
        seed
    } else {
        step(state_after(seed, (n - 1) as nat))
    }
}

/// The `n`-th number (counting from zero) drawn from a generator seeded with `seed`.
pub open spec fn draw(seed: u64, n: nat) -> u64 {
    mix(state_after(seed, n + 1))
}

/// A small deterministic pseudo-random source, passed explicitly to whatever needs
/// randomness so that equal seeds give equal runs.
pub struct SeededRng {
    pub state: u64,
}

impl SeededRng {
    pub fn new(seed: u64) -> (r: SeededRng)
        ensures
            r.state == seed,
    {
        SeededRng { state: seed }
    }

    /// Advances the state and returns the next number.
    pub fn next_u64(&mut self) -> (r: u64)
        ensures
            final(self).state == step(old(self).state),
            r == mix(final(self).state),
    {
        self.state = self.state.wrapping_add(GAMMA);
        let s = self.state;
        let z1 = (s ^ (s >> 30u64)).wrapping_mul(MIX_A);
        let z2 = (z1 ^ (z1 >> 27u64)).wrapping_mul(MIX_B);
        proof {
            reveal(mix);
        }
        z2 ^ (z2 >> 31u64)
    }
}

} // verus!
