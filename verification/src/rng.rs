//! A small deterministic pseudo-random generator (SplitMix64).
//!
//! Synthetic generators must be reproducible for replay, so they never touch
//! an operating-system source of randomness: the same seed gives the same
//! stream on any platform.

use vstd::prelude::*;

verus! {

/// The SplitMix64 increment.
pub const GOLDEN_GAMMA: u64 = 0x9E37_79B9_7F4A_7C15;

/// The SplitMix64 output function applied to a state.
pub open spec fn splitmix_mix(state: u64) -> u64 {
    let z1 = (state ^ (state >> 30u64)).wrapping_mul(0xBF58_476D_1CE4_E5B9);
    let z2 = (z1 ^ (z1 >> 27u64)).wrapping_mul(0x94D0_49BB_1331_11EB);
    z2 ^ (z2 >> 31u64)
}

/// The state of a generator seeded with `seed` after `n` draws.
pub open spec fn state_after(seed: u64, n: nat) -> u64
    decreases n,
{
    if n == 0 {
        seed.wrapping_add(GOLDEN_GAMMA)
    } else {
        state_after(seed, (n - 1) as nat).wrapping_add(GOLDEN_GAMMA)
    }
}

/// The `n`-th value (counting from zero) drawn from a generator seeded with
/// `seed`.
pub open spec fn nth_draw(seed: u64, n: nat) -> u64 {
    splitmix_mix(state_after(seed, n + 1))
}

pub struct DeterministicRng {
    state: u64,
}

impl DeterministicRng {
    pub closed spec fn state(&self) -> u64 {
        self.state
    }

    pub fn new(seed: u64) -> (rng: DeterministicRng)
        ensures
            rng.state() == state_after(seed, 0),
    {
        DeterministicRng { state: seed.wrapping_add(GOLDEN_GAMMA) }
    }

    /// The next value of the stream.
    pub fn next_u64(&mut self) -> (v: u64)
        ensures
            final(self).state() == old(self).state().wrapping_add(GOLDEN_GAMMA),
            v == splitmix_mix(final(self).state()),
    {
        self.state = self.state.wrapping_add(GOLDEN_GAMMA);
        let mut z = self.state;
        z = (z ^ (z >> 30)).wrapping_mul(0xBF58_476D_1CE4_E5B9);
        z = (z ^ (z >> 27)).wrapping_mul(0x94D0_49BB_1331_11EB);
        z ^ (z >> 31)
    }
}

/// Draw `n` of a seeded generator depends on the seed and `n` alone: after
/// `n` draws a generator seeded with `seed` is in `state_after(seed, n)`, and
/// its next draw is `nth_draw(seed, n)`.
pub proof fn lemma_stream_is_determined(seed: u64, n: nat, before: DeterministicRng, after: DeterministicRng, v: u64)
    requires
        before.state() == state_after(seed, n),
        after.state() == before.state().wrapping_add(GOLDEN_GAMMA),
        v == splitmix_mix(after.state()),
    ensures
        after.state() == state_after(seed, n + 1),
        v == nth_draw(seed, n),
{
}

} // verus!
