//! A seeded, reproducible pseudo-random generator: xoshiro256++ with the
//! SplitMix64 seeding convention (the generator that a small-state,
//! non-cryptographic RNG conventionally uses on 64-bit targets).
//!
//! The whole generator is executable verified code proved against the
//! spec functions below, so the draw sequence is, by contract, a pure
//! function of the seed: same seed, same draws, same shuffle.

use vstd::prelude::*;

verus! {

/// The SplitMix64 state increment (the golden-ratio constant).
pub const PHI: u64 = 0x9e3779b97f4a7c15;

/// Left rotation of a 64-bit word by `k` bits, `0 < k < 64`.
pub open spec fn spec_rotl(x: u64, k: u64) -> u64 {
    (x << k) | (x >> ((64 - k) as u64))
}

/// One SplitMix64 state advance.
pub open spec fn sm64_next(state: u64) -> u64 {
    vstd::wrapping::u64_specs::wrapping_add(state, PHI)
}

/// The SplitMix64 output function on a state.
pub open spec fn sm64_out(state: u64) -> u64 {
    let z1 = vstd::wrapping::u64_specs::wrapping_mul(state ^ (state >> 30u64), 0xbf58476d1ce4e5b9);
    let z2 = vstd::wrapping::u64_specs::wrapping_mul(z1 ^ (z1 >> 27u64), 0x94d049bb133111eb);
    z2 ^ (z2 >> 31u64)
}

/// The xoshiro256++ state seeded from a 64-bit seed: four successive
/// SplitMix64 outputs.
pub open spec fn init_state(seed: u64) -> (u64, u64, u64, u64) {
    let a1 = sm64_next(seed);
    let a2 = sm64_next(a1);
    let a3 = sm64_next(a2);
    let a4 = sm64_next(a3);
    (sm64_out(a1), sm64_out(a2), sm64_out(a3), sm64_out(a4))
}

/// One xoshiro256++ state transition.
pub open spec fn step_state(s: (u64, u64, u64, u64)) -> (u64, u64, u64, u64) {
    let t = s.1 << 17u64;
    let s2a = s.2 ^ s.0;
    let s3a = s.3 ^ s.1;
    let s1b = s.1 ^ s2a;
    let s0b = s.0 ^ s3a;
    let s2b = s2a ^ t;
    let s3b = spec_rotl(s3a, 45);
    (s0b, s1b, s2b, s3b)
}

/// The xoshiro256++ output function on a state.
pub open spec fn out_of(s: (u64, u64, u64, u64)) -> u64 {
    vstd::wrapping::u64_specs::wrapping_add(
        spec_rotl(vstd::wrapping::u64_specs::wrapping_add(s.0, s.3), 23),
        s.0,
    )
}

/// The generator state after `n` draws from the given seed.
pub open spec fn state_at(seed: u64, n: nat) -> (u64, u64, u64, u64)
    decreases n,
{
    if n == 0 {
        init_state(seed)
    } else {
        step_state(state_at(seed, (n - 1) as nat))
    }
}

/// The `n`-th (0-based) 64-bit draw from the given seed.
pub open spec fn draw_at(seed: u64, n: nat) -> u64 {
    out_of(state_at(seed, n))
}

/// A seeded xoshiro256++ generator. The ghost seed and draw count tie
/// the concrete state to `state_at`, so every draw is pinned to
/// `draw_at(seed, k)`.
pub struct SeededRng {
    s0: u64,
    s1: u64,
    s2: u64,
    s3: u64,
    seed: Ghost<u64>,
    drawn: Ghost<nat>,
}

impl SeededRng {
    /// The seed this generator was created from.
    pub closed spec fn seed(self) -> u64 {
        self.seed@
    }

    /// How many 64-bit draws have been taken so far.
    pub closed spec fn drawn(self) -> nat {
        self.drawn@
    }

    /// The concrete state words are exactly the model state after
    /// `drawn` draws from `seed`.
    pub closed spec fn wf(self) -> bool {
        (self.s0, self.s1, self.s2, self.s3) == state_at(self.seed@, self.drawn@)
    }

    /// Seed a fresh generator with the SplitMix64 convention.
    pub fn new(seed: u64) -> (r: SeededRng)
        ensures
            r.wf(),
            r.seed() == seed,
            r.drawn() == 0,
    {
        let a1 = seed.wrapping_add(PHI);
        let a2 = a1.wrapping_add(PHI);
        let a3 = a2.wrapping_add(PHI);
        let a4 = a3.wrapping_add(PHI);
        SeededRng {
            s0: sm_out(a1),
            s1: sm_out(a2),
            s2: sm_out(a3),
            s3: sm_out(a4),
            seed: Ghost(seed),
            drawn: Ghost(0),
        }
    }

    /// Draw the next 64-bit word: exactly `draw_at(seed, k)` for the
    /// current draw count `k`.
    pub fn next_u64(&mut self) -> (r: u64)
        requires
            old(self).wf(),
        ensures
            final(self).wf(),
            final(self).seed() == old(self).seed(),
            final(self).drawn() == old(self).drawn() + 1,
            r == draw_at(old(self).seed(), old(self).drawn()),
    {
        let sum = self.s0.wrapping_add(self.s3);
        let res = ((sum << 23u64) | (sum >> 41u64)).wrapping_add(self.s0);

        let t = self.s1 << 17u64;
        self.s2 = self.s2 ^ self.s0;
        self.s3 = self.s3 ^ self.s1;
        self.s1 = self.s1 ^ self.s2;
        self.s0 = self.s0 ^ self.s3;
        self.s2 = self.s2 ^ t;
        self.s3 = (self.s3 << 45u64) | (self.s3 >> 19u64);

        proof {
            self.drawn@ = old(self).drawn@ + 1;
        }
        res
    }

    /// Draw a value below `n` by reducing the next word modulo `n`.
    pub fn next_below(&mut self, n: u64) -> (r: u64)
        requires
            old(self).wf(),
            n > 0,
        ensures
            final(self).wf(),
            final(self).seed() == old(self).seed(),
            final(self).drawn() == old(self).drawn() + 1,
            r == draw_at(old(self).seed(), old(self).drawn()) % n,
            r < n,
    {
        let d = self.next_u64();
        d % n
    }
}

/// The SplitMix64 output function, executable.
fn sm_out(state: u64) -> (r: u64)
    ensures
        r == sm64_out(state),
{
    let z1 = (state ^ (state >> 30u64)).wrapping_mul(0xbf58476d1ce4e5b9);
    let z2 = (z1 ^ (z1 >> 27u64)).wrapping_mul(0x94d049bb133111eb);
    z2 ^ (z2 >> 31u64)
}

} // verus!
