//! Random draws.
//!
//! Rendering consumes randomness through an explicitly passed generator
//! handle, so every per-pixel computation is side-effect free and the
//! stochastic layer is cleanly separated from the deterministic geometry.
//! The generator itself is a linear congruential step whose behaviour is
//! stated exactly; fresh entropy for seeding comes from the `rand` crate.

use vstd::prelude::*;
use crate::fixed::Fx;
use crate::fixed::SCALE;

verus! {

/// Relies on rand::random: one draw from the thread-local generator.
/// Nothing is promised of the value.
#[verifier::external_body]
fn entropy_u64() -> u64 {
    rand::random()
}

/// One step of the linear congruential generator (Knuth's MMIX
/// multiplier), on the 64-bit ring.
pub open spec fn lcg_next(s: u64) -> u64 {
    ((s * 6364136223846793005 + 1442695040888963407) % 0x10000000000000000) as u64
}

/// An explicitly passed pseudo-random generator: a 64-bit state advanced
/// by `lcg_next`. Given the seed, every draw is a deterministic function
/// of the number of draws made before it.
pub struct Rng {
    pub state: u64,
}

/// The Euclidean remainder of a nonnegative value by a positive modulus.
fn rem_nonneg(x: i128, w: i128) -> (r: i128)
    requires
        x >= 0,
        w > 0,
    ensures
        r == x as int % (w as int),
        0 <= r < w,
{
    proof {
        vstd::arithmetic::div_mod::lemma_mod_bound(x as int, w as int);
        if x == 0 {
            vstd::arithmetic::div_mod::lemma_small_mod(0nat, w as nat);
        }
    }
    x.checked_rem(w).unwrap()
}

impl Rng {
    pub fn new(seed: u64) -> (r: Rng)
        ensures
            r.state == seed,
    {
        Rng { state: seed }
    }

    /// A generator seeded from the system entropy source.
    pub fn from_entropy() -> (r: Rng) {
        Rng { state: entropy_u64() }
    }

    /// Advance the state and return it.
    pub fn next_u64(&mut self) -> (r: u64)
        ensures
            r == lcg_next(old(self).state),
            final(self).state == lcg_next(old(self).state),
    {
        let s: u128 = self.state as u128;
        let n: u128 = (s * 6364136223846793005 + 1442695040888963407) % 0x10000000000000000;
        proof {
            vstd::arithmetic::div_mod::lemma_mod_bound(
                (s * 6364136223846793005 + 1442695040888963407) as int,
                0x10000000000000000,
            );
        }
        let r: u64 = n as u64;
        self.state = r;
        r
    }

    /// A draw in `[lo, hi)`: `lo` plus the next output reduced modulo the
    /// width.
    pub fn next_in(&mut self, lo: Fx, hi: Fx) -> (r: Fx)
        requires
            lo < hi,
            hi - lo <= i128::MAX,
        ensures
            lo <= r < hi,
            r == lo + lcg_next(old(self).state) as int % (hi - lo),
            final(self).state == lcg_next(old(self).state),
    {
        let d = self.next_u64();
        let w: i128 = hi - lo;
        let m: i128 = rem_nonneg(d as i128, w);
        lo + m
    }
}

/// A fixed-point value drawn uniformly from `[0, 1)`, from the thread-local
/// entropy source.
pub fn random_double() -> (r: Fx)
    ensures
        0 <= r < SCALE,
{
    let e = entropy_u64();
    let m: u64 = e % 4294967296;
    m as i128
}

/// A fixed-point value drawn from `[min, max)` (or `min` itself when the
/// interval is empty), from the thread-local entropy source.
pub fn random_double_in(min: Fx, max: Fx) -> (r: Fx)
    requires
        min <= max,
        max - min <= i128::MAX,
    ensures
        min <= r,
        min < max ==> r < max,
        min == max ==> r == min,
{
    if min == max {
        return min;
    }
    let e = entropy_u64();
    let w: i128 = max - min;
    let m: i128 = (e as i128).checked_rem(w).unwrap();
    proof {
        vstd::arithmetic::div_mod::lemma_mod_bound((e as i128) as int, w as int);
    }
    min + m
}

} // verus!
