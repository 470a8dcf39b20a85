//! A small permuted-congruential generator that drives the keystream.

use vstd::prelude::*;

verus! {

/// Multiplier of the linear-congruential seed step.
pub const LCG_MULTIPLIER: u64 = 6364136223846793005;

/// Increment of the linear-congruential seed step.
pub const LCG_INCREMENT: u64 = 3217;

/// The seed that follows `seed`: one linear-congruential step modulo 2^64.
#[verifier::opaque]
pub open spec fn next_seed(seed: u64) -> u64 {
    seed.wrapping_mul(LCG_MULTIPLIER).wrapping_add(LCG_INCREMENT)
}

/// The seed after `n` steps.
pub open spec fn seed_after(seed: u64, n: nat) -> u64
    decreases n,
{
    if n == 0 {
        seed
    } else {
        next_seed(seed_after(seed, (n - 1) as nat))
    }
}

/// The seed mixed by two shift-xor passes, truncated to 32 bits.
pub open spec fn mixed(seed: u64) -> u32 {
    (((seed >> 18u64) ^ seed) >> 27u64) as u32
}

/// The rotation amount: the top five bits of the seed.
pub open spec fn rotation(seed: u64) -> u32 {
    (seed >> 59u64) as u32
}

/// `x` rotated right by `r` bits, for `r < 32`.
pub open spec fn rotate_right(x: u32, r: u32) -> u32 {
    (x >> r) | (x << ((32 - r) as u32 & 31u32))
}

/// The 32-bit value drawn from `seed`.
#[verifier::opaque]
pub open spec fn rng32_of(seed: u64) -> u32 {
    rotate_right(mixed(seed), rotation(seed))
}

/// The 64-bit value drawn from `seed`: two consecutive 32-bit values, high first.
pub open spec fn rng64_of(seed: u64) -> u64 {
    ((rng32_of(seed) as u64) << 32u64) | (rng32_of(next_seed(seed)) as u64)
}

/// Draws a 32-bit value and advances the seed by one step.
pub fn rng_32(seed: &mut u64) -> (r: u32)
    ensures
        r == rng32_of(*old(seed)),
        *final(seed) == next_seed(*old(seed)),
{
    let old_seed: u64 = *seed;
    let stepped: u64 = old_seed.wrapping_mul(LCG_MULTIPLIER).wrapping_add(LCG_INCREMENT);
    assert(stepped == next_seed(old_seed)) by {
        reveal(next_seed);
    }
    *seed = stepped;
    let shifted: u32 = (((old_seed >> 18u64) ^ old_seed) >> 27u64) as u32;
    let rot: u32 = (old_seed >> 59u64) as u32;
    assert(rot < 32) by (bit_vector)
        requires
            rot == (old_seed >> 59u64) as u32,
    ;
    let diff: u32 = 32 - rot;
    let amount: u32 = diff & 31u32;
    assert(amount < 32) by (bit_vector)
        requires
            amount == diff & 31u32,
    ;
    let r: u32 = (shifted >> rot) | (shifted << amount);
    assert(shifted == mixed(old_seed)) by (bit_vector)
        requires
            shifted == (((old_seed >> 18u64) ^ old_seed) >> 27u64) as u32,
    ;
    assert(rot == rotation(old_seed)) by (bit_vector)
        requires
            rot == (old_seed >> 59u64) as u32,
    ;
    assert(r == rotate_right(shifted, rot));
    assert(r == rng32_of(old_seed)) by {
        reveal(rng32_of);
    }
    r
}

/// Draws a 64-bit value from two consecutive 32-bit draws, high half first.
pub fn rng_64(seed: &mut u64) -> (r: u64)
    ensures
        r == rng64_of(*old(seed)),
        *final(seed) == seed_after(*old(seed), 2),
{
    let left: u64 = rng_32(seed) as u64;
    let right: u64 = rng_32(seed) as u64;
    proof {
        reveal_with_fuel(seed_after, 3);
    }
    let r: u64 = (left << 32u64) | right;
    r
}

} // verus!
