//! Seeds for runs that ask for none.
use rand::RngCore;
use std::time::{SystemTime, UNIX_EPOCH};
use crate::block::block_seed;
use vstd::prelude::*;

verus! {

/// Relies on std's `SystemTime::now`: nanoseconds since the Unix epoch
/// (zero for a clock set before it), truncated to 64 bits.
#[verifier::external_body]
fn clock_nanos() -> u64 {
    SystemTime::now().duration_since(UNIX_EPOCH).unwrap_or_default().as_nanos() as u64
}

/// Relies on rand's `rand::rng()` and `RngCore::next_u64`: a value from the
/// thread-local generator, which the OS seeds.
#[verifier::external_body]
fn os_random_u64() -> u64 {
    rand::rng().next_u64()
}

/// Mixes a clock reading with a random value: their sum modulo 2^64.
pub fn mix_entropy(time_nanos: u64, random: u64) -> (r: u64)
    ensures
        r == block_seed(time_nanos, random as int),
{
    time_nanos.wrapping_add(random)
}

/// A fresh, unpredictable base seed: `mix_entropy` of the clock and an
/// OS-seeded random value.
pub fn generate_call_entropy() -> (r: u64)
    ensures
        exists|time_nanos: u64, random: u64| r == block_seed(time_nanos, random as int),
{
    let time_entropy = clock_nanos();
    let random_entropy = os_random_u64();
    mix_entropy(time_entropy, random_entropy)
}

} // verus!
