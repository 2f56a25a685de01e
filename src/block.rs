//! Rendering of a single block: a seeded pseudo-random prefix followed by a
//! run of zero bytes that makes the block compressible.
use rand_xoshiro::rand_core::{RngCore, SeedableRng};
use rand_xoshiro::Xoshiro256PlusPlus;
use vstd::prelude::*;

verus! {

/// The bytes that a xoshiro256++ generator seeded from `seed` (through its
/// `seed_from_u64` expansion) writes with `fill_bytes` into a slice of `len`
/// bytes. These are not prefixes of one another: a tail of four bytes or
/// fewer comes from the upper half of a 64-bit draw.
pub uninterp spec fn keystream(seed: u64, len: nat) -> Seq<u8>;

/// 2^64: block sequence numbers and seeds are added modulo this.
pub open spec fn seed_modulus() -> int {
    0x10000000000000000
}

/// The seed of the block with sequence number `seq` in a stream based at `seed_base`.
pub open spec fn block_seed(seed_base: u64, seq: int) -> u64 {
    ((seed_base as int + seq) % seed_modulus()) as u64
}

/// `n` zero bytes.
pub open spec fn zero_run(n: nat) -> Seq<u8> {
    Seq::new(n, |i: int| 0u8)
}

/// The content of a block of `len` bytes whose trailing `zero_len` bytes
/// (at most the whole block) are zero and whose leading bytes come from the
/// keystream of `seed`.
pub open spec fn block_bytes(seed: u64, len: nat, zero_len: nat) -> Seq<u8> {
    let z = if zero_len <= len { zero_len } else { len };
    let head = (len - z) as nat;
    Seq::new(len, |i: int| if i < head { keystream(seed, head)[i] } else { 0u8 })
}

/// Relies on rand_xoshiro's `Xoshiro256PlusPlus::seed_from_u64` and its
/// `RngCore::fill_bytes`: the slice is overwritten with bytes that depend on
/// the seed and the slice's length alone.
#[verifier::external_body]
fn fill_keystream(out: &mut [u8], seed: u64)
    ensures
        final(out)@.len() == old(out)@.len(),
        final(out)@ == keystream(seed, old(out)@.len()),
{
    let mut rng = Xoshiro256PlusPlus::seed_from_u64(seed);
    rng.fill_bytes(out);
}

/// Sets every byte of `out` to zero.
pub fn fill_zero(out: &mut [u8])
    ensures
        final(out)@ == zero_run(old(out)@.len()),
{
    let n = out.len();
    let mut i: usize = 0;
    while i < n
        invariant
            n == out@.len(),
            0 <= i <= n,
            forall|j: int| 0 <= j < i ==> out@[j] == 0u8,
        decreases n - i,
    {
        out[i] = 0u8;
        i = i + 1;
    }
    assert(out@ =~= zero_run(n as nat));
}

/// Fills one block: the leading `out.len() - compressible_len` bytes with the
/// keystream of `seed_base + block_sequence` (modulo 2^64) and the rest with
/// zeros. A quota at least as long as the block makes the whole block zero.
pub fn fill_block(out: &mut [u8], compressible_len: usize, block_sequence: u64, seed_base: u64)
    ensures
        final(out)@.len() == old(out)@.len(),
        final(out)@ == block_bytes(
            block_seed(seed_base, block_sequence as int),
            old(out)@.len(),
            compressible_len as nat,
        ),
{
    let seed = seed_base.wrapping_add(block_sequence);
    assert(seed == block_seed(seed_base, block_sequence as int));
    let len = out.len();
    if compressible_len == 0 {
        fill_keystream(out, seed);
        assert(out@ =~= block_bytes(seed, len as nat, 0));
    } else {
        let incompressible_len: usize = if compressible_len < len {
            len - compressible_len
        } else {
            0
        };
        let (head, tail) = out.split_at_mut(incompressible_len);
        fill_keystream(head, seed);
        fill_zero(tail);
        assert(out@ =~= block_bytes(seed, len as nat, compressible_len as nat));
    }
}

} // verus!
