//! Sizes that govern block-based generation.
use vstd::prelude::*;

verus! {

/// Default block size for generation (4 MiB).
pub const BLOCK_SIZE: usize = 4194304;

/// Smallest block size a configuration may request (1 MiB).
pub const MIN_BLOCK_SIZE: usize = 1048576;

/// Largest block size a configuration may request (32 MiB).
pub const MAX_BLOCK_SIZE: usize = 33554432;

/// Smallest amount of data a session produces: one default block.
pub const MIN_SIZE: usize = BLOCK_SIZE;

/// Advisory chunk size for streaming callers (32 MiB).
pub const RECOMMENDED_CHUNK_SIZE: usize = 33554432;

/// Clamps a requested block size into the accepted range.
pub fn clamp_block_size(requested: usize) -> (r: usize)
    ensures
        MIN_BLOCK_SIZE <= r <= MAX_BLOCK_SIZE,
        MIN_BLOCK_SIZE <= requested <= MAX_BLOCK_SIZE ==> r == requested,
        requested < MIN_BLOCK_SIZE ==> r == MIN_BLOCK_SIZE,
        requested > MAX_BLOCK_SIZE ==> r == MAX_BLOCK_SIZE,
{
    if requested < MIN_BLOCK_SIZE {
        MIN_BLOCK_SIZE
    } else if requested > MAX_BLOCK_SIZE {
        MAX_BLOCK_SIZE
    } else {
        requested
    }
}

} // verus!
