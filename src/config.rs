//! Generation requests and their normalisation.
use crate::constants::{clamp_block_size, BLOCK_SIZE, MAX_BLOCK_SIZE, MIN_BLOCK_SIZE};
use crate::plan::{ceil_div, div_ceil, unique_count, Layout};
use vstd::prelude::*;

verus! {

/// When to apply NUMA-aware placement and thread pinning.
#[derive(Debug, Clone, Copy, PartialEq, Eq, Structural)]
pub enum NumaMode {
    /// Only on systems with more than one NUMA node.
    Auto,
    /// Always, even on single-node systems.
    Force,
    /// Never.
    Disabled,
}

impl Default for NumaMode {
    fn default() -> (r: Self)
        ensures
            r == NumaMode::Auto,
    {
        NumaMode::Auto
    }
}

/// A generation request.
#[derive(Debug, Clone, Copy)]
pub struct GeneratorConfig {
    /// Bytes requested; less than one block is raised to one block.
    pub size: usize,
    /// Physical blocks per unique block (values below one count as one).
    pub dedup_factor: usize,
    /// `N` makes `(N - 1) / N` of every block zero; one (or zero) means
    /// incompressible.
    pub compress_factor: usize,
    /// NUMA policy.
    pub numa_mode: NumaMode,
    /// Worker threads; `None` uses every available CPU.
    pub max_threads: Option<usize>,
    /// Confine work to one NUMA node's cores.
    pub numa_node: Option<usize>,
    /// Block size, clamped to 1 MiB ..= 32 MiB; `None` is 4 MiB.
    pub block_size: Option<usize>,
    /// Base seed; `None` draws one from the clock and the OS generator.
    pub seed: Option<u64>,
}

/// The block size a request resolves to.
pub open spec fn resolved_block_size(requested: Option<usize>) -> nat {
    match requested {
        Some(b) => if b < MIN_BLOCK_SIZE {
            MIN_BLOCK_SIZE as nat
        } else if b > MAX_BLOCK_SIZE {
            MAX_BLOCK_SIZE as nat
        } else {
            b as nat
        },
        None => BLOCK_SIZE as nat,
    }
}

/// Blocks of `block_size` bytes needed to hold `size` bytes.
pub open spec fn blocks_for(size: nat, block_size: nat) -> nat {
    ceil_div(size as int, block_size as int) as nat
}

impl GeneratorConfig {
    /// The block size of this request.
    pub open spec fn spec_block_size(&self) -> nat {
        resolved_block_size(self.block_size)
    }

    /// The size produced: the request, or one block if that is larger.
    pub open spec fn spec_total_size(&self) -> nat {
        let bs = self.spec_block_size();
        if self.size >= bs {
            self.size as nat
        } else {
            bs
        }
    }

    /// The number of physical blocks.
    pub open spec fn spec_block_count(&self) -> nat {
        blocks_for(self.spec_total_size(), self.spec_block_size())
    }

    /// The shape of the stream this request produces.
    pub open spec fn layout(&self) -> Layout {
        Layout {
            block_size: self.spec_block_size(),
            unique_blocks: unique_count(self.spec_block_count(), self.dedup_factor as nat),
            compress_factor: self.compress_factor as nat,
        }
    }

    /// The block size of this request.
    pub fn effective_block_size(&self) -> (r: usize)
        ensures
            r == self.spec_block_size(),
            MIN_BLOCK_SIZE <= r <= MAX_BLOCK_SIZE,
    {
        match self.block_size {
            Some(b) => clamp_block_size(b),
            None => BLOCK_SIZE,
        }
    }

    /// The size produced: at least one block.
    pub fn effective_size(&self) -> (r: usize)
        ensures
            r == self.spec_total_size(),
            r >= self.spec_block_size(),
    {
        let bs = self.effective_block_size();
        if self.size >= bs {
            self.size
        } else {
            bs
        }
    }

    /// The number of physical blocks, the last of which may be partial.
    pub fn block_count(&self) -> (r: usize)
        ensures
            r == self.spec_block_count(),
            r >= 1,
            r * self.spec_block_size() >= self.spec_total_size(),
    {
        div_ceil(self.effective_size(), self.effective_block_size())
    }
}

impl Default for GeneratorConfig {
    fn default() -> (r: Self)
        ensures
            r.size == BLOCK_SIZE,
            r.dedup_factor == 1,
            r.compress_factor == 1,
            r.numa_mode == NumaMode::Auto,
            r.max_threads.is_none(),
            r.numa_node.is_none(),
            r.block_size.is_none(),
            r.seed.is_none(),
    {
        GeneratorConfig {
            size: BLOCK_SIZE,
            dedup_factor: 1,
            compress_factor: 1,
            numa_mode: NumaMode::Auto,
            max_threads: None,
            numa_node: None,
            block_size: None,
            seed: None,
        }
    }
}

} // verus!
