//! One-shot generation: allocate a buffer for the whole request and fill it.
use crate::buffer::DataBuffer;
use crate::config::{GeneratorConfig, NumaMode};
use crate::constants::BLOCK_SIZE;
use crate::cpus::logical_cpu_count;
use crate::entropy::generate_call_entropy;
use crate::numa::NumaTopology;
use crate::plan::plan;
use crate::pool::{build_pinned_pool, build_pool};
use crate::region::{first_touch, render_window, stream_window};
use crate::threads::{build_cpu_affinity_map, numa_optimization_enabled, resolve_thread_count};
use vstd::prelude::*;

verus! {

/// The bytes one-shot generation of `config` produces with base seed
/// `seed`: the stream from its start, block `i` carrying sequence number
/// `i`, cut to the request's size.
pub open spec fn one_shot_bytes(config: GeneratorConfig, seed: u64) -> Seq<u8> {
    stream_window(config.layout(), seed, 0, 0, 0, config.spec_total_size())
}

/// The request `generate_data_simple` makes.
pub open spec fn simple_config(size: usize, dedup: usize, compress: usize) -> GeneratorConfig {
    GeneratorConfig {
        size,
        dedup_factor: if dedup > 1 { dedup } else { 1 },
        compress_factor: if compress > 1 { compress } else { 1 },
        numa_mode: NumaMode::Auto,
        max_threads: None,
        numa_node: None,
        block_size: None,
        seed: None,
    }
}

/// Generates `size` bytes (at least one 4 MiB block) with default settings
/// and a fresh seed.
pub fn generate_data_simple(size: usize, dedup: usize, compress: usize) -> (r: DataBuffer)
    ensures
        r@.len() == (if size >= BLOCK_SIZE { size as nat } else { BLOCK_SIZE as nat }),
        exists|seed: u64| r@ == one_shot_bytes(simple_config(size, dedup, compress), seed),
{
    let config = GeneratorConfig {
        size,
        dedup_factor: if dedup > 1 {
            dedup
        } else {
            1
        },
        compress_factor: if compress > 1 {
            compress
        } else {
            1
        },
        numa_mode: NumaMode::Auto,
        max_threads: None,
        numa_node: None,
        block_size: None,
        seed: None,
    };
    generate_data(config)
}

/// One-shot output depends on the request's size, block size, factors and
/// seed alone: NUMA mode, node and worker count leave the bytes unchanged.
pub proof fn lemma_one_shot_ignores_placement(c1: GeneratorConfig, c2: GeneratorConfig, seed: u64)
    requires
        c1.size == c2.size,
        c1.dedup_factor == c2.dedup_factor,
        c1.compress_factor == c2.compress_factor,
        c1.block_size == c2.block_size,
    ensures
        one_shot_bytes(c1, seed) == one_shot_bytes(c2, seed),
{
}

/// Generates the whole request into one buffer. No NUMA topology is
/// consulted: the work runs on an unpinned pool of `max_threads` workers
/// (all logical CPUs by default).
pub fn generate_data(config: GeneratorConfig) -> (r: DataBuffer)
    ensures
        r@.len() == config.spec_total_size(),
        config.seed is Some ==> r@ == one_shot_bytes(config, config.seed->0),
        exists|seed: u64| r@ == one_shot_bytes(config, seed),
{
    generate_data_with_topology(config, None, None)
}

/// Generates the whole request into one buffer, using `topology` (unless
/// the NUMA mode is `Disabled`) to size and pin the worker pool, and
/// `affinity_cpus` (the process's affinity-mask CPU count, when known) as
/// the fallback worker count for a node that cannot be resolved. The bytes
/// never depend on either.
pub fn generate_data_with_topology(
    config: GeneratorConfig,
    topology: Option<&NumaTopology>,
    affinity_cpus: Option<usize>,
) -> (r: DataBuffer)
    ensures
        r@.len() == config.spec_total_size(),
        config.seed is Some ==> r@ == one_shot_bytes(config, config.seed->0),
        exists|seed: u64| r@ == one_shot_bytes(config, seed),
{
    let size = config.effective_size();
    let nblocks = config.block_count();
    let block_size = config.effective_block_size();
    proof {
        assert((nblocks as u128) * (block_size as u128) <= 0xffff_ffff_ffff_ffff
            * 0xffff_ffff_ffff_ffff) by (nonlinear_arith)
            requires
                0 <= nblocks <= 0xffff_ffff_ffff_ffff,
                0 <= block_size <= 0xffff_ffff_ffff_ffff,
        ;
    }
    let whole = (nblocks as u128) * (block_size as u128);
    let total: usize = if whole <= usize::MAX as u128 {
        whole as usize
    } else {
        size
    };
    proof {
        assert(size <= whole) by (nonlinear_arith)
            requires
                size <= config.spec_block_count() * config.spec_block_size(),
                whole == config.spec_block_count() * config.spec_block_size(),
        ;
    }
    let mut data: Vec<u8> = vec![0u8; total];
    let seed = generate_into(config, topology, affinity_cpus, data.as_mut_slice());
    let mut buffer = DataBuffer::Uma(data);
    buffer.truncate(size);
    proof {
        assert(buffer@ =~= one_shot_bytes(config, seed));
    }
    buffer
}

/// Fills `out` with the stream of `config` from its start (usually `out`
/// holds every block of the request in whole), and returns the base seed
/// used (`config.seed` when given). With NUMA optimisation on (see
/// `numa_optimization`) the workers are pinned; on a multi-node system each
/// also touches its blocks' pages first.
pub fn generate_into(
    config: GeneratorConfig,
    topology: Option<&NumaTopology>,
    affinity_cpus: Option<usize>,
    out: &mut [u8],
) -> (seed: u64)
    ensures
        final(out)@ == stream_window(config.layout(), seed, 0, 0, 0, old(out)@.len()),
        config.seed is Some ==> seed == config.seed->0,
{
    let block_size = config.effective_block_size();
    let nblocks = config.block_count();
    let dedup_factor = if config.dedup_factor > 1 {
        config.dedup_factor
    } else {
        1
    };
    let plan = plan(nblocks, dedup_factor, config.compress_factor, block_size);
    let seed = match config.seed {
        Some(s) => s,
        None => generate_call_entropy(),
    };
    let logical = logical_cpu_count();
    let affinity = match affinity_cpus {
        Some(n) => n,
        None => logical,
    };
    let topology = if config.numa_mode == NumaMode::Disabled {
        None
    } else {
        topology
    };
    let num_threads = resolve_thread_count(
        config.max_threads,
        config.numa_node,
        topology,
        affinity,
        logical,
    );
    let optimize = numa_optimization_enabled(config.numa_mode, topology);
    let multi_node = match topology {
        Some(t) => optimize && t.num_nodes > 1,
        None => false,
    };
    let pool = match topology {
        Some(t) => if optimize {
            build_pinned_pool(num_threads, build_cpu_affinity_map(t, num_threads, config.numa_node))
        } else {
            build_pool(num_threads)
        },
        None => build_pool(num_threads),
    };
    if multi_node {
        if let Some(workers) = &pool {
            first_touch(workers, out, block_size);
        }
    }
    render_window(pool.as_ref(), &plan, seed, 0, 0, 0, out);
    assert(plan.layout() == config.layout());
    seed
}

} // verus!
