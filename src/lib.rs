//! Synthetic data generation with controllable deduplication and
//! compression: block-based rendering of a seeded byte stream, either all at
//! once or as a resumable stream, fanned out over a worker pool with
//! optional NUMA-aware pinning.
use vstd::prelude::*;

pub mod block;
pub mod buffer;
pub mod config;
pub mod constants;
pub mod cpulist;
pub mod cpus;
pub mod entropy;
pub mod generator;
pub mod numa;
pub mod oneshot;
pub mod plan;
pub mod pool;
pub mod region;
pub mod threads;

pub use buffer::DataBuffer;
pub use config::{GeneratorConfig, NumaMode};
pub use generator::DataGenerator;
pub use numa::{NumaNode, NumaTopology};
pub use oneshot::{generate_data, generate_data_simple, generate_data_with_topology};

verus! {

} // verus!
