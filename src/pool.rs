//! Worker pools for data-parallel block rendering.
use crate::threads::pin_worker;
use rayon::ThreadPool;
use std::collections::HashMap;
use rayon::ThreadPoolBuilder;
use vstd::prelude::*;

verus! {

#[verifier::external_type_specification]
#[verifier::external_body]
pub struct ExThreadPool(rayon::ThreadPool);

/// Relies on rayon's `ThreadPoolBuilder::build` with `num_threads`: a pool
/// is made, or the platform refuses and nothing is returned.
#[verifier::external_body]
pub(crate) fn build_pool(num_threads: usize) -> (r: Option<ThreadPool>) {
    ThreadPoolBuilder::new().num_threads(num_threads).build().ok()
}

/// Relies on rayon's `ThreadPoolBuilder::build` with `num_threads` and
/// `start_handler`: when a pool is made, each worker runs `pin_worker` with
/// its own index as it starts; otherwise nothing is returned.
#[verifier::external_body]
pub(crate) fn build_pinned_pool(
    num_threads: usize,
    cpu_map: HashMap<usize, Vec<usize>>,
) -> (r: Option<ThreadPool>) {
    ThreadPoolBuilder::new()
        .num_threads(num_threads)
        .start_handler(move |index| {
            pin_worker(&cpu_map, index);
        })
        .build()
        .ok()
}

} // verus!
