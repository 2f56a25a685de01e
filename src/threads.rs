//! Worker-count resolution, NUMA policy and the thread-to-core mapping.
use crate::config::NumaMode;
use crate::numa::{find_node, first_node_with, no_node_with, NumaTopology};
use crate::plan::{ceil_div, div_ceil};
use core_affinity::CoreId;
use std::collections::HashMap;
use vstd::prelude::*;

verus! {

broadcast use vstd::std_specs::hash::group_hash_axioms;

/// `value`, or `default` when absent.
pub open spec fn or_default(value: Option<usize>, default: usize) -> usize {
    match value {
        Some(v) => v,
        None => default,
    }
}

/// Whether NUMA placement and pinning apply: never without a topology;
/// with one, `Auto` asks for more than one node, `Force` always applies and
/// `Disabled` never does.
pub open spec fn numa_optimization(mode: NumaMode, topology: Option<NumaTopology>) -> bool {
    match topology {
        None => false,
        Some(t) => match mode {
            NumaMode::Auto => t.num_nodes > 1,
            NumaMode::Force => true,
            NumaMode::Disabled => false,
        },
    }
}

/// Decides whether NUMA placement and pinning apply.
pub fn numa_optimization_enabled(mode: NumaMode, topology: Option<&NumaTopology>) -> (r: bool)
    ensures
        r == numa_optimization(
            mode,
            match topology {
                Some(t) => Some(*t),
                None => None,
            },
        ),
{
    match topology {
        None => false,
        Some(t) => match mode {
            NumaMode::Auto => t.num_nodes > 1,
            NumaMode::Force => true,
            NumaMode::Disabled => false,
        },
    }
}

/// The worker count: an explicit `max_threads` wins, except that a
/// requested node caps it at that node's CPU count; a requested node
/// without its CPU count (no topology, or no such node) falls back to the
/// affinity-mask count; with no node requested, to all logical CPUs.
pub fn resolve_thread_count(
    max_threads: Option<usize>,
    numa_node: Option<usize>,
    topology: Option<&NumaTopology>,
    affinity_cpus: usize,
    logical_cpus: usize,
) -> (r: usize)
    ensures
        numa_node is None ==> r == or_default(max_threads, logical_cpus),
        numa_node is Some && topology is None ==> r == or_default(max_threads, affinity_cpus),
        numa_node is Some && topology is Some ==> {
            let t = topology->0;
            let id = numa_node->0;
            &&& no_node_with(t.nodes@, id) ==> r == or_default(max_threads, affinity_cpus)
            &&& forall|i: int|
                #[trigger] first_node_with(t.nodes@, id, i) ==> {
                    let cores = t.nodes@[i].cpus@.len() as usize;
                    let wanted = or_default(max_threads, cores);
                    r == (if wanted < cores { wanted } else { cores })
                }
        },
{
    match numa_node {
        None => match max_threads {
            Some(t) => t,
            None => logical_cpus,
        },
        Some(id) => {
            let fallback = match max_threads {
                Some(t) => t,
                None => affinity_cpus,
            };
            match topology {
                None => fallback,
                Some(t) => match find_node(&t.nodes, id) {
                    None => fallback,
                    Some(i) => {
                        let cores = t.nodes[i].cpus.len();
                        let wanted = match max_threads {
                            Some(m) => m,
                            None => cores,
                        };
                        proof {
                            assert forall|k: int| #[trigger]
                                first_node_with(t.nodes@, id, k) implies k == i as int by {
                                if k < i {
                                    assert(t.nodes@[k].node_id != id);
                                } else if k > i {
                                    assert(t.nodes@[i as int].node_id != id);
                                }
                            }
                        }
                        if wanted < cores {
                            wanted
                        } else {
                            cores
                        }
                    },
                },
            }
        },
    }
}

/// The cores that worker `thread` of `num_threads` is pinned to, if any.
/// With a requested node, worker `t` gets that node's `t % len`-th CPU.
/// Otherwise workers go round-robin over the nodes, and worker `t` gets
/// the slice `[(t * c) % len, min((t + 1) * c, len))` of its node's CPUs,
/// `c` being `ceil(len / num_threads)` (at least one). Empty node lists,
/// empty CPU lists and empty slices pin nothing.
pub open spec fn pinned_cores(
    topology: NumaTopology,
    num_threads: nat,
    numa_node: Option<usize>,
    thread: nat,
) -> Option<Seq<usize>> {
    if thread >= num_threads {
        None
    } else {
        match numa_node {
            Some(id) => if exists|i: int| first_node_with(topology.nodes@, id, i) {
                let i = choose|i: int| first_node_with(topology.nodes@, id, i);
                let cpus = topology.nodes@[i].cpus@;
                if cpus.len() > 0 {
                    Some(seq![cpus[(thread % cpus.len()) as int]])
                } else {
                    None
                }
            } else {
                None
            },
            None => if topology.nodes@.len() == 0 {
                None
            } else {
                let cpus = topology.nodes@[(thread % topology.nodes@.len()) as int].cpus@;
                let len = cpus.len() as int;
                let per = ceil_div(len, num_threads as int);
                let c = if per >= 1 { per } else { 1 };
                if len == 0 {
                    None
                } else {
                    let start = (thread * c) % len;
                    let end = if (thread + 1) * c < len { (thread + 1) * c } else { len };
                    if start < end {
                        Some(cpus.subrange(start, end))
                    } else {
                        None
                    }
                }
            },
        }
    }
}

/// A Vec holding one value.
fn single(x: usize) -> (r: Vec<usize>)
    ensures
        r@ == seq![x],
{
    let mut v: Vec<usize> = Vec::new();
    v.push(x);
    v
}

/// Copies `cpus[start..end]`.
fn copy_range(cpus: &Vec<usize>, start: usize, end: usize) -> (r: Vec<usize>)
    requires
        start <= end <= cpus@.len(),
    ensures
        r@ == cpus@.subrange(start as int, end as int),
{
    let mut v: Vec<usize> = Vec::new();
    let mut i = start;
    while i < end
        invariant
            start <= i <= end,
            end <= cpus@.len(),
            v@ == cpus@.subrange(start as int, i as int),
        decreases end - i,
    {
        v.push(cpus[i]);
        i = i + 1;
        assert(v@ =~= cpus@.subrange(start as int, i as int));
    }
    v
}

/// The thread-to-core mapping for a pinned worker pool: worker `t` maps to
/// `pinned_cores(topology, num_threads, numa_node, t)` where that is some
/// list, and is absent otherwise.
pub fn build_cpu_affinity_map(
    topology: &NumaTopology,
    num_threads: usize,
    numa_node: Option<usize>,
) -> (r: HashMap<usize, Vec<usize>>)
    ensures
        forall|t: usize| #[trigger]
            r@.contains_key(t) == pinned_cores(*topology, num_threads as nat, numa_node, t as nat) is Some,
        forall|t: usize| #[trigger]
            r@.contains_key(t) ==> r@[t]@ == pinned_cores(
                *topology,
                num_threads as nat,
                numa_node,
                t as nat,
            )->0,
{
    let mut map: HashMap<usize, Vec<usize>> = HashMap::new();
    let ghost topo = *topology;
    match numa_node {
        Some(id) => {
            match find_node(&topology.nodes, id) {
                None => {
                    assert forall|t: usize| #[trigger]
                        map@.contains_key(t) == pinned_cores(topo, num_threads as nat, numa_node, t as nat) is Some by {
                        if exists|i: int| first_node_with(topology.nodes@, id, i) {
                            let i = choose|i: int| first_node_with(topology.nodes@, id, i);
                            assert(topology.nodes@[i].node_id != id);
                        }
                    }
                },
                Some(i) => {
                    let cpus = &topology.nodes[i].cpus;
                    let len = cpus.len();
                    proof {
                        assert forall|k: int| #[trigger]
                            first_node_with(topology.nodes@, id, k) implies k == i as int by {
                            if k < i {
                                assert(topology.nodes@[k].node_id != id);
                            } else if k > i {
                                assert(topology.nodes@[i as int].node_id != id);
                            }
                        }
                    }
                    if len > 0 {
                        let mut thread: usize = 0;
                        while thread < num_threads
                            invariant
                                0 <= thread <= num_threads,
                                len == cpus@.len(),
                                len > 0,
                                *cpus == topology.nodes@[i as int].cpus,
                                topo == *topology,
                                numa_node == Some(id),
                                first_node_with(topology.nodes@, id, i as int),
                                forall|k: int| #[trigger]
                                    first_node_with(topology.nodes@, id, k) ==> k == i as int,
                                forall|t: usize| #[trigger]
                                    map@.contains_key(t) == (t < thread),
                                forall|t: usize| #[trigger]
                                    map@.contains_key(t) ==> map@[t]@ == pinned_cores(
                                        topo,
                                        num_threads as nat,
                                        numa_node,
                                        t as nat,
                                    )->0,
                            decreases num_threads - thread,
                        {
                            let core = cpus[thread % len];
                            proof {
                                assert(first_node_with(topology.nodes@, id, i as int));
                                let k = choose|k: int| first_node_with(topology.nodes@, id, k);
                                assert(k == i as int);
                            }
                            map.insert(thread, single(core));
                            thread = thread + 1;
                        }
                    }
                },
            }
        },
        None => {
            let node_count = topology.nodes.len();
            if node_count > 0 {
                let mut thread: usize = 0;
                while thread < num_threads
                    invariant
                        0 <= thread <= num_threads,
                        node_count == topology.nodes@.len(),
                        node_count > 0,
                        numa_node is None,
                        topo == *topology,
                        forall|t: usize| #[trigger]
                            map@.contains_key(t) == (t < thread && pinned_cores(
                                topo,
                                num_threads as nat,
                                numa_node,
                                t as nat,
                            ) is Some),
                        forall|t: usize| #[trigger]
                            map@.contains_key(t) ==> map@[t]@ == pinned_cores(
                                topo,
                                num_threads as nat,
                                numa_node,
                                t as nat,
                            )->0,
                    decreases num_threads - thread,
                {
                    let node = &topology.nodes[thread % node_count];
                    let len = node.cpus.len();
                    if len > 0 {
                        let per = div_ceil(len, num_threads);
                        let c: usize = if per >= 1 {
                            per
                        } else {
                            1
                        };
                        proof {
                            assert((thread as u128) * (c as u128) + (c as u128)
                                <= 0xffff_ffff_ffff_ffff * 0xffff_ffff_ffff_ffff + 0xffff_ffff_ffff_ffff)
                                by (nonlinear_arith)
                                requires
                                    0 <= thread <= 0xffff_ffff_ffff_ffff,
                                    0 <= c <= 0xffff_ffff_ffff_ffff,
                            ;
                        }
                        let lo: u128 = (thread as u128) * (c as u128);
                        let hi: u128 = lo + (c as u128);
                        proof {
                            assert(hi == (thread + 1) * c) by (nonlinear_arith)
                                requires
                                    lo == thread * c,
                                    hi == lo + c,
                            ;
                        }
                        let start: usize = (lo % (len as u128)) as usize;
                        let end: usize = if hi < len as u128 {
                            hi as usize
                        } else {
                            len
                        };
                        if start < end {
                            let cores = copy_range(&node.cpus, start, end);
                            map.insert(thread, cores);
                        }
                    }
                    thread = thread + 1;
                }
            }
        },
    }
    map
}

#[verifier::external_type_specification]
#[verifier::external_body]
pub struct ExCoreId(core_affinity::CoreId);

/// Relies on `core_affinity::get_core_ids`: the cores this process may run
/// on, or nothing when the platform cannot tell.
#[verifier::external_body]
fn available_core_ids() -> Option<Vec<CoreId>> {
    core_affinity::get_core_ids()
}

/// Relies on `core_affinity::set_for_current`: pins the calling thread to
/// `core`, one the platform reported; false when the platform refuses.
#[verifier::external_body]
fn pin_current_thread(core: CoreId) -> bool {
    core_affinity::set_for_current(core)
}

/// The core a thread asking for `core_ids` is pinned to: the available
/// core at the position of the first requested id, if there is one.
pub fn pin_target(core_ids: &[usize], available: &Vec<CoreId>) -> (r: Option<CoreId>)
    ensures
        r is Some <==> (core_ids@.len() > 0 && core_ids@[0] < available@.len()),
        r is Some ==> r->0 == available@[core_ids@[0] as int],
{
    if core_ids.len() == 0 {
        return None;
    }
    let first = core_ids[0];
    if first < available.len() {
        Some(available[first])
    } else {
        None
    }
}

/// Pins the calling thread to the core chosen by `pin_target` from the
/// cores the platform reports. Returns whether a pin was made.
pub fn pin_thread_to_cores(core_ids: &[usize]) -> (r: bool)
    ensures
        r ==> core_ids@.len() > 0,
{
    if core_ids.len() == 0 {
        return false;
    }
    match available_core_ids() {
        None => false,
        Some(available) => match pin_target(core_ids, &available) {
            None => false,
            Some(core) => pin_current_thread(core),
        },
    }
}

/// Pins worker `index` of a pool to the cores `cpu_map` gives it, if any.
pub fn pin_worker(cpu_map: &HashMap<usize, Vec<usize>>, index: usize) -> (r: bool)
    ensures
        r ==> cpu_map@.contains_key(index),
{
    match cpu_map.get(&index) {
        Some(cores) => pin_thread_to_cores(cores.as_slice()),
        None => false,
    }
}

} // verus!
