//! NUMA topology as the engine sees it, and the queries it answers.
use crate::cpus::{logical_cpu_count, physical_core_count};
use vstd::prelude::*;

verus! {

/// One NUMA node.
#[derive(Debug, Clone)]
pub struct NumaNode {
    /// The operating system's index of the node.
    pub node_id: usize,
    /// CPUs of the node, ascending.
    pub cpus: Vec<usize>,
    /// Memory local to the node, in KiB (zero when unknown).
    pub memory_kib: u64,
}

/// The system's NUMA layout.
#[derive(Debug, Clone)]
pub struct NumaTopology {
    /// Nodes detected, at least one.
    pub num_nodes: usize,
    /// Physical cores.
    pub physical_cores: usize,
    /// Logical CPUs.
    pub logical_cpus: usize,
    /// Per-node details.
    pub nodes: Vec<NumaNode>,
    /// Whether this is a single-node (uniform memory) system.
    pub is_uma: bool,
}

/// Label of single-node systems.
pub const UMA_LABEL: &'static str = "UMA (single NUMA node - cloud VM or workstation)";

/// Label of multi-node systems.
pub const NUMA_LABEL: &'static str = "NUMA (multi-socket system or large cloud VM)";

/// Index of the first node with id `node_id`, if any.
pub open spec fn first_node_with(nodes: Seq<NumaNode>, node_id: usize, i: int) -> bool {
    &&& 0 <= i < nodes.len()
    &&& nodes[i].node_id == node_id
    &&& forall|j: int| 0 <= j < i ==> #[trigger] nodes[j].node_id != node_id
}

/// Whether no node has id `node_id`.
pub open spec fn no_node_with(nodes: Seq<NumaNode>, node_id: usize) -> bool {
    forall|j: int| 0 <= j < nodes.len() ==> #[trigger] nodes[j].node_id != node_id
}

/// Finds the first node with id `node_id`.
pub fn find_node(nodes: &Vec<NumaNode>, node_id: usize) -> (r: Option<usize>)
    ensures
        r is Some ==> first_node_with(nodes@, node_id, r->0 as int),
        r is None ==> no_node_with(nodes@, node_id),
{
    let mut i: usize = 0;
    while i < nodes.len()
        invariant
            0 <= i <= nodes@.len(),
            forall|j: int| 0 <= j < i ==> #[trigger] nodes@[j].node_id != node_id,
        decreases nodes@.len() - i,
    {
        if nodes[i].node_id == node_id {
            return Some(i);
        }
        i = i + 1;
    }
    None
}

/// The CPUs `0 .. count`.
fn cpu_range(count: usize) -> (r: Vec<usize>)
    ensures
        r@.len() == count,
        forall|i: int| 0 <= i < count ==> #[trigger] r@[i] == i,
{
    let mut v: Vec<usize> = Vec::with_capacity(count);
    let mut i: usize = 0;
    while i < count
        invariant
            0 <= i <= count,
            v@.len() == i,
            forall|j: int| 0 <= j < i ==> #[trigger] v@[j] == j,
        decreases count - i,
    {
        v.push(i);
        i = i + 1;
    }
    v
}

impl NumaTopology {
    /// Node count at least one, and single-node exactly when there is one.
    pub open spec fn wf(&self) -> bool {
        self.num_nodes >= 1 && self.is_uma == (self.num_nodes == 1)
    }

    /// Builds the topology from what a platform query found: `found` NUMA
    /// nodes, of which `nodes` are those with an index and a CPU set. When
    /// none was found the system counts as one node holding every CPU.
    pub fn from_detected(found: usize, nodes: Vec<NumaNode>) -> (r: NumaTopology)
        ensures
            r.wf(),
            r.num_nodes == (if found >= 1 { found } else { 1 }),
            r.physical_cores >= 1,
            r.logical_cpus >= 1,
            found >= 1 ==> r.nodes@ == nodes@,
            found == 0 ==> r.nodes@.len() == 1 && r.nodes@[0].node_id == 0
                && r.nodes@[0].memory_kib == 0 && r.nodes@[0].cpus@.len() == r.logical_cpus
                && forall|i: int| 0 <= i < r.logical_cpus ==> #[trigger] r.nodes@[0].cpus@[i] == i,
    {
        let num_nodes = if found >= 1 {
            found
        } else {
            1
        };
        let logical_cpus = logical_cpu_count();
        let physical_cores = physical_core_count();
        let nodes = if found == 0 {
            let mut v: Vec<NumaNode> = Vec::new();
            v.push(NumaNode { node_id: 0, cpus: cpu_range(logical_cpus), memory_kib: 0 });
            v
        } else {
            nodes
        };
        NumaTopology { num_nodes, physical_cores, logical_cpus, nodes, is_uma: num_nodes == 1 }
    }

    /// Whether NUMA-aware pinning pays off: more than one node.
    pub fn should_enable_numa_pinning(&self) -> (r: bool)
        ensures
            r == (self.num_nodes > 1),
    {
        self.num_nodes > 1
    }

    /// A short description of the kind of system.
    pub fn deployment_type(&self) -> (r: &str)
        ensures
            r == (if self.is_uma { UMA_LABEL } else { NUMA_LABEL }),
    {
        if self.is_uma {
            UMA_LABEL
        } else {
            NUMA_LABEL
        }
    }

    /// The CPUs of the first node with id `node_id`.
    pub fn cpus_for_node(&self, node_id: usize) -> (r: Option<&[usize]>)
        ensures
            r is Some ==> exists|i: int|
                first_node_with(self.nodes@, node_id, i) && r->0@ == #[trigger] self.nodes@[i].cpus@,
            r is None ==> no_node_with(self.nodes@, node_id),
    {
        match find_node(&self.nodes, node_id) {
            Some(i) => Some(self.nodes[i].cpus.as_slice()),
            None => None,
        }
    }
}

} // verus!
