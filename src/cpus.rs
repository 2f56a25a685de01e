//! CPU counts of the running system.
use vstd::prelude::*;

verus! {

/// Relies on `num_cpus::get`: the logical CPUs this process may use
/// (affinity and cgroup limits included), documented to be at least one.
#[verifier::external_body]
pub(crate) fn logical_cpu_count() -> (r: usize)
    ensures
        r >= 1,
{
    num_cpus::get()
}

/// Relies on `num_cpus::get_physical`: the physical cores of the system,
/// documented to be at least one.
#[verifier::external_body]
pub(crate) fn physical_core_count() -> (r: usize)
    ensures
        r >= 1,
{
    num_cpus::get_physical()
}

} // verus!
