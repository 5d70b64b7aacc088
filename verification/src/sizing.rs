//! The worker-pool size: twice the number of CPUs the machine offers.
use vstd::prelude::*;

verus! {

/// Relies on num_cpus::get: the number of available CPUs, always at least 1.
#[verifier::external_body]
fn cpu_count() -> (r: usize)
    ensures
        1 <= r,
{
    num_cpus::get()
}

/// Twice the CPU count, the pool size the server runs with.
pub fn pool_size_for(cpus: usize) -> (r: usize)
    requires
        1 <= cpus,
        cpus <= usize::MAX / 2,
    ensures
        r == 2 * cpus,
{
    2 * cpus
}

/// The pool size for this machine: twice its CPU count, or nothing on a
/// machine with more CPUs than the doubled count can express.
pub fn default_pool_size() -> (r: Option<usize>)
    ensures
        r matches Some(n) ==> 2 <= n && n % 2 == 0,
{
    let cpus = cpu_count();
    if cpus <= usize::MAX / 2 {
        Some(pool_size_for(cpus))
    } else {
        None
    }
}

} // verus!
