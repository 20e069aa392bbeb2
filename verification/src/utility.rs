//! Small helpers: random integers from a seeded generator, and the number
//! of render workers.

use rand::rngs::StdRng;
use rand::Rng;
use vstd::prelude::*;

verus! {

#[verifier::external_type_specification]
#[verifier::external_body]
pub struct ExStdRng(rand::rngs::StdRng);

/// A random integer between `min` and `max`, both included, drawn from the
/// given generator. A generator that was started from a seed gives the same
/// draws whenever it is started from that seed again.
///
/// Trusted: calls `rand::Rng::gen_range` on the generator with the
/// inclusive range `min..=max`. The contract claims only what holds of
/// every draw: the value lies in the range. `gen_range` panics on an empty
/// range, which `min <= max` rules out.
#[verifier::external_body]
pub fn random_int(rng: &mut StdRng, min: i32, max: i32) -> (n: i32)
    requires
        min <= max,
    ensures
        min <= n <= max,
{
    rng.gen_range(min..=max)
}

/// Number of logical processors that this process may use.
///
/// Trusted: calls `num_cpus::get`, which is documented to return at least 1.
#[verifier::external_body]
fn available_cpus() -> (n: usize)
    ensures
        n >= 1,
{
    num_cpus::get()
}

/// Number of render workers on a machine with `cpus` processors: one
/// processor is left to the thread that joins the workers, and there is
/// always at least one worker.
pub open spec fn spec_worker_count(cpus: int) -> int {
    if cpus - 1 >= 1 {
        cpus - 1
    } else {
        1
    }
}

/// Number of render workers on a machine with `cpus` processors.
pub fn worker_count(cpus: usize) -> (workers: usize)
    ensures
        workers == spec_worker_count(cpus as int),
{
    if cpus >= 2 {
        cpus - 1
    } else {
        1
    }
}

/// Number of render workers on this machine. Whatever the number of
/// processors is found to be, there is at least one worker.
pub fn workers() -> (workers: usize)
    ensures
        workers >= 1,
{
    worker_count(available_cpus())
}

} // verus!
