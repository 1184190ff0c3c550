//! Concurrency budget: how many probes may be in flight, and how large the
//! result channel is.
use vstd::prelude::*;

verus! {

/// Tasks allowed in flight per logical CPU.
pub const TASKS_PER_CPU: usize = 64;

/// Absolute cap on tasks in flight.
pub const MAX_IN_FLIGHT: usize = 4096;

/// Smallest result channel.
pub const MIN_CHANNEL: usize = 256;

/// Largest result channel.
pub const MAX_CHANNEL: usize = 16384;

/// `min(64 * cpus, 4096)`.
pub open spec fn concurrency_spec(cpus: int) -> int {
    if 64 * cpus < 4096 {
        64 * cpus
    } else {
        4096
    }
}

/// `clamp(4 * x, 256, 16384)`.
pub open spec fn channel_size_spec(x: int) -> int {
    if 4 * x < 256 {
        256
    } else if 4 * x > 16384 {
        16384
    } else {
        4 * x
    }
}

/// Worker cap for a machine with `cpus` logical CPUs: `min(64 * cpus, 4096)`.
pub fn compute_concurrency(cpus: usize) -> (r: usize)
    ensures
        r == concurrency_spec(cpus as int),
{
    if cpus < MAX_IN_FLIGHT / TASKS_PER_CPU {
        cpus * TASKS_PER_CPU
    } else {
        MAX_IN_FLIGHT
    }
}

/// Result channel capacity for a worker cap: `clamp(4 * concurrency, 256, 16384)`.
pub fn compute_channel_size(concurrency: usize) -> (r: usize)
    ensures
        r == channel_size_spec(concurrency as int),
{
    if concurrency < MIN_CHANNEL / 4 {
        MIN_CHANNEL
    } else if concurrency > MAX_CHANNEL / 4 {
        MAX_CHANNEL
    } else {
        concurrency * 4
    }
}

/// The two limits of one run, computed once and passed around.
pub struct ConcurrencyBudget {
    pub max_in_flight: usize,
    pub channel_capacity: usize,
}

impl ConcurrencyBudget {
    /// Both limits are positive, and a full batch of in-flight results fits
    /// in the channel.
    pub open spec fn wf(&self) -> bool {
        &&& self.max_in_flight >= 1
        &&& self.channel_capacity >= self.max_in_flight
    }

    /// The budget for a machine with `cpus` logical CPUs.
    pub fn for_cpus(cpus: usize) -> (r: ConcurrencyBudget)
        requires
            cpus >= 1,
        ensures
            r.wf(),
            r.max_in_flight == concurrency_spec(cpus as int),
            r.channel_capacity == channel_size_spec(r.max_in_flight as int),
    {
        let max_in_flight = compute_concurrency(cpus);
        let channel_capacity = compute_channel_size(max_in_flight);
        ConcurrencyBudget { max_in_flight, channel_capacity }
    }

    /// The budget for this machine, from its logical CPU count.
    pub fn for_this_machine() -> (r: ConcurrencyBudget)
        ensures
            r.wf(),
            64 <= r.max_in_flight <= 4096,
            exists|c: int| c >= 1 && r.max_in_flight == concurrency_spec(c),
            r.channel_capacity == channel_size_spec(r.max_in_flight as int),
    {
        let cpus = logical_cpus();
        let r = ConcurrencyBudget::for_cpus(cpus);
        assert(cpus >= 1 && r.max_in_flight == concurrency_spec(cpus as int));
        r
    }
}

/// Relies on `num_cpus::get`: the number of logical CPUs available to this
/// process, which its documentation promises is at least one.
#[verifier::external_body]
fn logical_cpus() -> (r: usize)
    ensures
        r >= 1,
{
    num_cpus::get()
}

} // verus!
