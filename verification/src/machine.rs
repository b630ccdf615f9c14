//! The topology of the machine, on each platform.

use vstd::prelude::*;
use crate::linux::{linux_cpu_topology, CpuReading};
use crate::macos::{macos_cpu_topology, MacosReadings};
use crate::topology::{fallback_cpu_topology, CpuTopology};
#[allow(unused_imports)]
use crate::linux::{is_core_table, is_linux_topology, normal_cores};
#[allow(unused_imports)]
use crate::macos::is_macos_topology;
#[allow(unused_imports)]
use crate::topology::is_fallback_topology;

verus! {

/// What was read of the CPUs.
pub enum TopologyProbe {
    /// The allowed CPUs and what sysfs says of each.
    Linux { allowed: Vec<usize>, readings: Vec<CpuReading> },
    /// What `sysctl` says, and the number of threads that may run in parallel.
    Macos { readings: MacosReadings, parallelism: usize },
    /// The number of threads that may run in parallel.
    Other { parallelism: usize },
}

/// Does `topology` come from the probe?
pub open spec fn is_topology_of(topology: CpuTopology, probe: TopologyProbe) -> bool {
    match probe {
        TopologyProbe::Linux { allowed, readings } => exists|cores: Seq<(Seq<usize>, Seq<char>)>|
            #![trigger is_core_table(cores, allowed@, readings@, allowed@.len() as int)]
            is_core_table(cores, allowed@, readings@, allowed@.len() as int) && is_linux_topology(
                topology,
                allowed@,
                normal_cores(cores),
            ),
        TopologyProbe::Macos { readings, parallelism } => is_macos_topology(
            topology,
            readings,
            parallelism,
        ),
        TopologyProbe::Other { parallelism } => is_fallback_topology(
            topology,
            "scheduler-visible logical CPUs"@,
            parallelism as nat,
        ),
    }
}

/// The topology that the probe describes.
pub fn cpu_topology(probe: TopologyProbe) -> (r: CpuTopology)
    requires
        probe matches TopologyProbe::Linux { allowed, readings } ==> readings.len()
            == allowed.len(),
    ensures
        is_topology_of(r, probe),
{
    match probe {
        TopologyProbe::Linux { allowed, readings } => linux_cpu_topology(allowed, &readings),
        TopologyProbe::Macos { readings, parallelism } => macos_cpu_topology(
            &readings,
            parallelism,
        ),
        TopologyProbe::Other { parallelism } => fallback_cpu_topology(
            "scheduler-visible logical CPUs",
            parallelism,
        ),
    }
}

/// The topology is that of the platform that was probed: of the cores on Linux, of the performance
/// levels on macOS, and of the CPUs alone elsewhere.
pub proof fn topology_is_of_the_platform(topology: CpuTopology, probe: TopologyProbe)
    requires
        is_topology_of(topology, probe),
    ensures
        match probe {
            TopologyProbe::Linux { allowed, readings } => exists|cores: Seq<
                (Seq<usize>, Seq<char>),
            >|
                #[trigger] is_core_table(cores, allowed@, readings@, allowed@.len() as int)
                    && is_linux_topology(topology, allowed@, normal_cores(cores)),
            TopologyProbe::Macos { readings, parallelism } => is_macos_topology(
                topology,
                readings,
                parallelism,
            ),
            TopologyProbe::Other { parallelism } => is_fallback_topology(
                topology,
                "scheduler-visible logical CPUs"@,
                parallelism as nat,
            ),
        },
{
}

} // verus!
