//! Types for power attribution results.
//!
//! These flow from the attribution engine through enrichment to the outputs. They carry both the
//! attributed power values and how the attribution was made.

use vstd::prelude::*;

verus! {

/// How a power reading was obtained.
#[derive(Clone, Copy, Debug, PartialEq, Eq, Structural)]
pub enum ReadingType {
    /// Direct electrical measurement (PSU, GPU shunt, VR sensor)
    Measured,
    /// Hardware-internal model (RAPL, firmware estimate)
    Estimated,
    /// Calculated by the attribution model
    Derived,
}

/// Physical component that consumed the energy.
#[derive(Clone, Copy, Debug, PartialEq, Eq, Hash, Structural)]
pub enum Component {
    Cpu,
    Memory,
    Gpu,
    Nic,
    Storage,
    Fan,
    Platform,
}

/// Per-component power breakdown in microwatts.
#[derive(Clone, Copy, Debug, PartialEq, Eq, Structural)]
pub struct PowerBreakdown {
    pub cpu_uw: u64,
    pub memory_uw: u64,
    pub gpu_uw: u64,
    pub nic_uw: u64,
    pub storage_uw: u64,
}

impl Default for PowerBreakdown {
    fn default() -> (r: Self)
        ensures
            r == PowerBreakdown::zero(),
    {
        PowerBreakdown { cpu_uw: 0, memory_uw: 0, gpu_uw: 0, nic_uw: 0, storage_uw: 0 }
    }
}

impl PowerBreakdown {
    /// No power in any component.
    pub open spec fn zero() -> PowerBreakdown {
        PowerBreakdown { cpu_uw: 0, memory_uw: 0, gpu_uw: 0, nic_uw: 0, storage_uw: 0 }
    }

    /// The power of all components together.
    pub open spec fn sum(self) -> int {
        self.cpu_uw + self.memory_uw + self.gpu_uw + self.nic_uw + self.storage_uw
    }

    pub fn total_uw(&self) -> (r: u64)
        requires
            self.sum() <= u64::MAX,
        ensures
            r == self.sum(),
    {
        self.cpu_uw + self.memory_uw + self.gpu_uw + self.nic_uw + self.storage_uw
    }
}

/// Per-core attribution detail for a single process: the finest granularity.
#[derive(Clone, Copy, Debug, PartialEq, Eq, Structural)]
pub struct CoreAttribution {
    /// CPU core index
    pub core: u32,
    /// Time this process ran on this core (nanoseconds)
    pub time_ns: u64,
    /// Frequency the core was running at (weighted average KHz)
    pub avg_freq_khz: u32,
    /// Attributed energy on this core (microjoules)
    pub energy_uj: u64,
    /// Hardware counters attributed to this process on this core
    pub instructions: u64,
    pub cycles: u64,
    pub cache_misses: u64,
}

/// Attributed power for a single process.
#[derive(Debug)]
pub struct ProcessPower {
    pub pid: u32,
    pub comm: String,
    pub cgroup_id: u64,
    /// Total power across all components
    pub power: PowerBreakdown,
    /// Per-core breakdown
    pub core_detail: Vec<CoreAttribution>,
    /// How the CPU attribution was computed
    pub attribution_method: AttributionMethod,
}

/// How the CPU power was attributed to a process.
#[derive(Clone, Copy, Debug, PartialEq, Eq, Structural)]
pub enum AttributionMethod {
    /// Per-core time + frequency + hardware counters (best accuracy)
    FullModel,
    /// Per-core time + frequency weighting (no HW counters available)
    FrequencyWeighted,
    /// Simple CPU time ratio
    CpuTimeRatio,
}

/// Attributed power for a container (aggregated from processes).
#[derive(Debug)]
pub struct ContainerPower {
    pub container_id: String,
    pub name: String,
    pub cgroup_id: u64,
    pub power: PowerBreakdown,
    /// Process-level breakdown
    pub processes: Vec<ProcessPower>,
}

/// Attributed power for a pod (aggregated from containers).
#[derive(Debug)]
pub struct PodPower {
    pub pod_uid: String,
    pub name: String,
    pub namespace: String,
    pub power: PowerBreakdown,
    /// Container-level breakdown
    pub containers: Vec<ContainerPower>,
}

/// Attributed power for a namespace (aggregated from pods).
#[derive(Debug)]
pub struct NamespacePower {
    pub namespace: String,
    pub power: PowerBreakdown,
    pub pod_count: usize,
}

/// Complete attribution snapshot for one collection interval.
#[derive(Debug)]
pub struct AttributionSnapshot {
    /// When the snapshot was taken: nanoseconds on a monotonic clock
    pub timestamp_ns: u64,
    pub interval_ns: u64,
    /// Node-level totals
    pub node: NodePower,
    /// Per-process attribution (full detail)
    pub processes: Vec<ProcessPower>,
    /// Per-pod attribution (aggregated, used for upstream reporting)
    pub pods: Vec<PodPower>,
    /// Per-namespace attribution (aggregated)
    pub namespaces: Vec<NamespacePower>,
    /// Idle power: energy consumed by cores with no userspace work
    pub idle_power: PowerBreakdown,
    /// Reconciliation against platform measurement
    pub reconciliation: Reconciliation,
}

/// Node-level power totals.
#[derive(Clone, Copy, Debug, PartialEq, Eq, Structural)]
pub struct NodePower {
    /// Per-component power (from hardware sources)
    pub measured: PowerBreakdown,
    /// Platform total (PSU input, if available)
    pub platform_uw: Option<u64>,
    /// Sum of all attributed workload power + idle
    pub attributed_total_uw: u64,
}

/// Reconciliation of attributed power against measured platform power.
#[derive(Clone, Copy, Debug, PartialEq, Eq, Structural)]
pub struct Reconciliation {
    /// Platform (PSU) measured power in microwatts
    pub platform_uw: Option<u64>,
    /// Sum of all component measurements
    pub component_sum_uw: u64,
    /// Sum of all process attributions + idle
    pub attributed_sum_uw: u64,
    /// Unaccounted power: platform - component_sum.
    /// Positive = underreporting, negative = overreporting
    pub unaccounted_uw: i64,
    /// Error ratio |unaccounted| / platform, in units of 10⁻¹⁸, rounded up
    pub error_ratio_atto: u128,
}

} // verus!
