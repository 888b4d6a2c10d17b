//! What a node agent reports to the controller.

use vstd::prelude::*;

verus! {

/// Power of one pod, as its node's agent reports it.
#[derive(Debug)]
pub struct PodPowerReport {
    pub node_name: String,
    pub pod_uid: String,
    pub pod_name: String,
    pub namespace: String,
    pub cpu_uw: u64,
    pub memory_uw: u64,
    pub gpu_uw: u64,
    pub storage_uw: u64,
    pub io_uw: u64,
    pub total_uw: u64,
    /// Nanoseconds since the Unix epoch
    pub timestamp_ns: u64,
}

/// What a [`PodPowerReport`] says.
pub struct PodReport {
    pub node_name: Seq<char>,
    pub pod_uid: Seq<char>,
    pub pod_name: Seq<char>,
    pub namespace: Seq<char>,
    pub cpu_uw: int,
    pub memory_uw: int,
    pub gpu_uw: int,
    pub storage_uw: int,
    pub io_uw: int,
    pub total_uw: int,
    pub timestamp_ns: int,
}

impl View for PodPowerReport {
    type V = PodReport;

    open spec fn view(&self) -> PodReport {
        PodReport {
            node_name: self.node_name@,
            pod_uid: self.pod_uid@,
            pod_name: self.pod_name@,
            namespace: self.namespace@,
            cpu_uw: self.cpu_uw as int,
            memory_uw: self.memory_uw as int,
            gpu_uw: self.gpu_uw as int,
            storage_uw: self.storage_uw as int,
            io_uw: self.io_uw as int,
            total_uw: self.total_uw as int,
            timestamp_ns: self.timestamp_ns as int,
        }
    }
}

/// What reports say.
pub open spec fn pod_reports(v: Seq<PodPowerReport>) -> Seq<PodReport> {
    v.map_values(|p: PodPowerReport| p@)
}

impl Clone for PodPowerReport {
    fn clone(&self) -> (r: Self)
        ensures
            r == *self,
    {
        PodPowerReport {
            node_name: self.node_name.clone(),
            pod_uid: self.pod_uid.clone(),
            pod_name: self.pod_name.clone(),
            namespace: self.namespace.clone(),
            cpu_uw: self.cpu_uw,
            memory_uw: self.memory_uw,
            gpu_uw: self.gpu_uw,
            storage_uw: self.storage_uw,
            io_uw: self.io_uw,
            total_uw: self.total_uw,
            timestamp_ns: self.timestamp_ns,
        }
    }
}

/// Power of one node.
#[derive(Debug)]
pub struct NodePowerReport {
    pub node_name: String,
    pub cpu_uw: u64,
    pub memory_uw: u64,
    pub gpu_uw: u64,
    pub platform_uw: Option<u64>,
    pub psu_output_uw: Option<u64>,
    pub idle_uw: u64,
    /// Unaccounted power against the platform's, in units of 10⁻¹⁸, rounded up
    pub error_ratio_atto: u128,
    pub pod_count: u32,
    pub process_count: u32,
    /// Nanoseconds since the Unix epoch
    pub timestamp_ns: u64,
    /// Source used for CPU power
    pub cpu_source: String,
    /// Source used for memory power
    pub memory_source: String,
    /// Reading type for CPU: "measured", "estimated", "derived" or "none"
    pub cpu_reading_type: String,
    /// All discovered sources with their status
    pub sources: Vec<SourceStatus>,
}

/// One power source of a node.
#[derive(Debug)]
pub struct SourceStatus {
    pub name: String,
    pub node_name: String,
    pub component: String,
    pub reading_type: String,
    pub available: bool,
    pub selected: bool,
    pub power_uw: u64,
}

impl Clone for SourceStatus {
    fn clone(&self) -> (r: Self)
        ensures
            r == *self,
    {
        SourceStatus {
            name: self.name.clone(),
            node_name: self.node_name.clone(),
            component: self.component.clone(),
            reading_type: self.reading_type.clone(),
            available: self.available,
            selected: self.selected,
            power_uw: self.power_uw,
        }
    }
}

/// One push of a node agent.
#[derive(Debug)]
pub struct AgentReport {
    pub node: NodePowerReport,
    pub pods: Vec<PodPowerReport>,
}

} // verus!
