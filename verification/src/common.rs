//! Plain records shared between the kernel-side observer and the agent: the keys and values of
//! the kernel's maps, and how many entries those maps may hold.

use vstd::prelude::*;

verus! {

/// Key of the run-time map: how long each PID ran on each CPU core.
#[derive(Clone, Copy, Debug, PartialEq, Eq, Structural)]
pub struct PidCpuKey {
    /// CPU core index (0..N)
    pub cpu: u32,
    /// Process ID
    pub pid: u32,
}

/// Value of the run-time map.
#[derive(Clone, Copy, Debug, PartialEq, Eq, Structural)]
pub struct PidCpuTime {
    /// Total nanoseconds this PID ran on this CPU since last drain
    pub time_ns: u64,
}

/// Per-CPU state for tracking the currently running task.
#[derive(Clone, Copy, Debug, PartialEq, Eq, Structural)]
pub struct CpuSchedState {
    /// PID of the currently running task on this CPU
    pub current_pid: u32,
    /// Time (ktime_ns) at which it was switched in
    pub start_time_ns: u64,
}

/// Key of the frequency map: how long each CPU spent at each frequency.
#[derive(Clone, Copy, Debug, PartialEq, Eq, Structural)]
pub struct CpuFreqKey {
    /// CPU core index
    pub cpu: u32,
    /// Frequency in KHz
    pub freq_khz: u32,
}

/// Value of the frequency map.
#[derive(Clone, Copy, Debug, PartialEq, Eq, Structural)]
pub struct CpuFreqTime {
    /// Total nanoseconds at this frequency since last drain
    pub time_ns: u64,
}

/// Per-CPU state for tracking current frequency.
#[derive(Clone, Copy, Debug, PartialEq, Eq, Structural)]
pub struct CpuFreqState {
    /// Current frequency in KHz
    pub current_freq_khz: u32,
    /// Timestamp when this frequency was set
    pub start_time_ns: u64,
}

/// Hardware counters of one core.
#[derive(Clone, Copy, Debug, PartialEq, Eq, Structural)]
pub struct CoreCounters {
    /// Instructions retired on this core
    pub instructions: u64,
    /// CPU cycles (actual, reflects frequency scaling)
    pub cycles: u64,
    /// Last-level cache misses
    pub cache_misses: u64,
    /// Cache references (for computing miss ratio)
    pub cache_refs: u64,
}

/// Value of the cgroup map: the cgroup that a PID runs in.
#[derive(Clone, Copy, Debug, PartialEq, Eq, Structural)]
pub struct PidCgroupValue {
    /// Cgroup v2 ID
    pub cgroup_id: u64,
}

/// Value of the network map: TCP bytes of one PID.
#[derive(Clone, Copy, Debug, PartialEq, Eq, Structural)]
pub struct PidNetBytes {
    /// Total bytes sent via TCP
    pub tx_bytes: u64,
    /// Total bytes received via TCP
    pub rx_bytes: u64,
}

/// Maximum number of entries in the run-time map.
pub const MAX_PID_CPU_ENTRIES: u32 = 65536;

/// Maximum number of CPUs supported.
pub const MAX_CPUS: u32 = 1024;

/// Maximum entries in the frequency map.
pub const MAX_CPU_FREQ_ENTRIES: u32 = 32768;

/// Maximum entries in the cgroup map.
pub const MAX_PID_CGROUP_ENTRIES: u32 = 65536;

/// Maximum entries in the network map.
pub const MAX_PID_NET_ENTRIES: u32 = 65536;

} // verus!
