//! What the kernel-side observer hands over each interval.

pub mod counters;
pub mod layout;
pub mod tracing;

use self::tracing::{as_map, read_cgroups, take_triples, triples, KernelMaps};
use crate::common::{CoreCounters, CpuFreqKey, PidCpuKey};
use std::collections::HashMap;
use vstd::prelude::*;

verus! {

/// One interval's observations, as the attribution engine takes them.
#[derive(Debug)]
pub struct ObservationSnapshot {
    /// Nanoseconds that each PID ran on each core
    pub pid_cpu_times: Vec<(PidCpuKey, u64)>,
    /// Nanoseconds that each core spent at each frequency
    pub cpu_freq_times: Vec<(CpuFreqKey, u64)>,
    /// Hardware counter deltas of each core
    pub core_counters: Vec<(u32, CoreCounters)>,
    /// The cgroup of each PID
    pub pid_cgroups: HashMap<u32, u64>,
}

/// One interval's raw observations, as they come out of the kernel's maps.
#[derive(Debug)]
pub struct EbpfSnapshot {
    /// (cpu, pid, nanoseconds on that core this interval)
    pub pid_cpu_times: Vec<(u32, u32, u64)>,
    /// (cpu, KHz, nanoseconds at that frequency)
    pub cpu_freq_times: Vec<(u32, u32, u64)>,
    /// pid → cgroup
    pub pid_cgroups: HashMap<u32, u64>,
    /// pid → TCP bytes sent and received
    pub pid_net_bytes: HashMap<u32, (u64, u64)>,
    /// (cpu, pid) → instructions, cycles, cache misses
    pub pid_hw_counters: Vec<((u32, u32), (u64, u64, u64))>,
}

/// Errors of the observer.
#[derive(Debug)]
pub enum ObserverError {
    Ebpf(String),
    PerfCounter(String),
}

/// Reads the kernel's maps for the attribution engine.
#[derive(Debug)]
pub struct MapReader {}

impl MapReader {
    pub fn new() -> (r: Self)
        ensures
            r == (MapReader {  }),
    {
        MapReader {  }
    }

    /// Drains the maps and returns what accumulated.
    ///
    /// All entries of the maps of PID and frequency times are collected and then deleted, so that
    /// they start anew for the next interval. The map of cgroups is no accumulator: it is read and
    /// stays. The hardware counters of the cores are not in these maps, so there are none yet.
    pub fn drain(&self, maps: &mut KernelMaps) -> (r: Result<ObservationSnapshot, ObserverError>)
        ensures
            r is Ok,
            r->Ok_0.pid_cpu_times@ == pid_entries(old(maps).pid_cpu_time@),
            r->Ok_0.cpu_freq_times@ == freq_entries(old(maps).cpu_freq_time@),
            r->Ok_0.pid_cgroups@ == as_map(old(maps).pid_cgroup@),
            r->Ok_0.core_counters@.len() == 0,
            final(maps).pid_cpu_time@.len() == 0,
            final(maps).cpu_freq_time@.len() == 0,
            final(maps).pid_cgroup@ == old(maps).pid_cgroup@,
            final(maps).pid_net_bytes@ == old(maps).pid_net_bytes@,
            final(maps).pid_hw_counters@ == old(maps).pid_hw_counters@,
    {
        let times: Vec<(u32, u32, u64)> = take_triples(&mut maps.pid_cpu_time);
        let freqs: Vec<(u32, u32, u64)> = take_triples(&mut maps.cpu_freq_time);
        let ghost all_times = pid_entries(old(maps).pid_cpu_time@);
        let ghost all_freqs = freq_entries(old(maps).cpu_freq_time@);
        let mut pid_cpu_times: Vec<(PidCpuKey, u64)> = Vec::new();
        let mut i: usize = 0;
        while i < times.len()
            invariant
                i <= times@.len(),
                times@ == triples(old(maps).pid_cpu_time@),
                all_times == pid_entries(old(maps).pid_cpu_time@),
                pid_cpu_times@ == all_times.take(i as int),
            decreases times@.len() - i,
        {
            pid_cpu_times.push((PidCpuKey { cpu: times[i].0, pid: times[i].1 }, times[i].2));
            i = i + 1;
            assert(pid_cpu_times@ =~= all_times.take(i as int));
        }
        assert(pid_cpu_times@ =~= all_times);
        let mut cpu_freq_times: Vec<(CpuFreqKey, u64)> = Vec::new();
        let mut j: usize = 0;
        while j < freqs.len()
            invariant
                j <= freqs@.len(),
                freqs@ == triples(old(maps).cpu_freq_time@),
                all_freqs == freq_entries(old(maps).cpu_freq_time@),
                cpu_freq_times@ == all_freqs.take(j as int),
            decreases freqs@.len() - j,
        {
            cpu_freq_times.push((CpuFreqKey { cpu: freqs[j].0, freq_khz: freqs[j].1 }, freqs[j].2));
            j = j + 1;
            assert(cpu_freq_times@ =~= all_freqs.take(j as int));
        }
        assert(cpu_freq_times@ =~= all_freqs);
        let pid_cgroups: HashMap<u32, u64> = read_cgroups(&maps.pid_cgroup);
        Ok(
            ObservationSnapshot {
                pid_cpu_times,
                cpu_freq_times,
                core_counters: Vec::new(),
                pid_cgroups,
            },
        )
    }
}

/// The entries of the map of PID times.
pub open spec fn pid_entries(s: Seq<((u32, u32), u64)>) -> Seq<(PidCpuKey, u64)> {
    s.map_values(|e: ((u32, u32), u64)| (PidCpuKey { cpu: e.0.0, pid: e.0.1 }, e.1))
}

/// The entries of the map of frequency times.
pub open spec fn freq_entries(s: Seq<((u32, u32), u64)>) -> Seq<(CpuFreqKey, u64)> {
    s.map_values(|e: ((u32, u32), u64)| (CpuFreqKey { cpu: e.0.0, freq_khz: e.0.1 }, e.1))
}

/// The entries of both maps keep their order and amounts; the first part of a key is the CPU.
pub proof fn law_entries(s: Seq<((u32, u32), u64)>, i: int, cpu: u32, other: u32, ns: u64)
    requires
        0 <= i < s.len(),
        s[i] == ((cpu, other), ns),
    ensures
        pid_entries(s).len() == s.len(),
        freq_entries(s).len() == s.len(),
        pid_entries(s)[i].0.cpu == cpu && pid_entries(s)[i].0.pid == other,
        freq_entries(s)[i].0.cpu == cpu && freq_entries(s)[i].0.freq_khz == other,
        pid_entries(s)[i].1 == ns && freq_entries(s)[i].1 == ns,
{
}

} // verus!
