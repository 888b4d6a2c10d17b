use keck::common::{
    CoreCounters, CpuFreqKey, CpuFreqState, CpuFreqTime, CpuSchedState, PidCgroupValue, PidCpuKey,
    PidCpuTime, PidNetBytes,
};
use keck::ebpf::counters::{
    cpus_in_range, num_online_cpus, HwCounterReader, PerfCounterReader, PERF_COUNT_HW_CACHE_MISSES,
    PERF_COUNT_HW_CPU_CYCLES, PERF_COUNT_HW_INSTRUCTIONS,
};
use keck::ebpf::layout::ByteOrder;
use keck::ebpf::tracing::{
    handle_cpu_frequency, handle_sched_switch, tcp_recvmsg, tcp_sendmsg, KernelMaps,
    PidCpuCounters, SwitchEvent, TaskState,
};
use keck::ebpf::{MapReader, ObserverError};

fn counters(n: u64) -> PidCpuCounters {
    PidCpuCounters { instructions: n, cycles: 2 * n, cache_misses: n / 10 }
}

fn idle() -> TaskState {
    TaskState {
        sched: CpuSchedState { current_pid: 0, start_time_ns: 0 },
        start: counters(0),
    }
}

fn switch(now_ns: u64, prev_pid: u32, next_pid: u32) -> SwitchEvent {
    SwitchEvent { now_ns, cpu: 2, prev_pid, next_pid, cgroup_id: 900 + next_pid as u64, counters: None }
}

#[test]
fn time_between_switches_is_accounted() {
    let mut maps = KernelMaps::new();
    let mut state = idle();
    handle_sched_switch(&mut maps, &mut state, &switch(100, 0, 7));
    assert!(maps.pid_cpu_time.is_empty());
    assert_eq!(maps.pid_cgroup, vec![(7, 907)]);
    handle_sched_switch(&mut maps, &mut state, &switch(150, 7, 8));
    handle_sched_switch(&mut maps, &mut state, &switch(160, 8, 7));
    handle_sched_switch(&mut maps, &mut state, &switch(180, 7, 0));
    assert_eq!(maps.pid_cpu_time, vec![((2, 7), 70), ((2, 8), 10)]);
    assert_eq!(state.sched.current_pid, 0);
}

#[test]
fn counters_between_switches_are_accounted() {
    let mut maps = KernelMaps::new();
    let mut state = idle();
    let mut e = switch(100, 0, 7);
    e.counters = Some((counters(50), counters(60)));
    handle_sched_switch(&mut maps, &mut state, &e);
    let mut e = switch(200, 7, 0);
    e.counters = Some((counters(160), counters(170)));
    handle_sched_switch(&mut maps, &mut state, &e);
    assert_eq!(maps.pid_hw_counters.len(), 1);
    assert_eq!(maps.pid_hw_counters[0], ((2, 7), PidCpuCounters { instructions: 100, cycles: 200, cache_misses: 10 }));
    let snapshot = maps.drain(true);
    assert_eq!(snapshot.pid_hw_counters, vec![((2, 7), (100, 200, 10))]);
}

#[test]
fn time_at_frequencies() {
    let mut maps = KernelMaps::new();
    let mut state = CpuFreqState { current_freq_khz: 0, start_time_ns: 0 };
    handle_cpu_frequency(&mut maps, &mut state, 1, 2_000_000, 10);
    handle_cpu_frequency(&mut maps, &mut state, 1, 3_000_000, 30);
    handle_cpu_frequency(&mut maps, &mut state, 1, 2_000_000, 35);
    handle_cpu_frequency(&mut maps, &mut state, 1, 1_000_000, 36);
    assert_eq!(maps.cpu_freq_time, vec![((1, 2_000_000), 21), ((1, 3_000_000), 5)]);
}

#[test]
fn network_bytes() {
    let mut maps = KernelMaps::new();
    tcp_sendmsg(&mut maps, 7, 100);
    tcp_recvmsg(&mut maps, 7, 30);
    tcp_recvmsg(&mut maps, 7, -11);
    tcp_recvmsg(&mut maps, 7, 0);
    tcp_sendmsg(&mut maps, 0, 5);
    assert_eq!(maps.pid_net_bytes.len(), 1);
    let b = maps.pid_net_bytes[0].1;
    assert_eq!((b.tx_bytes, b.rx_bytes), (100, 30));
}

#[test]
fn draining_empties_all_but_cgroups() {
    let mut maps = KernelMaps::new();
    maps.pid_cpu_time.push(((0, 1), 5));
    maps.cpu_freq_time.push(((0, 100), 6));
    maps.pid_cgroup.push((1, 77));
    maps.pid_hw_counters.push(((0, 1), counters(10)));
    tcp_sendmsg(&mut maps, 1, 9);
    let s = maps.drain(false);
    assert_eq!(s.pid_cpu_times, vec![(0, 1, 5)]);
    assert_eq!(s.cpu_freq_times, vec![(0, 100, 6)]);
    assert_eq!(s.pid_cgroups.get(&1), Some(&77));
    assert_eq!(s.pid_net_bytes.get(&1), Some(&(9, 0)));
    // Not asked for, so left in the map
    assert!(s.pid_hw_counters.is_empty());
    let again = maps.drain(false);
    assert!(again.pid_cpu_times.is_empty() && again.cpu_freq_times.is_empty());
    assert!(again.pid_net_bytes.is_empty());
    assert_eq!(again.pid_cgroups.len(), 1);
}

#[test]
fn dead_pids_are_cleaned_up() {
    let mut maps = KernelMaps::new();
    maps.pid_cgroup = vec![(1, 10), (2, 20), (3, 30)];
    assert_eq!(maps.cleanup_dead_pids(&vec![2, 9]), 2);
    assert_eq!(maps.pid_cgroup, vec![(2, 20)]);
}

#[test]
fn counter_codes() {
    assert_eq!(PERF_COUNT_HW_CPU_CYCLES, 0);
    assert_eq!(PERF_COUNT_HW_INSTRUCTIONS, 1);
    assert_eq!(PERF_COUNT_HW_CACHE_MISSES, 3);
}

#[test]
fn core_deltas_since_the_last_read() {
    let mut r = HwCounterReader::new(2);
    let first = vec![counters(100), counters(50)];
    assert!(r.misses_in_range(&first));
    assert_eq!(r.total_deltas(&first), 15);
    let d = r.read_deltas(&vec![counters(130), counters(40)]);
    assert_eq!((d[0].core_id, d[0].instructions, d[0].cycles), (0, 30, 60));
    // A counter that went backwards counts nothing
    assert_eq!((d[1].core_id, d[1].instructions, d[1].cache_misses), (1, 0, 0));
    let huge = PidCpuCounters { instructions: 0, cycles: 0, cache_misses: u64::MAX };
    assert!(!r.misses_in_range(&vec![huge, huge]));
}

#[test]
fn groups_of_counters() {
    let mut r = PerfCounterReader::new(2);
    assert_eq!(r.num_cores(), 2);
    let c = |n: u64| CoreCounters { instructions: n, cycles: n, cache_misses: n, cache_refs: n };
    let v = r.read_all_cores(&vec![Some(c(5)), Some(c(7))]).unwrap();
    assert_eq!((v[1].0, v[1].1.instructions, v[1].1.cache_refs), (1, 7, 0));
    let e = r.read_all_cores(&vec![None, Some(c(9))]).unwrap_err();
    assert!(matches!(e, ObserverError::PerfCounter(_)));
    let v = r.read_all_cores(&vec![Some(c(6)), Some(c(10))]).unwrap();
    assert_eq!((v[0].1.cycles, v[1].1.cycles), (1, 3));
}

#[test]
fn online_cpus() {
    for (list, n) in [("0-7\n", 8), ("0-3,8-11", 8), ("0", 1), ("0,2,4-5", 4)] {
        assert!(cpus_in_range(list));
        assert_eq!(num_online_cpus(list).unwrap(), n);
    }
    for list in ["0-x", "1-2-3", ","] {
        assert!(cpus_in_range(list));
    }
    assert!(num_online_cpus("0-x").is_err());
    assert!(num_online_cpus("1-2-3").is_err());
    assert!(!cpus_in_range("7-0"));
}

#[test]
fn a_reader_drains_times_and_keeps_cgroups() {
    let mut maps = KernelMaps::new();
    maps.pid_cpu_time = vec![((0, 7), 100), ((1, 7), 50)];
    maps.cpu_freq_time = vec![((0, 2_000_000), 150)];
    maps.pid_cgroup = vec![(7, 71)];
    let s = MapReader::new().drain(&mut maps).unwrap();
    assert_eq!(
        s.pid_cpu_times,
        vec![(PidCpuKey { cpu: 0, pid: 7 }, 100), (PidCpuKey { cpu: 1, pid: 7 }, 50)]
    );
    assert_eq!(s.cpu_freq_times, vec![(CpuFreqKey { cpu: 0, freq_khz: 2_000_000 }, 150)]);
    assert_eq!(s.pid_cgroups.get(&7), Some(&71));
    assert!(s.core_counters.is_empty());
    assert!(maps.pid_cpu_time.is_empty() && maps.cpu_freq_time.is_empty());
    assert_eq!(maps.pid_cgroup, vec![(7, 71)]);
}

#[test]
fn map_entries_are_read_from_bytes() {
    let key = PidCpuKey { cpu: 3, pid: 0x0102_0304 };
    assert_eq!(key.to_bytes(ByteOrder::Little), vec![3, 0, 0, 0, 4, 3, 2, 1]);
    assert_eq!(key.to_bytes(ByteOrder::Big), vec![0, 0, 0, 3, 1, 2, 3, 4]);
    for order in [ByteOrder::Little, ByteOrder::Big] {
        assert_eq!(PidCpuKey::from_bytes(&key.to_bytes(order), order), Some(key));
    }
    assert_eq!(PidCpuKey::from_bytes(&[1, 2, 3], ByteOrder::Little), None);
    let words: Vec<u8> = (1u8..=24).collect();
    let (lo, hi) = (0x0807_0605_0403_0201u64, 0x0102_0304_0506_0708u64);
    assert_eq!(PidCpuTime::from_bytes(&words[..8], ByteOrder::Little).unwrap().time_ns, lo);
    assert_eq!(CpuFreqTime::from_bytes(&words[..8], ByteOrder::Big).unwrap().time_ns, hi);
    assert_eq!(PidCgroupValue::from_bytes(&words[..8], ByteOrder::Big).unwrap().cgroup_id, hi);
    let f = CpuFreqKey::from_bytes(&words[..8], ByteOrder::Big).unwrap();
    assert_eq!((f.cpu, f.freq_khz), (0x0102_0304, 0x0506_0708));
    let n = PidNetBytes::from_bytes(&words[..16], ByteOrder::Little).unwrap();
    assert_eq!((n.tx_bytes, n.rx_bytes), (lo, 0x100f_0e0d_0c0b_0a09));
    let c = PidCpuCounters::from_bytes(&words, ByteOrder::Little).unwrap();
    assert_eq!((c.instructions, c.cache_misses), (lo, 0x1817_1615_1413_1211));
    assert!(PidNetBytes::from_bytes(&words, ByteOrder::Little).is_none());
}
