use keck::agent::adjust::{add_gpu_power_to_pods, gpu_in_range, override_cpu};
use keck::agent::io::{
    read_disk_bytes, share_network, share_storage, tcp_use, IoMeter, IoSample, IoUse,
};
use keck::agent::interval::{attribute_pods, cleanup_due, pod_refresh_due, KernelView};
use keck::agent::kernel_pods::{
    enumerate_pods_ebpf, enumerate_pods_ebpf_weighted, PodProcess,
};
use keck::agent::pods::{
    cleanup_stale_pids, count_unique_namespaces, enumerate_pods, needs_memory, refresh_pod_cache,
    PodInfo, ProcessCaches,
};
use keck::agent::procfs::{
    count_processes, extract_pod_uid, get_node_name, is_pid_name, names_thread, read_cpu_ticks,
    read_memory_kb, read_proc_stat, read_process, read_pss_kb, read_rss_pages, ProcStat,
    ProcessSample,
};
use keck::agent::selection::{
    attributed_in_range, best_source, reading_in_range, report_node, source_power, SourceReading,
};
use keck::attribution::types::{Component, ReadingType};
use keck::ebpf::EbpfSnapshot;
use keck::hardware::source::{Granularity, PowerReading, SourceId};
use keck::report::PodPowerReport;
use std::collections::HashMap;

const SECOND: u64 = 1_000_000_000;

// ─── Process files ──────────────────────────────────────────────

/// A `stat` line with given page faults and times, of a process whose name holds brackets.
fn stat_text(minflt: u64, majflt: u64, utime: u64, stime: u64) -> String {
    format!("42 (a (b) c) S 1 42 42 0 -1 4194560 {} 9 {} 8 {} {} 0 0 20 0", minflt, majflt, utime, stime)
}

#[test]
fn stat_files() {
    let s = read_proc_stat(&stat_text(100, 3, 70, 30)).unwrap();
    assert_eq!((s.minflt, s.majflt, s.cpu_ticks), (100, 3, 100));
    assert_eq!(read_cpu_ticks(&stat_text(0, 0, 5, 6)), Some(11));
    // The sum of two large times
    let big = read_proc_stat(&stat_text(0, 0, u64::MAX, u64::MAX)).unwrap();
    assert_eq!(big.cpu_ticks, 2 * (u64::MAX as u128));
    assert!(read_proc_stat("42 no brackets").is_none());
    assert!(read_proc_stat("42 (x) S 1 2 3").is_none());
    assert!(read_proc_stat(&stat_text(0, 0, 5, 6).replace(" 5 ", " x ")).is_none());
}

#[test]
fn memory_files() {
    let smaps = "55-7f ---p [rollup]\nRss:  900 kB\nPss:  640 kB\nPss_Anon: 1 kB\n";
    assert_eq!(read_pss_kb(smaps), Some(640));
    assert_eq!(read_pss_kb("Rss: 5 kB"), None);
    assert_eq!(read_rss_pages("1000 250 30 1 0 90 0"), Some(250));
    assert_eq!(read_rss_pages("1000"), None);
    assert_eq!(read_memory_kb(Some(smaps), Some("1000 250")), 640);
    assert_eq!(read_memory_kb(None, Some("1000 250")), 1000);
    assert_eq!(read_memory_kb(None, None), 0);
}

#[test]
fn threads_and_processes() {
    assert!(is_pid_name("4711") && !is_pid_name("self") && !is_pid_name("4a"));
    assert!(!names_thread("Name:\tx\nTgid:\t42\nPid:\t42\n", "42"));
    assert!(names_thread("Name:\tx\nTgid:\t42\nPid:\t43\n", "43"));
    assert!(!names_thread("Name:\tx\n", "43"));
    let names: Vec<String> = ["1", "22", "self", "meminfo"].iter().map(|s| s.to_string()).collect();
    assert_eq!(count_processes(&names), 2);
}

#[test]
fn pods_of_cgroups() {
    let slice = "0::/kubepods.slice/kubepods-burstable.slice/kubepods-burstable-pod12ab34cd_56ef.slice/crio-9";
    assert_eq!(extract_pod_uid(slice).unwrap(), "12ab34cd-56ef");
    assert_eq!(extract_pod_uid("0::/system.slice/sshd.service"), None);
    assert_eq!(extract_pod_uid("0::/kubepods-podshort.slice"), None);
    let second = format!("1:cpu:/\n{}", slice);
    assert_eq!(extract_pod_uid(&second).unwrap(), "12ab34cd-56ef");
}

#[test]
fn processes_by_their_files() {
    let stat = stat_text(1, 2, 3, 4);
    let cgroup = "0::/kubepods-pod12345678.slice";
    let p = read_process("42", Some("Tgid: 42"), Some(&stat), Some(7), Some(cgroup)).unwrap();
    assert_eq!((p.pid, p.stat.cpu_ticks, p.memory_kb), (42, 7, Some(7)));
    assert_eq!(p.pod_uid.as_deref(), Some("12345678"));
    assert!(read_process("self", None, Some(&stat), None, None).is_none());
    assert!(read_process("42", Some("Tgid: 41"), Some(&stat), None, None).is_none());
    assert!(read_process("42", None, None, None, None).is_none());
    assert_eq!(read_process("99999999999", None, Some(&stat), None, None).unwrap().pid, 0);
}

#[test]
fn names_of_nodes() {
    assert_eq!(get_node_name(Some("n"), Some("h"), Some("f\n")), "n");
    assert_eq!(get_node_name(None, Some("h"), Some("f\n")), "h");
    assert_eq!(get_node_name(None, None, Some(" f\n")), "f");
    assert_eq!(get_node_name(None, None, None), "unknown");
}

// ─── Pods by process files ──────────────────────────────────────

fn sample(pid: u32, cpu_ticks: u128, memory_kb: u128, pod: Option<&str>) -> ProcessSample {
    ProcessSample {
        pid,
        stat: ProcStat { cpu_ticks, minflt: 0, majflt: 0 },
        memory_kb: Some(memory_kb),
        pod_uid: pod.map(str::to_string),
    }
}

fn cache() -> Vec<(String, PodInfo)> {
    refresh_pod_cache(vec![
        ("uid-a".into(), PodInfo { name: "web".into(), namespace: "shop".into() }),
        ("uid-g".into(), PodInfo { name: "train".into(), namespace: "ml".into() }),
    ])
}

/// Pod a used 30 of 100 ticks, pod b 50, a process without a pod 20.
fn sampled(caches: &mut ProcessCaches, llc_misses: u128, misses: &Vec<(String, u64)>) -> Vec<PodPowerReport> {
    let first = vec![sample(1, 10, 0, Some("uid-a")), sample(2, 10, 0, Some("uid-b")), sample(3, 10, 0, None)];
    enumerate_pods("n", 0, 0, 0, &vec![], &cache(), caches, 0, &first, 0);
    let then = vec![
        sample(1, 40, 600, Some("uid-a")),
        sample(2, 60, 100, Some("uid-b")),
        sample(3, 30, 300, None),
        sample(4, 999, 0, Some("uid-c")),
    ];
    enumerate_pods("n", 1_000, 1_000, llc_misses, misses, &cache(), caches, 5, &then, 77)
}

fn of<'a>(pods: &'a Vec<PodPowerReport>, uid: &str) -> &'a PodPowerReport {
    pods.iter().find(|p| p.pod_uid == uid).unwrap()
}

#[test]
fn power_by_cpu_time_and_memory() {
    let pods = sampled(&mut ProcessCaches::new(), 0, &vec![]);
    assert_eq!(pods.len(), 3);
    let a = of(&pods, "uid-a");
    assert_eq!((a.cpu_uw, a.memory_uw, a.total_uw, a.timestamp_ns), (300, 600, 900, 77));
    assert_eq!((a.pod_name.as_str(), a.namespace.as_str()), ("web", "shop"));
    let b = of(&pods, "uid-b");
    assert_eq!((b.cpu_uw, b.memory_uw), (500, 100));
    assert_eq!((b.pod_name.as_str(), b.namespace.as_str()), ("uid-b", "unknown"));
    // A new process has used nothing yet
    assert_eq!((of(&pods, "uid-c").cpu_uw, of(&pods, "uid-c").memory_uw), (0, 0));
}

#[test]
fn memory_is_blended_with_accesses() {
    let misses = vec![("uid-a".to_string(), 2), ("uid-b".to_string(), 9), ("uid-a".to_string(), 3)];
    let pods = sampled(&mut ProcessCaches::new(), 20, &misses);
    // 60% of 600/1000 and 40% of 5/20
    assert_eq!(of(&pods, "uid-a").memory_uw, 460);
    // 60% of 100/1000 and 40% of 9/20
    assert_eq!(of(&pods, "uid-b").memory_uw, 240);
}

#[test]
fn memory_is_read_every_fifth_interval() {
    let mut caches = ProcessCaches::new();
    assert!(needs_memory(&caches, 1, 3));
    sampled(&mut caches, 0, &vec![]);
    assert!(!needs_memory(&caches, 1, 6) && needs_memory(&caches, 1, 10));
    // What was remembered counts
    let pods = enumerate_pods("n", 0, 1_000, 0, &vec![], &cache(), &mut caches, 6,
        &vec![sample(1, 40, 5, Some("uid-a")), sample(2, 60, 5, Some("uid-b"))], 0);
    assert_eq!(of(&pods, "uid-a").memory_uw, 857);
    cleanup_stale_pids(&mut caches, &vec![2, 50]);
    assert!(needs_memory(&caches, 1, 6) && !needs_memory(&caches, 2, 6));
}

#[test]
fn known_namespaces() {
    assert_eq!(count_unique_namespaces(&cache()), 2);
    assert_eq!(count_unique_namespaces(&vec![]), 0);
}

// ─── Pods by the kernel ─────────────────────────────────────────

fn snapshot() -> EbpfSnapshot {
    EbpfSnapshot {
        pid_cpu_times: vec![(0, 1, 300), (0, 2, 100), (1, 2, 50), (1, 9, 50)],
        cpu_freq_times: vec![(0, 2_000_000, 100), (1, 1_000_000, 100)],
        pid_cgroups: HashMap::new(),
        pid_net_bytes: HashMap::new(),
        pid_hw_counters: vec![],
    }
}

fn pid_pods() -> Vec<(u32, PodProcess)> {
    vec![
        (1, PodProcess { pod_uid: "uid-a".into(), memory: 75 }),
        (2, PodProcess { pod_uid: "uid-b".into(), memory: 25 }),
    ]
}

#[test]
fn power_by_run_time() {
    let pods = enumerate_pods_ebpf("n", 900, 400, &cache(), &snapshot(), &pid_pods(), 5);
    // 300 and 150 of 450 nanoseconds
    assert_eq!((of(&pods, "uid-a").cpu_uw, of(&pods, "uid-a").memory_uw), (600, 300));
    assert_eq!((of(&pods, "uid-b").cpu_uw, of(&pods, "uid-b").memory_uw), (300, 100));
}

#[test]
fn power_by_run_time_and_frequency() {
    let pods = enumerate_pods_ebpf_weighted("n", 1_000, 400, 0, &cache(), &snapshot(), &pid_pods(), 5);
    // Core 0 has 4/5 of the power, of which pod a has 3/4; half of core 1 is no pod's
    assert_eq!(of(&pods, "uid-a").cpu_uw, 600);
    assert_eq!(of(&pods, "uid-b").cpu_uw, 300);
    assert_eq!(of(&pods, "uid-a").memory_uw, 300);
    let mut idle = snapshot();
    idle.cpu_freq_times = vec![(0, 0, 100)];
    assert!(enumerate_pods_ebpf_weighted("n", 1_000, 400, 0, &cache(), &idle, &pid_pods(), 5).is_empty());
}

#[test]
fn kernel_power_is_rounded_once() {
    let mut even = snapshot();
    even.pid_cpu_times = vec![(0, 1, 100), (1, 1, 100), (2, 1, 100)];
    even.cpu_freq_times = vec![(0, 1_000_000, 5), (1, 1_000_000, 5), (2, 1_000_000, 5)];
    let pods = enumerate_pods_ebpf_weighted("n", 1, 0, 0, &cache(), &even, &pid_pods(), 5);
    assert_eq!(of(&pods, "uid-a").cpu_uw, 1);
}

#[test]
fn kernel_misses_tell_accesses() {
    let mut missy = snapshot();
    missy.pid_hw_counters = vec![((0, 1), (0, 1, 3)), ((1, 2), (0, 1, 1)), ((1, 9), (0, 1, 4))];
    let pods = enumerate_pods_ebpf_weighted("n", 0, 1_000, 8, &cache(), &missy, &pid_pods(), 5);
    // 60% of 75/100 and 40% of 3/8
    assert_eq!(of(&pods, "uid-a").memory_uw, 600);
    // 60% of 25/100 and 40% of 1/8
    assert_eq!(of(&pods, "uid-b").memory_uw, 200);
}

#[test]
fn kernel_power_conserves() {
    let mut odd = snapshot();
    odd.cpu_freq_times = vec![(0, 2_000_000, 7), (1, 1_000_000, 11)];
    let pods = enumerate_pods_ebpf_weighted("n", 999_999, 333, 5, &cache(), &odd, &pid_pods(), 5);
    let cpu: u64 = pods.iter().map(|p| p.cpu_uw).sum();
    let memory: u64 = pods.iter().map(|p| p.memory_uw).sum();
    assert!(cpu <= 999_999 && memory <= 333);
}

#[test]
fn estimated_power_goes_by_the_kernel() {
    let run = |reading_type: &str, with_kernel: bool| {
        let mut caches = ProcessCaches::new();
        let kernel = if with_kernel {
            Some(KernelView { snapshot: snapshot(), pid_pods: pid_pods() })
        } else {
            None
        };
        let first = vec![sample(1, 0, 50, Some("uid-a")), sample(3, 0, 50, Some("uid-c"))];
        attribute_pods("n", 0, 0, "none", &cache(), &mut caches, 0, &first, &None, 0);
        let then = vec![sample(1, 10, 50, Some("uid-a")), sample(3, 30, 50, Some("uid-c"))];
        attribute_pods("n", 1_000, 400, reading_type, &cache(), &mut caches, 1, &then, &kernel, 9)
    };
    let pods = run("estimated", true);
    // The kernel saw pod a, and not pod c
    assert_eq!((of(&pods, "uid-a").cpu_uw, of(&pods, "uid-a").total_uw), (600, 800));
    assert_eq!(of(&pods, "uid-c").cpu_uw, 750);
    assert_eq!(pods.len(), 2);
    for pods in [run("measured", true), run("estimated", false)] {
        assert_eq!(of(&pods, "uid-a").cpu_uw, 250);
    }
}

#[test]
fn observed_power_replaces_cpu_power() {
    let mut pods = sampled(&mut ProcessCaches::new(), 0, &vec![]);
    let mut observed = vec![of(&pods, "uid-a").clone(), of(&pods, "uid-a").clone()];
    observed[0].cpu_uw = 1;
    observed[1].cpu_uw = 2;
    override_cpu(&mut pods, &observed);
    assert_eq!((of(&pods, "uid-a").cpu_uw, of(&pods, "uid-a").total_uw), (2, 602));
    assert_eq!(of(&pods, "uid-b").cpu_uw, 500);
}

// ─── GPU power of pods ──────────────────────────────────────────

#[test]
fn gpu_power_goes_to_the_named_pods() {
    let line = |pod: &str, ns: &str, host: &str, watts: &str| {
        format!("DCGM_FI_DEV_POWER_USAGE{{gpu=\"0\",Hostname=\"{}\",namespace=\"{}\",pod=\"{}\"}} {}\n", host, ns, pod, watts)
    };
    let mut body = line("web", "shop", "n", "1.5");
    body += &line("web", "shop", "n", "0.5");
    body += &line("train", "ml", "n", "40");
    body += &line("other", "ml", "n", "3");
    body += &line("web", "shop", "elsewhere", "9");
    body += &line("", "", "n", "9");
    body += &line("web", "shop", "n", "-1");
    let mut pods = sampled(&mut ProcessCaches::new(), 0, &vec![]);
    assert!(gpu_in_range(&pods, &body, "n", &cache(), 88));
    add_gpu_power_to_pods(&mut pods, &body, "n", &cache(), 88);
    let web = of(&pods, "uid-a");
    assert_eq!((web.gpu_uw, web.total_uw), (2_000_000, 2_000_900));
    // A pod without a report of its own, which the cluster knows
    let train = of(&pods, "uid-g");
    assert_eq!((train.gpu_uw, train.total_uw, train.timestamp_ns), (40_000_000, 40_000_000, 88));
    assert_eq!(pods.len(), 4);
    // The least power makes a report
    let mut few = Vec::new();
    add_gpu_power_to_pods(&mut few, &line("train", "ml", "n", "1e-7"), "n", &cache(), 88);
    assert_eq!((few.len(), of(&few, "uid-g").gpu_uw), (1, 0));
    let huge = line("web", "shop", "n", "1e30");
    assert!(!gpu_in_range(&pods, &huge, "n", &cache(), 88));
}

// ─── Storage and network power of pods ──────────────────────────

#[test]
fn disk_bytes_of_a_process() {
    let io = "rchar: 9\nwchar: 9\nread_bytes: 4096\nwrite_bytes: 1000\ncancelled_write_bytes: 7\n";
    assert_eq!(read_disk_bytes(io), Some(5096));
    assert_eq!(read_disk_bytes("read_bytes: 4096\n"), None);
    let big = format!("read_bytes: {}\nwrite_bytes: {}\n", u64::MAX, u64::MAX);
    assert_eq!(read_disk_bytes(&big), Some(2 * (u64::MAX as u128)));
}

#[test]
fn storage_power_by_bytes() {
    let io = |pid: u32, bytes: u128, pod: Option<&str>| IoSample { pid, bytes, pod_uid: pod.map(str::to_string) };
    let mut meter = IoMeter::new();
    let first = meter.measure(&vec![io(1, 100, Some("uid-a")), io(2, 500, None)]);
    // New processes have moved nothing yet
    assert_eq!((first.total, first.pods), (0, vec![("uid-a".to_string(), 0)]));
    let disk = meter.measure(&vec![io(1, 130, Some("uid-a")), io(2, 570, None), io(3, 9, Some("uid-b"))]);
    assert_eq!(disk.total, 100);
    let mut pods = sampled(&mut ProcessCaches::new(), 0, &vec![]);
    share_storage(&mut pods, 1_000, &disk);
    assert_eq!((of(&pods, "uid-a").storage_uw, of(&pods, "uid-b").storage_uw), (300, 0));
    // The other parts stay
    assert_eq!((of(&pods, "uid-a").cpu_uw, of(&pods, "uid-a").total_uw), (300, 900));
    meter.forget(&vec![2]);
    assert_eq!(meter.prev.len(), 1);
    let idle = IoUse { pods: vec![], total: 0 };
    share_storage(&mut pods, 1_000, &idle);
    assert_eq!(of(&pods, "uid-a").storage_uw, 0);
}

#[test]
fn network_power_by_tcp_bytes() {
    let tcp = tcp_use(&vec![(1, (10, 20)), (2, (30, 0)), (9, (40, 100))], &pid_pods());
    assert_eq!(tcp.total, 200);
    let mut pods = sampled(&mut ProcessCaches::new(), 0, &vec![]);
    share_network(&mut pods, 1_000, &Some(tcp));
    assert_eq!((of(&pods, "uid-a").io_uw, of(&pods, "uid-b").io_uw, of(&pods, "uid-c").io_uw), (150, 150, 0));
    // Without counts it goes by CPU power: 300 and 500 of 800
    share_network(&mut pods, 1_000, &None);
    assert_eq!((of(&pods, "uid-a").io_uw, of(&pods, "uid-b").io_uw), (375, 625));
}

// ─── Sources ────────────────────────────────────────────────────

fn counter(energy: u64, max: u64) -> PowerReading {
    PowerReading {
        source_id: SourceId("s".into()),
        timestamp_ns: 0,
        component: Component::Cpu,
        granularity: Granularity::Node,
        reading_type: ReadingType::Estimated,
        energy_uj: Some(energy),
        power_uw: None,
        max_energy_uj: max,
    }
}

#[test]
fn power_of_a_source() {
    let id = "s".to_string();
    let mut prev = vec![];
    assert_eq!(source_power(&mut prev, &id, &counter(1_000, 0), SECOND), 0);
    assert_eq!(prev, vec![("s".to_string(), 1_000)]);
    // 10 J in 10 s
    assert_eq!(source_power(&mut prev, &id, &counter(10_001_000, 0), 10 * SECOND), 1_000_000);
    // Wrapped around at 10_002_000
    assert!(reading_in_range(&prev, &id, &counter(4_000, 10_002_000)));
    assert_eq!(source_power(&mut prev, &id, &counter(4_000, 10_002_000), SECOND), 5_000);
    assert!(!reading_in_range(&prev, &id, &counter(3_000, 3_500)));
    let mut direct = counter(0, 0);
    direct.energy_uj = None;
    direct.power_uw = Some(77);
    assert_eq!(source_power(&mut prev, &id, &direct, SECOND), 77);
    direct.power_uw = None;
    assert_eq!(source_power(&mut prev, &id, &direct, SECOND), 0);
}

fn told(name: &str, component: Component, reading_type: ReadingType, power_uw: Option<u64>) -> SourceReading {
    SourceReading { name: name.into(), component, reading_type, power_uw }
}

#[test]
fn the_best_source_is_chosen() {
    let readings = vec![
        told("rapl", Component::Cpu, ReadingType::Estimated, Some(50)),
        told("bmc", Component::Cpu, ReadingType::Measured, Some(60)),
        told("bmc2", Component::Cpu, ReadingType::Measured, Some(70)),
        told("dead", Component::Memory, ReadingType::Measured, None),
        told("dram", Component::Memory, ReadingType::Derived, Some(10)),
        told("board", Component::Platform, ReadingType::Measured, Some(90)),
        told("psu", Component::Platform, ReadingType::Measured, Some(200)),
        told("fans", Component::Fan, ReadingType::Measured, Some(5)),
        told("gpu", Component::Gpu, ReadingType::Measured, Some(0)),
    ];
    assert_eq!(best_source(&readings, Component::Cpu), Some(1));
    assert_eq!(best_source(&readings, Component::Memory), Some(4));
    assert_eq!(best_source(&readings, Component::Platform), Some(6));
    assert_eq!(best_source(&readings, Component::Gpu), None);
    assert!(attributed_in_range(&readings));
    let r = report_node("n", &readings, 3, 4, 5);
    assert_eq!((r.cpu_uw, r.memory_uw, r.gpu_uw, r.platform_uw), (60, 10, 0, Some(200)));
    // 200 - (60 + 10 + 5)
    assert_eq!((r.idle_uw, r.error_ratio_atto), (125, 625_000_000_000_000_000));
    assert_eq!((r.cpu_source.as_str(), r.memory_source.as_str()), ("bmc", "dram"));
    assert_eq!(r.cpu_reading_type, "measured");
    let selected: Vec<bool> = r.sources.iter().map(|s| s.selected).collect();
    assert_eq!(selected, vec![false, true, false, false, true, true, true, false, false]);
    assert_eq!((r.sources[3].available, r.sources[0].available), (false, true));
    assert_eq!((r.sources[4].component.as_str(), r.sources[4].reading_type.as_str()), ("memory", "derived"));
}

#[test]
fn a_node_without_sources() {
    let r = report_node("n", &vec![], 0, 0, 0);
    assert_eq!((r.cpu_uw, r.platform_uw, r.idle_uw, r.error_ratio_atto), (0, None, 0, 0));
    assert_eq!((r.cpu_source.as_str(), r.cpu_reading_type.as_str()), ("none", "none"));
    let readings = vec![
        told("a", Component::Cpu, ReadingType::Measured, Some(u64::MAX)),
        told("b", Component::Fan, ReadingType::Measured, Some(1)),
    ];
    assert!(!attributed_in_range(&readings));
}

// ─── The loop ───────────────────────────────────────────────────

#[test]
fn what_is_due() {
    assert!(cleanup_due(30) && cleanup_due(60) && !cleanup_due(31));
    assert!(pod_refresh_due(10, 10 + 30 * SECOND) && !pod_refresh_due(10, 9 + 30 * SECOND));
}
