use keck::attribution::types::{
    AttributionMethod, AttributionSnapshot, ContainerPower, NodePower, PodPower, PowerBreakdown,
    ProcessPower, Reconciliation,
};
use keck::k8s::enrich::{aggregate_power, enrich, CgroupResolver, ContainerInfo};
use keck::output::prometheus::PrometheusExporter;
use keck::output::query::{QueryRequest, QueryResponse, QueryServer};
use keck::store::{LocalStore, PodSummary, StoreProfile};

const SECOND: u64 = 1_000_000_000;

fn power(cpu: u64, memory: u64) -> PowerBreakdown {
    PowerBreakdown { cpu_uw: cpu, memory_uw: memory, gpu_uw: 0, nic_uw: 0, storage_uw: 0 }
}

fn process(pid: u32, cgroup_id: u64, cpu: u64) -> ProcessPower {
    ProcessPower {
        pid,
        comm: String::new(),
        cgroup_id,
        power: power(cpu, 1),
        core_detail: vec![],
        attribution_method: AttributionMethod::CpuTimeRatio,
    }
}

fn snapshot(ts: u64, processes: Vec<ProcessPower>, pods: Vec<PodPower>) -> AttributionSnapshot {
    AttributionSnapshot {
        timestamp_ns: ts,
        interval_ns: SECOND,
        node: NodePower { measured: power(100, 50), platform_uw: Some(200), attributed_total_uw: 150 },
        processes,
        pods,
        namespaces: vec![],
        idle_power: power(7, 3),
        reconciliation: Reconciliation {
            platform_uw: Some(200),
            component_sum_uw: 150,
            attributed_sum_uw: 150,
            unaccounted_uw: 50,
            error_ratio_atto: ts as u128,
        },
    }
}

fn pod(uid: &str, namespace: &str, pids: Vec<u32>) -> PodPower {
    PodPower {
        pod_uid: uid.into(),
        name: format!("pod-{}", uid),
        namespace: namespace.into(),
        power: power(10, 5),
        containers: vec![ContainerPower {
            container_id: "c".into(),
            name: "main".into(),
            cgroup_id: 1,
            power: power(10, 5),
            processes: pids.into_iter().map(|p| process(p, 1, 10)).collect(),
        }],
    }
}

fn small(detail: usize, summary: usize) -> LocalStore {
    LocalStore::new(StoreProfile::Standard { detail_capacity: detail, summary_capacity: summary })
}

// ─── Store ──────────────────────────────────────────────────────

#[test]
fn profiles() {
    let sizes = |p: StoreProfile| (p.detail_capacity(), p.summary_capacity());
    let minimal = sizes(StoreProfile::minimal());
    let standard = sizes(StoreProfile::standard());
    let full = sizes(StoreProfile::full());
    assert!(minimal.0 < standard.0 && standard.0 < full.0);
    assert!(minimal.1 <= standard.1 && standard.1 <= full.1);
}

#[test]
fn rings_are_bounded_and_keep_the_newest() {
    let mut s = small(2, 3);
    for ts in 1..=4 {
        s.push(snapshot(ts, vec![], vec![pod("a", "x", vec![1]), pod("b", "y", vec![2])]), ts * 10);
    }
    assert_eq!(s.detail_ring.len(), 2);
    assert_eq!(s.latest().unwrap().timestamp_ns, 4);
    assert_eq!(s.detail_ring[0].timestamp_ns, 3);
    assert_eq!(s.summary_ring.len(), 3);
    assert_eq!((s.summary_ring[0].pod_uid.as_str(), s.summary_ring[0].timestamp_ns), ("b", 30));
    assert_eq!(s.outbox.len(), 8);
}

#[test]
fn queries_of_the_store() {
    let mut s = small(5, 50);
    s.push(snapshot(10, vec![], vec![pod("a", "x", vec![1, 2])]), 10);
    s.push(snapshot(20, vec![], vec![pod("a", "x", vec![3]), pod("b", "y", vec![4])]), 20);
    let pids: Vec<u32> = s.query_pod_processes("a", 0).iter().map(|p| p.pid).collect();
    // The newest snapshot comes first
    assert_eq!(pids, vec![3, 1, 2]);
    assert_eq!(s.query_pod_processes("a", 15).len(), 1);
    assert!(s.query_pod_processes("z", 0).is_empty());
    assert_eq!(s.query_namespace_pods("x", 0).len(), 2);
    assert_eq!(s.query_namespace_pods("x", 15).len(), 1);
    let newest_first: Vec<u128> =
        s.reconciliation_history(5).iter().map(|r| r.error_ratio_atto).collect();
    assert_eq!(newest_first, vec![20, 10]);
    assert_eq!(s.reconciliation_history(1).len(), 1);
}

#[test]
fn requeued_summaries_come_first_again() {
    let mut s = small(5, 50);
    s.push(snapshot(1, vec![], vec![pod("a", "x", vec![]), pod("b", "x", vec![])]), 1);
    let drained = s.drain_outbox();
    assert!(s.outbox.is_empty());
    s.push(snapshot(2, vec![], vec![pod("c", "x", vec![])]), 2);
    s.requeue(drained);
    let order: Vec<String> = s.drain_outbox().into_iter().map(|p| p.pod_uid).collect();
    assert_eq!(order, vec!["a", "b", "c"]);
}

#[test]
fn summary_of_a_pod() {
    let s = PodSummary::from_pod(&pod("a", "x", vec![]), 9);
    assert_eq!((s.cpu_uw, s.memory_uw, s.total_uw, s.timestamp_ns), (10, 5, 15, 9));
    assert_eq!((s.name.as_str(), s.namespace.as_str()), ("pod-a", "x"));
}

// ─── Queries ────────────────────────────────────────────────────

#[test]
fn answers_to_queries() {
    let mut s = small(5, 50);
    let server = QueryServer::new();
    let empty = server.handle(&s, QueryRequest::NodeSummary, 0);
    assert!(matches!(empty, QueryResponse::Error(e) if e == "No data yet"));
    s.push(snapshot(5 * SECOND, vec![], vec![pod("a", "x", vec![1, 2])]), 5 * SECOND);
    match server.handle(&s, QueryRequest::NodeSummary, 0) {
        QueryResponse::NodeSummary(n) => {
            assert_eq!((n.cpu_uw, n.memory_uw, n.platform_uw, n.idle_uw), (100, 50, Some(200), 10));
            assert_eq!((n.pod_count, n.process_count), (1, 2));
        }
        other => panic!("{:?}", other),
    }
    let ask = |lookback_ns: u64| QueryRequest::PodDetail { pod_uid: "a".into(), lookback_ns };
    match server.handle(&s, ask(SECOND), 6 * SECOND) {
        QueryResponse::PodDetail(d) => assert_eq!(d.processes.len(), 2),
        other => panic!("{:?}", other),
    }
    match server.handle(&s, ask(SECOND / 2), 6 * SECOND) {
        QueryResponse::PodDetail(d) => assert!(d.processes.is_empty()),
        other => panic!("{:?}", other),
    }
    let pods = QueryRequest::NamespacePods { namespace: "x".into(), lookback_ns: 10 * SECOND };
    match server.handle(&s, pods, 6 * SECOND) {
        QueryResponse::NamespacePods(p) => assert_eq!(p.pods[0].total_uw, 15),
        other => panic!("{:?}", other),
    }
    match server.handle(&s, QueryRequest::ReconciliationHistory { count: 3 }, 0) {
        QueryResponse::ReconciliationHistory(h) => {
            assert_eq!((h.entries.len(), h.entries[0].unaccounted_uw), (1, 50))
        }
        other => panic!("{:?}", other),
    }
    match server.handle(&s, QueryRequest::AgentHealth, 0) {
        QueryResponse::AgentHealth(h) => assert_eq!(h.memory_bytes, s.estimated_memory()),
        other => panic!("{:?}", other),
    }
}

#[test]
fn exporter_without_metrics() {
    let e = PrometheusExporter::new(true);
    assert!(e.expose_process_metrics);
    assert_eq!(e.render(), "# No metrics yet\n");
}

#[test]
fn exporter_tells_the_latest_snapshot() {
    let mut s = snapshot(1, vec![process(10, 1, 5)], vec![]);
    s.processes[0].comm = "a\"b\\".into();
    s.node.measured.cpu_uw = 12_345_678;
    s.node.platform_uw = Some(20_000_001);
    s.reconciliation.error_ratio_atto = 250_000_000_000_000_000;
    s.reconciliation.unaccounted_uw = -1_500_000;
    let mut e = PrometheusExporter::new(false);
    e.update(&s);
    let text = e.render();
    assert!(text.starts_with("power_node_watts{component=\"cpu\"} 12.345678\n"));
    assert!(text.contains("power_node_platform_watts 20.000001\n"));
    assert!(text.contains("power_reconciliation_error_ratio 0.250000000000000000\n"));
    assert!(text.contains("power_reconciliation_unaccounted_watts -1.500000\n"));
    assert!(!text.contains("power_process_watts"));
    let mut all = PrometheusExporter::new(true);
    all.update(&s);
    let line = "power_process_watts{pid=\"10\",comm=\"a\\\"b\\\\\",component=\"cpu\"} 0.000005\n";
    assert!(all.render().contains(line));
}

// ─── Enrichment ─────────────────────────────────────────────────

fn container(id: &str, pod_uid: &str, namespace: &str) -> ContainerInfo {
    ContainerInfo {
        container_id: id.into(),
        container_name: format!("name-{}", id),
        pod_uid: pod_uid.into(),
        pod_name: format!("pod-{}", pod_uid),
        namespace: namespace.into(),
    }
}

#[test]
fn enrichment_groups_and_conserves() {
    let mut resolver = CgroupResolver::new();
    assert!(resolver.refresh(vec![(7, container("old", "p0", "a"))]).is_ok());
    let listed = vec![
        (3, container("older", "p0", "b")),
        (1, container("c1", "p1", "a")),
        (2, container("c2", "p1", "a")),
        (3, container("c3", "p2", "b")),
    ];
    assert!(resolver.refresh(listed).is_ok());
    assert_eq!(resolver.cgroup_map.len(), 3);
    assert_eq!(resolver.resolve(3).unwrap().container_id, "c3");
    assert!(resolver.resolve(7).is_none());
    let processes = vec![process(10, 1, 5), process(11, 2, 7), process(12, 3, 11), process(13, 9, 13), process(14, 1, 17)];
    let mut s = snapshot(1, processes, vec![]);
    enrich(&mut s, &resolver, &vec![(10, "nginx".to_string())]);
    assert_eq!(s.processes.len(), 1);
    assert_eq!(s.processes[0].pid, 13);
    assert_eq!(s.pods.len(), 2);
    let p1 = s.pods.iter().find(|p| p.pod_uid == "p1").unwrap();
    assert_eq!((p1.power.cpu_uw, p1.power.memory_uw, p1.containers.len()), (29, 3, 2));
    let c1 = p1.containers.iter().find(|c| c.container_id == "c1").unwrap();
    assert_eq!((c1.power.cpu_uw, c1.processes.len()), (22, 2));
    assert_eq!(c1.processes[0].comm, "nginx");
    let a = s.namespaces.iter().find(|n| n.namespace == "a").unwrap();
    assert_eq!((a.power.cpu_uw, a.pod_count), (29, 1));
    let all: u64 = s.namespaces.iter().map(|n| n.power.cpu_uw).sum();
    assert_eq!(all + s.processes[0].power.cpu_uw, 5 + 7 + 11 + 13 + 17);
}

#[test]
fn power_adds_up_by_part() {
    let sum = aggregate_power(&vec![power(1, 2), power(3, 4)]);
    assert_eq!((sum.cpu_uw, sum.memory_uw, sum.gpu_uw, sum.total_uw()), (4, 6, 0, 10));
}
