use keck::fleet::registry::{
    CarbonData, ClusterPowerSummary, ClusterRegistry, ClusterReport, NamespaceSummary,
};

const SECOND: u64 = 1_000_000_000;
/// A time on the monotonic clock.
const NOW: u64 = 5_000 * SECOND;
/// A time since the Unix epoch.
const WALL: u64 = 1_700_000_000 * SECOND;

/// A number in millionths.
fn millionths(x: f64) -> u64 {
    (x * 1e6).round() as u64
}

fn make_cluster_report(id: &str, name: &str, region: &str, total_watts: f64, carbon_intensity: f64) -> ClusterReport {
    ClusterReport {
        cluster_id: id.into(),
        cluster_name: name.into(),
        region: region.into(),
        provider: "bare-metal".into(),
        power: ClusterPowerSummary {
            total_uw: millionths(total_watts),
            cpu_uw: millionths(total_watts * 0.6),
            memory_uw: millionths(total_watts * 0.2),
            gpu_uw: millionths(total_watts * 0.1),
            idle_uw: millionths(total_watts * 0.1),
            platform_uw: Some(millionths(total_watts * 1.2)),
        },
        namespaces: vec![
            NamespaceSummary { namespace: "prod".into(), total_uw: millionths(total_watts * 0.7), pod_count: 10 },
            NamespaceSummary { namespace: "staging".into(), total_uw: millionths(total_watts * 0.3), pod_count: 5 },
        ],
        carbon: CarbonData {
            intensity_mg_per_kwh: (carbon_intensity * 1e3).round() as u32,
            emissions_ug_per_hour: millionths(total_watts / 1000.0 * carbon_intensity),
            cost_micros_per_kwh: 100_000,
            currency: "USD".into(),
        },
        node_count: 3,
        pod_count: 15,
        avg_error_ratio_atto: 50_000_000_000_000_000,
        timestamp_ns: WALL,
    }
}

#[test]
fn test_registry_new_empty() {
    let reg = ClusterRegistry::new();
    let summary = reg.fleet_summary(NOW);
    assert_eq!(summary.cluster_count, 0);
    assert_eq!(summary.total_uw as f64, 0.0);
}

#[test]
fn test_ingest_single_cluster() {
    let mut reg = ClusterRegistry::new();
    reg.ingest(make_cluster_report("c1", "prod-us", "us-east-1", 1000.0, 400.0), NOW, WALL);

    let summary = reg.fleet_summary(NOW);
    assert_eq!(summary.cluster_count, 1);
    assert!((summary.total_uw as f64 / 1e6 - 1000.0).abs() < 1e-6);
    assert_eq!(summary.total_nodes, 3);
    assert_eq!(summary.total_pods, 15);
}

#[test]
fn test_ingest_multiple_clusters() {
    let mut reg = ClusterRegistry::new();
    reg.ingest(make_cluster_report("c1", "prod-us", "us-east-1", 1000.0, 400.0), NOW, WALL);
    reg.ingest(make_cluster_report("c2", "prod-eu", "eu-west-1", 500.0, 200.0), NOW, WALL);

    let summary = reg.fleet_summary(NOW);
    assert_eq!(summary.cluster_count, 2);
    assert!((summary.total_uw as f64 / 1e6 - 1500.0).abs() < 1e-6);
    assert_eq!(summary.total_nodes, 6);
    assert_eq!(summary.total_pods, 30);
}

#[test]
fn test_ingest_updates_existing_cluster() {
    let mut reg = ClusterRegistry::new();
    reg.ingest(make_cluster_report("c1", "prod-us", "us-east-1", 1000.0, 400.0), NOW, WALL);
    reg.ingest(make_cluster_report("c1", "prod-us", "us-east-1", 2000.0, 400.0), NOW, WALL);

    let summary = reg.fleet_summary(NOW);
    assert_eq!(summary.cluster_count, 1);
    assert!((summary.total_uw as f64 / 1e6 - 2000.0).abs() < 1e-6);
}

#[test]
fn test_fleet_summary_sorted_by_power() {
    let mut reg = ClusterRegistry::new();
    reg.ingest(make_cluster_report("c1", "low", "us-east-1", 100.0, 400.0), NOW, WALL);
    reg.ingest(make_cluster_report("c2", "high", "eu-west-1", 5000.0, 200.0), NOW, WALL);
    reg.ingest(make_cluster_report("c3", "mid", "ap-south-1", 1000.0, 600.0), NOW, WALL);

    let summary = reg.fleet_summary(NOW);
    assert_eq!(summary.clusters[0].cluster_name, "high");
    assert_eq!(summary.clusters[1].cluster_name, "mid");
    assert_eq!(summary.clusters[2].cluster_name, "low");
}

#[test]
fn test_fleet_summary_cost_calculation() {
    let mut reg = ClusterRegistry::new();
    // 1000W at $0.10/kWh => cost_per_hour = 1kW * $0.10 = $0.10/hour
    reg.ingest(make_cluster_report("c1", "prod", "us-east-1", 1000.0, 400.0), NOW, WALL);

    let summary = reg.fleet_summary(NOW);
    assert!((summary.total_cost_femto_per_hour as f64 / 1e15 - 0.10).abs() < 1e-6);
}

#[test]
fn test_team_power_with_owners() {
    let mut reg = ClusterRegistry::new();
    reg.set_namespace_owner("prod", "team-a");
    reg.set_namespace_owner("staging", "team-b");
    reg.ingest(make_cluster_report("c1", "prod-us", "us-east-1", 1000.0, 400.0), NOW, WALL);

    let teams = reg.team_power();
    assert_eq!(teams.len(), 2);
    // Teams should be sorted by power, highest first
    let team_a = teams.iter().find(|t| t.team == "team-a").unwrap();
    let team_b = teams.iter().find(|t| t.team == "team-b").unwrap();
    assert!(team_a.total_uw > team_b.total_uw);
}

#[test]
fn test_team_power_unassigned() {
    let mut reg = ClusterRegistry::new();
    reg.ingest(make_cluster_report("c1", "prod-us", "us-east-1", 1000.0, 400.0), NOW, WALL);

    let teams = reg.team_power();
    // All namespaces should be "unassigned"
    for team in &teams {
        assert_eq!(team.team, "unassigned");
    }
}

#[test]
fn test_lowest_carbon_cluster() {
    let mut reg = ClusterRegistry::new();
    reg.ingest(make_cluster_report("c1", "dirty", "us-east-1", 1000.0, 600.0), NOW, WALL);
    reg.ingest(make_cluster_report("c2", "clean", "eu-west-1", 1000.0, 100.0), NOW, WALL);
    reg.ingest(make_cluster_report("c3", "medium", "ap-south-1", 1000.0, 300.0), NOW, WALL);

    let lowest = reg.lowest_carbon_cluster(NOW).unwrap();
    assert_eq!(lowest.cluster_name, "clean");
    assert!((lowest.carbon.intensity_mg_per_kwh as f64 / 1e3 - 100.0).abs() < 1e-6);
}

#[test]
fn test_lowest_carbon_cluster_empty() {
    let reg = ClusterRegistry::new();
    assert!(reg.lowest_carbon_cluster(NOW).is_none());
}

#[test]
fn test_active_clusters() {
    let mut reg = ClusterRegistry::new();
    reg.ingest(make_cluster_report("c1", "prod", "us-east-1", 1000.0, 400.0), NOW, WALL);

    let active = reg.active_clusters(NOW);
    assert_eq!(active.len(), 1);
}

#[test]
fn test_cluster_power_history() {
    let mut reg = ClusterRegistry::new();
    reg.ingest(make_cluster_report("c1", "prod", "us-east-1", 1000.0, 400.0), NOW, WALL);
    reg.ingest(make_cluster_report("c1", "prod", "us-east-1", 1500.0, 400.0), NOW, WALL);

    let since = WALL - 60 * SECOND;
    let history = reg.cluster_power_history("c1", since);
    assert_eq!(history.len(), 2);
}

#[test]
fn test_cluster_power_history_nonexistent() {
    let reg = ClusterRegistry::new();
    let since = WALL - 60 * SECOND;
    assert!(reg.cluster_power_history("nonexistent", since).is_empty());
}

#[test]
fn test_set_namespace_owner() {
    let mut reg = ClusterRegistry::new();
    reg.set_namespace_owner("prod", "platform-team");

    // Verify via team_power after ingesting data
    reg.ingest(make_cluster_report("c1", "prod-us", "us-east-1", 1000.0, 400.0), NOW, WALL);
    let teams = reg.team_power();
    let platform = teams.iter().find(|t| t.team == "platform-team");
    assert!(platform.is_some());
}
