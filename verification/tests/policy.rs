use keck::fleet::policy::{evaluate, Policy, PolicyKind, Severity};
use keck::fleet::registry::{
    CarbonData, ClusterPowerSummary, ClusterRegistry, ClusterReport, NamespaceSummary,
};

const SECOND: u64 = 1_000_000_000;
/// A time on the monotonic clock.
const NOW: u64 = 5_000 * SECOND;
/// A time since the Unix epoch.
const WALL: u64 = 1_700_000_000 * SECOND;

/// A number in millionths.
fn millionths(x: f64) -> u64 {
    (x * 1e6).round() as u64
}

fn make_cluster_report(name: &str, total_watts: f64, carbon_intensity: f64, error_ratio: f64) -> ClusterReport {
    ClusterReport {
        cluster_id: format!("id-{}", name),
        cluster_name: name.into(),
        region: "us-east-1".into(),
        provider: "bare-metal".into(),
        power: ClusterPowerSummary {
            total_uw: millionths(total_watts),
            cpu_uw: millionths(total_watts * 0.6),
            memory_uw: millionths(total_watts * 0.2),
            gpu_uw: millionths(0.0),
            idle_uw: millionths(total_watts * 0.2),
            platform_uw: None,
        },
        namespaces: vec![
            NamespaceSummary { namespace: "prod".into(), total_uw: millionths(total_watts * 0.8), pod_count: 10 },
        ],
        carbon: CarbonData {
            intensity_mg_per_kwh: (carbon_intensity * 1e3).round() as u32,
            emissions_ug_per_hour: millionths(total_watts / 1000.0 * carbon_intensity),
            cost_micros_per_kwh: 100_000,
            currency: "USD".into(),
        },
        node_count: 3,
        pod_count: 10,
        avg_error_ratio_atto: millionths(error_ratio) as u128 * 1_000_000_000_000,
        timestamp_ns: WALL,
    }
}

#[test]
fn test_evaluate_empty_no_violations() {
    let reg = ClusterRegistry::new();
    let policies: Vec<Policy> = vec![];
    let violations = evaluate(&reg, &policies, NOW, WALL);
    assert!(violations.is_empty());
}

#[test]
fn test_disabled_policy_skipped() {
    let mut reg = ClusterRegistry::new();
    reg.ingest(make_cluster_report("prod", 1000.0, 400.0, 0.50), NOW, WALL);

    let policies = vec![Policy {
        name: "quality".into(),
        kind: PolicyKind::MeteringQuality { max_error_ratio_atto: 200_000_000_000_000_000 },
        severity: Severity::Warning,
        enabled: false, // Disabled
    }];

    let violations = evaluate(&reg, &policies, NOW, WALL);
    assert!(violations.is_empty());
}

#[test]
fn test_metering_quality_violation() {
    let mut reg = ClusterRegistry::new();
    reg.ingest(make_cluster_report("prod", 1000.0, 400.0, 0.30), NOW, WALL); // 30% error

    let policies = vec![Policy {
        name: "quality".into(),
        kind: PolicyKind::MeteringQuality { max_error_ratio_atto: 200_000_000_000_000_000 },
        severity: Severity::Warning,
        enabled: true,
    }];

    let violations = evaluate(&reg, &policies, NOW, WALL);
    assert_eq!(violations.len(), 1);
    assert_eq!(violations[0].policy_name, "quality");
    assert!(violations[0].current_value as f64 / 1e6 > 0.20);
}

#[test]
fn test_metering_quality_pass() {
    let mut reg = ClusterRegistry::new();
    reg.ingest(make_cluster_report("prod", 1000.0, 400.0, 0.05), NOW, WALL); // 5% error

    let policies = vec![Policy {
        name: "quality".into(),
        kind: PolicyKind::MeteringQuality { max_error_ratio_atto: 200_000_000_000_000_000 },
        severity: Severity::Warning,
        enabled: true,
    }];

    let violations = evaluate(&reg, &policies, NOW, WALL);
    assert!(violations.is_empty());
}

#[test]
fn test_team_power_budget_violation() {
    let mut reg = ClusterRegistry::new();
    reg.set_namespace_owner("prod", "team-x");
    reg.ingest(make_cluster_report("prod-cluster", 10000.0, 400.0, 0.05), NOW, WALL);

    let policies = vec![Policy {
        name: "team-budget".into(),
        kind: PolicyKind::TeamPowerBudget {
            team: "team-x".into(),
            max_uw: millionths(5000.0),
        },
        severity: Severity::Critical,
        enabled: true,
    }];

    let violations = evaluate(&reg, &policies, NOW, WALL);
    assert_eq!(violations.len(), 1);
    assert!(violations[0].message.contains("team-x"));
}

#[test]
fn test_team_power_budget_pass() {
    let mut reg = ClusterRegistry::new();
    reg.set_namespace_owner("prod", "team-x");
    reg.ingest(make_cluster_report("prod-cluster", 1000.0, 400.0, 0.05), NOW, WALL);

    let policies = vec![Policy {
        name: "team-budget".into(),
        kind: PolicyKind::TeamPowerBudget {
            team: "team-x".into(),
            max_uw: millionths(50000.0),
        },
        severity: Severity::Critical,
        enabled: true,
    }];

    let violations = evaluate(&reg, &policies, NOW, WALL);
    assert!(violations.is_empty());
}

#[test]
fn test_carbon_intensity_preference_violation() {
    let mut reg = ClusterRegistry::new();
    reg.ingest(make_cluster_report("dirty-cluster", 1000.0, 800.0, 0.05), NOW, WALL);

    let policies = vec![Policy {
        name: "carbon-pref".into(),
        kind: PolicyKind::CarbonIntensityPreference { max_mg_per_kwh: 300_000 },
        severity: Severity::Info,
        enabled: true,
    }];

    let violations = evaluate(&reg, &policies, NOW, WALL);
    assert_eq!(violations.len(), 1);
    assert!(violations[0].message.contains("dirty-cluster"));
}

#[test]
fn test_carbon_intensity_preference_pass() {
    let mut reg = ClusterRegistry::new();
    reg.ingest(make_cluster_report("clean-cluster", 1000.0, 100.0, 0.05), NOW, WALL);

    let policies = vec![Policy {
        name: "carbon-pref".into(),
        kind: PolicyKind::CarbonIntensityPreference { max_mg_per_kwh: 300_000 },
        severity: Severity::Info,
        enabled: true,
    }];

    let violations = evaluate(&reg, &policies, NOW, WALL);
    assert!(violations.is_empty());
}

#[test]
fn test_namespace_carbon_budget_violation() {
    let mut reg = ClusterRegistry::new();
    // 1000W total, prod gets 800W, at 400 gCO2/kWh
    // monthly: 800/1000 * 24 * 30.44 * 400 = ~233_395 gCO2/month
    reg.ingest(make_cluster_report("prod-cluster", 1000.0, 400.0, 0.05), NOW, WALL);

    let policies = vec![Policy {
        name: "ns-carbon".into(),
        kind: PolicyKind::NamespaceCarbonBudget {
            namespace: "prod".into(),
            max_ug_per_month: millionths(1000.0), // Very low budget
        },
        severity: Severity::Warning,
        enabled: true,
    }];

    let violations = evaluate(&reg, &policies, NOW, WALL);
    assert_eq!(violations.len(), 1);
}

#[test]
fn test_multiple_policies_multiple_violations() {
    let mut reg = ClusterRegistry::new();
    reg.ingest(make_cluster_report("bad-cluster", 1000.0, 800.0, 0.30), NOW, WALL);

    let policies = vec![
        Policy {
            name: "quality".into(),
            kind: PolicyKind::MeteringQuality { max_error_ratio_atto: 200_000_000_000_000_000 },
            severity: Severity::Warning,
            enabled: true,
        },
        Policy {
            name: "carbon".into(),
            kind: PolicyKind::CarbonIntensityPreference { max_mg_per_kwh: 300_000 },
            severity: Severity::Info,
            enabled: true,
        },
    ];

    let violations = evaluate(&reg, &policies, NOW, WALL);
    assert_eq!(violations.len(), 2);
}
