use keck::attribution::engine::{AttributionEngine, EnergyInput};
use keck::attribution::model::{
    AttributionModel, FrequencyWeightedModel, FullModel, Model, PidCoreObservation,
};
use keck::attribution::split::split_socket_to_cores;
use keck::attribution::types::AttributionMethod;
use keck::common::{CoreCounters, CpuFreqKey, PidCpuKey};
use keck::ebpf::ObservationSnapshot;
use keck::wide::Wide;
use std::collections::HashMap;

const SECOND: u64 = 1_000_000_000;

/// A thousandth, in units of 10^-18.
const MILLI: u128 = 1_000_000_000_000_000;

fn observations() -> ObservationSnapshot {
    let time = |cpu: u32, pid: u32, ns: u64| (PidCpuKey { cpu, pid }, ns);
    let freq = |cpu: u32, freq_khz: u32, ns: u64| (CpuFreqKey { cpu, freq_khz }, ns);
    let core = |instructions: u64| CoreCounters { instructions, cycles: 1_000, cache_misses: 100, cache_refs: 0 };
    ObservationSnapshot {
        pid_cpu_times: vec![time(0, 1, 300), time(0, 2, 100), time(1, 1, 50), time(2, 3, 10)],
        cpu_freq_times: vec![freq(0, 2_000_000, 400), freq(1, 1_000_000, 50)],
        core_counters: vec![(0, core(1_000)), (1, core(500))],
        pid_cgroups: HashMap::from([(1, 71), (2, 72)]),
    }
}

fn energy(socket: Vec<u64>, dram: Vec<u64>, platform: Option<u64>) -> EnergyInput {
    EnergyInput {
        socket_energy_uj: socket,
        dram_energy_uj: dram,
        gpu_energy_uj: vec![],
        platform_energy_uj: platform,
        interval_ns: SECOND,
    }
}

#[test]
fn attribution_conserves_energy() {
    let mut engine = AttributionEngine::new(4, 2);
    let obs = observations();
    // 33 parts: 32 fall to the core at twice the frequency and eight times the time
    let input = energy(vec![990_000, 500_000], vec![200_000, 0], Some(2_000_000));
    assert!(engine.in_range(&obs, &input));
    let s = engine.attribute(&obs, &input, 42);
    assert_eq!(s.timestamp_ns, 42);
    let cpu: u64 = s.processes.iter().map(|p| p.power.cpu_uw).sum();
    let memory: u64 = s.processes.iter().map(|p| p.power.memory_uw).sum();
    assert!(cpu <= 1_490_000 && 1_490_000 - cpu < 10);
    assert!(memory <= 200_000 && 200_000 - memory < 10);
    assert_eq!(s.node.measured.cpu_uw, 1_490_000);
    assert_eq!(s.node.platform_uw, Some(2_000_000));
    assert_eq!(s.reconciliation.component_sum_uw, 1_690_000);
    assert_eq!(s.reconciliation.unaccounted_uw, 310_000);
    assert_eq!(s.reconciliation.error_ratio_atto, 155_000_000_000_000_000);
}

#[test]
fn a_process_sums_its_cores() {
    let mut engine = AttributionEngine::new(4, 2);
    let s = engine.attribute(&observations(), &energy(vec![1_000_000, 500_000], vec![], None), 0);
    let p1 = s.processes.iter().find(|p| p.pid == 1).unwrap();
    assert_eq!(p1.core_detail.len(), 2);
    let sum: u64 = p1.core_detail.iter().map(|c| c.energy_uj).sum();
    assert_eq!(p1.power.cpu_uw, sum);
    assert_eq!(p1.cgroup_id, 71);
    assert_eq!(p1.attribution_method, AttributionMethod::FullModel);
    // The only process on socket 1 gets all of its energy
    let p3 = s.processes.iter().find(|p| p.pid == 3).unwrap();
    assert_eq!((p3.power.cpu_uw, p3.cgroup_id), (500_000, 0));
}

#[test]
fn time_ratio_without_frequencies_and_counters() {
    let mut engine = AttributionEngine::new(1, 1);
    let obs = ObservationSnapshot {
        pid_cpu_times: vec![(PidCpuKey { cpu: 0, pid: 1 }, 300), (PidCpuKey { cpu: 0, pid: 2 }, 100)],
        cpu_freq_times: vec![],
        core_counters: vec![],
        pid_cgroups: HashMap::new(),
    };
    let s = engine.attribute(&obs, &energy(vec![1_000_000], vec![], None), 0);
    let of = |pid: u32| s.processes.iter().find(|p| p.pid == pid).unwrap().power.cpu_uw;
    assert_eq!((of(1), of(2)), (750_000, 250_000));
    assert_eq!(s.processes[0].attribution_method, AttributionMethod::CpuTimeRatio);
    assert_eq!(s.reconciliation.platform_uw, None);
    assert_eq!(s.reconciliation.error_ratio_atto, 0);
}

fn equal(a: &Wide, b: &Wide) -> bool {
    a.at_most(b) && b.at_most(a)
}

#[test]
fn cores_share_by_unrounded_frequencies() {
    let split = |low: u32, high: u32, other: u32| {
        let obs = ObservationSnapshot {
            pid_cpu_times: vec![(PidCpuKey { cpu: 0, pid: 1 }, 1_000), (PidCpuKey { cpu: 1, pid: 2 }, 1_000)],
            cpu_freq_times: vec![
                (CpuFreqKey { cpu: 0, freq_khz: low }, 1),
                (CpuFreqKey { cpu: 0, freq_khz: high }, 1),
                (CpuFreqKey { cpu: 1, freq_khz: other }, 7),
            ],
            core_counters: vec![],
            pid_cgroups: HashMap::new(),
        };
        split_socket_to_cores(&vec![8_000_000, 10], 2, &obs)
    };
    assert_eq!(split(1_000_000, 1_000_001, 1_000_000), vec![4_000_001, 3_999_998, 5, 5]);
    // 9/4 against 1
    assert_eq!(split(1, 2, 1), vec![5_538_461, 2_461_538, 5, 5]);
    assert_eq!(split(1_000, 3_000, 0), vec![8_000_000, 0, 5, 5]);
}

#[test]
fn unaccounted_is_power() {
    let mut engine = AttributionEngine::new(2, 1);
    let obs = ObservationSnapshot {
        pid_cpu_times: vec![],
        cpu_freq_times: vec![],
        core_counters: vec![],
        pid_cgroups: HashMap::new(),
    };
    let input = EnergyInput {
        socket_energy_uj: vec![6_000_000],
        dram_energy_uj: vec![],
        gpu_energy_uj: vec![],
        platform_energy_uj: Some(10_000_000),
        interval_ns: 2 * SECOND,
    };
    assert!(engine.in_range(&obs, &input));
    let r = engine.attribute(&obs, &input, 0).reconciliation;
    assert_eq!((r.platform_uw, r.component_sum_uw), (Some(5_000_000), 3_000_000));
    assert_eq!(r.unaccounted_uw, 2_000_000);
    assert_eq!(r.error_ratio_atto, 400_000_000_000_000_000);
}

#[test]
fn settings_reach_the_engine() {
    let full = FullModel::from_settings(Some("0.45"), Some("5000"));
    assert_eq!(full, FullModel::with_coefficients(450 * MILLI, 5_000_000 * MILLI));
    let mut engine = AttributionEngine::new(4, 2).with_full_model(full);
    engine.attribute(&observations(), &energy(vec![1_000, 0], vec![], None), 0);
    assert_eq!(engine.model, Model::Full(full));
}

#[test]
fn weights_of_the_models() {
    let o = PidCoreObservation { pid: 1, time_ns: 10, instructions: 2_000, cycles: 1_000, cache_misses: 100 };
    let w = FrequencyWeightedModel.compute_weights(&vec![o], 3_000);
    assert!(equal(&w[0].raw_weight, &Wide::from_wide(10 * 9_000_000)));
    // 1 + 0.3 x 2 + 1.5 x 0.05, in units of 10^-36
    let fine = Wide::from_wide(1_000_000_000_000_000_000_000_000_000_000_000);
    let w = FullModel::new().compute_weights(&vec![o], 3_000);
    assert!(equal(&w[0].raw_weight, &Wide::from_wide(10 * 9_000_000 * 1_675).times(&fine)));
    let w = FullModel::with_coefficients(0, 0).compute_weights(&vec![o], 3_000);
    assert!(equal(&w[0].raw_weight, &Wide::from_wide(10 * 9_000_000 * 1_000).times(&fine)));
    // A third of a millionth is not lost
    let third = PidCoreObservation { pid: 1, time_ns: 1, instructions: 1, cycles: 3_000_000, cache_misses: 0 };
    let w = FullModel::with_coefficients(1_000 * MILLI, 0).compute_weights(&vec![third], 1);
    let exact = Wide::from_wide(1_000_000_333_333_333_333_333_333_333_333_333_333);
    assert!(equal(&w[0].raw_weight, &exact));
    // 1 + 2 x 10^11 x 3.5
    let busy = PidCoreObservation { pid: 1, time_ns: 1, instructions: 7, cycles: 2, cache_misses: 0 };
    let w = FullModel::with_coefficients(2 * 10u128.pow(29), 0).compute_weights(&vec![busy], 1);
    assert!(equal(&w[0].raw_weight, &Wide::from_wide(700_000_000_001_000).times(&fine)));
}

#[test]
fn coefficients_by_settings() {
    assert_eq!(FullModel::from_settings(None, None), FullModel::new());
    assert_eq!(
        FullModel::from_settings(Some("0.45"), Some("2")),
        FullModel::with_coefficients(450 * MILLI, 2_000 * MILLI)
    );
    assert_eq!(FullModel::from_settings(Some("3e-18"), Some("0")), FullModel::with_coefficients(3, 0));
    assert_eq!(FullModel::from_settings(Some("-1"), Some("much")), FullModel::new());
}
