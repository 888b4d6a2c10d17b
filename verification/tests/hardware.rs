use keck::attribution::types::{Component, ReadingType};
use keck::hardware::collector::{
    advance, classify_tier, compute_energy_delta, CollectorConfig, HardwareCollector, Tier,
};
use keck::hardware::discovery::{discover_sources, AnySource};
use keck::hardware::gpu::{
    self, choose_dcgm_url, dcgm_pods_url, discover_dcgm_url_pub, make_exporter_url,
    needs_discovery, read_gpu_power,
};
use keck::hardware::hwmon::{
    self, classify_component, classify_lowercase, HwmonChip, HwmonSensor, SensorFiles,
};
use keck::hardware::platform::{
    self, address_for, attempt_succeeds, attempt_urls, attempts, discover_psu_detail, has_reading, make_side_source,
    make_source, percent_power, power_of_reading, power_url, read_json_field, resolve_endpoint,
    side_sensor_name, worth_trying, ReadMethod, Reading,
};
use keck::hardware::rapl::{self, PowercapEntry};
use keck::hardware::source::{read_u64_file, Granularity, PowerReading, PowerSource, SourceError, SourceId};
use keck::json::Leaf;

const SECOND: u64 = 1_000_000_000;

// ─── RAPL ───────────────────────────────────────────────────────

fn zone(file_name: &str, name: Option<&str>, has_energy: bool) -> PowercapEntry {
    PowercapEntry {
        file_name: file_name.into(),
        path: format!("/p/{}", file_name),
        has_energy,
        max_text: Some("262143328850\n".into()),
        name_text: name.map(str::to_string),
    }
}

fn zones() -> Option<Vec<PowercapEntry>> {
    Some(vec![
        zone("intel-rapl:1", Some("package-1\n"), true),
        zone("intel-rapl:0", Some("package-0\n"), true),
        zone("intel-rapl:0:0", Some("core\n"), true),
        zone("intel-rapl:0:1", Some("dram\n"), true),
        zone("intel-rapl:2", Some("package-2\n"), false),
        zone("intel-rapl:x", None, true),
        zone("intel-rapl", None, true),
        zone("dtpm", None, true),
    ])
}

fn number_reading(number: &str) -> Reading {
    read_json_field(Some(&format!("{{\"Reading\": {}}}", number))).unwrap()
}

#[test]
fn rapl_packages_in_order_of_sockets() {
    let found = rapl::discover(&zones()).unwrap();
    let ids: Vec<&str> = found.iter().map(|s| s.id.0.as_str()).collect();
    assert_eq!(ids, vec!["rapl:package:0", "rapl:package:1"]);
    assert_eq!(found[0].name(), "RAPL package (socket 0): package-0");
    assert_eq!(found[0].max_energy_uj, 262143328850);
    assert_eq!(found[0].inputs(), vec!["/p/intel-rapl:0/energy_uj"]);
    assert_eq!(found[1].granularity(), Granularity::Socket(1));
    assert_eq!(found[0].default_poll_interval(), SECOND / 10);
}

#[test]
fn rapl_memory_zones() {
    let found = rapl::discover_dram(&zones()).unwrap();
    assert_eq!(found.len(), 1);
    assert_eq!((found[0].id.0.as_str(), found[0].component), ("rapl:dram:0", Component::Memory));
}

#[test]
fn rapl_unavailable() {
    assert!(matches!(rapl::discover(&None), Err(SourceError::Unavailable(_))));
    assert!(matches!(rapl::discover(&Some(vec![])), Err(SourceError::Unavailable(_))));
    assert!(matches!(rapl::discover_dram(&None), Err(SourceError::Unavailable(_))));
    assert!(matches!(rapl::discover_dram(&Some(vec![])), Err(SourceError::Unavailable(_))));
}

#[test]
fn rapl_reading() {
    let s = rapl::discover(&zones()).unwrap().remove(0);
    let r = s.read(&vec![Some(" 123456\n".into())], 77).unwrap();
    assert_eq!((r.energy_uj, r.power_uw, r.max_energy_uj), (Some(123456), None, 262143328850));
    assert_eq!((r.timestamp_ns, r.reading_type), (77, ReadingType::Estimated));
    assert!(matches!(s.read(&vec![Some("many".into())], 0), Err(SourceError::Parse(_))));
    assert!(matches!(s.read(&vec![None], 0), Err(SourceError::Read(_))));
}

#[test]
fn numbers_in_files() {
    assert_eq!(read_u64_file("p", Some("+42 \n")).unwrap(), 42);
    assert!(read_u64_file("p", Some("18446744073709551616")).is_err());
    assert!(read_u64_file("p", Some("-1")).is_err());
    assert!(read_u64_file("p", Some("")).is_err());
}

// ─── hwmon ──────────────────────────────────────────────────────

fn sensor(number: u64, label: Option<&str>, enable: Option<&str>, has_max: bool) -> SensorFiles {
    SensorFiles {
        number,
        label_text: label.map(str::to_string),
        enable_text: enable.map(str::to_string),
        has_max,
    }
}

#[test]
fn hwmon_sensors() {
    let chip = HwmonChip {
        dir_name: "hwmon3".into(),
        path: "/h/hwmon3".into(),
        name_text: Some("ACPI_METER\n".into()),
        power: vec![
            sensor(1, Some("DIMM rail\n"), Some("1\n"), false),
            sensor(2, None, Some("0\n"), false),
            sensor(3, None, None, false),
        ],
        energy: vec![sensor(1, Some("Package"), None, true)],
    };
    let found = hwmon::discover(&Some(vec![chip])).unwrap();
    assert_eq!(found.len(), 3);
    assert_eq!(found[0].id.0, "hwmon:hwmon3:power1:ACPI_METER");
    assert_eq!(found[0].display_name, "hwmon ACPI_METER power1 (DIMM rail)");
    // Told by the label in lower case
    assert_eq!(found[0].component, Component::Memory);
    assert_eq!(found[1].display_name, "hwmon ACPI_METER power3 (unlabeled)");
    assert!(matches!(&found[2].sensor, HwmonSensor::Energy { path, max_path }
        if path == "/h/hwmon3/energy1_input" && max_path.as_deref() == Some("/h/hwmon3/energy1_max")));
    let p = found[0].read(&vec![Some("5000000".into())], 1).unwrap();
    assert_eq!((p.power_uw, p.energy_uj), (Some(5_000_000), None));
    let e = found[2].read(&vec![Some("9".into()), Some("1000".into())], 1).unwrap();
    assert_eq!((e.power_uw, e.energy_uj, e.max_energy_uj), (None, Some(9), 1000));
    assert_eq!(e.reading_type, ReadingType::Measured);
    assert!(matches!(hwmon::discover(&None), Err(SourceError::Unavailable(_))));
    assert!(matches!(hwmon::discover(&Some(vec![])), Err(SourceError::Unavailable(_))));
}

#[test]
fn components_by_name_and_label() {
    assert_eq!(classify_component("NVIDIA", ""), Component::Gpu);
    assert_eq!(classify_component("AmdGpu", "CPU"), Component::Gpu);
    assert_eq!(classify_component("mlx5", ""), Component::Nic);
    assert_eq!(classify_component("acpi", "NIC power"), Component::Nic);
    assert_eq!(classify_component("NVMe", ""), Component::Storage);
    assert_eq!(classify_component("acpi", "Vcore"), Component::Cpu);
    assert_eq!(classify_component("acpi", "DRAM"), Component::Memory);
    assert_eq!(classify_component("acpi", "other"), Component::Cpu);
    assert_eq!(classify_lowercase("NVIDIA", ""), Component::Cpu);
}

// ─── GPU ────────────────────────────────────────────────────────

const METRICS: &str = "# HELP DCGM\n\
DCGM_FI_DEV_POWER_USAGE{gpu=\"0\",UUID=\"GPU-a\",modelName=\"A100\",Hostname=\"n1\"} 49.157\n\
DCGM_FI_DEV_POWER_USAGE{gpu=\"1\",UUID=\"GPU-b\",modelName=\"A100\",Hostname=\"n1\"} 50\n\
DCGM_FI_DEV_POWER_USAGE{gpu=\"0\",UUID=\"GPU-a\",modelName=\"A100\",Hostname=\"n1\"} 1\n\
DCGM_FI_DEV_POWER_USAGE{gpu=\"0\",UUID=\"GPU-c\",Hostname=\"n2\"} 60\n\
DCGM_FI_DEV_POWER_USAGE{UUID=\"GPU-d\"} x\n";

#[test]
fn gpus_of_this_node() {
    let found = gpu::discover(METRICS, "n1", "http://x").unwrap();
    let ids: Vec<&str> = found.iter().map(|s| s.gpu_uuid.as_str()).collect();
    assert_eq!(ids, vec!["GPU-a", "GPU-b", "GPU-d"]);
    assert_eq!(found[0].display_name, "DCGM A100 (GPU 0)");
    // Without a number and a model
    assert_eq!(found[2].display_name, "DCGM NVIDIA GPU (GPU 2)");
    assert_eq!(found[1].granularity(), Granularity::Device(1));
    assert!(matches!(gpu::discover("", "n1", "u"), Err(SourceError::Unavailable(_))));
}

#[test]
fn gpu_power() {
    assert_eq!(read_gpu_power(METRICS, "n1", "GPU-a"), Some(50_157_000));
    assert_eq!(read_gpu_power(METRICS, "", ""), Some(160_157_000));
    assert_eq!(read_gpu_power(METRICS, "n3", "GPU-a"), None);
    let s = gpu::discover(METRICS, "n1", "u").unwrap().remove(1);
    let r = s.read(&vec![Some(METRICS.into())], 5).unwrap();
    assert_eq!(r.power_uw, Some(50_000_000));
    assert!(matches!(s.read(&vec![None], 5), Err(SourceError::Unavailable(_))));
    assert!(matches!(s.read(&vec![Some("".into())], 5), Err(SourceError::Unavailable(_))));
}

#[test]
fn exporter_of_this_node() {
    let body = r#"{"items":[{"status":{"podIP":"10.0.0.7"}},{"status":{"podIP":"10.0.0.8"}}]}"#;
    assert_eq!(discover_dcgm_url_pub(body).unwrap(), "http://10.0.0.7:9400/metrics");
    assert_eq!(discover_dcgm_url_pub(r#"{"items":[]}"#), None);
    assert_eq!(discover_dcgm_url_pub(r#"{"items":{"0":{"status":{"podIP":"x"}}}}"#), None);
    assert_eq!(discover_dcgm_url_pub("no json"), None);
    assert_eq!(
        make_exporter_url(&Some(Leaf::List(1)), &Some(Leaf::Text("1.2.3.4".into()))).unwrap(),
        "http://1.2.3.4:9400/metrics"
    );
    assert_eq!(make_exporter_url(&Some(Leaf::List(1)), &Some(Leaf::Null)), None);
    assert!(dcgm_pods_url("n1").ends_with("spec.nodeName=n1"));
}

#[test]
fn exporter_address_by_configuration() {
    assert!(needs_discovery(None) && needs_discovery(Some("http://dcgm.gpu.svc:9400")));
    assert!(!needs_discovery(Some("http://10.0.0.1:9400")));
    let pick = |c, d| choose_dcgm_url(c, d);
    assert_eq!(pick(None, Some("pod")).as_deref(), Some("pod"));
    assert_eq!(pick(None, None), None);
    assert_eq!(pick(Some("a.svc"), Some("pod")).as_deref(), Some("pod"));
    assert_eq!(pick(Some("a.svc"), None).as_deref(), Some("a.svc"));
    assert_eq!(pick(Some("fixed"), Some("pod")).as_deref(), Some("fixed"));
}

// ─── Platform ───────────────────────────────────────────────────

#[test]
fn redfish_readings() {
    assert_eq!(power_of_reading(&number_reading("123.5")), 123_500_000);
    assert_eq!(power_of_reading(&number_reading("7")), 7_000_000);
    assert_eq!(power_of_reading(&number_reading("-7")), 0);
    assert!(matches!(read_json_field(Some(r#"{"Reading": "7"}"#)), Err(SourceError::Parse(_))));
    assert!(matches!(read_json_field(Some("{")), Err(SourceError::Parse(_))));
    assert!(matches!(read_json_field(None), Err(SourceError::Unavailable(_))));
    assert!(has_reading(Some(r#"{"Reading": 0}"#)) && !has_reading(Some("{}")));
}

#[test]
fn percentages_of_the_board() {
    assert_eq!(percent_power(&number_reading("400"), &number_reading("25")), 100_000_000);
    assert_eq!(percent_power(&number_reading("-400"), &number_reading("25")), 0);
    assert_eq!(percent_power(&number_reading("18446744073709.551615"), &number_reading("200")), u64::MAX);
}

#[test]
fn large_readings_are_not_cut_short() {
    assert_eq!(
        percent_power(&number_reading("900000000000000"), &number_reading("1")),
        9_000_000_000_000_000_000
    );
    assert_eq!(percent_power(&number_reading("4e100"), &number_reading("25e-100")), 1_000_000);
    assert_eq!(power_of_reading(&number_reading("900000000000000")), u64::MAX);
}

#[test]
fn attempts_by_their_answers() {
    let list = attempts();
    let (reading, other) = (Some(r#"{"Reading": 1}"#), Some("{}"));
    assert!(list[0].telemetry && !list[1].telemetry);
    assert!(attempt_succeeds(&list[0], other, reading));
    assert!(!attempt_succeeds(&list[0], None, reading));
    assert!(!attempt_succeeds(&list[0], reading, other));
    assert!(attempt_succeeds(&list[1], reading, reading));
    assert!(!attempt_succeeds(&list[1], other, reading));
    assert!(!attempt_succeeds(&list[1], reading, None));
    let total = platform::discover("e", &list, &vec![false; list.len()], vec![]);
    assert!(make_source("e", &list[0]).needs_success() && !total[0].needs_success());
}

#[test]
fn redfish_sources() {
    let list = attempts();
    assert_eq!(list.len(), 11);
    let telemetry = make_source("https://bmc", &list[0]);
    assert_eq!(telemetry.id.0, "redfish:TotalCPUPower:https://bmc");
    assert_eq!(telemetry.display_name, "Redfish Telemetry CPU (https://bmc)");
    assert!(matches!(&telemetry.read_method, ReadMethod::SensorReading { path }
        if path == "/redfish/v1/Chassis/System.Embedded.1/Sensors/TotalCPUPower"));
    let r = telemetry.read(&vec![Some(r#"{"Reading": 90}"#.into())], 3).unwrap();
    assert_eq!((r.power_uw, r.component), (Some(90_000_000), Component::Cpu));
    let pct = make_source("e", &list[1]);
    assert_eq!(pct.inputs().len(), 2);
    let r = pct.read(&vec![Some(r#"{"Reading": 50}"#.into()), Some(r#"{"Reading": 300}"#.into())], 3);
    assert_eq!(r.unwrap().power_uw, Some(150_000_000));
    assert_eq!(
        attempt_urls("e", &list[1]).1,
        "e/redfish/v1/Chassis/System.Embedded.1/Sensors/SystemBoardPwrConsumption"
    );
    assert_eq!(power_url("e"), "e/redfish/v1/Chassis/System.Embedded.1/Power");
}

#[test]
fn the_best_method_of_each_component_is_taken() {
    let list = attempts();
    let mut succeeded = vec![false; list.len()];
    succeeded[1] = true;
    assert!(worth_trying(&list, &succeeded, 1) && !worth_trying(&list, &succeeded, 2));
    succeeded[2] = true;
    succeeded[9] = true;
    let found = platform::discover("e", &list, &succeeded, vec![]);
    let ids: Vec<&str> = found.iter().map(|s| s.id.0.as_str()).collect();
    assert_eq!(
        ids,
        vec!["redfish:SystemBoardCPUUsage:e", "redfish:TotalPciePower:e", "redfish:platform:e"]
    );
    let total = &found[2];
    let body = r#"{"PowerControl": [{"PowerConsumedWatts": 412.25}]}"#;
    assert_eq!(total.read(&vec![Some(body.into())], 0).unwrap().power_uw, Some(412_250_000));
    let none = r#"{"PowerControl": []}"#;
    assert!(matches!(total.read(&vec![Some(none.into())], 0), Err(SourceError::Parse(_))));
}

#[test]
fn power_supplies() {
    let body = r#"{"PowerSupplies": [
        {"Name": "PS1", "PowerInputWatts": 200, "PowerOutputWatts": 180.5},
        {"PowerOutputWatts": 10},
        {"Name": "PS3"}]}"#;
    let sides = discover_psu_detail(body);
    let sensors: Vec<String> = sides.iter().map(side_sensor_name).collect();
    assert_eq!(
        sensors,
        vec!["PSU.Slot.1_InputPower", "PSU.Slot.1_OutputPower", "PSU.Slot.2_OutputPower"]
    );
    let s = make_side_source("e", &sides[0]);
    assert_eq!((s.id.0.as_str(), s.display_name.as_str()), ("redfish:psu1:input:e", "PS1 Input (e)"));
    assert_eq!(make_side_source("e", &sides[2]).display_name, "PSU Output (e)");
    assert!(discover_psu_detail("{}").is_empty());
}

#[test]
fn endpoints() {
    assert_eq!(resolve_endpoint(Some("e"), None, None).unwrap(), "e");
    let map = Some("AB1=https://a, CD2 = https://b=c ,EF3");
    assert_eq!(resolve_endpoint(None, map, Some("CD2\n")).unwrap(), "https://b=c");
    assert_eq!(address_for("AB1=x", "AB1").unwrap(), "x");
    for (map, serial) in [(None, Some("AB1")), (map, None), (map, Some("EF3"))] {
        assert!(matches!(resolve_endpoint(None, map, serial), Err(SourceError::Unavailable(_))));
    }
}

#[test]
fn sources_of_all_kinds() {
    let all = discover_sources(
        rapl::discover(&zones()),
        rapl::discover_dram(&zones()),
        hwmon::discover(&None),
        gpu::discover(METRICS, "n1", "u"),
        Err(SourceError::Unavailable("none".into())),
    );
    let names: Vec<&str> = all.iter().map(|s| s.id().0.as_str()).collect();
    assert_eq!(
        names,
        vec!["rapl:package:0", "rapl:package:1", "rapl:dram:0", "dcgm:gpu:0", "dcgm:gpu:1", "dcgm:gpu:2"]
    );
}

// ─── Collector ──────────────────────────────────────────────────

fn reading(source: &AnySource, ts: u64, energy: Option<u64>, power: Option<u64>) -> Option<PowerReading> {
    Some(PowerReading {
        source_id: SourceId(source.id().0.clone()),
        timestamp_ns: ts,
        component: source.component(),
        granularity: source.granularity(),
        reading_type: source.reading_type(),
        energy_uj: energy,
        power_uw: power,
        max_energy_uj: 1_000_000,
    })
}

#[test]
fn counters_wrap_around() {
    assert_eq!(advance(10, 30, 100), 20);
    assert_eq!(advance(90, 5, 100), 15);
    assert_eq!(advance(90, 5, 0), 5);
}

#[test]
fn tiers() {
    let c = CollectorConfig::default();
    assert_eq!(classify_tier(SECOND / 10, &c), Tier::Fast);
    assert_eq!(classify_tier(SECOND / 2, &c), Tier::Medium);
    assert_eq!(classify_tier(3 * SECOND, &c), Tier::Slow);
}

#[test]
fn energy_between_readings() {
    let all = discover_sources(rapl::discover(&zones()), rapl::discover_dram(&None), hwmon::discover(&None),
        gpu::discover(METRICS, "n1", "u"), Err(SourceError::Read("x".into())));
    let a = reading(&all[0], 0, Some(999_000), None).unwrap();
    let b = reading(&all[0], SECOND, Some(500), None).unwrap();
    assert_eq!(compute_energy_delta(&b, &a), 1_500);
    // 50 W for two seconds
    let a = reading(&all[2], 0, None, Some(1)).unwrap();
    let b = reading(&all[2], 2 * SECOND, None, Some(50_000_000)).unwrap();
    assert_eq!(compute_energy_delta(&b, &a), 100_000_000);
}

#[test]
fn heartbeat_reconciles_against_the_platform() {
    let endpoint = platform::discover("e", &attempts(), &vec![false; 11], vec![]);
    let sources = discover_sources(rapl::discover(&zones()), rapl::discover_dram(&zones()),
        hwmon::discover(&None), Err(SourceError::Unavailable("".into())), Ok(endpoint));
    let make = |ts: u64, e0: u64, e1: u64, d: u64| -> Vec<Option<PowerReading>> {
        vec![
            reading(&sources[0], ts, Some(e0), None),
            reading(&sources[1], ts, Some(e1), None),
            reading(&sources[2], ts, Some(d), None),
            reading(&sources[3], ts, None, Some(250_000)),
        ]
    };
    let early = make(0, 7, 7, 7);
    let first = make(5 * SECOND, 1_000, 2_000, 3_000);
    let second = make(10 * SECOND, 501_000, 252_000, 103_000);
    let mut c = HardwareCollector::new(sources, CollectorConfig::default(), 2, 0);
    assert!(c.last_reconciliation().is_none());
    assert!(c.is_due(Tier::Fast, SECOND / 10) && !c.is_due(Tier::Slow, SECOND));
    // Nothing is due yet
    assert!(!c.tick(early, 0));
    assert!(c.tick(first, 5 * SECOND));
    assert!(c.tick(second, 10 * SECOND));
    // 500 mJ, 250 mJ and 100 mJ in five seconds
    let r = c.last_reconciliation().unwrap();
    assert_eq!((r.platform_uw, r.component_sum_uw), (Some(250_000), 170_000));
    assert_eq!((r.unaccounted_uw, r.error_ratio_atto), (80_000, 320_000_000_000_000_000));
    let e = c.energy_input(5 * SECOND);
    assert_eq!(e.socket_energy_uj, vec![500_000, 250_000]);
    assert_eq!(e.dram_energy_uj, vec![100_000, 0]);
    assert_eq!(e.platform_energy_uj, Some(1_250_000));
}
