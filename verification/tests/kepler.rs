use keck::controller::kepler::{parse_labels, parse_node_metric, parse_pod_metric};
use keck::decimal::Number;

fn watts_of(amount: Number) -> f64 {
    amount.millionths().unwrap() as f64 / 1e6
}

fn label<'a>(labels: &'a Vec<(String, String)>, key: &str) -> Option<&'a str> {
    labels.iter().find(|e| e.0 == key).map(|e| e.1.as_str())
}

#[test]
fn test_parse_pod_metric() {
    let line = r#"kepler_pod_cpu_watts{node_name="node-1",pod_id="abc-123",pod_name="web-1",pod_namespace="default",state="running",zone="package"} 2.5"#;
    let (key, watts) = parse_pod_metric(line).unwrap();
    assert_eq!(key.pod_id, "abc-123");
    assert_eq!(key.pod_name, "web-1");
    assert_eq!(key.pod_namespace, "default");
    assert_eq!(key.node_name, "node-1");
    assert_eq!(key.state, "running");
    assert!((watts_of(watts) - 2.5).abs() < 0.001);
}

#[test]
fn test_parse_node_metric() {
    let line = r#"kepler_node_cpu_watts{node_name="node-1",path="/sys/class/powercap/intel-rapl:0",zone="package"} 105.3"#;
    let (node, watts) = parse_node_metric(line).unwrap();
    assert_eq!(node, "node-1");
    assert!((watts_of(watts) - 105.3).abs() < 0.001);
}

#[test]
fn test_parse_labels() {
    let s = r#"pod_id="abc",pod_name="web",state="running""#;
    let labels = parse_labels(s);
    assert_eq!(label(&labels, "pod_id").unwrap(), "abc");
    assert_eq!(label(&labels, "pod_name").unwrap(), "web");
    assert_eq!(label(&labels, "state").unwrap(), "running");
}

#[test]
fn test_parse_zero_value() {
    let line = r#"kepler_pod_cpu_watts{node_name="n",pod_id="p",pod_name="x",pod_namespace="ns",state="running",zone="dram"} 0"#;
    let (key, watts) = parse_pod_metric(line).unwrap();
    assert_eq!(watts_of(watts), 0.0);
    assert_eq!(key.pod_namespace, "ns");
}
