use keck::k8s::workload::{
    capture_labels, classify_category, default_captured_labels, default_captured_prefixes,
    parse_label_config, select_controller_owner, OwnerMapping, OwnerReference, WorkloadCategory,
};

fn label<'a>(labels: &'a Vec<(String, String)>, key: &str) -> Option<&'a str> {
    labels.iter().find(|e| e.0 == key).map(|e| e.1.as_str())
}

#[test]
fn test_parse_label_config_exact_and_prefix() {
    let (exact, prefixes) = parse_label_config(
        "app.kubernetes.io/name, operators.coreos.com/*, custom/team"
    );
    assert_eq!(exact, vec!["app.kubernetes.io/name", "custom/team"]);
    assert_eq!(prefixes, vec!["operators.coreos.com/"]);
}

#[test]
fn test_parse_label_config_empty() {
    let (exact, prefixes) = parse_label_config("");
    assert!(exact.is_empty());
    assert!(prefixes.is_empty());
}

#[test]
fn test_capture_labels_exact() {
    let mut pod_labels = Vec::new();
    pod_labels.push(("app.kubernetes.io/name".into(), "my-api".into()));
    pod_labels.push(("unrelated".into(), "ignored".into()));
    let exact = vec!["app.kubernetes.io/name".to_string()];
    let captured = capture_labels(&pod_labels, &exact, &vec![]);
    assert_eq!(captured.len(), 1);
    assert_eq!(label(&captured, "app.kubernetes.io/name"), Some("my-api"));
}

#[test]
fn test_capture_labels_prefix() {
    let mut pod_labels = Vec::new();
    pod_labels.push(("operators.coreos.com/elastic".into(), "".into()));
    pod_labels.push(("operators.coreos.com/prometheus".into(), "".into()));
    pod_labels.push(("other/label".into(), "val".into()));
    let prefixes = vec!["operators.coreos.com/".to_string()];
    let captured = capture_labels(&pod_labels, &vec![], &prefixes);
    assert_eq!(captured.len(), 2);
    assert!(label(&captured, "operators.coreos.com/elastic").is_some());
    assert!(label(&captured, "operators.coreos.com/prometheus").is_some());
}

#[test]
fn test_capture_labels_no_matches() {
    let pod_labels: Vec<(String, String)> = Vec::new();
    let exact = vec!["app.kubernetes.io/name".to_string()];
    let captured = capture_labels(&pod_labels, &exact, &vec![]);
    assert!(captured.is_empty());
}

fn empty_op_ns() -> Vec<String> {
    Vec::new()
}

fn op_ns_with(ns: &[&str]) -> Vec<String> {
    ns.iter().map(|s| s.to_string()).collect()
}

#[test]
fn test_classify_platform_openshift_builtin() {
    let labels: Vec<(String, String)> = Vec::new();
    assert_eq!(classify_category("openshift-monitoring", &labels, &empty_op_ns()), WorkloadCategory::Platform);
    assert_eq!(classify_category("openshift-etcd", &labels, &empty_op_ns()), WorkloadCategory::Platform);
    assert_eq!(classify_category("openshift-apiserver", &labels, &empty_op_ns()), WorkloadCategory::Platform);
}

#[test]
fn test_classify_platform_kube_system() {
    let labels: Vec<(String, String)> = Vec::new();
    assert_eq!(classify_category("kube-system", &labels, &empty_op_ns()), WorkloadCategory::Platform);
}

#[test]
fn test_classify_operator_by_subscription() {
    let labels: Vec<(String, String)> = Vec::new();
    let op_ns = op_ns_with(&["openshift-cnv", "openshift-gitops-operator", "keck-system"]);
    assert_eq!(classify_category("openshift-cnv", &labels, &op_ns), WorkloadCategory::Operator);
    assert_eq!(classify_category("openshift-gitops-operator", &labels, &op_ns), WorkloadCategory::Operator);
    assert_eq!(classify_category("keck-system", &labels, &op_ns), WorkloadCategory::Operator);
}

#[test]
fn test_classify_openshift_ns_without_subscription_is_platform() {
    let labels: Vec<(String, String)> = Vec::new();
    let op_ns = op_ns_with(&["openshift-cnv"]);
    assert_eq!(classify_category("openshift-monitoring", &labels, &op_ns), WorkloadCategory::Platform);
    assert_eq!(classify_category("openshift-etcd", &labels, &op_ns), WorkloadCategory::Platform);
}

#[test]
fn test_classify_operator_by_label() {
    let mut labels = Vec::new();
    labels.push(("operators.coreos.com/elasticsearch-operator".into(), "".into()));
    assert_eq!(classify_category("default", &labels, &empty_op_ns()), WorkloadCategory::Operator);
}

#[test]
fn test_classify_olm_infra_namespaces() {
    let labels: Vec<(String, String)> = Vec::new();
    assert_eq!(classify_category("openshift-operator-lifecycle-manager", &labels, &empty_op_ns()), WorkloadCategory::Operator);
    assert_eq!(classify_category("openshift-marketplace", &labels, &empty_op_ns()), WorkloadCategory::Operator);
}

#[test]
fn test_classify_application() {
    let labels: Vec<(String, String)> = Vec::new();
    assert_eq!(classify_category("my-app-ns", &labels, &empty_op_ns()), WorkloadCategory::Application);
}

#[test]
fn test_workload_category_as_str() {
    assert_eq!(WorkloadCategory::Platform.as_str(), "platform");
    assert_eq!(WorkloadCategory::Operator.as_str(), "operator");
    assert_eq!(WorkloadCategory::Application.as_str(), "application");
}

fn owner(name: &str, controller: Option<bool>) -> OwnerReference {
    OwnerReference {
        owner: OwnerMapping { uid: format!("uid-{}", name), name: name.into(), kind: "ReplicaSet".into() },
        controller,
    }
}

#[test]
fn controller_owners_come_first() {
    let refs = vec![owner("a", None), owner("b", Some(false)), owner("c", Some(true)), owner("d", Some(true))];
    assert_eq!(select_controller_owner(&refs).unwrap().owner.name, "c");
    let none = vec![owner("a", Some(false)), owner("b", None)];
    assert_eq!(select_controller_owner(&none).unwrap().owner.name, "a");
    assert!(select_controller_owner(&vec![]).is_none());
}

#[test]
fn labels_captured_by_default() {
    assert!(default_captured_labels().contains(&"app.kubernetes.io/name".to_string()));
    assert!(default_captured_prefixes().contains(&"operators.coreos.com/".to_string()));
}
