//! Prometheus metrics exporter.
//!
//! Power is told by node, pod and namespace; by process only where that is asked for, since it
//! makes many series.
//!
//! Metrics:
//! - `power_node_watts{component}`: node-level power by component
//! - `power_node_idle_watts`, `power_node_platform_watts`: idle power, and what the platform reads
//! - `power_reconciliation_error_ratio`, `power_reconciliation_unaccounted_watts`: how far the
//!   components are from what the platform reads
//! - `power_pod_watts{namespace, pod, component}`: pod-level power
//! - `power_namespace_watts{namespace, component}`: namespace-level power
//! - `power_attribution_method{method}`: 1 for a model that is being used, else 0
//! - `power_process_watts{pid, comm, component}`: process-level power

use crate::attribution::types::{
    AttributionMethod, AttributionSnapshot, ContainerPower, NamespacePower, PodPower,
    PowerBreakdown, ProcessPower,
};
use crate::decimal::{
    amount_of, law_fraction, lemma_ten_to, lemma_ten_to_sum, millionth, ten_to, Amount,
};
use crate::prom::{law_line_amount, line_amount};
use crate::text::{
    all_digits, chars_of, decimal, decimal_text, digit_value, digits_value, find_from, holds_text,
    is_digit, joined, law_decimal_reads_back, law_find_from, law_part_is_found, occurs_at,
    wide_decimal,
};
use vstd::prelude::*;

verus! {

// ─── Numbers and labels ─────────────────────────────────────────

/// The last `places` decimal digits of a number.
pub open spec fn last_digits(n: int, places: nat) -> Seq<char>
    decreases places,
{
    if places == 0 {
        Seq::empty()
    } else {
        last_digits(n / 10, (places - 1) as nat).push(((n % 10) as u8 + 48u8) as char)
    }
}

/// A power in microwatts as a number of watts.
pub open spec fn watts(uw: int) -> Seq<char> {
    decimal(uw / 1_000_000) + "."@ + last_digits(uw, 6)
}

/// A power in microwatts, which may be below zero, as a number of watts.
pub open spec fn signed_watts(uw: int) -> Seq<char> {
    if uw < 0 {
        "-"@ + watts(-uw)
    } else {
        watts(uw)
    }
}

/// A ratio in units of 10⁻¹⁸ as a number.
pub open spec fn ratio(atto: int) -> Seq<char> {
    decimal(atto / 1_000_000_000_000_000_000) + "."@ + last_digits(atto, 18)
}

/// How a character stands in a label's value.
pub open spec fn escaped_char(c: char) -> Seq<char> {
    if c == '\\' {
        seq!['\\', '\\']
    } else if c == '"' {
        seq!['\\', '"']
    } else if c == '\n' {
        seq!['\\', 'n']
    } else {
        seq![c]
    }
}

/// How a text stands in a label's value.
pub open spec fn escaped(s: Seq<char>) -> Seq<char>
    decreases s.len(),
{
    if s.len() == 0 {
        Seq::empty()
    } else {
        escaped(s.drop_last()) + escaped_char(s.last())
    }
}

/// A label with its value.
pub open spec fn label(name: Seq<char>, value: Seq<char>) -> Seq<char> {
    name + "=\""@ + escaped(value) + "\""@
}

/// One sample with labels.
pub open spec fn sample(name: Seq<char>, labels: Seq<char>, value: Seq<char>) -> Seq<char> {
    name + "{"@ + labels + "} "@ + value + "\n"@
}

/// One sample without labels.
pub open spec fn plain(name: Seq<char>, value: Seq<char>) -> Seq<char> {
    name + " "@ + value + "\n"@
}

/// A power by component, each under further labels.
pub open spec fn components(name: Seq<char>, labels: Seq<char>, p: PowerBreakdown) -> Seq<char> {
    sample(name, labels + "component=\"cpu\""@, watts(p.cpu_uw as int)) + sample(
        name,
        labels + "component=\"memory\""@,
        watts(p.memory_uw as int),
    ) + sample(name, labels + "component=\"gpu\""@, watts(p.gpu_uw as int))
}

fn write_last_digits(n: u128, places: u32) -> (s: String)
    ensures
        s@ == last_digits(n as int, places as nat),
    decreases places,
{
    if places == 0 {
        let s: String = String::new();
        assert(s@ =~= last_digits(n as int, 0));
        return s;
    }
    let digit: char = ((n % 10) as u8 + 48u8) as char;
    let mut s: String = write_last_digits(n / 10, places - 1);
    s.push(digit);
    assert(s@ =~= last_digits(n as int, places as nat));
    s
}

fn write_watts(uw: u128) -> (s: String)
    ensures
        s@ == watts(uw as int),
{
    wide_decimal(uw / 1_000_000).concat(".").concat(write_last_digits(uw, 6).as_str())
}

fn write_signed_watts(uw: i64) -> (s: String)
    ensures
        s@ == signed_watts(uw as int),
{
    if uw < 0 {
        joined("-", write_watts((-(uw as i128)) as u128).as_str())
    } else {
        write_watts(uw as u128)
    }
}

fn write_ratio(atto: u128) -> (s: String)
    ensures
        s@ == ratio(atto as int),
{
    wide_decimal(atto / 1_000_000_000_000_000_000).concat(".").concat(
        write_last_digits(atto, 18).as_str(),
    )
}

fn escape(text: &str) -> (s: String)
    ensures
        s@ == escaped(text@),
{
    let v: Vec<char> = chars_of(text);
    let mut s: String = String::new();
    let mut i: usize = 0;
    assert(s@ =~= escaped(v@.take(0)));
    while i < v.len()
        invariant
            i <= v@.len(),
            s@ == escaped(v@.take(i as int)),
        decreases v@.len() - i,
    {
        let ghost before = s@;
        let c: char = v[i];
        assert(v@.take(i + 1).drop_last() =~= v@.take(i as int));
        if c == '\\' {
            s.push('\\');
            s.push('\\');
        } else if c == '"' {
            s.push('\\');
            s.push('"');
        } else if c == '\n' {
            s.push('\\');
            s.push('n');
        } else {
            s.push(c);
        }
        assert(s@ =~= before + escaped_char(c));
        i = i + 1;
    }
    assert(v@.take(i as int) =~= v@);
    s
}

fn write_label(name: &str, value: &str) -> (s: String)
    ensures
        s@ == label(name@, value@),
{
    joined(name, "=\"").concat(escape(value).as_str()).concat("\"")
}

fn write_sample(name: &str, labels: &str, value: &str) -> (s: String)
    ensures
        s@ == sample(name@, labels@, value@),
{
    joined(name, "{").concat(labels).concat("} ").concat(value).concat("\n")
}

fn write_plain(name: &str, value: &str) -> (s: String)
    ensures
        s@ == plain(name@, value@),
{
    joined(name, " ").concat(value).concat("\n")
}

fn write_components(name: &str, labels: &str, p: &PowerBreakdown) -> (s: String)
    ensures
        s@ == components(name@, labels@, *p),
{
    let cpu: String = write_sample(
        name,
        joined(labels, "component=\"cpu\"").as_str(),
        write_watts(p.cpu_uw as u128).as_str(),
    );
    let memory: String = write_sample(
        name,
        joined(labels, "component=\"memory\"").as_str(),
        write_watts(p.memory_uw as u128).as_str(),
    );
    let gpu: String = write_sample(
        name,
        joined(labels, "component=\"gpu\"").as_str(),
        write_watts(p.gpu_uw as u128).as_str(),
    );
    cpu.concat(memory.as_str()).concat(gpu.as_str())
}

// ─── Pods, namespaces and processes ─────────────────────────────

/// The samples of one pod.
pub open spec fn pod_text(p: PodPower) -> Seq<char> {
    components(
        "power_pod_watts"@,
        label("namespace"@, p.namespace@) + ","@ + label("pod"@, p.name@) + ","@,
        p.power,
    )
}

/// The samples of all pods.
pub open spec fn pods_text(pods: Seq<PodPower>) -> Seq<char>
    decreases pods.len(),
{
    if pods.len() == 0 {
        Seq::empty()
    } else {
        pods_text(pods.drop_last()) + pod_text(pods.last())
    }
}

/// The samples of one namespace.
pub open spec fn namespace_text(n: NamespacePower) -> Seq<char> {
    components("power_namespace_watts"@, label("namespace"@, n.namespace@) + ","@, n.power)
}

/// The samples of all namespaces.
pub open spec fn namespaces_text(list: Seq<NamespacePower>) -> Seq<char>
    decreases list.len(),
{
    if list.len() == 0 {
        Seq::empty()
    } else {
        namespaces_text(list.drop_last()) + namespace_text(list.last())
    }
}

/// The samples of one process.
pub open spec fn process_text(p: ProcessPower) -> Seq<char> {
    components(
        "power_process_watts"@,
        label("pid"@, decimal(p.pid as int)) + ","@ + label("comm"@, p.comm@) + ","@,
        p.power,
    )
}

/// The samples of processes.
pub open spec fn processes_text(list: Seq<ProcessPower>) -> Seq<char>
    decreases list.len(),
{
    if list.len() == 0 {
        Seq::empty()
    } else {
        processes_text(list.drop_last()) + process_text(list.last())
    }
}

/// The samples of the processes in containers.
pub open spec fn container_processes_text(list: Seq<ContainerPower>) -> Seq<char>
    decreases list.len(),
{
    if list.len() == 0 {
        Seq::empty()
    } else {
        container_processes_text(list.drop_last()) + processes_text(list.last().processes@)
    }
}

/// The samples of the processes in pods.
pub open spec fn pod_processes_text(list: Seq<PodPower>) -> Seq<char>
    decreases list.len(),
{
    if list.len() == 0 {
        Seq::empty()
    } else {
        pod_processes_text(list.drop_last()) + container_processes_text(list.last().containers@)
    }
}

/// Whether any process got its power by a method.
pub open spec fn processes_use(list: Seq<ProcessPower>, m: AttributionMethod) -> bool {
    exists|i: int| 0 <= i < list.len() && (#[trigger] list[i]).attribution_method == m
}

/// Whether any process in containers got its power by a method.
pub open spec fn containers_use(list: Seq<ContainerPower>, m: AttributionMethod) -> bool {
    exists|i: int| 0 <= i < list.len() && processes_use((#[trigger] list[i]).processes@, m)
}

/// Whether any process in a snapshot got its power by a method.
pub open spec fn uses(s: AttributionSnapshot, m: AttributionMethod) -> bool {
    processes_use(s.processes@, m) || exists|i: int|
        0 <= i < s.pods@.len() && containers_use((#[trigger] s.pods@[i]).containers@, m)
}

/// Whether a model is being used.
pub open spec fn method_text(s: AttributionSnapshot, name: Seq<char>, m: AttributionMethod) -> Seq<
    char,
> {
    sample(
        "power_attribution_method"@,
        label("method"@, name),
        if uses(s, m) {
            "1"@
        } else {
            "0"@
        },
    )
}

fn write_pods(pods: &Vec<PodPower>) -> (s: String)
    ensures
        s@ == pods_text(pods@),
{
    let mut s: String = String::new();
    let mut i: usize = 0;
    assert(s@ =~= pods_text(pods@.take(0)));
    while i < pods.len()
        invariant
            i <= pods@.len(),
            s@ == pods_text(pods@.take(i as int)),
        decreases pods@.len() - i,
    {
        assert(pods@.take(i + 1).drop_last() =~= pods@.take(i as int));
        let p: &PodPower = &pods[i];
        let labels: String = write_label("namespace", p.namespace.as_str()).concat(",").concat(
            write_label("pod", p.name.as_str()).as_str(),
        ).concat(",");
        s = s.concat(write_components("power_pod_watts", labels.as_str(), &p.power).as_str());
        i = i + 1;
    }
    assert(pods@.take(i as int) =~= pods@);
    s
}

fn write_namespaces(list: &Vec<NamespacePower>) -> (s: String)
    ensures
        s@ == namespaces_text(list@),
{
    let mut s: String = String::new();
    let mut i: usize = 0;
    assert(s@ =~= namespaces_text(list@.take(0)));
    while i < list.len()
        invariant
            i <= list@.len(),
            s@ == namespaces_text(list@.take(i as int)),
        decreases list@.len() - i,
    {
        assert(list@.take(i + 1).drop_last() =~= list@.take(i as int));
        let n: &NamespacePower = &list[i];
        let labels: String = write_label("namespace", n.namespace.as_str()).concat(",");
        s = s.concat(write_components("power_namespace_watts", labels.as_str(), &n.power).as_str());
        i = i + 1;
    }
    assert(list@.take(i as int) =~= list@);
    s
}

fn write_processes(list: &Vec<ProcessPower>) -> (s: String)
    ensures
        s@ == processes_text(list@),
{
    let mut s: String = String::new();
    let mut i: usize = 0;
    assert(s@ =~= processes_text(list@.take(0)));
    while i < list.len()
        invariant
            i <= list@.len(),
            s@ == processes_text(list@.take(i as int)),
        decreases list@.len() - i,
    {
        assert(list@.take(i + 1).drop_last() =~= list@.take(i as int));
        let p: &ProcessPower = &list[i];
        let pid: String = decimal_text(p.pid as u64);
        let labels: String = write_label("pid", pid.as_str()).concat(",").concat(
            write_label("comm", p.comm.as_str()).as_str(),
        ).concat(",");
        s = s.concat(write_components("power_process_watts", labels.as_str(), &p.power).as_str());
        i = i + 1;
    }
    assert(list@.take(i as int) =~= list@);
    s
}

fn write_container_processes(list: &Vec<ContainerPower>) -> (s: String)
    ensures
        s@ == container_processes_text(list@),
{
    let mut s: String = String::new();
    let mut i: usize = 0;
    assert(s@ =~= container_processes_text(list@.take(0)));
    while i < list.len()
        invariant
            i <= list@.len(),
            s@ == container_processes_text(list@.take(i as int)),
        decreases list@.len() - i,
    {
        assert(list@.take(i + 1).drop_last() =~= list@.take(i as int));
        s = s.concat(write_processes(&list[i].processes).as_str());
        i = i + 1;
    }
    assert(list@.take(i as int) =~= list@);
    s
}

fn write_pod_processes(list: &Vec<PodPower>) -> (s: String)
    ensures
        s@ == pod_processes_text(list@),
{
    let mut s: String = String::new();
    let mut i: usize = 0;
    assert(s@ =~= pod_processes_text(list@.take(0)));
    while i < list.len()
        invariant
            i <= list@.len(),
            s@ == pod_processes_text(list@.take(i as int)),
        decreases list@.len() - i,
    {
        assert(list@.take(i + 1).drop_last() =~= list@.take(i as int));
        s = s.concat(write_container_processes(&list[i].containers).as_str());
        i = i + 1;
    }
    assert(list@.take(i as int) =~= list@);
    s
}

fn processes_used(list: &Vec<ProcessPower>, m: AttributionMethod) -> (r: bool)
    ensures
        r == processes_use(list@, m),
{
    let mut i: usize = 0;
    while i < list.len()
        invariant
            i <= list@.len(),
            forall|j: int| 0 <= j < i ==> (#[trigger] list@[j]).attribution_method != m,
        decreases list@.len() - i,
    {
        if list[i].attribution_method == m {
            return true;
        }
        i = i + 1;
    }
    false
}

fn containers_used(list: &Vec<ContainerPower>, m: AttributionMethod) -> (r: bool)
    ensures
        r == containers_use(list@, m),
{
    let mut i: usize = 0;
    while i < list.len()
        invariant
            i <= list@.len(),
            forall|j: int| 0 <= j < i ==> !processes_use((#[trigger] list@[j]).processes@, m),
        decreases list@.len() - i,
    {
        if processes_used(&list[i].processes, m) {
            return true;
        }
        i = i + 1;
    }
    false
}

fn is_used(s: &AttributionSnapshot, m: AttributionMethod) -> (r: bool)
    ensures
        r == uses(*s, m),
{
    if processes_used(&s.processes, m) {
        return true;
    }
    let mut i: usize = 0;
    while i < s.pods.len()
        invariant
            i <= s.pods@.len(),
            forall|j: int| 0 <= j < i ==> !containers_use((#[trigger] s.pods@[j]).containers@, m),
        decreases s.pods@.len() - i,
    {
        if containers_used(&s.pods[i].containers, m) {
            return true;
        }
        i = i + 1;
    }
    false
}

fn write_method(s: &AttributionSnapshot, name: &str, m: AttributionMethod) -> (r: String)
    ensures
        r@ == method_text(*s, name@, m),
{
    let value: &str = if is_used(s, m) {
        "1"
    } else {
        "0"
    };
    write_sample("power_attribution_method", write_label("method", name).as_str(), value)
}

// ─── The exporter ───────────────────────────────────────────────

/// What a node's power is, and how far it is reconciled.
pub open spec fn node_text(s: AttributionSnapshot) -> Seq<char> {
    components("power_node_watts"@, Seq::empty(), s.node.measured) + plain(
        "power_node_idle_watts"@,
        watts(s.idle_power.sum()),
    ) + (match s.node.platform_uw {
        Some(uw) => plain("power_node_platform_watts"@, watts(uw as int)),
        None => Seq::empty(),
    }) + plain(
        "power_reconciliation_error_ratio"@,
        ratio(s.reconciliation.error_ratio_atto as int),
    ) + plain(
        "power_reconciliation_unaccounted_watts"@,
        signed_watts(s.reconciliation.unaccounted_uw as int),
    )
}

/// All metrics of a snapshot, in Prometheus text format.
pub open spec fn metrics_text(s: AttributionSnapshot, with_processes: bool) -> Seq<char> {
    node_text(s) + pods_text(s.pods@) + namespaces_text(s.namespaces@) + method_text(
        s,
        "full_model"@,
        AttributionMethod::FullModel,
    ) + method_text(s, "frequency_weighted"@, AttributionMethod::FrequencyWeighted) + method_text(
        s,
        "cpu_time_ratio"@,
        AttributionMethod::CpuTimeRatio,
    ) + (if with_processes {
        processes_text(s.processes@) + pod_processes_text(s.pods@)
    } else {
        Seq::empty()
    })
}

fn write_node(s: &AttributionSnapshot) -> (r: String)
    ensures
        r@ == node_text(*s),
{
    let p: &PowerBreakdown = &s.idle_power;
    let idle: u128 = p.cpu_uw as u128 + p.memory_uw as u128 + p.gpu_uw as u128 + p.nic_uw as u128
        + p.storage_uw as u128;
    let platform: String = match s.node.platform_uw {
        Some(uw) => write_plain("power_node_platform_watts", write_watts(uw as u128).as_str()),
        None => String::new(),
    };
    let none: String = String::new();
    assert(none@ =~= Seq::empty());
    assert(s.node.platform_uw is None ==> platform@ =~= Seq::empty());
    write_components("power_node_watts", none.as_str(), &s.node.measured).concat(
        write_plain("power_node_idle_watts", write_watts(idle).as_str()).as_str(),
    ).concat(platform.as_str()).concat(
        write_plain(
            "power_reconciliation_error_ratio",
            write_ratio(s.reconciliation.error_ratio_atto).as_str(),
        ).as_str(),
    ).concat(
        write_plain(
            "power_reconciliation_unaccounted_watts",
            write_signed_watts(s.reconciliation.unaccounted_uw).as_str(),
        ).as_str(),
    )
}

/// Prometheus metrics exporter.
#[derive(Debug)]
pub struct PrometheusExporter {
    /// Whether to expose process-level metrics (high cardinality)
    pub expose_process_metrics: bool,
    /// The metrics of the latest snapshot
    pub metrics: String,
}

impl PrometheusExporter {
    /// An exporter that has seen no snapshot.
    pub fn new(expose_process_metrics: bool) -> (r: Self)
        ensures
            r.expose_process_metrics == expose_process_metrics,
            r.metrics@ == "# No metrics yet\n"@,
    {
        PrometheusExporter { expose_process_metrics, metrics: "# No metrics yet\n".to_owned() }
    }

    /// Updates the metrics from a new attribution snapshot: called once per collection interval.
    pub fn update(&mut self, snapshot: &AttributionSnapshot)
        ensures
            final(self).expose_process_metrics == old(self).expose_process_metrics,
            final(self).metrics@ == metrics_text(*snapshot, old(self).expose_process_metrics),
    {
        let processes: String = if self.expose_process_metrics {
            write_processes(&snapshot.processes).concat(
                write_pod_processes(&snapshot.pods).as_str(),
            )
        } else {
            String::new()
        };
        assert(!self.expose_process_metrics ==> processes@ =~= Seq::empty());
        self.metrics =
        write_node(snapshot).concat(write_pods(&snapshot.pods).as_str()).concat(
            write_namespaces(&snapshot.namespaces).as_str(),
        ).concat(
            write_method(snapshot, "full_model", AttributionMethod::FullModel).as_str(),
        ).concat(
            write_method(
                snapshot,
                "frequency_weighted",
                AttributionMethod::FrequencyWeighted,
            ).as_str(),
        ).concat(
            write_method(snapshot, "cpu_time_ratio", AttributionMethod::CpuTimeRatio).as_str(),
        ).concat(processes.as_str());
    }

    /// Renders the metrics in Prometheus text format: those of the latest snapshot.
    pub fn render(&self) -> (r: String)
        ensures
            r@ == self.metrics@,
    {
        self.metrics.clone()
    }
}

// ─── What is written reads back ─────────────────────────────────

proof fn lemma_last_digits(a: Seq<char>, n: int, places: nat)
    requires
        0 <= n,
    ensures
        last_digits(n, places).len() == places,
        all_digits(last_digits(n, places)),
        digits_value(a + last_digits(n, places)) == digits_value(a) * ten_to(places as int) + n
            % ten_to(places as int),
    decreases places,
{
    let d = last_digits(n, places);
    if places == 0 {
        assert(a + d =~= a);
    } else {
        let k = (places - 1) as nat;
        lemma_last_digits(a, n / 10, k);
        let c = ((n % 10) as u8 + 48u8) as char;
        assert(is_digit(c) && digit_value(c) == n % 10);
        let s = a + d;
        assert(s.drop_last() =~= a + last_digits(n / 10, k));
        assert(s.last() == c);
        assert forall|i: int| 0 <= i < d.len() implies is_digit(#[trigger] d[i]) by {
            if i < d.len() - 1 {
                assert(is_digit(last_digits(n / 10, k)[i]));
            }
        }
        let t = ten_to(k as int);
        let v = digits_value(a);
        lemma_ten_to(k as int);
        assert((v * t) * 10 == v * (10 * t)) by (nonlinear_arith);
        vstd::arithmetic::div_mod::lemma_mod_breakdown(n, 10, t);
    }
}

proof fn lemma_fixed_point(n: int, places: nat)
    requires
        0 <= n,
        places <= 18,
        n * ten_to(330 - places) <= ten_to(639),
    ensures
        amount_of(
            decimal(n / ten_to(places as int)).push('.') + last_digits(n, places),
        ) == Some(Amount::Units(n * ten_to(330 - places))),
        amount_of(
            seq!['-'] + (decimal(n / ten_to(places as int)).push('.') + last_digits(n, places)),
        ) == Some(Amount::Units(-(n * ten_to(330 - places)))),
{
    let t = ten_to(places as int);
    lemma_ten_to(places as int);
    let q = n / t;
    assert(q >= 0) by (nonlinear_arith)
        requires
            n >= 0,
            t >= 1,
            q == n / t,
    ;
    let a = decimal(q);
    law_decimal_reads_back(q, q);
    lemma_last_digits(a, n, places);
    vstd::arithmetic::div_mod::lemma_fundamental_div_mod(n, t);
    assert(q * t == t * q) by (nonlinear_arith);
    assert(digits_value(a + last_digits(n, places)) == n);
    law_fraction(a, last_digits(n, places));
}

/// The text of a power is worth exactly that many millionths, with its sign.
pub proof fn law_watts_read_back(uw: int)
    requires
        -0x1_0000_0000_0000_0000_0000 <= uw <= 0x1_0000_0000_0000_0000_0000,
    ensures
        uw >= 0 ==> amount_of(watts(uw)) == Some(Amount::Units(uw * millionth())),
        amount_of(signed_watts(uw)) == Some(Amount::Units(uw * millionth())),
{
    reveal_strlit(".");
    reveal_strlit("-");
    let n = if uw < 0 {
        -uw
    } else {
        uw
    };
    assert(ten_to(6) == 1_000_000) by {
        reveal_with_fuel(ten_to, 7);
    }
    lemma_small(n, 324);
    lemma_fixed_point(n, 6);
    let d = decimal(n / 1_000_000);
    assert(d + "."@ + last_digits(n, 6) =~= d.push('.') + last_digits(n, 6));
    assert("-"@ + watts(n) =~= seq!['-'] + watts(n));
    assert(-(n * millionth()) == (-n) * millionth()) by (nonlinear_arith);
}

proof fn lemma_small(n: int, k: int)
    requires
        0 <= n <= 0x1_0000_0000_0000_0000_0000_0000_0000_0000,
        0 <= k <= 600,
    ensures
        n * ten_to(k) <= ten_to(639),
{
    lemma_ten_to(k);
    assert(ten_to(39) > 0x1_0000_0000_0000_0000_0000_0000_0000_0000) by {
        reveal_with_fuel(ten_to, 40);
    }
    lemma_ten_to_sum(k, 39);
    lemma_ten_to_grows(k + 39, 639);
    let t = ten_to(k);
    let h = ten_to(39);
    assert(n * t <= t * h) by (nonlinear_arith)
        requires
            0 <= n <= h,
            t >= 1,
    ;
}

proof fn lemma_ten_to_grows(a: int, b: int)
    requires
        0 <= a <= b,
    ensures
        ten_to(a) <= ten_to(b),
    decreases b,
{
    lemma_ten_to(a);
    if a < b {
        lemma_ten_to_grows(a, b - 1);
    }
}

/// The text of a ratio is worth exactly that many parts of 10⁻¹⁸.
pub proof fn law_ratio_reads_back(atto: u128)
    ensures
        amount_of(ratio(atto as int)) == Some(Amount::Units(atto * ten_to(312))),
{
    reveal_strlit(".");
    assert(ten_to(18) == 1_000_000_000_000_000_000) by {
        reveal_with_fuel(ten_to, 19);
    }
    lemma_small(atto as int, 312);
    lemma_fixed_point(atto as int, 18);
    let d = decimal(atto as int / 1_000_000_000_000_000_000);
    assert(d + "."@ + last_digits(atto as int, 18) =~= d.push('.') + last_digits(
        atto as int,
        18,
    ));
}

/// A sample's line is worth the power that it tells, and so is a plain one.
pub proof fn law_sample_tells(name: Seq<char>, labels: Seq<char>, uw: u64)
    ensures
        line_amount(sample(name, labels, watts(uw as int)).drop_last()) == Some(
            Amount::Units(uw * millionth()),
        ),
        line_amount(plain(name, watts(uw as int)).drop_last()) == Some(
            Amount::Units(uw * millionth()),
        ),
        sample(name, labels, watts(uw as int)).last() == '\n',
{
    reveal_strlit("{");
    reveal_strlit("} ");
    reveal_strlit(" ");
    reveal_strlit("\n");
    let value = watts(uw as int);
    law_watts_read_back(uw as int);
    lemma_no_space(uw as int);
    let line = sample(name, labels, value).drop_last();
    let front = (name + "{"@ + labels).push('}');
    assert(line =~= front.push(' ') + value);
    law_line_amount(front, value);
    let short = plain(name, value).drop_last();
    assert(short =~= name.push(' ') + value);
    law_line_amount(name, value);
}

proof fn lemma_no_space(uw: int)
    requires
        0 <= uw,
    ensures
        !watts(uw).contains(' '),
{
    reveal_strlit(".");
    let a = decimal(uw / 1_000_000);
    let b = last_digits(uw, 6);
    law_decimal_reads_back(uw / 1_000_000, 0);
    lemma_last_digits(a, uw, 6);
    let w = watts(uw);
    if w.contains(' ') {
        let i = w.index_of(' ');
        if i < a.len() {
            assert(is_digit(a[i]));
            assert(w[i] == a[i]);
        } else if i > a.len() {
            assert(is_digit(b[i - a.len() - 1]));
            assert(w[i] == b[i - a.len() - 1]);
        }
    }
}

/// A thing's samples are three lines: the power of its processor, of its memory and of its
/// accelerators, each under its own name.
pub proof fn law_components(name: Seq<char>, labels: Seq<char>, p: PowerBreakdown)
    ensures
        components(name, labels, p) == sample(
            name,
            labels + "component=\"cpu\""@,
            watts(p.cpu_uw as int),
        ) + sample(name, labels + "component=\"memory\""@, watts(p.memory_uw as int)) + sample(
            name,
            labels + "component=\"gpu\""@,
            watts(p.gpu_uw as int),
        ),
{
}

/// A label without backslashes, quotes and line feeds is written as it is; each of these is written
/// with a backslash before it, so that no quote and no line feed stands alone.
pub proof fn law_escaped(s: Seq<char>, c: char)
    ensures
        (forall|i: int| 0 <= i < s.len() ==> s[i] != '\\' && s[i] != '"' && s[i] != '\n')
            ==> escaped(s) == s,
        escaped(s.push(c)) == escaped(s) + escaped_char(c),
        escaped_char('"') == seq!['\\', '"'],
        escaped_char('\\') == seq!['\\', '\\'],
        escaped_char('\n') == seq!['\\', 'n'],
        !escaped(s).contains('\n'),
    decreases s.len(),
{
    assert(s.push(c).drop_last() =~= s);
    if s.len() > 0 {
        let t = s.drop_last();
        law_escaped(t, c);
        let e = escaped(s);
        let f = escaped_char(s.last());
        if forall|i: int| 0 <= i < s.len() ==> s[i] != '\\' && s[i] != '"' && s[i] != '\n' {
            assert forall|i: int| 0 <= i < t.len() implies t[i] != '\\' && t[i] != '"' && t[i]
                != '\n' by {
                assert(s[i] == t[i]);
            }
            assert(s[s.len() - 1] != '"');
            assert(e =~= s);
        }
        if e.contains('\n') {
            let i = e.index_of('\n');
            if i < escaped(t).len() {
                assert(escaped(t)[i] == '\n');
                assert(escaped(t).contains('\n'));
            } else {
                assert(f[i - escaped(t).len()] == '\n');
            }
        }
    } else {
        assert(escaped(s) =~= s);
    }
}

/// Each pod's text stands among those of all.
pub proof fn law_pods_told(list: Seq<PodPower>, i: int)
    requires
        0 <= i < list.len(),
    ensures
        holds_text(pods_text(list), pod_text(list[i])),
    decreases list.len(),
{
    let rest = pods_text(list.drop_last());
    let last = pod_text(list.last());
    assert(pods_text(list) == rest + last);
    if i == list.len() - 1 {
        law_part_is_found(rest, last, Seq::empty());
        assert(rest + last + Seq::empty() =~= rest + last);
    } else {
        law_pods_told(list.drop_last(), i);
        lemma_still_held(rest, pod_text(list[i]), last);
    }
}

/// Each namespace's text stands among those of all.
pub proof fn law_namespaces_told(list: Seq<NamespacePower>, i: int)
    requires
        0 <= i < list.len(),
    ensures
        holds_text(namespaces_text(list), namespace_text(list[i])),
    decreases list.len(),
{
    let rest = namespaces_text(list.drop_last());
    let last = namespace_text(list.last());
    assert(namespaces_text(list) == rest + last);
    if i == list.len() - 1 {
        law_part_is_found(rest, last, Seq::empty());
        assert(rest + last + Seq::empty() =~= rest + last);
    } else {
        law_namespaces_told(list.drop_last(), i);
        lemma_still_held(rest, namespace_text(list[i]), last);
    }
}

/// Each process's text stands among those of all.
pub proof fn law_processes_told(list: Seq<ProcessPower>, i: int)
    requires
        0 <= i < list.len(),
    ensures
        holds_text(processes_text(list), process_text(list[i])),
    decreases list.len(),
{
    let rest = processes_text(list.drop_last());
    let last = process_text(list.last());
    assert(processes_text(list) == rest + last);
    if i == list.len() - 1 {
        law_part_is_found(rest, last, Seq::empty());
        assert(rest + last + Seq::empty() =~= rest + last);
    } else {
        law_processes_told(list.drop_last(), i);
        lemma_still_held(rest, process_text(list[i]), last);
    }
}

proof fn lemma_still_held(s: Seq<char>, p: Seq<char>, t: Seq<char>)
    requires
        holds_text(s, p),
    ensures
        holds_text(s + t, p),
{
    law_find_from(s, p, 0);
    law_find_from(s + t, p, 0);
    let k = find_from(s, p, 0);
    assert((s + t).subrange(k, k + p.len()) =~= s.subrange(k, k + p.len()));
    assert(occurs_at(s + t, p, k));
}

} // verus!
