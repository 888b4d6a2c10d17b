//! Reports out of Kepler's metrics, for a side-by-side comparison.
//!
//! Kepler tells watts of pods and nodes in lines such as
//! `kepler_pod_cpu_watts{node_name="n",pod_id="p",pod_name="x",pod_namespace="ns",state="running"} 2.5`

use super::aggregator::{
    AgentReport, ClusterAggregator, NodePowerReport, PodPowerReport, PodReport,
};
use crate::arith::divide_up;
use crate::decimal::{amount_of, millionth, read_amount, Amount, Number};
use crate::sums::{lemma_sum_push, sum_of};
use crate::table::{distinct_keys, enter, get, lemma_text_map_put, text_map};
use crate::text::{
    begins_with, chars_of, contains, find_char, lemma_until, lemma_until_is, lines, lines_of, same,
    slice_of, stands_at, text_of, trim, trimmed, until, views, whole_text,
};
use crate::watts::{law_power_of_sum, no_power, with_amount, PowerSum, Watts};
use vstd::prelude::*;

verus! {

// ─── Labels ─────────────────────────────────────────────────────

/// A text without the commas at its start.
pub open spec fn skip_commas(s: Seq<char>) -> Seq<char>
    decreases s.len(),
{
    if s.len() > 0 && s[0] == ',' {
        skip_commas(s.skip(1))
    } else {
        s
    }
}

/// The labels that a text writes, besides those in `m`. Reading stops at what is no label.
pub open spec fn labels_from(m: Map<Seq<char>, Seq<char>>, s: Seq<char>) -> Map<
    Seq<char>,
    Seq<char>,
>
    decreases s.len(),
    via labels_from_decreases
{
    let eq = until(s, '=');
    let quoted = s.skip(eq + 1);
    let rest = quoted.skip(1);
    let end = until(rest, '"');
    if s.len() == 0 || eq >= s.len() || quoted.len() == 0 || quoted[0] != '"' || end >= rest.len() {
        m
    } else {
        let key = trimmed(skip_commas(trimmed(s.take(eq))));
        let after = rest.skip(end + 1);
        labels_from(
            m.insert(key, rest.take(end)),
            if after.len() > 0 && after[0] == ',' {
                after.skip(1)
            } else {
                after
            },
        )
    }
}

#[via_fn]
proof fn labels_from_decreases(m: Map<Seq<char>, Seq<char>>, s: Seq<char>) {
    lemma_until(s, '=');
    lemma_until(s.skip(until(s, '=') + 1).skip(1), '"');
}

fn drop_commas(s: &Vec<char>) -> (r: Vec<char>)
    ensures
        r@ == skip_commas(s@),
{
    let mut i: usize = 0;
    assert(s@.skip(0) =~= s@);
    while i < s.len() && s[i] == ','
        invariant
            i <= s@.len(),
            skip_commas(s@) == skip_commas(s@.skip(i as int)),
        decreases s@.len() - i,
    {
        assert(s@.skip(i as int).skip(1) =~= s@.skip(i + 1));
        i = i + 1;
    }
    let r: Vec<char> = slice_of(s, i, s.len());
    assert(r@ =~= s@.skip(i as int));
    r
}

/// Reads the labels in a text such as `a="1",b="2"`.
pub fn labels_in(s: &Vec<char>) -> (r: Vec<(String, String)>)
    ensures
        text_map(r@) == labels_from(Map::empty(), s@),
        distinct_keys(r@),
{
    let mut r: Vec<(String, String)> = Vec::new();
    let total: usize = s.len();
    let mut from: usize = 0;
    assert(s@.skip(0) =~= s@);
    assert(text_map(r@) =~= Map::empty());
    while from < total
        invariant
            from <= total == s@.len(),
            distinct_keys(r@),
            labels_from(Map::empty(), s@) == labels_from(text_map(r@), s@.skip(from as int)),
        decreases total - from,
    {
        let ghost rem = s@.skip(from as int);
        let eq: usize = find_char(s, '=', from);
        if eq == total {
            return r;
        }
        assert(rem.skip(eq - from + 1) =~= s@.skip(eq + 1));
        if eq + 1 == total || s[eq + 1] != '"' {
            return r;
        }
        assert(rem.skip(eq - from + 1).skip(1) =~= s@.skip(eq + 2));
        let end: usize = find_char(s, '"', eq + 2);
        if end == total {
            return r;
        }
        let name: Vec<char> = slice_of(s, from, eq);
        assert(name@ =~= rem.take(eq - from));
        let key: String = whole_text(&trim(&drop_commas(&trim(&name))));
        let value: String = text_of(s, eq + 2, end);
        let ghost rest = s@.skip(eq + 2);
        assert(value@ =~= rest.take(end - eq - 2));
        assert(rest.skip(end - eq - 2 + 1) =~= s@.skip(end + 1));
        let next: usize = if end + 1 < total && s[end + 1] == ',' {
            assert(s@.skip(end + 1).skip(1) =~= s@.skip(end + 2));
            end + 2
        } else {
            end + 1
        };
        let ghost before = r@;
        proof {
            lemma_text_map_put(before, key, value);
        }
        enter(&mut r, key, value);
        from = next;
    }
    assert(s@.skip(from as int).len() == 0);
    r
}

/// Reads the labels in a text such as `a="1",b="2"`.
pub fn parse_labels(s: &str) -> (r: Vec<(String, String)>)
    ensures
        distinct_keys(r@),
        text_map(r@) == labels_from(Map::empty(), s@),
{
    labels_in(&chars_of(s))
}

// ─── Metrics ────────────────────────────────────────────────────

/// Whether a line's closing brace, if it has both, stands behind its opening one.
pub open spec fn braces_in_order(line: Seq<char>) -> bool {
    until(line, '{') < line.len() && until(line, '}') < line.len() ==> until(line, '{') < until(
        line,
        '}',
    )
}

/// The labels and the value of a metric line.
pub open spec fn metric_of(line: Seq<char>) -> Option<(Map<Seq<char>, Seq<char>>, Amount)> {
    let open = until(line, '{');
    let close = until(line, '}');
    if open >= line.len() || close >= line.len() {
        None
    } else {
        match amount_of(trimmed(line.skip(close + 1))) {
            Some(amount) => Some(
                (labels_from(Map::empty(), line.subrange(open + 1, close)), amount),
            ),
            None => None,
        }
    }
}

/// What a pod's line is of.
#[derive(Debug)]
pub struct PodKey {
    pub pod_id: String,
    pub pod_name: String,
    pub pod_namespace: String,
    pub node_name: String,
    pub state: String,
}

/// What a [`PodKey`] stands for.
pub struct KeyView {
    pub pod_id: Seq<char>,
    pub pod_name: Seq<char>,
    pub pod_namespace: Seq<char>,
    pub node_name: Seq<char>,
    pub state: Seq<char>,
}

impl View for PodKey {
    type V = KeyView;

    open spec fn view(&self) -> KeyView {
        KeyView {
            pod_id: self.pod_id@,
            pod_name: self.pod_name@,
            pod_namespace: self.pod_namespace@,
            node_name: self.node_name@,
            state: self.state@,
        }
    }
}

/// The pod and the value of a line that has all of a pod's labels.
pub open spec fn pod_metric(line: Seq<char>) -> Option<(KeyView, Amount)> {
    match metric_of(line) {
        Some((m, amount)) => if m.contains_key("pod_id"@) && m.contains_key("pod_name"@)
            && m.contains_key("pod_namespace"@) && m.contains_key("node_name"@) && m.contains_key(
            "state"@,
        ) {
            Some(
                (
                    KeyView {
                        pod_id: m["pod_id"@],
                        pod_name: m["pod_name"@],
                        pod_namespace: m["pod_namespace"@],
                        node_name: m["node_name"@],
                        state: m["state"@],
                    },
                    amount,
                ),
            )
        } else {
            None
        },
        None => None,
    }
}

/// The node and the value of a line that names its node.
pub open spec fn node_metric(line: Seq<char>) -> Option<(Seq<char>, Amount)> {
    match metric_of(line) {
        Some((m, amount)) => if m.contains_key("node_name"@) {
            Some((m["node_name"@], amount))
        } else {
            None
        },
        None => None,
    }
}

fn read_metric(line: &Vec<char>) -> (r: Option<(Vec<(String, String)>, Number)>)
    requires
        braces_in_order(line@),
    ensures
        metric_of(line@) == match r {
            Some((t, amount)) => Some((text_map(t@), amount@)),
            None => None,
        },
{
    let total: usize = line.len();
    let open: usize = find_char(line, '{', 0);
    let close: usize = find_char(line, '}', 0);
    assert(line@.skip(0) =~= line@);
    if open == total || close == total {
        return None;
    }
    let rest: Vec<char> = slice_of(line, close + 1, total);
    assert(rest@ =~= line@.skip(close + 1));
    let value: Vec<char> = trim(&rest);
    match read_amount(&value) {
        Some(amount) => Some((labels_in(&slice_of(line, open + 1, close)), amount)),
        None => None,
    }
}

fn label(t: &Vec<(String, String)>, name: &str) -> (r: Option<String>)
    ensures
        match r {
            Some(v) => text_map(t@).contains_key(name@) && v@ == text_map(t@)[name@],
            None => !text_map(t@).contains_key(name@),
        },
{
    match get(t, &name.to_owned()) {
        Some(v) => Some(v.clone()),
        None => None,
    }
}

fn read_pod_metric(line: &Vec<char>) -> (r: Option<(PodKey, Number)>)
    requires
        braces_in_order(line@),
    ensures
        pod_metric(line@) == match r {
            Some((k, amount)) => Some((k@, amount@)),
            None => None,
        },
{
    let (t, amount): (Vec<(String, String)>, Number) = match read_metric(line) {
        Some(m) => m,
        None => {
            return None;
        },
    };
    let found: (
        Option<String>,
        Option<String>,
        Option<String>,
        Option<String>,
        Option<String>,
    ) = (
        label(&t, "pod_id"),
        label(&t, "pod_name"),
        label(&t, "pod_namespace"),
        label(&t, "node_name"),
        label(&t, "state"),
    );
    match found {
        (Some(pod_id), Some(pod_name), Some(pod_namespace), Some(node_name), Some(state)) => Some(
            (PodKey { pod_id, pod_name, pod_namespace, node_name, state }, amount),
        ),
        _ => None,
    }
}

/// Reads the pod and the value of a pod's line.
pub fn parse_pod_metric(line: &str) -> (r: Option<(PodKey, Number)>)
    requires
        braces_in_order(line@),
    ensures
        pod_metric(line@) == match r {
            Some((k, amount)) => Some((k@, amount@)),
            None => None,
        },
{
    read_pod_metric(&chars_of(line))
}

fn read_node_metric(line: &Vec<char>) -> (r: Option<(String, Number)>)
    requires
        braces_in_order(line@),
    ensures
        node_metric(line@) == match r {
            Some((n, amount)) => Some((n@, amount@)),
            None => None,
        },
{
    let (t, amount): (Vec<(String, String)>, Number) = match read_metric(line) {
        Some(m) => m,
        None => {
            return None;
        },
    };
    match label(&t, "node_name") {
        Some(n) => Some((n, amount)),
        None => None,
    }
}

/// Reads the node and the value of a node's line.
pub fn parse_node_metric(line: &str) -> (r: Option<(String, Number)>)
    requires
        braces_in_order(line@),
    ensures
        node_metric(line@) == match r {
            Some((n, amount)) => Some((n@, amount@)),
            None => None,
        },
{
    read_node_metric(&chars_of(line))
}

// ─── Samples ────────────────────────────────────────────────────

/// What a line's value is.
#[derive(Clone, Copy, Debug, PartialEq, Eq, Structural)]
pub enum Kind {
    PodCpu,
    PodGpu,
    NodeCpu,
    NodeIdle,
    NodeGpu,
    Platform,
}

/// What a line begins with, for each kind.
pub open spec fn prefix_of(kind: Kind) -> Seq<char> {
    match kind {
        Kind::PodCpu => "kepler_pod_cpu_watts{"@,
        Kind::PodGpu => "kepler_pod_gpu_watts{"@,
        Kind::NodeCpu => "kepler_node_cpu_watts{"@,
        Kind::NodeIdle => "kepler_node_cpu_idle_watts{"@,
        Kind::NodeGpu => "kepler_node_gpu_watts{"@,
        Kind::Platform => "kepler_platform_watts{"@,
    }
}

/// The kind of a line.
pub open spec fn kind_of(line: Seq<char>) -> Option<Kind> {
    if begins_with(line, prefix_of(Kind::PodCpu)) {
        Some(Kind::PodCpu)
    } else if begins_with(line, prefix_of(Kind::PodGpu)) {
        Some(Kind::PodGpu)
    } else if begins_with(line, prefix_of(Kind::NodeCpu)) {
        Some(Kind::NodeCpu)
    } else if begins_with(line, prefix_of(Kind::NodeIdle)) {
        Some(Kind::NodeIdle)
    } else if begins_with(line, prefix_of(Kind::NodeGpu)) {
        Some(Kind::NodeGpu)
    } else if begins_with(line, prefix_of(Kind::Platform)) {
        Some(Kind::Platform)
    } else {
        None
    }
}

/// One line's value. A node's sample has only the node's name in its key.
#[derive(Debug)]
pub struct Sample {
    pub kind: Kind,
    pub key: PodKey,
    pub amount: Number,
}

/// What a [`Sample`] stands for.
pub struct SampleView {
    pub kind: Kind,
    pub key: KeyView,
    pub amount: Amount,
}

impl View for Sample {
    type V = SampleView;

    open spec fn view(&self) -> SampleView {
        SampleView { kind: self.kind, key: self.key@, amount: self.amount@ }
    }
}

/// The key of a node's samples.
pub open spec fn node_key(node_name: Seq<char>) -> KeyView {
    KeyView {
        pod_id: Seq::empty(),
        pod_name: Seq::empty(),
        pod_namespace: Seq::empty(),
        node_name,
        state: Seq::empty(),
    }
}

/// Whether a kind is of pods.
pub open spec fn is_pod_kind(kind: Kind) -> bool {
    kind == Kind::PodCpu || kind == Kind::PodGpu
}

/// The sample that a line makes. Pods count only while they run.
pub open spec fn sample_of(line: Seq<char>) -> Option<SampleView> {
    match kind_of(line) {
        Some(kind) => if is_pod_kind(kind) {
            match pod_metric(line) {
                Some((key, amount)) => if key.state == "running"@ {
                    Some(SampleView { kind, key, amount })
                } else {
                    None
                },
                None => None,
            }
        } else {
            match node_metric(line) {
                Some((node, amount)) => Some(
                    SampleView { kind, key: node_key(node), amount },
                ),
                None => None,
            }
        },
        None => None,
    }
}

/// The samples that the first `n` lines make.
pub open spec fn samples_of(lines: Seq<Seq<char>>, n: int) -> Seq<SampleView>
    decreases n,
{
    if n <= 0 {
        Seq::empty()
    } else {
        match sample_of(lines[n - 1]) {
            Some(s) => samples_of(lines, n - 1).push(s),
            None => samples_of(lines, n - 1),
        }
    }
}

/// The samples in Kepler's text.
pub open spec fn samples_in(body: Seq<char>) -> Seq<SampleView> {
    samples_of(lines_of(body), lines_of(body).len() as int)
}

/// The samples that a vector stands for.
pub open spec fn sample_views(v: Seq<Sample>) -> Seq<SampleView> {
    v.map_values(|s: Sample| s@)
}

/// A line that begins as one of the metrics has its braces in order.
proof fn lemma_braces(line: Seq<char>, kind: Kind)
    requires
        begins_with(line, prefix_of(kind)),
    ensures
        braces_in_order(line),
{
    reveal_strlit("kepler_pod_cpu_watts{");
    reveal_strlit("kepler_pod_gpu_watts{");
    reveal_strlit("kepler_node_cpu_watts{");
    reveal_strlit("kepler_node_cpu_idle_watts{");
    reveal_strlit("kepler_node_gpu_watts{");
    reveal_strlit("kepler_platform_watts{");
    let p = prefix_of(kind);
    lemma_until(line, '{');
    lemma_until(line, '}');
    let k = p.len() - 1;
    assert(p[k] == '{');
    assert(line.subrange(0, p.len() as int)[k] == line[k]);
    assert forall|i: int| 0 <= i < p.len() implies line[i] != '}' by {
        assert(line.subrange(0, p.len() as int)[i] == line[i]);
        assert(p[i] != '}');
    }
}

fn read_kind(line: &Vec<char>) -> (r: Option<Kind>)
    ensures
        r == kind_of(line@),
        r is Some ==> braces_in_order(line@),
{
    let kind: Option<Kind> = if stands_at(line, "kepler_pod_cpu_watts{", 0) {
        Some(Kind::PodCpu)
    } else if stands_at(line, "kepler_pod_gpu_watts{", 0) {
        Some(Kind::PodGpu)
    } else if stands_at(line, "kepler_node_cpu_watts{", 0) {
        Some(Kind::NodeCpu)
    } else if stands_at(line, "kepler_node_cpu_idle_watts{", 0) {
        Some(Kind::NodeIdle)
    } else if stands_at(line, "kepler_node_gpu_watts{", 0) {
        Some(Kind::NodeGpu)
    } else if stands_at(line, "kepler_platform_watts{", 0) {
        Some(Kind::Platform)
    } else {
        None
    };
    proof {
        if kind is Some {
            lemma_braces(line@, kind->0);
        }
    }
    kind
}

fn read_sample(line: &Vec<char>) -> (r: Option<Sample>)
    ensures
        sample_of(line@) == match r {
            Some(s) => Some(s@),
            None => None,
        },
{
    let kind: Kind = match read_kind(line) {
        Some(k) => k,
        None => {
            return None;
        },
    };
    match kind {
        Kind::PodCpu | Kind::PodGpu => match read_pod_metric(line) {
            Some((key, amount)) => if same(key.state.as_str(), "running") {
                Some(Sample { kind, key, amount })
            } else {
                None
            },
            None => None,
        },
        _ => match read_node_metric(line) {
            Some((node_name, amount)) => {
                let key: PodKey = PodKey {
                    pod_id: String::new(),
                    pod_name: String::new(),
                    pod_namespace: String::new(),
                    node_name,
                    state: String::new(),
                };
                Some(Sample { kind, key, amount })
            },
            None => None,
        },
    }
}

/// Reads all samples in Kepler's text.
pub fn read_samples(body: &str) -> (r: Vec<Sample>)
    ensures
        sample_views(r@) == samples_in(body@),
{
    let all: Vec<Vec<char>> = lines(&chars_of(body));
    let ghost seen = lines_of(body@);
    let mut r: Vec<Sample> = Vec::new();
    let mut i: usize = 0;
    assert(sample_views(r@) =~= Seq::empty());
    while i < all.len()
        invariant
            i <= all@.len(),
            views(all@) == seen,
            sample_views(r@) == samples_of(seen, i as int),
        decreases all@.len() - i,
    {
        assert(seen[i as int] == all@[i as int]@);
        let ghost before = sample_views(r@);
        match read_sample(&all[i]) {
            Some(s) => {
                r.push(s);
                assert(sample_views(r@) =~= before.push(s@));
            },
            None => {},
        }
        i = i + 1;
    }
    r
}

// ─── Sums ───────────────────────────────────────────────────────

/// The sum of one kind of power under one key.
pub open spec fn power_sum(samples: Seq<SampleView>, kind: Kind, key: KeyView) -> PowerSum
    decreases samples.len(),
{
    if samples.len() == 0 {
        no_power()
    } else {
        let before = power_sum(samples.drop_last(), kind, key);
        if samples.last().kind == kind && samples.last().key == key {
            with_amount(before, samples.last().amount)
        } else {
            before
        }
    }
}

/// Whether there is a sample of a kind under a key.
pub open spec fn sampled(samples: Seq<SampleView>, kind: Kind, key: KeyView) -> bool {
    exists|i: int|
        0 <= i < samples.len() && (#[trigger] samples[i]).kind == kind && samples[i].key == key
}

/// The power of one kind under one key.
pub open spec fn power_at(samples: Seq<SampleView>, kind: Kind, key: KeyView) -> u64 {
    power_sum(samples, kind, key).power()
}

/// Whether each pod's and each node's power can be held.
pub open spec fn sums_fit(samples: Seq<SampleView>) -> bool {
    forall|i: int|
        0 <= i < samples.len() ==> {
            let key = (#[trigger] samples[i]).key;
            let node = node_key(key.node_name);
            power_at(samples, Kind::PodCpu, key) + power_at(samples, Kind::PodGpu, key) <= u64::MAX
                && power_at(samples, Kind::NodeCpu, node) + power_at(samples, Kind::NodeGpu, node)
                <= u64::MAX
        }
}

fn same_pod(a: &PodKey, b: &PodKey) -> (r: bool)
    ensures
        r == (a@ == b@),
{
    same(a.pod_id.as_str(), b.pod_id.as_str()) && same(a.pod_name.as_str(), b.pod_name.as_str())
        && same(a.pod_namespace.as_str(), b.pod_namespace.as_str()) && same(
        a.node_name.as_str(),
        b.node_name.as_str(),
    ) && same(a.state.as_str(), b.state.as_str())
}

fn sum_power(samples: &Vec<Sample>, kind: Kind, key: &PodKey) -> (r: (u64, bool))
    ensures
        r.0 == power_at(sample_views(samples@), kind, key@),
        r.1 == sampled(sample_views(samples@), kind, key@),
{
    let ghost all = sample_views(samples@);
    let mut sum: Watts = Watts::zero();
    let mut any: bool = false;
    let mut i: usize = 0;
    while i < samples.len()
        invariant
            i <= samples@.len(),
            all == sample_views(samples@),
            sum@ == power_sum(all.take(i as int), kind, key@),
            any ==> sampled(all, kind, key@),
            !any ==> forall|j: int|
                0 <= j < i ==> !((#[trigger] all[j]).kind == kind && all[j].key == key@),
        decreases samples@.len() - i,
    {
        assert(all.take(i + 1).drop_last() =~= all.take(i as int));
        assert(all[i as int] == samples@[i as int]@);
        if samples[i].kind == kind && same_pod(&samples[i].key, key) {
            sum.add(&samples[i].amount);
            any = true;
        }
        i = i + 1;
    }
    assert(all.take(i as int) =~= all);
    (sum.power(), any)
}

fn make_node_key(node_name: &str) -> (r: PodKey)
    ensures
        r@ == node_key(node_name@),
{
    let r: PodKey = PodKey {
        pod_id: String::new(),
        pod_name: String::new(),
        pod_namespace: String::new(),
        node_name: node_name.to_owned(),
        state: String::new(),
    };
    r
}

/// Whether the power of each pod and node can be held.
pub fn samples_in_range(samples: &Vec<Sample>) -> (r: bool)
    ensures
        r == sums_fit(sample_views(samples@)),
{
    let ghost all = sample_views(samples@);
    let mut i: usize = 0;
    while i < samples.len()
        invariant
            i <= samples@.len(),
            all == sample_views(samples@),
            forall|j: int|
                0 <= j < i ==> {
                    let key = (#[trigger] all[j]).key;
                    let node = node_key(key.node_name);
                    power_at(all, Kind::PodCpu, key) + power_at(all, Kind::PodGpu, key) <= u64::MAX
                        && power_at(all, Kind::NodeCpu, node) + power_at(all, Kind::NodeGpu, node)
                        <= u64::MAX
                },
        decreases samples@.len() - i,
    {
        let key: &PodKey = &samples[i].key;
        assert(all[i as int].key == key@);
        let node: PodKey = make_node_key(key.node_name.as_str());
        let pod_cpu: u64 = sum_power(samples, Kind::PodCpu, key).0;
        let pod_gpu: u64 = sum_power(samples, Kind::PodGpu, key).0;
        let node_cpu: u64 = sum_power(samples, Kind::NodeCpu, &node).0;
        let node_gpu: u64 = sum_power(samples, Kind::NodeGpu, &node).0;
        if pod_cpu.checked_add(pod_gpu).is_none() || node_cpu.checked_add(node_gpu).is_none() {
            return false;
        }
        i = i + 1;
    }
    true
}

// ─── Reports ────────────────────────────────────────────────────

/// The report of one pod.
pub open spec fn pod_report(samples: Seq<SampleView>, key: KeyView, now_ns: u64) -> PodReport {
    let cpu = power_at(samples, Kind::PodCpu, key) as int;
    let gpu = power_at(samples, Kind::PodGpu, key) as int;
    PodReport {
        node_name: key.node_name,
        pod_uid: key.pod_id,
        pod_name: key.pod_name,
        namespace: key.pod_namespace,
        cpu_uw: cpu,
        memory_uw: 0,
        gpu_uw: gpu,
        storage_uw: 0,
        io_uw: 0,
        total_uw: cpu + gpu,
        timestamp_ns: now_ns as int,
    }
}

/// The pods of the first `n` samples that are on a node, once each, in order of appearance.
pub open spec fn node_pods(samples: Seq<SampleView>, node_name: Seq<char>, n: int) -> Seq<KeyView>
    decreases n,
{
    if n <= 0 {
        Seq::empty()
    } else {
        let before = node_pods(samples, node_name, n - 1);
        let s = samples[n - 1];
        if is_pod_kind(s.kind) && s.key.node_name == node_name && !before.contains(s.key) {
            before.push(s.key)
        } else {
            before
        }
    }
}

/// The nodes that the first `n` samples have pods on, once each, in order of appearance.
pub open spec fn pod_nodes(samples: Seq<SampleView>, n: int) -> Seq<Seq<char>>
    decreases n,
{
    if n <= 0 {
        Seq::empty()
    } else {
        let before = pod_nodes(samples, n - 1);
        let s = samples[n - 1];
        if is_pod_kind(s.kind) && !before.contains(s.key.node_name) {
            before.push(s.key.node_name)
        } else {
            before
        }
    }
}

/// The platform's power of a node, if any sample tells it.
pub open spec fn platform_of(samples: Seq<SampleView>, node: KeyView) -> Option<u64> {
    if sampled(samples, Kind::Platform, node) {
        Some(power_at(samples, Kind::Platform, node))
    } else {
        None
    }
}

/// The report of a node and its pods.
pub open spec fn is_kepler_report(
    r: AgentReport,
    samples: Seq<SampleView>,
    node_name: Seq<char>,
    now_ns: u64,
) -> bool {
    let node = node_key(node_name);
    let cpu = power_at(samples, Kind::NodeCpu, node);
    let gpu = power_at(samples, Kind::NodeGpu, node);
    let platform = platform_of(samples, node);
    let pods = node_pods(samples, node_name, samples.len() as int);
    &&& r.node.node_name@ == node_name
    &&& r.node.cpu_uw == cpu
    &&& r.node.memory_uw == 0
    &&& r.node.gpu_uw == gpu
    &&& r.node.platform_uw == platform
    &&& r.node.psu_output_uw is None
    &&& r.node.idle_uw == power_at(samples, Kind::NodeIdle, node)
    &&& r.node.error_ratio_atto == crate::agent::selection::error_ratio(platform, cpu + gpu)
    &&& r.node.pod_count == pods.len() % 0x1_0000_0000
    &&& r.node.process_count == 0
    &&& r.node.timestamp_ns == now_ns
    &&& r.node.cpu_source@ == (if platform is Some {
        "kepler (RAPL + Redfish)"@
    } else {
        "kepler (RAPL)"@
    })
    &&& r.node.memory_source@ == "kepler"@
    &&& r.node.cpu_reading_type@ == "estimated"@
    &&& r.node.sources@.len() == 0
    &&& r.pods@.len() == pods.len()
    &&& forall|i: int|
        0 <= i < pods.len() ==> (#[trigger] r.pods@[i])@ == pod_report(samples, pods[i], now_ns)
}

/// The reports of all nodes with pods.
pub open spec fn are_kepler_reports(
    v: Seq<AgentReport>,
    samples: Seq<SampleView>,
    now_ns: u64,
) -> bool {
    let nodes = pod_nodes(samples, samples.len() as int);
    v.len() == nodes.len() && forall|i: int|
        0 <= i < nodes.len() ==> is_kepler_report(#[trigger] v[i], samples, nodes[i], now_ns)
}

proof fn lemma_node_pods(samples: Seq<SampleView>, node_name: Seq<char>, n: int)
    requires
        0 <= n <= samples.len(),
    ensures
        node_pods(samples, node_name, n).len() <= n,
        forall|k: int|
            0 <= k < node_pods(samples, node_name, n).len() ==> exists|j: int|
                0 <= j < n && (#[trigger] samples[j]).key == (#[trigger] node_pods(
                    samples,
                    node_name,
                    n,
                )[k]),
    decreases n,
{
    if n > 0 {
        lemma_node_pods(samples, node_name, n - 1);
        let before = node_pods(samples, node_name, n - 1);
        let after = node_pods(samples, node_name, n);
        assert forall|k: int| 0 <= k < after.len() implies exists|j: int|
            0 <= j < n && (#[trigger] samples[j]).key == (#[trigger] after[k]) by {
            if k < before.len() {
                let j = choose|j: int| 0 <= j < n - 1 && (#[trigger] samples[j]).key == before[k];
                assert(samples[j].key == after[k]);
            } else {
                assert(samples[n - 1].key == after[k]);
            }
        }
    }
}

fn knows_pod(v: &Vec<PodPowerReport>, key: &PodKey) -> (r: bool)
    ensures
        r == exists|i: int|
            0 <= i < v@.len() && (#[trigger] v@[i])@.pod_uid == key@.pod_id && v@[i]@.pod_name
                == key@.pod_name && v@[i]@.namespace == key@.pod_namespace && v@[i]@.node_name
                == key@.node_name,
{
    let mut i: usize = 0;
    while i < v.len()
        invariant
            i <= v@.len(),
            forall|j: int|
                0 <= j < i ==> !((#[trigger] v@[j])@.pod_uid == key@.pod_id && v@[j]@.pod_name
                    == key@.pod_name && v@[j]@.namespace == key@.pod_namespace && v@[j]@.node_name
                    == key@.node_name),
        decreases v@.len() - i,
    {
        if same(v[i].pod_uid.as_str(), key.pod_id.as_str()) && same(
            v[i].pod_name.as_str(),
            key.pod_name.as_str(),
        ) && same(v[i].namespace.as_str(), key.pod_namespace.as_str()) && same(
            v[i].node_name.as_str(),
            key.node_name.as_str(),
        ) {
            assert(v@[i as int]@.pod_uid == key@.pod_id);
            return true;
        }
        i = i + 1;
    }
    false
}

/// Whether every pod's sample is of a running pod.
pub open spec fn all_running(samples: Seq<SampleView>) -> bool {
    forall|i: int|
        0 <= i < samples.len() && is_pod_kind((#[trigger] samples[i]).kind)
            ==> samples[i].key.state == "running"@
}

/// The pods on a node.
fn report_node_pods(samples: &Vec<Sample>, node_name: &str, now_ns: u64) -> (r: Vec<PodPowerReport>)
    requires
        sums_fit(sample_views(samples@)),
        all_running(sample_views(samples@)),
    ensures
        ({
            let all = sample_views(samples@);
            let pods = node_pods(all, node_name@, all.len() as int);
            r@.len() == pods.len() && forall|i: int|
                0 <= i < pods.len() ==> (#[trigger] r@[i])@ == pod_report(all, pods[i], now_ns)
        }),
{
    let ghost all = sample_views(samples@);
    let mut r: Vec<PodPowerReport> = Vec::new();
    let mut i: usize = 0;
    while i < samples.len()
        invariant
            i <= samples@.len(),
            all == sample_views(samples@),
            sums_fit(all),
            all_running(all),
            r@.len() == node_pods(all, node_name@, i as int).len(),
            forall|k: int|
                0 <= k < r@.len() ==> (#[trigger] r@[k])@ == pod_report(
                    all,
                    node_pods(all, node_name@, i as int)[k],
                    now_ns,
                ),
            forall|k: int|
                0 <= k < r@.len() ==> (#[trigger] node_pods(all, node_name@, i as int)[k]).state
                    == "running"@,
        decreases samples@.len() - i,
    {
        let ghost before = node_pods(all, node_name@, i as int);
        let key: &PodKey = &samples[i].key;
        assert(all[i as int] == samples@[i as int]@);
        let of_pod: bool = match samples[i].kind {
            Kind::PodCpu | Kind::PodGpu => true,
            _ => false,
        };
        if of_pod && same(key.node_name.as_str(), node_name) {
            let known: bool = knows_pod(&r, key);
            proof {
                assert(key@.state == "running"@);
                assert(known == before.contains(key@)) by {
                    if known {
                        let k = choose|k: int|
                            0 <= k < r@.len() && (#[trigger] r@[k])@.pod_uid == key@.pod_id
                                && r@[k]@.pod_name == key@.pod_name && r@[k]@.namespace
                                == key@.pod_namespace && r@[k]@.node_name == key@.node_name;
                        assert(before[k].state == "running"@);
                        assert(before[k] == key@);
                    }
                    if before.contains(key@) {
                        let k = before.index_of(key@);
                        assert(r@[k]@ == pod_report(all, before[k], now_ns));
                        assert(r@[k]@.pod_uid == key@.pod_id);
                    }
                }
            }
            if !known {
                assert(all[i as int].key == key@);
                let cpu_uw: u64 = sum_power(samples, Kind::PodCpu, key).0;
                let gpu_uw: u64 = sum_power(samples, Kind::PodGpu, key).0;
                let report: PodPowerReport = PodPowerReport {
                    node_name: key.node_name.clone(),
                    pod_uid: key.pod_id.clone(),
                    pod_name: key.pod_name.clone(),
                    namespace: key.pod_namespace.clone(),
                    cpu_uw,
                    memory_uw: 0,
                    gpu_uw,
                    storage_uw: 0,
                    io_uw: 0,
                    total_uw: cpu_uw + gpu_uw,
                    timestamp_ns: now_ns,
                };
                assert(report@ == pod_report(all, key@, now_ns));
                r.push(report);
            }
        }
        i = i + 1;
    }
    r
}

/// The report of one node and its pods.
fn report_kepler_node(samples: &Vec<Sample>, node_name: &str, now_ns: u64) -> (r: AgentReport)
    requires
        sums_fit(sample_views(samples@)),
        all_running(sample_views(samples@)),
        exists|i: int| 0 <= i < samples@.len() && (#[trigger] samples@[i]).key.node_name@ == node_name@,
    ensures
        is_kepler_report(r, sample_views(samples@), node_name@, now_ns),
{
    let ghost all = sample_views(samples@);
    let node: PodKey = make_node_key(node_name);
    let cpu_uw: u64 = sum_power(samples, Kind::NodeCpu, &node).0;
    let gpu_uw: u64 = sum_power(samples, Kind::NodeGpu, &node).0;
    let idle_uw: u64 = sum_power(samples, Kind::NodeIdle, &node).0;
    let (platform_power, has_platform): (u64, bool) = sum_power(samples, Kind::Platform, &node);
    proof {
        let i = choose|i: int|
            0 <= i < samples@.len() && (#[trigger] samples@[i]).key.node_name@ == node_name@;
        assert(all[i].key.node_name == node_name@);
    }
    let attributed: u64 = cpu_uw + gpu_uw;
    let platform_uw: Option<u64> = if has_platform {
        Some(platform_power)
    } else {
        None
    };
    let error_ratio_atto: u128 = match platform_uw {
        Some(p) => if p > 0 {
            let off: u64 = if p > attributed {
                p - attributed
            } else {
                attributed - p
            };
            divide_up(off, p)
        } else {
            0
        },
        None => 0,
    };
    let pods: Vec<PodPowerReport> = report_node_pods(samples, node_name, now_ns);
    AgentReport {
        node: NodePowerReport {
            node_name: node_name.to_owned(),
            cpu_uw,
            memory_uw: 0,
            gpu_uw,
            platform_uw,
            psu_output_uw: None,
            idle_uw,
            error_ratio_atto,
            pod_count: (pods.len() as u64 % 0x1_0000_0000) as u32,
            process_count: 0,
            timestamp_ns: now_ns,
            cpu_source: if has_platform {
                "kepler (RAPL + Redfish)".to_owned()
            } else {
                "kepler (RAPL)".to_owned()
            },
            memory_source: "kepler".to_owned(),
            cpu_reading_type: "estimated".to_owned(),
            sources: Vec::new(),
        },
        pods,
    }
}

proof fn lemma_running(lines: Seq<Seq<char>>, n: int)
    ensures
        all_running(samples_of(lines, n)),
    decreases n,
{
    if n > 0 {
        lemma_running(lines, n - 1);
        let before = samples_of(lines, n - 1);
        let after = samples_of(lines, n);
        assert forall|i: int|
            0 <= i < after.len() && is_pod_kind((#[trigger] after[i]).kind) implies after[i].key.state
            == "running"@ by {
            if i < before.len() {
                assert(after[i] == before[i]);
            }
        }
    }
}

/// Makes one report for each node out of the samples in Kepler's text.
pub fn scrape(body: &str, samples: &Vec<Sample>, now_ns: u64) -> (r: Vec<AgentReport>)
    requires
        sample_views(samples@) == samples_in(body@),
        sums_fit(samples_in(body@)),
    ensures
        are_kepler_reports(r@, samples_in(body@), now_ns),
{
    let ghost all = sample_views(samples@);
    proof {
        lemma_running(lines_of(body@), lines_of(body@).len() as int);
    }
    let mut names: Vec<String> = Vec::new();
    let mut r: Vec<AgentReport> = Vec::new();
    let mut i: usize = 0;
    while i < samples.len()
        invariant
            i <= samples@.len(),
            all == sample_views(samples@),
            sums_fit(all),
            all_running(all),
            names@.len() == pod_nodes(all, i as int).len(),
            r@.len() == names@.len(),
            forall|k: int| 0 <= k < names@.len() ==> (#[trigger] names@[k])@ == pod_nodes(all, i as int)[k],
            forall|k: int|
                0 <= k < r@.len() ==> is_kepler_report(
                    #[trigger] r@[k],
                    all,
                    pod_nodes(all, i as int)[k],
                    now_ns,
                ),
        decreases samples@.len() - i,
    {
        let ghost before = pod_nodes(all, i as int);
        assert(all[i as int] == samples@[i as int]@);
        let node_name: &str = samples[i].key.node_name.as_str();
        let of_pod: bool = match samples[i].kind {
            Kind::PodCpu | Kind::PodGpu => true,
            _ => false,
        };
        if of_pod {
            let known: bool = contains(&names, node_name);
            proof {
                assert(known == before.contains(node_name@)) by {
                    if known {
                        let k = choose|k: int|
                            0 <= k < names@.len() && (#[trigger] names@[k])@ == node_name@;
                        assert(before[k] == node_name@);
                    }
                    if before.contains(node_name@) {
                        let k = before.index_of(node_name@);
                        assert(names@[k]@ == node_name@);
                    }
                }
            }
            if !known {
                assert(samples@[i as int].key.node_name@ == node_name@);
                r.push(report_kepler_node(samples, node_name, now_ns));
                names.push(node_name.to_owned());
            }
        }
        i = i + 1;
    }
    r
}

/// How many pods reports are of.
pub open spec fn pod_total(reports: Seq<AgentReport>) -> int
    decreases reports.len(),
{
    if reports.len() == 0 {
        0
    } else {
        pod_total(reports.drop_last()) + reports.last().pods@.len()
    }
}

/// Takes in what a body of metrics tells, one report for each node with running pods, and counts
/// the pods. Where power cannot be held, nothing is taken in.
pub fn scrape_and_ingest(agg: &mut ClusterAggregator, body: &str, now: u64, wall: u64) -> (r: Option<
    u128,
>)
    requires
        old(agg).well_formed(),
    ensures
        final(agg).well_formed(),
        match r {
            Some(n) => sums_fit(samples_in(body@)) && exists|reports: Seq<AgentReport>|
                are_kepler_reports(reports, samples_in(body@), wall) && #[trigger] old(
                    agg,
                ).becomes_by_all(*final(agg), reports, now, wall) && n == pod_total(reports),
            None => !sums_fit(samples_in(body@)) && *final(agg) == *old(agg),
        },
{
    let samples: Vec<Sample> = read_samples(body);
    if !samples_in_range(&samples) {
        return None;
    }
    let reports: Vec<AgentReport> = scrape(body, &samples, wall);
    let ghost all = reports@;
    let ghost before = *agg;
    let mut count: u128 = 0;
    let total: usize = reports.len();
    let mut i: usize = 0;
    for report in it: reports.into_iter()
        invariant
            it.seq() == all,
            i == it.index(),
            total == all.len(),
            agg.well_formed(),
            before.becomes_by_all(*agg, all.take(it.index() as int), now, wall),
            count == pod_total(all.take(it.index() as int)),
            count <= i * 0xffff_ffff_ffff_ffff,
    {
        assert(all.take(i + 1).drop_last() =~= all.take(i as int));
        let ghost mid = *agg;
        let pods: usize = report.pods.len();
        assert(i * 0xffff_ffff_ffff_ffff + 0xffff_ffff_ffff_ffff <= u128::MAX);
        count = count + pods as u128;
        agg.ingest(report, now, wall);
        proof {
            let done = all.take(i + 1);
            assert(before.becomes_by_all(mid, done.drop_last(), now, wall));
            assert(mid.becomes(*agg, done.last(), now, wall));
            assert(before.becomes_by_all(*agg, done, now, wall));
        }
        i = i + 1;
    }
    assert(all.take(all.len() as int) =~= all);
    Some(count)
}

// ─── What the lines tell ────────────────────────────────────────

/// A label that is written as its name, an equals sign and its value in quotes is read as it is;
/// reading goes on behind it, and behind the comma if one follows.
pub proof fn law_label_is_read(
    m: Map<Seq<char>, Seq<char>>,
    key: Seq<char>,
    value: Seq<char>,
    rest: Seq<char>,
)
    requires
        !key.contains('='),
        key.len() == 0 || key[0] != ',',
        trimmed(key) == key,
        !value.contains('"'),
    ensures
        labels_from(m, key.push('=').push('"') + value.push('"') + rest) == labels_from(
            m.insert(key, value),
            if rest.len() > 0 && rest[0] == ',' {
                rest.skip(1)
            } else {
                rest
            },
        ),
        labels_from(m, Seq::empty()) == m,
{
    let s = key.push('=').push('"') + value.push('"') + rest;
    let k = key.len() as int;
    assert forall|i: int| 0 <= i < k implies s[i] != '=' by {
        assert(key.contains(key[i]));
        assert(s[i] == key[i]);
    }
    assert(s[k] == '=');
    lemma_until_is(s, '=', k);
    assert(s.take(k) =~= key);
    let quoted = s.skip(k + 1);
    let inner = quoted.skip(1);
    assert(quoted[0] == '"');
    assert(inner =~= value.push('"') + rest);
    assert forall|i: int| 0 <= i < value.len() implies inner[i] != '"' by {
        assert(value.contains(value[i]));
        assert(inner[i] == value[i]);
    }
    lemma_until_is(inner, '"', value.len() as int);
    assert(inner.take(value.len() as int) =~= value);
    assert(inner.skip(value.len() as int + 1) =~= rest);
    assert(skip_commas(key) == key);
}

/// A metric line tells the labels that stand in its braces and what the text behind them is worth.
pub proof fn law_metric_line(name: Seq<char>, labels: Seq<char>, tail: Seq<char>)
    requires
        !name.contains('{'),
        !name.contains('}'),
        !labels.contains('}'),
    ensures
        metric_of(name.push('{') + labels.push('}') + tail) == match amount_of(trimmed(tail)) {
            Some(amount) => Some((labels_from(Map::empty(), labels), amount)),
            None => None,
        },
{
    let line = name.push('{') + labels.push('}') + tail;
    let n = name.len() as int;
    let c = n + 1 + labels.len();
    assert forall|i: int| 0 <= i < n implies line[i] != '{' && line[i] != '}' by {
        assert(name.contains(name[i]));
        assert(line[i] == name[i]);
    }
    lemma_until_is(line, '{', n);
    assert forall|i: int| 0 <= i < c implies line[i] != '}' by {
        if i > n {
            assert(labels.contains(labels[i - n - 1]));
            assert(line[i] == labels[i - n - 1]);
        }
    }
    lemma_until_is(line, '}', c);
    assert(line.subrange(n + 1, c) =~= labels);
    assert(line.skip(c + 1) =~= tail);
}

proof fn lemma_apart(line: Seq<char>, p: Seq<char>, q: Seq<char>, i: int)
    requires
        0 <= i < p.len(),
        i < q.len(),
        p[i] != q[i],
    ensures
        !(begins_with(line, p) && begins_with(line, q)),
{
    if begins_with(line, p) && begins_with(line, q) {
        assert(line.subrange(0, p.len() as int)[i] == line[i]);
        assert(line.subrange(0, q.len() as int)[i] == line[i]);
    }
}

/// A line is of the kind whose metric it begins with.
pub proof fn law_kind_of_line(line: Seq<char>)
    ensures
        kind_of(line) == Some(Kind::PodCpu) <==> begins_with(line, "kepler_pod_cpu_watts{"@),
        kind_of(line) == Some(Kind::PodGpu) <==> begins_with(line, "kepler_pod_gpu_watts{"@),
        kind_of(line) == Some(Kind::NodeCpu) <==> begins_with(line, "kepler_node_cpu_watts{"@),
        kind_of(line) == Some(Kind::NodeIdle) <==> begins_with(
            line,
            "kepler_node_cpu_idle_watts{"@,
        ),
        kind_of(line) == Some(Kind::NodeGpu) <==> begins_with(line, "kepler_node_gpu_watts{"@),
        kind_of(line) == Some(Kind::Platform) <==> begins_with(line, "kepler_platform_watts{"@),
{
    reveal_strlit("kepler_pod_cpu_watts{");
    reveal_strlit("kepler_pod_gpu_watts{");
    reveal_strlit("kepler_node_cpu_watts{");
    reveal_strlit("kepler_node_cpu_idle_watts{");
    reveal_strlit("kepler_node_gpu_watts{");
    reveal_strlit("kepler_platform_watts{");
    let pod_cpu = "kepler_pod_cpu_watts{"@;
    let pod_gpu = "kepler_pod_gpu_watts{"@;
    let cpu = "kepler_node_cpu_watts{"@;
    let idle = "kepler_node_cpu_idle_watts{"@;
    let gpu = "kepler_node_gpu_watts{"@;
    let platform = "kepler_platform_watts{"@;
    lemma_apart(line, pod_cpu, pod_gpu, 11);
    lemma_apart(line, pod_cpu, cpu, 7);
    lemma_apart(line, pod_cpu, idle, 7);
    lemma_apart(line, pod_cpu, gpu, 7);
    lemma_apart(line, pod_cpu, platform, 8);
    lemma_apart(line, pod_gpu, cpu, 7);
    lemma_apart(line, pod_gpu, idle, 7);
    lemma_apart(line, pod_gpu, gpu, 7);
    lemma_apart(line, pod_gpu, platform, 8);
    lemma_apart(line, cpu, idle, 16);
    lemma_apart(line, cpu, gpu, 12);
    lemma_apart(line, cpu, platform, 7);
    lemma_apart(line, idle, gpu, 12);
    lemma_apart(line, idle, platform, 7);
    lemma_apart(line, gpu, platform, 7);
}

/// A line's sample tells what the line's labels and its value tell. A pod's line gives one only
/// with all five labels and in the state of running; a node's with the node's name.
pub proof fn law_sample_of_line(
    line: Seq<char>,
    labels: Map<Seq<char>, Seq<char>>,
    amount: Amount,
    kind: Kind,
)
    requires
        metric_of(line) == Some((labels, amount)),
        kind_of(line) == Some(kind),
    ensures
        kind == Kind::PodCpu || kind == Kind::PodGpu ==> (match sample_of(line) {
            Some(s) => {
                &&& s.kind == kind
                &&& s.amount == amount
                &&& labels.contains_pair("pod_id"@, s.key.pod_id)
                &&& labels.contains_pair("pod_name"@, s.key.pod_name)
                &&& labels.contains_pair("pod_namespace"@, s.key.pod_namespace)
                &&& labels.contains_pair("node_name"@, s.key.node_name)
                &&& labels.contains_pair("state"@, s.key.state)
                &&& s.key.state == "running"@
            },
            None => !labels.contains_key("pod_id"@) || !labels.contains_key("pod_name"@)
                || !labels.contains_key("pod_namespace"@) || !labels.contains_key("node_name"@)
                || !labels.contains_pair("state"@, "running"@),
        }),
        kind != Kind::PodCpu && kind != Kind::PodGpu ==> (match sample_of(line) {
            Some(s) => {
                &&& s.kind == kind
                &&& s.amount == amount
                &&& labels.contains_pair("node_name"@, s.key.node_name)
                &&& s.key.pod_id.len() == 0 && s.key.pod_name.len() == 0
                &&& s.key.pod_namespace.len() == 0 && s.key.state.len() == 0
            },
            None => !labels.contains_key("node_name"@),
        }),
{
}

/// What a line counts for, by its sample.
pub open spec fn counted_line(count: spec_fn(SampleView) -> int) -> spec_fn(Seq<char>) -> int {
    |line: Seq<char>|
        match sample_of(line) {
            Some(s) => count(s),
            None => 0,
        }
}

/// The samples are those of the lines, one for each line that gives one.
pub proof fn law_samples_of_lines(
    lines: Seq<Seq<char>>,
    n: int,
    count: spec_fn(SampleView) -> int,
)
    requires
        0 <= n <= lines.len(),
    ensures
        sum_of(samples_of(lines, n), count) == sum_of(lines.take(n), counted_line(count)),
    decreases n,
{
    if n > 0 {
        law_samples_of_lines(lines, n - 1, count);
        assert(lines.take(n).drop_last() =~= lines.take(n - 1));
        assert(lines.take(n).last() == lines[n - 1]);
        if let Some(s) = sample_of(lines[n - 1]) {
            lemma_sum_push(samples_of(lines, n - 1), s, count);
        }
    } else {
        assert(lines.take(0) =~= Seq::empty());
    }
}

/// What a sample tells of one kind of power under one key, in units.
pub open spec fn told_of(kind: Kind, key: KeyView) -> spec_fn(SampleView) -> int {
    |s: SampleView|
        if s.kind == kind && s.key == key {
            match s.amount {
                Amount::Units(u) => u,
                Amount::NotANumber => 0,
            }
        } else {
            0
        }
}

/// Whether a sample of a kind under a key is no number.
pub open spec fn tells_no_number(samples: Seq<SampleView>, kind: Kind, key: KeyView) -> bool {
    exists|i: int|
        0 <= i < samples.len() && (#[trigger] samples[i]).kind == kind && samples[i].key == key
            && samples[i].amount is NotANumber
}

proof fn lemma_told(samples: Seq<SampleView>, kind: Kind, key: KeyView)
    ensures
        power_sum(samples, kind, key).plus - power_sum(samples, kind, key).minus == sum_of(
            samples,
            told_of(kind, key),
        ),
        power_sum(samples, kind, key).nan <==> tells_no_number(samples, kind, key),
    decreases samples.len(),
{
    if samples.len() > 0 {
        let rest = samples.drop_last();
        let last = samples[samples.len() - 1];
        lemma_told(rest, kind, key);
        if tells_no_number(rest, kind, key) {
            let i = choose|i: int|
                0 <= i < rest.len() && (#[trigger] rest[i]).kind == kind && rest[i].key == key
                    && rest[i].amount is NotANumber;
            assert(samples[i].kind == kind);
        }
        if tells_no_number(samples, kind, key) {
            let i = choose|i: int|
                0 <= i < samples.len() && (#[trigger] samples[i]).kind == kind && samples[i].key
                    == key && samples[i].amount is NotANumber;
            if i < rest.len() {
                assert(rest[i].kind == kind);
            }
        }
        if last.kind == kind && last.key == key && last.amount is NotANumber {
            assert(samples[samples.len() - 1].kind == kind);
        }
    }
}

/// The power of one kind under one key is the most whole microwatts that what its samples tell
/// together suffices for: nothing where that is not more than nothing or one of them is no number.
pub proof fn law_power_told(samples: Seq<SampleView>, kind: Kind, key: KeyView)
    ensures
        ({
            let p = power_at(samples, kind, key);
            let told = sum_of(samples, told_of(kind, key));
            let nan = tells_no_number(samples, kind, key);
            &&& nan || told <= 0 ==> p == 0
            &&& !nan && told > 0 ==> p * millionth() <= told
            &&& !nan && told > 0 && p < u64::MAX ==> told < (p + 1) * millionth()
        }),
{
    lemma_told(samples, kind, key);
    law_power_of_sum(power_sum(samples, kind, key));
}

// ─── What the reports tell ──────────────────────────────────────

proof fn lemma_node_pods_listed(samples: Seq<SampleView>, node_name: Seq<char>, n: int)
    requires
        0 <= n <= samples.len(),
    ensures
        ({
            let pods = node_pods(samples, node_name, n);
            &&& forall|a: int, b: int|
                0 <= a < b < pods.len() ==> #[trigger] pods[a] != #[trigger] pods[b]
            &&& forall|j: int|
                0 <= j < n && is_pod_kind((#[trigger] samples[j]).kind) && samples[j].key.node_name
                    == node_name ==> pods.contains(samples[j].key)
            &&& forall|a: int|
                0 <= a < pods.len() ==> (#[trigger] pods[a]).node_name == node_name
        }),
    decreases n,
{
    if n > 0 {
        lemma_node_pods_listed(samples, node_name, n - 1);
        let before = node_pods(samples, node_name, n - 1);
        let after = node_pods(samples, node_name, n);
        let s = samples[n - 1];
        assert forall|a: int, b: int| 0 <= a < b < after.len() implies #[trigger] after[a]
            != #[trigger] after[b] by {
            if b < before.len() {
                assert(before[a] != before[b]);
            } else {
                assert(before.contains(before[a]));
            }
        }
        assert forall|j: int|
            0 <= j < n && is_pod_kind((#[trigger] samples[j]).kind) && samples[j].key.node_name
                == node_name implies after.contains(samples[j].key) by {
            if before.contains(samples[j].key) {
                let k = before.index_of(samples[j].key);
                assert(after[k] == samples[j].key);
            } else {
                assert(after[before.len() as int] == s.key);
            }
        }
    }
}

/// A node's report tells the power of each kind that the node's own samples tell, and the
/// platform's only if a sample tells it. Each running pod on the node is listed once, with the
/// power that its samples tell, and its total is that of its processor and its accelerators.
pub proof fn law_kepler_report(
    r: AgentReport,
    samples: Seq<SampleView>,
    node_name: Seq<char>,
    now_ns: u64,
    j: int,
)
    requires
        is_kepler_report(r, samples, node_name, now_ns),
    ensures
        ({
            let node = KeyView {
                pod_id: Seq::empty(),
                pod_name: Seq::empty(),
                pod_namespace: Seq::empty(),
                node_name,
                state: Seq::empty(),
            };
            &&& r.node.node_name@ == node_name
            &&& r.node.timestamp_ns == now_ns
            &&& r.node.cpu_uw == power_at(samples, Kind::NodeCpu, node)
            &&& r.node.gpu_uw == power_at(samples, Kind::NodeGpu, node)
            &&& r.node.idle_uw == power_at(samples, Kind::NodeIdle, node)
            &&& r.node.memory_uw == 0
            &&& r.node.psu_output_uw is None
            &&& match r.node.platform_uw {
                Some(p) => p == power_at(samples, Kind::Platform, node) && exists|i: int|
                    0 <= i < samples.len() && (#[trigger] samples[i]).kind == Kind::Platform
                        && samples[i].key == node,
                None => forall|i: int|
                    0 <= i < samples.len() ==> !((#[trigger] samples[i]).kind == Kind::Platform
                        && samples[i].key == node),
            }
            &&& forall|a: int|
                0 <= a < r.pods@.len() ==> {
                    let p = (#[trigger] r.pods@[a])@;
                    &&& p.node_name == node_name
                    &&& p.total_uw == p.cpu_uw + p.gpu_uw
                    &&& p.memory_uw == 0 && p.storage_uw == 0 && p.io_uw == 0
                    &&& p.timestamp_ns == now_ns
                }
            &&& 0 <= j < samples.len() && (samples[j].kind == Kind::PodCpu || samples[j].kind
                == Kind::PodGpu) && samples[j].key.node_name == node_name ==> exists|a: int|
                {
                    &&& 0 <= a < r.pods@.len()
                    &&& (#[trigger] r.pods@[a])@.pod_uid == samples[j].key.pod_id
                    &&& r.pods@[a]@.pod_name == samples[j].key.pod_name
                    &&& r.pods@[a]@.namespace == samples[j].key.pod_namespace
                    &&& r.pods@[a]@.cpu_uw == power_at(samples, Kind::PodCpu, samples[j].key)
                    &&& r.pods@[a]@.gpu_uw == power_at(samples, Kind::PodGpu, samples[j].key)
                }
            &&& r.pods@.len() < 0x1_0000_0000 ==> r.node.pod_count == r.pods@.len()
        }),
{
    let n = samples.len() as int;
    let pods = node_pods(samples, node_name, n);
    lemma_node_pods_listed(samples, node_name, n);
    assert forall|a: int| 0 <= a < r.pods@.len() implies {
        let p = (#[trigger] r.pods@[a])@;
        &&& p.node_name == node_name
        &&& p.total_uw == p.cpu_uw + p.gpu_uw
        &&& p.memory_uw == 0 && p.storage_uw == 0 && p.io_uw == 0
        &&& p.timestamp_ns == now_ns
    } by {
        assert(r.pods@[a]@ == pod_report(samples, pods[a], now_ns));
    }
    if 0 <= j < n && is_pod_kind(samples[j].kind) && samples[j].key.node_name == node_name {
        let a = pods.index_of(samples[j].key);
        assert(pods[a] == samples[j].key);
        assert(r.pods@[a]@ == pod_report(samples, pods[a], now_ns));
    }
    if r.pods@.len() < 0x1_0000_0000 {
        vstd::arithmetic::div_mod::lemma_small_mod(r.pods@.len(), 0x1_0000_0000);
    }
}

proof fn lemma_pod_nodes(samples: Seq<SampleView>, n: int)
    requires
        0 <= n <= samples.len(),
    ensures
        ({
            let nodes = pod_nodes(samples, n);
            &&& forall|a: int, b: int|
                0 <= a < b < nodes.len() ==> #[trigger] nodes[a] != #[trigger] nodes[b]
            &&& forall|j: int|
                0 <= j < n && is_pod_kind((#[trigger] samples[j]).kind) ==> nodes.contains(
                    samples[j].key.node_name,
                )
            &&& forall|a: int|
                0 <= a < nodes.len() ==> has_pods(samples, n, #[trigger] nodes[a])
        }),
    decreases n,
{
    if n > 0 {
        lemma_pod_nodes(samples, n - 1);
        let before = pod_nodes(samples, n - 1);
        let after = pod_nodes(samples, n);
        let name = samples[n - 1].key.node_name;
        assert forall|a: int, b: int| 0 <= a < b < after.len() implies #[trigger] after[a]
            != #[trigger] after[b] by {
            if b < before.len() {
                assert(before[a] != before[b]);
            } else {
                assert(before.contains(before[a]));
            }
        }
        assert forall|j: int| 0 <= j < n && is_pod_kind(
            (#[trigger] samples[j]).kind,
        ) implies after.contains(samples[j].key.node_name) by {
            let k = samples[j].key.node_name;
            if before.contains(k) {
                let i = before.index_of(k);
                assert(after[i] == k);
            } else {
                assert(after[before.len() as int] == name);
            }
        }
        assert forall|a: int| 0 <= a < after.len() implies has_pods(
            samples,
            n,
            #[trigger] after[a],
        ) by {
            if a < before.len() {
                assert(has_pods(samples, n - 1, before[a]));
                let j = choose|j: int|
                    0 <= j < n - 1 && is_pod_kind((#[trigger] samples[j]).kind)
                        && samples[j].key.node_name == before[a];
                assert(is_pod_kind(samples[j].kind));
            } else {
                assert(is_pod_kind(samples[n - 1].kind));
            }
        }
    }
}

/// Whether the first `n` samples have one of a pod on a node.
pub open spec fn has_pods(samples: Seq<SampleView>, n: int, node_name: Seq<char>) -> bool {
    exists|j: int|
        0 <= j < n && is_pod_kind((#[trigger] samples[j]).kind) && samples[j].key.node_name
            == node_name
}

/// There is one report for each node that a pod's sample names, and no other.
pub proof fn law_nodes_reported(v: Seq<AgentReport>, samples: Seq<SampleView>, now_ns: u64)
    requires
        are_kepler_reports(v, samples, now_ns),
    ensures
        forall|a: int, b: int|
            0 <= a < b < v.len() ==> (#[trigger] v[a]).node.node_name@ != (
            #[trigger] v[b]).node.node_name@,
        forall|a: int|
            0 <= a < v.len() ==> has_pods(
                samples,
                samples.len() as int,
                (#[trigger] v[a]).node.node_name@,
            ),
        forall|j: int|
            0 <= j < samples.len() && ((#[trigger] samples[j]).kind == Kind::PodCpu
                || samples[j].kind == Kind::PodGpu) ==> exists|a: int|
                0 <= a < v.len() && (#[trigger] v[a]).node.node_name@ == samples[j].key.node_name,
        pod_total(v) == sum_of(v, |r: AgentReport| r.pods@.len() as int),
{
    let n = samples.len() as int;
    let nodes = pod_nodes(samples, n);
    lemma_pod_nodes(samples, n);
    lemma_pod_total(v);
    assert forall|a: int, b: int| 0 <= a < b < v.len() implies (#[trigger] v[a]).node.node_name@
        != (#[trigger] v[b]).node.node_name@ by {
        assert(is_kepler_report(v[a], samples, nodes[a], now_ns));
        assert(is_kepler_report(v[b], samples, nodes[b], now_ns));
        assert(nodes[a] != nodes[b]);
    }
    assert forall|a: int| 0 <= a < v.len() implies has_pods(
        samples,
        n,
        (#[trigger] v[a]).node.node_name@,
    ) by {
        assert(is_kepler_report(v[a], samples, nodes[a], now_ns));
        assert(has_pods(samples, n, nodes[a]));
    }
    assert forall|j: int|
        0 <= j < samples.len() && ((#[trigger] samples[j]).kind == Kind::PodCpu || samples[j].kind
            == Kind::PodGpu) implies exists|a: int|
        0 <= a < v.len() && (#[trigger] v[a]).node.node_name@ == samples[j].key.node_name by {
        assert(is_pod_kind(samples[j].kind));
        let a = nodes.index_of(samples[j].key.node_name);
        assert(is_kepler_report(v[a], samples, nodes[a], now_ns));
    }
}

proof fn lemma_pod_total(v: Seq<AgentReport>)
    ensures
        pod_total(v) == sum_of(v, |r: AgentReport| r.pods@.len() as int),
    decreases v.len(),
{
    if v.len() > 0 {
        lemma_pod_total(v.drop_last());
    }
}

} // verus!
