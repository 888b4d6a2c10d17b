//! Adjusting pod reports: by what the kernel observed, and by what GPUs drew.

use super::pods::PodInfo;
use crate::arith::lemma_floor;
use crate::decimal::{lemma_ten_to, millionth, millionths, Amount, Number};
use crate::hardware::gpu::{is_power_line, label_or};
use crate::prom::{label_in, label_value, line_amount, read_line_amount};
use crate::report::{pod_reports, PodPowerReport, PodReport};
use crate::sums::{lemma_sum_push, sum_of};
use crate::text::{begins_with, chars_of, lines, lines_of, same, stands_at, views};
use vstd::prelude::*;

verus! {

// ─── By what the kernel observed ────────────────────────────────

/// The CPU power of the last of `others` for the pod `uid`.
pub open spec fn observed_cpu(others: Seq<PodReport>, uid: Seq<char>) -> Option<int>
    decreases others.len(),
{
    if others.len() == 0 {
        None
    } else if others.last().pod_uid == uid {
        Some(others.last().cpu_uw)
    } else {
        observed_cpu(others.drop_last(), uid)
    }
}

/// A report with the CPU power that was observed, if any was.
pub open spec fn overridden(p: PodReport, others: Seq<PodReport>) -> PodReport {
    match observed_cpu(others, p.pod_uid) {
        Some(cpu) => PodReport {
            cpu_uw: cpu,
            total_uw: cpu + p.memory_uw + p.gpu_uw,
            ..p
        },
        None => p,
    }
}

fn find_observed(others: &Vec<PodPowerReport>, uid: &str) -> (r: Option<u64>)
    ensures
        observed_cpu(pod_reports(others@), uid@) == match r {
            Some(cpu) => Some(cpu as int),
            None => None,
        },
{
    let ghost all = pod_reports(others@);
    let mut i: usize = others.len();
    assert(all.take(i as int) =~= all);
    while i > 0
        invariant
            i <= others@.len(),
            all == pod_reports(others@),
            observed_cpu(all, uid@) == observed_cpu(all.take(i as int), uid@),
        decreases i,
    {
        i = i - 1;
        assert(all.take(i + 1).drop_last() =~= all.take(i as int));
        assert(all[i as int] == others@[i as int]@);
        if same(others[i].pod_uid.as_str(), uid) {
            return Some(others[i].cpu_uw);
        }
    }
    None
}

/// Replaces the CPU power of the pods that the kernel saw running.
pub fn override_cpu(pods: &mut Vec<PodPowerReport>, observed: &Vec<PodPowerReport>)
    requires
        forall|i: int|
            0 <= i < old(pods)@.len() ==> overridden(
                (#[trigger] old(pods)@[i])@,
                pod_reports(observed@),
            ).total_uw <= u64::MAX,
    ensures
        pod_reports(final(pods)@) == pod_reports(old(pods)@).map_values(
            |p: PodReport| overridden(p, pod_reports(observed@)),
        ),
{
    let ghost before = pods@;
    let ghost seen = pod_reports(observed@);
    let ghost after = pod_reports(before).map_values(|p: PodReport| overridden(p, seen));
    let mut i: usize = 0;
    while i < pods.len()
        invariant
            i <= pods@.len() == before.len(),
            seen == pod_reports(observed@),
            after == pod_reports(before).map_values(|p: PodReport| overridden(p, seen)),
            forall|j: int|
                0 <= j < before.len() ==> overridden((#[trigger] before[j])@, seen).total_uw
                    <= u64::MAX,
            forall|j: int| 0 <= j < i ==> (#[trigger] pods@[j])@ == after[j],
            forall|j: int| i <= j < before.len() ==> pods@[j] == before[j],
        decreases before.len() - i,
    {
        assert(overridden(before[i as int]@, seen).total_uw <= u64::MAX);
        match find_observed(observed, pods[i].pod_uid.as_str()) {
            Some(cpu) => {
                let total: u64 = cpu + pods[i].memory_uw + pods[i].gpu_uw;
                pods[i].cpu_uw = cpu;
                pods[i].total_uw = total;
            },
            None => {},
        }
        assert(pods@[i as int]@ == after[i as int]);
        i = i + 1;
    }
    assert(pod_reports(pods@) =~= after);
}

// ─── By what GPUs drew ──────────────────────────────────────────

/// A pod's GPU power that a metric line tells.
pub struct GpuUse {
    pub pod_name: Seq<char>,
    pub namespace: Seq<char>,
    pub gpu_uw: int,
}

/// What a line tells of a pod on this node. A value that is no number counts as no power.
pub open spec fn gpu_use(line: Seq<char>, node_name: Seq<char>) -> Option<GpuUse> {
    let pod_name = label_or(line, "pod"@, Seq::empty());
    let namespace = label_or(line, "namespace"@, Seq::empty());
    if is_power_line(line) && label_or(line, "Hostname"@, node_name) == node_name && pod_name.len()
        > 0 {
        match line_amount(line) {
            Some(Amount::NotANumber) => Some(GpuUse { pod_name, namespace, gpu_uw: 0 }),
            Some(Amount::Units(u)) => if u > 0 {
                Some(GpuUse { pod_name, namespace, gpu_uw: millionths(u) })
            } else {
                None
            },
            None => None,
        }
    } else {
        None
    }
}

/// The index of the first pod with a name from `from` on, or -1.
pub open spec fn pod_named(
    pods: Seq<PodReport>,
    pod_name: Seq<char>,
    namespace: Seq<char>,
    from: int,
) -> int
    decreases pods.len() - from,
{
    if from < 0 || from >= pods.len() {
        -1
    } else if pods[from].pod_name == pod_name && pods[from].namespace == namespace {
        from
    } else {
        pod_named(pods, pod_name, namespace, from + 1)
    }
}

/// The UID of the first pod with a name that the cluster knows, from `from` on.
pub open spec fn uid_named(
    cache: Seq<(String, PodInfo)>,
    pod_name: Seq<char>,
    namespace: Seq<char>,
    from: int,
) -> Option<Seq<char>>
    decreases cache.len() - from,
{
    if from < 0 || from >= cache.len() {
        None
    } else if cache[from].1.name@ == pod_name && cache[from].1.namespace@ == namespace {
        Some(cache[from].0@)
    } else {
        uid_named(cache, pod_name, namespace, from + 1)
    }
}

/// The reports with one pod's GPU power added: to its report, or in a report of its own if it has
/// none and the cluster knows the pod.
pub open spec fn with_gpu(
    pods: Seq<PodReport>,
    u: GpuUse,
    node_name: Seq<char>,
    cache: Seq<(String, PodInfo)>,
    now_ns: u64,
) -> Seq<PodReport> {
    let i = pod_named(pods, u.pod_name, u.namespace, 0);
    if i >= 0 {
        let p = pods[i];
        pods.update(
            i,
            PodReport {
                gpu_uw: p.gpu_uw + u.gpu_uw,
                total_uw: p.cpu_uw + p.memory_uw + p.gpu_uw + u.gpu_uw,
                ..p
            },
        )
    } else {
        match uid_named(cache, u.pod_name, u.namespace, 0) {
            Some(uid) => pods.push(
                PodReport {
                    node_name,
                    pod_uid: uid,
                    pod_name: u.pod_name,
                    namespace: u.namespace,
                    cpu_uw: 0,
                    memory_uw: 0,
                    gpu_uw: u.gpu_uw,
                    storage_uw: 0,
                    io_uw: 0,
                    total_uw: u.gpu_uw,
                    timestamp_ns: now_ns as int,
                },
            ),
            None => pods,
        }
    }
}

/// The reports once the first `n` lines are taken in.
pub open spec fn after_lines(
    pods: Seq<PodReport>,
    lines: Seq<Seq<char>>,
    node_name: Seq<char>,
    cache: Seq<(String, PodInfo)>,
    now_ns: u64,
    n: int,
) -> Seq<PodReport>
    decreases n,
{
    if n <= 0 {
        pods
    } else {
        let before = after_lines(pods, lines, node_name, cache, now_ns, n - 1);
        match gpu_use(lines[n - 1], node_name) {
            Some(u) => with_gpu(before, u, node_name, cache, now_ns),
            None => before,
        }
    }
}

/// Whether all power can be held.
pub open spec fn totals_fit(pods: Seq<PodReport>) -> bool {
    forall|i: int|
        0 <= i < pods.len() ==> (#[trigger] pods[i]).gpu_uw <= u64::MAX && pods[i].total_uw
            <= u64::MAX
}

fn find_pod(pods: &Vec<PodPowerReport>, pod_name: &str, namespace: &str) -> (r: Option<usize>)
    ensures
        match r {
            Some(i) => i == pod_named(pod_reports(pods@), pod_name@, namespace@, 0) && i
                < pods@.len(),
            None => pod_named(pod_reports(pods@), pod_name@, namespace@, 0) < 0,
        },
{
    let ghost all = pod_reports(pods@);
    let mut i: usize = 0;
    while i < pods.len()
        invariant
            i <= pods@.len(),
            all == pod_reports(pods@),
            pod_named(all, pod_name@, namespace@, 0) == pod_named(
                all,
                pod_name@,
                namespace@,
                i as int,
            ),
        decreases pods@.len() - i,
    {
        assert(all[i as int] == pods@[i as int]@);
        if same(pods[i].pod_name.as_str(), pod_name) && same(
            pods[i].namespace.as_str(),
            namespace,
        ) {
            return Some(i);
        }
        i = i + 1;
    }
    None
}

fn find_uid(cache: &Vec<(String, PodInfo)>, pod_name: &str, namespace: &str) -> (r: Option<String>)
    ensures
        uid_named(cache@, pod_name@, namespace@, 0) == match r {
            Some(uid) => Some(uid@),
            None => None,
        },
{
    let mut i: usize = 0;
    while i < cache.len()
        invariant
            i <= cache@.len(),
            uid_named(cache@, pod_name@, namespace@, 0) == uid_named(
                cache@,
                pod_name@,
                namespace@,
                i as int,
            ),
        decreases cache@.len() - i,
    {
        if same(cache[i].1.name.as_str(), pod_name) && same(
            cache[i].1.namespace.as_str(),
            namespace,
        ) {
            return Some(cache[i].0.clone());
        }
        i = i + 1;
    }
    None
}

/// What a line tells of a pod on this node: its name, its namespace and its power.
fn read_gpu_use(line: &Vec<char>, node_name: &str) -> (r: Option<(String, String, u64)>)
    ensures
        gpu_use(line@, node_name@) == match r {
            Some(u) => Some(
                GpuUse { pod_name: u.0@, namespace: u.1@, gpu_uw: u.2 as int },
            ),
            None => None,
        },
{
    if !stands_at(line, "DCGM_FI_DEV_POWER_USAGE{", 0) {
        return None;
    }
    let local: bool = match label_in(line, "Hostname") {
        Some(h) => same(h.as_str(), node_name),
        None => true,
    };
    let pod_name: String = match label_in(line, "pod") {
        Some(p) => p,
        None => String::new(),
    };
    let namespace: String = match label_in(line, "namespace") {
        Some(n) => n,
        None => String::new(),
    };
    proof {
        assert(pod_name@ =~= label_or(line@, "pod"@, Seq::empty()));
        assert(namespace@ =~= label_or(line@, "namespace"@, Seq::empty()));
    }
    if !local || pod_name.as_str().is_empty() {
        return None;
    }
    let amount: Number = match read_line_amount(line) {
        Some(n) => n,
        None => {
            return None;
        },
    };
    match amount.millionths() {
        None => Some((pod_name, namespace, 0)),
        Some(m) => if amount.is_positive() {
            Some((pod_name, namespace, m as u64))
        } else {
            None
        },
    }
}

/// Adds one pod's GPU power to the reports, where its power can be held; tells whether it can.
fn add_gpu_use(
    pods: &mut Vec<PodPowerReport>,
    pod_name: String,
    namespace: String,
    gpu_uw: u64,
    node_name: &str,
    cache: &Vec<(String, PodInfo)>,
    now_ns: u64,
) -> (r: bool)
    requires
        totals_fit(pod_reports(old(pods)@)),
    ensures
        ({
            let after = with_gpu(
                pod_reports(old(pods)@),
                GpuUse { pod_name: pod_name@, namespace: namespace@, gpu_uw: gpu_uw as int },
                node_name@,
                cache@,
                now_ns,
            );
            r == totals_fit(after) && (r ==> pod_reports(final(pods)@) == after)
        }),
{
    let ghost before = pod_reports(pods@);
    let ghost u = GpuUse { pod_name: pod_name@, namespace: namespace@, gpu_uw: gpu_uw as int };
    let ghost after = with_gpu(before, u, node_name@, cache@, now_ns);
    match find_pod(pods, pod_name.as_str(), namespace.as_str()) {
        Some(i) => {
            assert(before[i as int] == pods@[i as int]@);
            let total: u128 = pods[i].cpu_uw as u128 + pods[i].memory_uw as u128
                + pods[i].gpu_uw as u128 + gpu_uw as u128;
            if total > u64::MAX as u128 {
                assert(!(after[i as int].total_uw <= u64::MAX));
                return false;
            }
            let gpu: u64 = pods[i].gpu_uw + gpu_uw;
            pods[i].gpu_uw = gpu;
            pods[i].total_uw = total as u64;
            assert(pods@[i as int]@ == after[i as int]);
            assert(pod_reports(pods@) =~= after);
        },
        None => match find_uid(cache, pod_name.as_str(), namespace.as_str()) {
            Some(uid) => {
                pods.push(
                    PodPowerReport {
                        node_name: node_name.to_owned(),
                        pod_uid: uid,
                        pod_name,
                        namespace,
                        cpu_uw: 0,
                        memory_uw: 0,
                        gpu_uw,
                        storage_uw: 0,
                        io_uw: 0,
                        total_uw: gpu_uw,
                        timestamp_ns: now_ns,
                    },
                );
                assert(pod_reports(pods@) =~= after);
            },
            None => {},
        },
    }
    true
}

/// Whether all power can be held after each line.
pub open spec fn lines_fit(
    pods: Seq<PodReport>,
    lines: Seq<Seq<char>>,
    node_name: Seq<char>,
    cache: Seq<(String, PodInfo)>,
    now_ns: u64,
) -> bool {
    forall|n: int|
        0 <= n <= lines.len() ==> totals_fit(
            #[trigger] after_lines(pods, lines, node_name, cache, now_ns, n),
        )
}

/// Adds per-pod GPU power out of the exporter's text, as long as it can be held; tells whether all
/// of it can.
fn add_lines(
    pods: &mut Vec<PodPowerReport>,
    body: &str,
    node_name: &str,
    cache: &Vec<(String, PodInfo)>,
    now_ns: u64,
) -> (r: bool)
    ensures
        r == lines_fit(pod_reports(old(pods)@), lines_of(body@), node_name@, cache@, now_ns),
        r ==> pod_reports(final(pods)@) == after_lines(
            pod_reports(old(pods)@),
            lines_of(body@),
            node_name@,
            cache@,
            now_ns,
            lines_of(body@).len() as int,
        ),
{
    let all: Vec<Vec<char>> = lines(&chars_of(body));
    let ghost seen = lines_of(body@);
    let ghost before = pod_reports(pods@);
    let mut i: usize = 0;
    assert(totals_fit(before)) by {
        assert forall|k: int| 0 <= k < before.len() implies (#[trigger] before[k]).gpu_uw
            <= u64::MAX && before[k].total_uw <= u64::MAX by {
            assert(before[k] == pods@[k]@);
        }
    }
    while i < all.len()
        invariant
            i <= all@.len(),
            views(all@) == seen,
            seen == lines_of(body@),
            before == pod_reports(old(pods)@),
            forall|n: int|
                0 <= n <= i ==> totals_fit(
                    #[trigger] after_lines(before, seen, node_name@, cache@, now_ns, n),
                ),
            pod_reports(pods@) == after_lines(
                before,
                seen,
                node_name@,
                cache@,
                now_ns,
                i as int,
            ),
        decreases all@.len() - i,
    {
        assert(seen[i as int] == all@[i as int]@);
        let ghost next = after_lines(before, seen, node_name@, cache@, now_ns, i + 1);
        match read_gpu_use(&all[i], node_name) {
            Some((pod_name, namespace, gpu_uw)) => {
                if !add_gpu_use(pods, pod_name, namespace, gpu_uw, node_name, cache, now_ns) {
                    assert(!totals_fit(next));
                    assert(i + 1 <= seen.len());
                    return false;
                }
            },
            None => {},
        }
        assert(totals_fit(next));
        i = i + 1;
    }
    true
}

fn copy_reports(pods: &Vec<PodPowerReport>) -> (r: Vec<PodPowerReport>)
    ensures
        r@ == pods@,
{
    let mut r: Vec<PodPowerReport> = Vec::new();
    let mut i: usize = 0;
    while i < pods.len()
        invariant
            i <= pods@.len(),
            r@ == pods@.take(i as int),
        decreases pods@.len() - i,
    {
        r.push(pods[i].clone());
        assert(r@ =~= pods@.take(i + 1));
        i = i + 1;
    }
    assert(pods@.take(i as int) =~= pods@);
    r
}

/// Whether all power can be held once GPU power is added.
pub fn gpu_in_range(
    pods: &Vec<PodPowerReport>,
    body: &str,
    node_name: &str,
    cache: &Vec<(String, PodInfo)>,
    now_ns: u64,
) -> (r: bool)
    ensures
        r == lines_fit(pod_reports(pods@), lines_of(body@), node_name@, cache@, now_ns),
{
    let mut copy: Vec<PodPowerReport> = copy_reports(pods);
    add_lines(&mut copy, body, node_name, cache, now_ns)
}

/// Adds per-pod GPU power out of the exporter's text, whose lines name pods and namespaces.
pub fn add_gpu_power_to_pods(
    pods: &mut Vec<PodPowerReport>,
    body: &str,
    node_name: &str,
    cache: &Vec<(String, PodInfo)>,
    now_ns: u64,
)
    requires
        lines_fit(pod_reports(old(pods)@), lines_of(body@), node_name@, cache@, now_ns),
    ensures
        pod_reports(final(pods)@) == after_lines(
            pod_reports(old(pods)@),
            lines_of(body@),
            node_name@,
            cache@,
            now_ns,
            lines_of(body@).len() as int,
        ),
{
    let added: bool = add_lines(pods, body, node_name, cache, now_ns);
    assert(added);
}

// ─── What the adjusted reports say ──────────────────────────────

proof fn lemma_observed(others: Seq<PodReport>, uid: Seq<char>, k: int)
    requires
        -1 <= k < others.len(),
        k >= 0 ==> others[k].pod_uid == uid,
        forall|j: int| k < j < others.len() ==> (#[trigger] others[j]).pod_uid != uid,
    ensures
        observed_cpu(others, uid) == if k >= 0 {
            Some(others[k].cpu_uw)
        } else {
            None
        },
    decreases others.len(),
{
    if others.len() > 0 && k < others.len() - 1 {
        assert(others[others.len() - 1].pod_uid != uid);
        assert forall|j: int| k < j < others.drop_last().len() implies (
        #[trigger] others.drop_last()[j]).pod_uid != uid by {
            assert(others[j].pod_uid != uid);
        }
        lemma_observed(others.drop_last(), uid, k);
    }
}

/// A pod that the kernel saw running has the CPU power that was observed, and the total of its
/// CPU, memory and GPU power; all else of its report stays, and so does the whole report of a pod
/// that the kernel did not see. `k` is the last report observed of the pod, or -1.
pub proof fn law_observed_cpu_replaces(p: PodReport, others: Seq<PodReport>, k: int)
    requires
        -1 <= k < others.len(),
        k >= 0 ==> others[k].pod_uid == p.pod_uid,
        forall|j: int| k < j < others.len() ==> (#[trigger] others[j]).pod_uid != p.pod_uid,
    ensures
        ({
            let r = overridden(p, others);
            if k >= 0 {
                &&& r.cpu_uw == others[k].cpu_uw
                &&& r.total_uw == others[k].cpu_uw + p.memory_uw + p.gpu_uw
                &&& r.memory_uw == p.memory_uw && r.gpu_uw == p.gpu_uw && r.storage_uw
                    == p.storage_uw && r.io_uw == p.io_uw
                &&& r.pod_uid == p.pod_uid && r.pod_name == p.pod_name && r.namespace
                    == p.namespace && r.node_name == p.node_name && r.timestamp_ns
                    == p.timestamp_ns
            } else {
                r == p
            }
        }),
{
    lemma_observed(others, p.pod_uid, k);
}

/// GPU power that all reports tell.
pub open spec fn report_gpu() -> spec_fn(PodReport) -> int {
    |p: PodReport| p.gpu_uw
}

proof fn lemma_pod_named(pods: Seq<PodReport>, name: Seq<char>, ns: Seq<char>, from: int)
    requires
        0 <= from <= pods.len(),
    ensures
        ({
            let i = pod_named(pods, name, ns, from);
            if i >= 0 {
                &&& from <= i < pods.len()
                &&& pods[i].pod_name == name && pods[i].namespace == ns
                &&& forall|j: int|
                    from <= j < i ==> (#[trigger] pods[j]).pod_name != name || pods[j].namespace
                        != ns
            } else {
                forall|j: int|
                    from <= j < pods.len() ==> (#[trigger] pods[j]).pod_name != name
                        || pods[j].namespace != ns
            }
        }),
    decreases pods.len() - from,
{
    if from < pods.len() && !(pods[from].pod_name == name && pods[from].namespace == ns) {
        lemma_pod_named(pods, name, ns, from + 1);
    }
}

proof fn lemma_sum_update(pods: Seq<PodReport>, i: int, p: PodReport)
    requires
        0 <= i < pods.len(),
    ensures
        sum_of(pods.update(i, p), report_gpu()) == sum_of(pods, report_gpu()) + p.gpu_uw
            - pods[i].gpu_uw,
    decreases pods.len(),
{
    let after = pods.update(i, p);
    if i < pods.len() - 1 {
        assert(after.drop_last() =~= pods.drop_last().update(i, p));
        lemma_sum_update(pods.drop_last(), i, p);
    } else {
        assert(after.drop_last() =~= pods.drop_last());
    }
}

/// GPU power that a line tells goes to the pod of that name and namespace, and to no other: to
/// its report, or to a report of its own where the cluster knows the pod. All GPU power grows by
/// just what the line tells, unless nobody knows the pod. CPU and memory power stay.
pub proof fn law_gpu_power_goes_to_its_pod(
    pods: Seq<PodReport>,
    u: GpuUse,
    node_name: Seq<char>,
    cache: Seq<(String, PodInfo)>,
    now_ns: u64,
)
    ensures
        ({
            let after = with_gpu(pods, u, node_name, cache, now_ns);
            let known = uid_named(cache, u.pod_name, u.namespace, 0) is Some;
            let reported = exists|i: int|
                0 <= i < pods.len() && (#[trigger] pods[i]).pod_name == u.pod_name
                    && pods[i].namespace == u.namespace;
            &&& reported ==> after.len() == pods.len()
            &&& !reported && known ==> after.len() == pods.len() + 1 && after.last().pod_name
                == u.pod_name && after.last().namespace == u.namespace && after.last().gpu_uw
                == u.gpu_uw && after.last().total_uw == u.gpu_uw && after.last().cpu_uw == 0
                && after.last().memory_uw == 0 && after.last().node_name == node_name
            &&& !reported && !known ==> after == pods
            &&& reported || known ==> sum_of(after, report_gpu()) == sum_of(pods, report_gpu())
                + u.gpu_uw
            &&& forall|i: int|
                0 <= i < pods.len() ==> (#[trigger] after[i]).cpu_uw == pods[i].cpu_uw
                    && after[i].memory_uw == pods[i].memory_uw && after[i].pod_uid
                    == pods[i].pod_uid && (after[i] == pods[i] || (after[i].pod_name == u.pod_name
                    && after[i].namespace == u.namespace && after[i].gpu_uw == pods[i].gpu_uw
                    + u.gpu_uw && after[i].total_uw == after[i].cpu_uw + after[i].memory_uw
                    + after[i].gpu_uw))
        }),
{
    lemma_pod_named(pods, u.pod_name, u.namespace, 0);
    let i = pod_named(pods, u.pod_name, u.namespace, 0);
    let after = with_gpu(pods, u, node_name, cache, now_ns);
    if i >= 0 {
        assert(pods[i].pod_name == u.pod_name && pods[i].namespace == u.namespace);
        lemma_sum_update(pods, i, after[i]);
    } else if uid_named(cache, u.pod_name, u.namespace, 0) is Some {
        lemma_sum_push(pods, after.last(), report_gpu());
        assert(after =~= pods.push(after.last()));
    }
}

/// A line tells of a pod's GPU power only if it is a power metric, of this node or of no node by
/// name, and names a pod; it tells the pod, the namespace, and the watts in whole microwatts.
pub proof fn law_gpu_line(line: Seq<char>, node_name: Seq<char>)
    ensures
        match gpu_use(line, node_name) {
            Some(u) => {
                &&& is_power_line(line)
                &&& label_value(line, "Hostname"@) is None || label_value(line, "Hostname"@)->0
                    == node_name
                &&& label_value(line, "pod"@) is Some && label_value(line, "pod"@)->0.len() > 0
                &&& u.pod_name == label_value(line, "pod"@)->0
                &&& label_value(line, "namespace"@) is Some ==> u.namespace == label_value(
                    line,
                    "namespace"@,
                )->0
                &&& 0 <= u.gpu_uw
                &&& line_amount(line) matches Some(Amount::Units(w)) ==> w > 0 && (u.gpu_uw
                    < u64::MAX ==> u.gpu_uw * millionth() <= w < (u.gpu_uw + 1) * millionth())
            },
            None => true,
        },
{
    if let Some(u) = gpu_use(line, node_name) {
        if let Some(Amount::Units(w)) = line_amount(line) {
            lemma_ten_to(324);
            lemma_floor(w, millionth());
            vstd::arithmetic::div_mod::lemma_div_pos_is_pos(w, millionth());
        }
    }
}

/// A line tells of a pod's use if it is of the power metric, names no other host, has a pod and
/// tells more than nothing; a value that is no number counts for nothing.
pub proof fn law_gpu_line_tells(line: Seq<char>, node_name: Seq<char>, pod: Seq<char>)
    requires
        begins_with(line, "DCGM_FI_DEV_POWER_USAGE{"@),
        label_value(line, "Hostname"@) is None || label_value(line, "Hostname"@)->0 == node_name,
        label_value(line, "pod"@) == Some(pod),
        pod.len() > 0,
    ensures
        line_amount(line) matches Some(Amount::Units(w)) ==> (gpu_use(line, node_name) is Some
            <==> w > 0),
        line_amount(line) matches Some(Amount::NotANumber) ==> gpu_use(line, node_name) is Some
            && gpu_use(line, node_name)->0.gpu_uw == 0,
        line_amount(line) is None ==> gpu_use(line, node_name) is None,
{
}

/// A pod that is only known by its name is told of under the UID that is known for that name: that
/// of the first entry with its name and its namespace.
pub proof fn law_uid_of_name(
    cache: Seq<(String, PodInfo)>,
    pod_name: Seq<char>,
    namespace: Seq<char>,
    from: int,
)
    requires
        0 <= from <= cache.len(),
    ensures
        forall|k: int|
            from <= k < cache.len() && (#[trigger] cache[k]).1.name@ == pod_name
                && cache[k].1.namespace@ == namespace && (forall|i: int|
                from <= i < k ==> (#[trigger] cache[i]).1.name@ != pod_name
                    || cache[i].1.namespace@ != namespace) ==> uid_named(
                cache,
                pod_name,
                namespace,
                from,
            ) == Some(cache[k].0@),
        (forall|k: int|
            from <= k < cache.len() ==> (#[trigger] cache[k]).1.name@ != pod_name
                || cache[k].1.namespace@ != namespace) ==> uid_named(
            cache,
            pod_name,
            namespace,
            from,
        ) is None,
    decreases cache.len() - from,
{
    if from < cache.len() {
        law_uid_of_name(cache, pod_name, namespace, from + 1);
        assert forall|k: int|
            from <= k < cache.len() && (#[trigger] cache[k]).1.name@ == pod_name
                && cache[k].1.namespace@ == namespace && (forall|i: int|
                from <= i < k ==> (#[trigger] cache[i]).1.name@ != pod_name
                    || cache[i].1.namespace@ != namespace) implies uid_named(
            cache,
            pod_name,
            namespace,
            from,
        ) == Some(cache[k].0@) by {
            if k > from {
                assert(cache[from].1.name@ != pod_name || cache[from].1.namespace@ != namespace);
            }
        }
        if forall|k: int|
            from <= k < cache.len() ==> (#[trigger] cache[k]).1.name@ != pod_name
                || cache[k].1.namespace@ != namespace {
            assert(cache[from].1.name@ != pod_name || cache[from].1.namespace@ != namespace);
        }
    }
}

/// What a line tells of a pod's use.
pub open spec fn told_use(node_name: Seq<char>) -> spec_fn(Seq<char>) -> int {
    |line: Seq<char>|
        match gpu_use(line, node_name) {
            Some(u) => u.gpu_uw,
            None => 0,
        }
}

/// All that the lines tell is told of the pods, where every pod is known; lines that tell nothing
/// change nothing.
pub proof fn law_lines_told(
    pods: Seq<PodReport>,
    lines: Seq<Seq<char>>,
    node_name: Seq<char>,
    cache: Seq<(String, PodInfo)>,
    now_ns: u64,
    n: int,
)
    requires
        0 <= n <= lines.len(),
        forall|i: int|
            0 <= i < n && gpu_use(#[trigger] lines[i], node_name) is Some ==> uid_named(
                cache,
                gpu_use(lines[i], node_name)->0.pod_name,
                gpu_use(lines[i], node_name)->0.namespace,
                0,
            ) is Some,
    ensures
        sum_of(after_lines(pods, lines, node_name, cache, now_ns, n), report_gpu()) == sum_of(
            pods,
            report_gpu(),
        ) + sum_of(lines.take(n), told_use(node_name)),
        (forall|i: int| 0 <= i < n ==> gpu_use(#[trigger] lines[i], node_name) is None)
            ==> after_lines(pods, lines, node_name, cache, now_ns, n) == pods,
    decreases n,
{
    if n > 0 {
        law_lines_told(pods, lines, node_name, cache, now_ns, n - 1);
        assert(lines.take(n).drop_last() =~= lines.take(n - 1));
        assert(lines.take(n).last() == lines[n - 1]);
        let before = after_lines(pods, lines, node_name, cache, now_ns, n - 1);
        if let Some(u) = gpu_use(lines[n - 1], node_name) {
            law_gpu_power_goes_to_its_pod(before, u, node_name, cache, now_ns);
        }
    } else {
        assert(lines.take(0) =~= Seq::empty());
    }
}

} // verus!
