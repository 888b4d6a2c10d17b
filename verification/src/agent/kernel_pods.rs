//! Sharing a node's power out to its pods by what the kernel observed: how long each process ran
//! on each core, and at which frequencies the cores ran.

use super::pods::{
    are_pod_reports, miss_list, report_pods, reported, reported_cpu, reported_memory, widen, Plan,
    PodInfo, PodShares,
};
use super::usage::{sum_used, sum_wide, usage, wide_usage};
use crate::arith::{law_blend, law_share, MAX_WHOLE};
use crate::attribution::model::{frequency_weight, time_at_frequency};
use crate::ebpf::EbpfSnapshot;
use crate::report::PodPowerReport;
use crate::sums::{
    lemma_sum_natural, lemma_sum_same, lemma_used_by_sum, lemma_used_sum, sum_of,
};
use crate::table::{get, lemma_position, lookup};
use crate::tally::{
    law_tally, lemma_used, mentions, natural_amounts, used, used_by, used_by_all,
};
use crate::wide::Wide;
use vstd::prelude::*;

verus! {

/// A process that belongs to a pod, with the memory it holds.
#[derive(Debug)]
pub struct PodProcess {
    pub pod_uid: String,
    pub memory: u64,
}

/// The memory of each process, under its pod.
pub open spec fn memory_list(pid_pods: Seq<(u32, PodProcess)>) -> Seq<(Seq<char>, int)> {
    pid_pods.map_values(|e: (u32, PodProcess)| (e.1.pod_uid@, e.1.memory as int))
}

/// The run times of the processes that belong to pods, each under its pod.
pub open spec fn time_list(
    times: Seq<(u32, u32, u64)>,
    pid_pods: Seq<(u32, PodProcess)>,
) -> Seq<(Seq<char>, int)>
    decreases times.len(),
{
    if times.len() == 0 {
        Seq::empty()
    } else {
        let before = time_list(times.drop_last(), pid_pods);
        match lookup(pid_pods, times.last().1) {
            Some(p) => before.push((p.pod_uid@, times.last().2 as int)),
            None => before,
        }
    }
}

/// How a node's power is shared out by run time and memory.
pub open spec fn time_shares(
    total_cpu_uw: u64,
    total_mem_uw: u64,
    snapshot: EbpfSnapshot,
    pid_pods: Seq<(u32, PodProcess)>,
) -> PodShares {
    let cpu = time_list(snapshot.pid_cpu_times@, pid_pods);
    let memory = memory_list(pid_pods);
    PodShares {
        cpu_total_uw: total_cpu_uw as int,
        cpu,
        cpu_whole: used(cpu),
        access: Seq::empty(),
        access_whole: 0,
        memory,
        memory_whole: used(memory),
        memory_total_uw: total_mem_uw as int,
        report_idle: false,
    }
}

/// Lists the memory of each process under its pod.
fn list_memory(pid_pods: &Vec<(u32, PodProcess)>) -> (r: Vec<(String, u128)>)
    ensures
        usage(r@) == memory_list(pid_pods@),
        used(usage(r@)) <= pid_pods@.len() * 0xffff_ffff_ffff_ffff,
{
    let mut r: Vec<(String, u128)> = Vec::new();
    let mut i: usize = 0;
    assert(usage(r@) =~= memory_list(pid_pods@).take(0));
    while i < pid_pods.len()
        invariant
            i <= pid_pods@.len(),
            usage(r@) == memory_list(pid_pods@).take(i as int),
            used(usage(r@)) <= i * 0xffff_ffff_ffff_ffff,
        decreases pid_pods@.len() - i,
    {
        let ghost before = usage(r@);
        r.push((pid_pods[i].1.pod_uid.clone(), pid_pods[i].1.memory as u128));
        assert(usage(r@) =~= memory_list(pid_pods@).take(i + 1));
        assert(usage(r@).drop_last() =~= before);
        i = i + 1;
    }
    assert(usage(r@) =~= memory_list(pid_pods@));
    r
}

/// Lists the run times of the processes that belong to pods, each under its pod.
fn list_times(times: &Vec<(u32, u32, u64)>, pid_pods: &Vec<(u32, PodProcess)>) -> (r: Vec<
    (String, Wide),
>)
    ensures
        wide_usage(r@) == time_list(times@, pid_pods@),
{
    let mut r: Vec<(String, Wide)> = Vec::new();
    let mut i: usize = 0;
    assert(wide_usage(r@) =~= Seq::empty());
    while i < times.len()
        invariant
            i <= times@.len(),
            wide_usage(r@) == time_list(times@.take(i as int), pid_pods@),
        decreases times@.len() - i,
    {
        let ghost before = wide_usage(r@);
        assert(times@.take(i + 1).drop_last() =~= times@.take(i as int));
        match get(pid_pods, &times[i].1) {
            Some(p) => {
                r.push((p.pod_uid.clone(), Wide::from_wide(times[i].2 as u128)));
                assert(wide_usage(r@) =~= before.push((p.pod_uid@, times@[i as int].2 as int)));
            },
            None => {},
        }
        i = i + 1;
    }
    assert(times@.take(i as int) =~= times@);
    r
}

/// Shares a node's power out to its pods: CPU power by the time that their processes ran on any
/// core, memory power by the memory that these hold.
pub fn enumerate_pods_ebpf(
    node_name: &str,
    total_cpu_uw: u64,
    total_mem_uw: u64,
    pod_cache: &Vec<(String, PodInfo)>,
    snapshot: &EbpfSnapshot,
    pid_pods: &Vec<(u32, PodProcess)>,
    now_ns: u64,
) -> (r: Vec<PodPowerReport>)
    requires
        pid_pods@.len() <= u32::MAX,
        time_shares(total_cpu_uw, total_mem_uw, *snapshot, pid_pods@).in_range(),
    ensures
        are_pod_reports(
            r@,
            node_name@,
            pod_cache@,
            time_shares(total_cpu_uw, total_mem_uw, *snapshot, pid_pods@),
            now_ns,
        ),
        reported_cpu(r@) <= total_cpu_uw,
        reported_memory(r@) <= total_mem_uw,
{
    let cpu: Vec<(String, Wide)> = list_times(&snapshot.pid_cpu_times, pid_pods);
    let memory: Vec<(String, u128)> = list_memory(pid_pods);
    proof {
        lemma_used(usage(memory@), Seq::<char>::empty());
    }
    let cpu_whole: Wide = sum_wide(&cpu);
    let memory_whole: u128 = sum_used(&memory);
    let access: Vec<(String, u128)> = Vec::new();
    assert(usage(access@) =~= Seq::empty());
    let plan: Plan = Plan {
        cpu_total_uw: total_cpu_uw,
        cpu,
        cpu_whole,
        access,
        access_whole: 0,
        memory,
        memory_whole,
        memory_total_uw: total_mem_uw,
        report_idle: false,
    };
    assert(plan.shares() == time_shares(total_cpu_uw, total_mem_uw, *snapshot, pid_pods@));
    report_pods(node_name, pod_cache, &plan, now_ns)
}

// ─── Weighted by frequency ──────────────────────────────────────

/// What each observation adds to its core's weight: nanoseconds × KHz² where frequencies were
/// observed, else nanoseconds that a process ran.
pub open spec fn weight_list(snapshot: EbpfSnapshot) -> Seq<(u32, int)> {
    if snapshot.cpu_freq_times@.len() > 0 {
        snapshot.cpu_freq_times@.map_values(
            |e: (u32, u32, u64)| (e.0, frequency_weight(e.2 as int, e.1 as int)),
        )
    } else {
        core_times(snapshot)
    }
}

/// The time that each process ran, under its core.
pub open spec fn core_times(snapshot: EbpfSnapshot) -> Seq<(u32, int)> {
    snapshot.pid_cpu_times@.map_values(|e: (u32, u32, u64)| (e.0, e.2 as int))
}

/// What the processes' times on a core are measured against: all time on it, or 1 where there is
/// none.
pub open spec fn busy(snapshot: EbpfSnapshot, cpu: u32) -> int {
    let time = used_by(core_times(snapshot), cpu);
    if time > 0 {
        time
    } else {
        1
    }
}

/// The cores on which processes ran, in order of first appearance.
pub open spec fn run_cores(times: Seq<(u32, u32, u64)>) -> Seq<u32>
    decreases times.len(),
{
    if times.len() == 0 {
        Seq::empty()
    } else {
        let before = run_cores(times.drop_last());
        if before.contains(times.last().0) {
            before
        } else {
            before.push(times.last().0)
        }
    }
}

/// What the times on cores are measured against, multiplied.
pub open spec fn busy_product(snapshot: EbpfSnapshot, cpus: Seq<u32>) -> int
    decreases cpus.len(),
{
    if cpus.len() == 0 {
        1
    } else {
        busy_product(snapshot, cpus.drop_last()) * busy(snapshot, cpus.last())
    }
}

/// The same, but for one core.
pub open spec fn busy_others(snapshot: EbpfSnapshot, cpus: Seq<u32>, cpu: u32) -> int
    decreases cpus.len(),
{
    if cpus.len() == 0 {
        1
    } else if cpus.last() == cpu {
        busy_others(snapshot, cpus.drop_last(), cpu)
    } else {
        busy_others(snapshot, cpus.drop_last(), cpu) * busy(snapshot, cpus.last())
    }
}

/// What one unit of time on a core counts for: the core's weight, by what the times on all other
/// cores are measured against.
pub open spec fn core_factor(snapshot: EbpfSnapshot, cpu: u32) -> int {
    used_by(weight_list(snapshot), cpu) * busy_others(
        snapshot,
        run_cores(snapshot.pid_cpu_times@),
        cpu,
    )
}

/// All that there is to have parts in.
pub open spec fn all_parts(snapshot: EbpfSnapshot) -> int {
    used(weight_list(snapshot)) * busy_product(snapshot, run_cores(snapshot.pid_cpu_times@))
}

/// The part of each process on each core, under the core: the core's part of all weights, by the
/// process's part of the core's time. All parts stand over the common denominator
/// [`all_parts`], so that none is rounded.
pub open spec fn process_parts(snapshot: EbpfSnapshot) -> Seq<(u32, int)> {
    snapshot.pid_cpu_times@.map_values(
        |e: (u32, u32, u64)| (e.0, core_factor(snapshot, e.0) * e.2),
    )
}

/// The parts of the processes that belong to pods, each under its pod.
pub open spec fn part_list(
    snapshot: EbpfSnapshot,
    pid_pods: Seq<(u32, PodProcess)>,
    n: int,
) -> Seq<(Seq<char>, int)>
    decreases n,
{
    if n <= 0 {
        Seq::empty()
    } else {
        let before = part_list(snapshot, pid_pods, n - 1);
        match lookup(pid_pods, snapshot.pid_cpu_times@[n - 1].1) {
            Some(p) => before.push((p.pod_uid@, process_parts(snapshot)[n - 1].1)),
            None => before,
        }
    }
}

/// The cache misses of the processes that belong to pods, each under its pod.
pub open spec fn pod_misses(
    counters: Seq<((u32, u32), (u64, u64, u64))>,
    pid_pods: Seq<(u32, PodProcess)>,
) -> Seq<(Seq<char>, int)>
    decreases counters.len(),
{
    if counters.len() == 0 {
        Seq::empty()
    } else {
        let before = pod_misses(counters.drop_last(), pid_pods);
        let e = counters.last();
        match lookup(pid_pods, e.0.1) {
            Some(p) => before.push((p.pod_uid@, e.1.2 as int)),
            None => before,
        }
    }
}

/// The cache misses of all processes.
pub open spec fn all_misses(counters: Seq<((u32, u32), (u64, u64, u64))>) -> int
    decreases counters.len(),
{
    if counters.len() == 0 {
        0
    } else {
        all_misses(counters.drop_last()) + counters.last().1.2
    }
}

pub proof fn lemma_misses(
    counters: Seq<((u32, u32), (u64, u64, u64))>,
    pid_pods: Seq<(u32, PodProcess)>,
)
    ensures
        natural_amounts(pod_misses(counters, pid_pods)),
        0 <= used(pod_misses(counters, pid_pods)) <= all_misses(counters) <= counters.len()
            * 0xffff_ffff_ffff_ffff,
    decreases counters.len(),
{
    if counters.len() > 0 {
        let before = pod_misses(counters.drop_last(), pid_pods);
        lemma_misses(counters.drop_last(), pid_pods);
        if lookup(pid_pods, counters.last().0.1) is Some {
            assert(pod_misses(counters, pid_pods).drop_last() =~= before);
        }
    }
}

/// Lists the cache misses of the processes that belong to pods, each under its pod.
pub fn list_misses(
    counters: &Vec<((u32, u32), (u64, u64, u64))>,
    pid_pods: &Vec<(u32, PodProcess)>,
) -> (r: Vec<(String, u64)>)
    ensures
        miss_list(r@) == pod_misses(counters@, pid_pods@),
{
    let mut r: Vec<(String, u64)> = Vec::new();
    let mut i: usize = 0;
    assert(miss_list(r@) =~= Seq::empty());
    while i < counters.len()
        invariant
            i <= counters@.len(),
            miss_list(r@) == pod_misses(counters@.take(i as int), pid_pods@),
        decreases counters@.len() - i,
    {
        let ghost before = miss_list(r@);
        assert(counters@.take(i + 1).drop_last() =~= counters@.take(i as int));
        match get(pid_pods, &counters[i].0.1) {
            Some(p) => {
                r.push((p.pod_uid.clone(), counters[i].1.2));
                assert(miss_list(r@) =~= before.push((p.pod_uid@, counters@[i as int].1.2 as int)));
            },
            None => {},
        }
        i = i + 1;
    }
    assert(counters@.take(i as int) =~= counters@);
    r
}

/// The cache misses of all processes added up.
pub fn sum_misses(counters: &Vec<((u32, u32), (u64, u64, u64))>) -> (r: u128)
    requires
        counters@.len() <= u32::MAX,
    ensures
        r == all_misses(counters@),
        r <= MAX_WHOLE,
{
    let mut sum: u128 = 0;
    let mut i: usize = 0;
    while i < counters.len()
        invariant
            i <= counters@.len() <= u32::MAX,
            sum == all_misses(counters@.take(i as int)),
            sum <= i * 0xffff_ffff_ffff_ffff,
        decreases counters@.len() - i,
    {
        assert(counters@.take(i + 1).drop_last() =~= counters@.take(i as int));
        sum = sum + counters[i].1.2 as u128;
        i = i + 1;
    }
    assert(counters@.take(i as int) =~= counters@);
    sum
}

/// How a node's power is shared out by run time, weighted by frequency, memory and cache misses.
pub open spec fn weighted_shares(
    total_cpu_uw: u64,
    total_mem_uw: u64,
    total_llc_misses: int,
    snapshot: EbpfSnapshot,
    pid_pods: Seq<(u32, PodProcess)>,
) -> PodShares {
    let memory = memory_list(pid_pods);
    PodShares {
        cpu_total_uw: total_cpu_uw as int,
        cpu: part_list(snapshot, pid_pods, snapshot.pid_cpu_times@.len() as int),
        cpu_whole: all_parts(snapshot),
        access: pod_misses(snapshot.pid_hw_counters@, pid_pods),
        access_whole: total_llc_misses,
        memory,
        memory_whole: used(memory),
        memory_total_uw: total_mem_uw as int,
        report_idle: true,
    }
}

proof fn lemma_weights_natural(snapshot: EbpfSnapshot)
    ensures
        natural_amounts(weight_list(snapshot)),
        natural_amounts(core_times(snapshot)),
{
    let list = weight_list(snapshot);
    assert forall|i: int| 0 <= i < list.len() implies 0 <= (#[trigger] list[i]).1 by {
        if snapshot.cpu_freq_times@.len() > 0 {
            let t = snapshot.cpu_freq_times@[i].2 as int;
            let f = snapshot.cpu_freq_times@[i].1 as int;
            assert(0 <= t * (f * f)) by (nonlinear_arith)
                requires
                    0 <= t,
                    0 <= f,
            ;
        }
    }
}

proof fn lemma_busy(snapshot: EbpfSnapshot, cpus: Seq<u32>, cpu: u32)
    requires
        cpus.no_duplicates(),
    ensures
        0 < busy(snapshot, cpu),
        used_by(core_times(snapshot), cpu) <= busy(snapshot, cpu),
        0 < busy_product(snapshot, cpus),
        0 < busy_others(snapshot, cpus, cpu),
        busy_product(snapshot, cpus) == if cpus.contains(cpu) {
            busy_others(snapshot, cpus, cpu) * busy(snapshot, cpu)
        } else {
            busy_others(snapshot, cpus, cpu)
        },
    decreases cpus.len(),
{
    if cpus.len() > 0 {
        let rest = cpus.drop_last();
        let last = cpus.last();
        assert(rest.no_duplicates());
        lemma_busy(snapshot, rest, cpu);
        let (p, o, b, l) = (
            busy_product(snapshot, rest),
            busy_others(snapshot, rest, cpu),
            busy(snapshot, cpu),
            busy(snapshot, last),
        );
        assert(p * l > 0 && o * l > 0) by (nonlinear_arith)
            requires
                p > 0,
                o > 0,
                l > 0,
        ;
        assert(cpus[cpus.len() - 1] == last);
        if last == cpu {
            assert(!rest.contains(cpu)) by {
                if rest.contains(cpu) {
                    let i = rest.index_of(cpu);
                    assert(cpus[i] == cpus[cpus.len() - 1]);
                }
            }
            assert(cpus.contains(cpu));
        } else {
            assert((o * b) * l == (o * l) * b) by (nonlinear_arith);
            assert(cpus.contains(cpu) == rest.contains(cpu)) by {
                if cpus.contains(cpu) {
                    let i = cpus.index_of(cpu);
                    assert(rest[i] == cpu);
                }
                if rest.contains(cpu) {
                    let i = rest.index_of(cpu);
                    assert(cpus[i] == cpu);
                }
            }
        }
    }
}

proof fn lemma_run_cores(times: Seq<(u32, u32, u64)>)
    ensures
        run_cores(times).no_duplicates(),
        forall|i: int|
            0 <= i < times.len() ==> run_cores(times).contains((#[trigger] times[i]).0),
    decreases times.len(),
{
    if times.len() > 0 {
        let d = times.drop_last();
        lemma_run_cores(d);
        let before = run_cores(d);
        let all = run_cores(times);
        assert forall|i: int| 0 <= i < times.len() implies all.contains(
            (#[trigger] times[i]).0,
        ) by {
            if i < d.len() {
                assert(before.contains(d[i].0));
                let k = before.index_of(d[i].0);
                assert(all[k] == times[i].0);
            } else if !before.contains(times[i].0) {
                assert(all[before.len() as int] == times[i].0);
            }
        }
    }
}

/// A process's part of all is its core's part of all weights, by its part of the core's time: over
/// the common denominator it is `weight × time / (all weights × all time on the core)`.
pub proof fn law_process_part(snapshot: EbpfSnapshot, i: int)
    requires
        0 <= i < snapshot.pid_cpu_times@.len(),
        used_by(core_times(snapshot), snapshot.pid_cpu_times@[i].0) > 0,
    ensures
        ({
            let (cpu, _, time) = snapshot.pid_cpu_times@[i];
            process_parts(snapshot)[i].1 * (used(weight_list(snapshot)) * used_by(
                core_times(snapshot),
                cpu,
            )) == (used_by(weight_list(snapshot), cpu) * time) * all_parts(snapshot)
        }),
{
    let times = snapshot.pid_cpu_times@;
    let (cpu, _, time) = times[i];
    let cpus = run_cores(times);
    lemma_run_cores(times);
    lemma_busy(snapshot, cpus, cpu);
    assert(cpus.contains(times[i].0));
    let (w, o, t, u, b) = (
        used_by(weight_list(snapshot), cpu),
        busy_others(snapshot, cpus, cpu),
        time as int,
        used(weight_list(snapshot)),
        busy(snapshot, cpu),
    );
    assert(((w * o) * t) * (u * b) == (w * t) * (u * (o * b))) by (nonlinear_arith);
}

proof fn lemma_core_factor(snapshot: EbpfSnapshot, cpu: u32)
    ensures
        0 <= core_factor(snapshot, cpu),
{
    lemma_weights_natural(snapshot);
    lemma_used(weight_list(snapshot), cpu);
    let cpus = run_cores(snapshot.pid_cpu_times@);
    lemma_run_cores(snapshot.pid_cpu_times@);
    lemma_busy(snapshot, cpus, cpu);
    let (w, o) = (used_by(weight_list(snapshot), cpu), busy_others(snapshot, cpus, cpu));
    assert(0 <= w * o) by (nonlinear_arith)
        requires
            0 <= w,
            0 < o,
    ;
}

proof fn lemma_parts_natural(snapshot: EbpfSnapshot)
    ensures
        natural_amounts(process_parts(snapshot)),
{
    let list = process_parts(snapshot);
    assert forall|i: int| 0 <= i < list.len() implies 0 <= (#[trigger] list[i]).1 by {
        let e = snapshot.pid_cpu_times@[i];
        lemma_core_factor(snapshot, e.0);
        let (f, t) = (core_factor(snapshot, e.0), e.2 as int);
        assert(0 <= f * t) by (nonlinear_arith)
            requires
                0 <= f,
                0 <= t,
        ;
    }
}

proof fn lemma_core_parts(snapshot: EbpfSnapshot, cpu: u32, n: int)
    requires
        0 <= n <= snapshot.pid_cpu_times@.len(),
    ensures
        used_by(process_parts(snapshot).take(n), cpu) == core_factor(snapshot, cpu) * used_by(
            core_times(snapshot).take(n),
            cpu,
        ),
    decreases n,
{
    let f = core_factor(snapshot, cpu);
    if n > 0 {
        lemma_core_parts(snapshot, cpu, n - 1);
        let (p, t) = (process_parts(snapshot).take(n), core_times(snapshot).take(n));
        assert(p.drop_last() =~= process_parts(snapshot).take(n - 1));
        assert(t.drop_last() =~= core_times(snapshot).take(n - 1));
        let (a, b) = (used_by(t.drop_last(), cpu), t.last().1);
        assert(f * (a + b) == f * a + f * b) by (nonlinear_arith);
    } else {
        assert(f * 0 == 0);
    }
}

/// The processes on one core together have no more than the core's part of all weights.
pub proof fn law_core_parts_conserve(snapshot: EbpfSnapshot, cpu: u32)
    requires
        run_cores(snapshot.pid_cpu_times@).contains(cpu),
    ensures
        0 <= used_by(process_parts(snapshot), cpu) <= used_by(weight_list(snapshot), cpu)
            * busy_product(snapshot, run_cores(snapshot.pid_cpu_times@)),
{
    let times = snapshot.pid_cpu_times@;
    let n = times.len() as int;
    let cpus = run_cores(times);
    lemma_run_cores(times);
    lemma_busy(snapshot, cpus, cpu);
    lemma_core_parts(snapshot, cpu, n);
    assert(process_parts(snapshot).take(n) =~= process_parts(snapshot));
    assert(core_times(snapshot).take(n) =~= core_times(snapshot));
    lemma_parts_natural(snapshot);
    lemma_used(process_parts(snapshot), cpu);
    lemma_weights_natural(snapshot);
    lemma_used(weight_list(snapshot), cpu);
    let (w, o, t, b) = (
        used_by(weight_list(snapshot), cpu),
        busy_others(snapshot, cpus, cpu),
        used_by(core_times(snapshot), cpu),
        busy(snapshot, cpu),
    );
    assert((w * o) * t <= w * (o * b)) by (nonlinear_arith)
        requires
            0 <= w,
            0 < o,
            t <= b,
    ;
}

proof fn lemma_cores_parts(snapshot: EbpfSnapshot, cpus: Seq<u32>)
    requires
        forall|i: int|
            0 <= i < cpus.len() ==> run_cores(snapshot.pid_cpu_times@).contains(#[trigger] cpus[i]),
    ensures
        used_by_all(process_parts(snapshot), cpus) <= used_by_all(weight_list(snapshot), cpus)
            * busy_product(snapshot, run_cores(snapshot.pid_cpu_times@)),
    decreases cpus.len(),
{
    let p = busy_product(snapshot, run_cores(snapshot.pid_cpu_times@));
    if cpus.len() > 0 {
        let rest = cpus.drop_last();
        let cpu = cpus[cpus.len() - 1];
        assert forall|i: int| 0 <= i < rest.len() implies run_cores(
            snapshot.pid_cpu_times@,
        ).contains(#[trigger] rest[i]) by {
            assert(rest[i] == cpus[i]);
        }
        lemma_cores_parts(snapshot, rest);
        law_core_parts_conserve(snapshot, cpu);
        let (a, b) = (
            used_by_all(weight_list(snapshot), rest),
            used_by(weight_list(snapshot), cpu),
        );
        assert((a + b) * p == a * p + b * p) by (nonlinear_arith);
    } else {
        assert(0 * p == 0);
    }
}

/// The pods never get more CPU power than the node has: all of its processes together, also
/// those that belong to no pod, have no more than all parts.
pub proof fn law_weighted_power_conserves(
    snapshot: EbpfSnapshot,
    pid_pods: Seq<(u32, PodProcess)>,
)
    ensures
        natural_amounts(part_list(snapshot, pid_pods, snapshot.pid_cpu_times@.len() as int)),
        0 <= used(part_list(snapshot, pid_pods, snapshot.pid_cpu_times@.len() as int)) <= used(
            process_parts(snapshot),
        ) <= all_parts(snapshot),
{
    let times = snapshot.pid_cpu_times@;
    let n = times.len() as int;
    let parts = process_parts(snapshot);
    let weights = weight_list(snapshot);
    let cpus = run_cores(times);
    lemma_run_cores(times);
    lemma_parts_natural(snapshot);
    lemma_weights_natural(snapshot);
    lemma_pods_below(snapshot, pid_pods, n);
    assert(parts.take(n) =~= parts);
    assert forall|k: u32| #[trigger] mentions(parts, k) implies cpus.contains(k) by {
        let i = choose|i: int| 0 <= i < parts.len() && (#[trigger] parts[i]).0 == k;
        assert(cpus.contains(times[i].0));
    }
    law_tally(parts, cpus);
    law_tally(weights, cpus);
    assert forall|i: int| 0 <= i < cpus.len() implies run_cores(times).contains(
        #[trigger] cpus[i],
    ) by {}
    lemma_cores_parts(snapshot, cpus);
    lemma_busy(snapshot, cpus, 0);
    let (some, whole, p) = (
        used_by_all(weights, cpus),
        used(weights),
        busy_product(snapshot, cpus),
    );
    assert(some * p <= whole * p) by (nonlinear_arith)
        requires
            some <= whole,
            0 < p,
    ;
}

proof fn lemma_pods_below(snapshot: EbpfSnapshot, pid_pods: Seq<(u32, PodProcess)>, n: int)
    requires
        0 <= n <= snapshot.pid_cpu_times@.len(),
    ensures
        natural_amounts(part_list(snapshot, pid_pods, n)),
        0 <= used(part_list(snapshot, pid_pods, n)) <= used(process_parts(snapshot).take(n)),
    decreases n,
{
    let all = process_parts(snapshot);
    let list = part_list(snapshot, pid_pods, n);
    if n > 0 {
        lemma_pods_below(snapshot, pid_pods, n - 1);
        let before = part_list(snapshot, pid_pods, n - 1);
        assert(all.take(n).drop_last() =~= all.take(n - 1));
        lemma_parts_natural(snapshot);
        assert(all[n - 1].1 >= 0);
        if lookup(pid_pods, snapshot.pid_cpu_times@[n - 1].1) is Some {
            assert(list.drop_last() =~= before);
        }
        assert(natural_amounts(list));
    }
}

/// The weight of each observation, under its core.
fn list_weights(snapshot: &EbpfSnapshot) -> (r: Vec<(u32, u128)>)
    ensures
        word_list(r@) == weight_list(*snapshot),
{
    let ghost all = weight_list(*snapshot);
    let by_freq: bool = snapshot.cpu_freq_times.len() > 0;
    let n: usize = if by_freq {
        snapshot.cpu_freq_times.len()
    } else {
        snapshot.pid_cpu_times.len()
    };
    let mut r: Vec<(u32, u128)> = Vec::new();
    let mut i: usize = 0;
    while i < n
        invariant
            i <= n == all.len(),
            by_freq == (snapshot.cpu_freq_times@.len() > 0),
            all == weight_list(*snapshot),
            word_list(r@) == all.take(i as int),
        decreases n - i,
    {
        let ghost before = word_list(r@);
        let (cpu, weight): (u32, u128) = if by_freq {
            (
                snapshot.cpu_freq_times[i].0,
                time_at_frequency(snapshot.cpu_freq_times[i].2, snapshot.cpu_freq_times[i].1),
            )
        } else {
            (snapshot.pid_cpu_times[i].0, snapshot.pid_cpu_times[i].2 as u128)
        };
        r.push((cpu, weight));
        i = i + 1;
        assert(word_list(r@) =~= before.push((cpu, weight as int)));
        assert(word_list(r@) =~= all.take(i as int));
    }
    assert(word_list(r@) =~= all);
    r
}

/// Amounts under cores.
spec fn word_list(v: Seq<(u32, u128)>) -> Seq<(u32, int)> {
    v.map_values(|e: (u32, u128)| (e.0, e.1 as int))
}

/// All amounts added up.
fn sum_all(v: &Vec<(u32, u128)>) -> (r: Wide)
    ensures
        r@ == used(word_list(v@)),
{
    let ghost all = word_list(v@);
    let mut sum: Wide = Wide::zero();
    let mut i: usize = 0;
    while i < v.len()
        invariant
            i <= v@.len(),
            all == word_list(v@),
            sum@ == used(all.take(i as int)),
        decreases v@.len() - i,
    {
        assert(all.take(i + 1).drop_last() =~= all.take(i as int));
        sum = sum.plus(&Wide::from_wide(v[i].1));
        i = i + 1;
    }
    assert(all.take(i as int) =~= all);
    sum
}

/// The amounts under one core added up.
fn sum_core(v: &Vec<(u32, u128)>, cpu: u32) -> (r: Wide)
    ensures
        r@ == used_by(word_list(v@), cpu),
{
    let ghost all = word_list(v@);
    let mut sum: Wide = Wide::zero();
    let mut i: usize = 0;
    while i < v.len()
        invariant
            i <= v@.len(),
            all == word_list(v@),
            sum@ == used_by(all.take(i as int), cpu),
        decreases v@.len() - i,
    {
        assert(all.take(i + 1).drop_last() =~= all.take(i as int));
        if v[i].0 == cpu {
            sum = sum.plus(&Wide::from_wide(v[i].1));
        }
        i = i + 1;
    }
    assert(all.take(i as int) =~= all);
    sum
}

/// The time that each process ran, under its core.
fn list_core_times(snapshot: &EbpfSnapshot) -> (r: Vec<(u32, u128)>)
    ensures
        word_list(r@) == core_times(*snapshot),
{
    let ghost all = core_times(*snapshot);
    let mut r: Vec<(u32, u128)> = Vec::new();
    let mut i: usize = 0;
    while i < snapshot.pid_cpu_times.len()
        invariant
            i <= snapshot.pid_cpu_times@.len(),
            all == core_times(*snapshot),
            word_list(r@) == all.take(i as int),
        decreases snapshot.pid_cpu_times@.len() - i,
    {
        let ghost before = word_list(r@);
        let (cpu, _, time_ns): (u32, u32, u64) = snapshot.pid_cpu_times[i];
        r.push((cpu, time_ns as u128));
        i = i + 1;
        assert(word_list(r@) =~= before.push((cpu, time_ns as int)));
        assert(word_list(r@) =~= all.take(i as int));
    }
    assert(word_list(r@) =~= all);
    r
}

/// What a core's times are measured against, under each core on which a process ran.
fn list_busy(snapshot: &EbpfSnapshot) -> (r: Vec<(u32, Wide)>)
    ensures
        r@.len() == run_cores(snapshot.pid_cpu_times@).len(),
        forall|i: int|
            0 <= i < r@.len() ==> (#[trigger] r@[i]).0 == run_cores(snapshot.pid_cpu_times@)[i]
                && r@[i].1@ == busy(*snapshot, r@[i].0),
{
    let times: Vec<(u32, u128)> = list_core_times(snapshot);
    let mut r: Vec<(u32, Wide)> = Vec::new();
    let mut i: usize = 0;
    proof {
        lemma_weights_natural(*snapshot);
    }
    while i < snapshot.pid_cpu_times.len()
        invariant
            i <= snapshot.pid_cpu_times@.len(),
            word_list(times@) == core_times(*snapshot),
            natural_amounts(core_times(*snapshot)),
            r@.len() == run_cores(snapshot.pid_cpu_times@.take(i as int)).len(),
            forall|j: int|
                0 <= j < r@.len() ==> (#[trigger] r@[j]).0 == run_cores(
                    snapshot.pid_cpu_times@.take(i as int),
                )[j] && r@[j].1@ == busy(*snapshot, r@[j].0),
        decreases snapshot.pid_cpu_times@.len() - i,
    {
        let cpu: u32 = snapshot.pid_cpu_times[i].0;
        let ghost before = run_cores(snapshot.pid_cpu_times@.take(i as int));
        assert(snapshot.pid_cpu_times@.take(i + 1).drop_last() =~= snapshot.pid_cpu_times@.take(
            i as int,
        ));
        proof {
            lemma_position(r@, cpu);
            if before.contains(cpu) {
                let k = before.index_of(cpu);
                assert(r@[k].0 == cpu);
            }
        }
        if get(&r, &cpu).is_none() {
            let time: Wide = sum_core(&times, cpu);
            proof {
                lemma_used(core_times(*snapshot), cpu);
            }
            if time.is_zero() {
                r.push((cpu, Wide::from_wide(1)));
            } else {
                r.push((cpu, time));
            }
        }
        i = i + 1;
    }
    assert(snapshot.pid_cpu_times@.take(i as int) =~= snapshot.pid_cpu_times@);
    r
}

/// What the times on all cores are measured against, multiplied, but for one core if it is given.
fn multiply_busy(
    snapshot: &EbpfSnapshot,
    list: &Vec<(u32, Wide)>,
    but: Option<u32>,
) -> (r: Wide)
    requires
        list@.len() == run_cores(snapshot.pid_cpu_times@).len(),
        forall|i: int|
            0 <= i < list@.len() ==> (#[trigger] list@[i]).0 == run_cores(
                snapshot.pid_cpu_times@,
            )[i] && list@[i].1@ == busy(*snapshot, list@[i].0),
    ensures
        r@ == match but {
            Some(cpu) => busy_others(*snapshot, run_cores(snapshot.pid_cpu_times@), cpu),
            None => busy_product(*snapshot, run_cores(snapshot.pid_cpu_times@)),
        },
{
    let ghost cpus = run_cores(snapshot.pid_cpu_times@);
    let mut r: Wide = Wide::from_wide(1);
    let mut i: usize = 0;
    while i < list.len()
        invariant
            i <= list@.len() == cpus.len(),
            forall|j: int|
                0 <= j < list@.len() ==> (#[trigger] list@[j]).0 == cpus[j] && list@[j].1@ == busy(
                    *snapshot,
                    list@[j].0,
                ),
            r@ == match but {
                Some(cpu) => busy_others(*snapshot, cpus.take(i as int), cpu),
                None => busy_product(*snapshot, cpus.take(i as int)),
            },
        decreases list@.len() - i,
    {
        assert(cpus.take(i + 1).drop_last() =~= cpus.take(i as int));
        let left_out: bool = match but {
            Some(cpu) => list[i].0 == cpu,
            None => false,
        };
        if !left_out {
            r = r.times(&list[i].1);
        }
        i = i + 1;
    }
    assert(cpus.take(i as int) =~= cpus);
    r
}

/// What one unit of time on each core counts for.
fn list_factors(
    snapshot: &EbpfSnapshot,
    weights: &Vec<(u32, u128)>,
    list: &Vec<(u32, Wide)>,
) -> (r: Vec<(u32, Wide)>)
    requires
        word_list(weights@) == weight_list(*snapshot),
        list@.len() == run_cores(snapshot.pid_cpu_times@).len(),
        forall|i: int|
            0 <= i < list@.len() ==> (#[trigger] list@[i]).0 == run_cores(
                snapshot.pid_cpu_times@,
            )[i] && list@[i].1@ == busy(*snapshot, list@[i].0),
    ensures
        r@.len() == list@.len(),
        forall|i: int|
            0 <= i < r@.len() ==> (#[trigger] r@[i]).0 == list@[i].0 && r@[i].1@ == core_factor(
                *snapshot,
                list@[i].0,
            ),
{
    let mut r: Vec<(u32, Wide)> = Vec::new();
    let mut i: usize = 0;
    while i < list.len()
        invariant
            i <= list@.len(),
            word_list(weights@) == weight_list(*snapshot),
            list@.len() == run_cores(snapshot.pid_cpu_times@).len(),
            forall|j: int|
                0 <= j < list@.len() ==> (#[trigger] list@[j]).0 == run_cores(
                    snapshot.pid_cpu_times@,
                )[j] && list@[j].1@ == busy(*snapshot, list@[j].0),
            r@.len() == i,
            forall|j: int|
                0 <= j < i ==> (#[trigger] r@[j]).0 == list@[j].0 && r@[j].1@ == core_factor(
                    *snapshot,
                    list@[j].0,
                ),
        decreases list@.len() - i,
    {
        let cpu: u32 = list[i].0;
        let weight: Wide = sum_core(weights, cpu);
        let others: Wide = multiply_busy(snapshot, list, Some(cpu));
        r.push((cpu, weight.times(&others)));
        i = i + 1;
    }
    r
}

/// Lists the parts of the processes that belong to pods, each under its pod.
fn list_parts(
    snapshot: &EbpfSnapshot,
    pid_pods: &Vec<(u32, PodProcess)>,
    factors: &Vec<(u32, Wide)>,
) -> (r: Vec<(String, Wide)>)
    requires
        factors@.len() == run_cores(snapshot.pid_cpu_times@).len(),
        forall|i: int|
            0 <= i < factors@.len() ==> (#[trigger] factors@[i]).0 == run_cores(
                snapshot.pid_cpu_times@,
            )[i] && factors@[i].1@ == core_factor(*snapshot, factors@[i].0),
    ensures
        wide_usage(r@) == part_list(
            *snapshot,
            pid_pods@,
            snapshot.pid_cpu_times@.len() as int,
        ),
{
    let ghost cpus = run_cores(snapshot.pid_cpu_times@);
    let mut r: Vec<(String, Wide)> = Vec::new();
    let mut i: usize = 0;
    assert(wide_usage(r@) =~= Seq::empty());
    proof {
        lemma_run_cores(snapshot.pid_cpu_times@);
    }
    while i < snapshot.pid_cpu_times.len()
        invariant
            i <= snapshot.pid_cpu_times@.len(),
            cpus == run_cores(snapshot.pid_cpu_times@),
            factors@.len() == cpus.len(),
            forall|j: int|
                0 <= j < factors@.len() ==> (#[trigger] factors@[j]).0 == cpus[j]
                    && factors@[j].1@ == core_factor(*snapshot, factors@[j].0),
            forall|j: int|
                0 <= j < snapshot.pid_cpu_times@.len() ==> cpus.contains(
                    (#[trigger] snapshot.pid_cpu_times@[j]).0,
                ),
            wide_usage(r@) == part_list(*snapshot, pid_pods@, i as int),
        decreases snapshot.pid_cpu_times@.len() - i,
    {
        let (cpu, pid, time_ns): (u32, u32, u64) = snapshot.pid_cpu_times[i];
        let ghost before = wide_usage(r@);
        proof {
            assert(cpus.contains(snapshot.pid_cpu_times@[i as int].0));
            let k = cpus.index_of(cpu);
            assert(factors@[k].0 == cpu);
            lemma_position(factors@, cpu);
        }
        match get(pid_pods, &pid) {
            Some(p) => {
                let factor: Option<&Wide> = get(factors, &cpu);
                let part: Wide = factor.unwrap().times(&Wide::from_wide(time_ns as u128));
                assert(part@ == process_parts(*snapshot)[i as int].1);
                let ghost amount = part@;
                r.push((p.pod_uid.clone(), part));
                assert(wide_usage(r@) =~= before.push((p.pod_uid@, amount)));
            },
            None => {},
        }
        i = i + 1;
    }
    r
}

/// Shares a node's power out to its pods: CPU power by the time that their processes ran on each
/// core, weighted by the frequencies at which the core ran; memory power by the memory that they
/// hold (60%) and their last-level cache misses (40%), out of `total_llc_misses`, or by memory
/// alone where none were counted. No pod is reported where nothing ran.
///
/// A pod's CPU power is rounded once, down to whole microwatts.
pub fn enumerate_pods_ebpf_weighted(
    node_name: &str,
    total_cpu_uw: u64,
    total_mem_uw: u64,
    total_llc_misses: u128,
    pod_cache: &Vec<(String, PodInfo)>,
    snapshot: &EbpfSnapshot,
    pid_pods: &Vec<(u32, PodProcess)>,
    now_ns: u64,
) -> (r: Vec<PodPowerReport>)
    requires
        pid_pods@.len() <= u32::MAX,
        used(pod_misses(snapshot.pid_hw_counters@, pid_pods@)) <= total_llc_misses <= MAX_WHOLE,
        weighted_shares(
            total_cpu_uw,
            total_mem_uw,
            total_llc_misses as int,
            *snapshot,
            pid_pods@,
        ).in_range(),
    ensures
        used(weight_list(*snapshot)) <= 0 ==> r@.len() == 0,
        used(weight_list(*snapshot)) > 0 ==> are_pod_reports(
            r@,
            node_name@,
            pod_cache@,
            weighted_shares(
                total_cpu_uw,
                total_mem_uw,
                total_llc_misses as int,
                *snapshot,
                pid_pods@,
            ),
            now_ns,
        ),
        reported_cpu(r@) <= total_cpu_uw,
        reported_memory(r@) <= total_mem_uw,
{
    let weights: Vec<(u32, u128)> = list_weights(snapshot);
    let whole: Wide = sum_all(&weights);
    proof {
        lemma_weights_natural(*snapshot);
        lemma_used(weight_list(*snapshot), 0u32);
    }
    if whole.is_zero() {
        return Vec::new();
    }
    let list: Vec<(u32, Wide)> = list_busy(snapshot);
    let factors: Vec<(u32, Wide)> = list_factors(snapshot, &weights, &list);
    let cpu: Vec<(String, Wide)> = list_parts(snapshot, pid_pods, &factors);
    let cpu_whole: Wide = whole.times(&multiply_busy(snapshot, &list, None));
    let memory: Vec<(String, u128)> = list_memory(pid_pods);
    proof {
        law_weighted_power_conserves(*snapshot, pid_pods@);
        lemma_used(usage(memory@), Seq::<char>::empty());
    }
    let memory_whole: u128 = sum_used(&memory);
    let access: Vec<(String, u128)> = widen(&list_misses(&snapshot.pid_hw_counters, pid_pods));
    let plan: Plan = Plan {
        cpu_total_uw: total_cpu_uw,
        cpu,
        cpu_whole,
        access,
        access_whole: total_llc_misses,
        memory,
        memory_whole,
        memory_total_uw: total_mem_uw,
        report_idle: true,
    };
    assert(plan.shares() == weighted_shares(
        total_cpu_uw,
        total_mem_uw,
        total_llc_misses as int,
        *snapshot,
        pid_pods@,
    ));
    report_pods(node_name, pod_cache, &plan, now_ns)
}

/// Where the node's power can be held, so can that of each pod that the kernel saw running.
pub proof fn lemma_weighted_in_range(
    total_cpu_uw: u64,
    total_mem_uw: u64,
    total_llc_misses: int,
    snapshot: EbpfSnapshot,
    pid_pods: Seq<(u32, PodProcess)>,
)
    requires
        total_cpu_uw + total_mem_uw <= u64::MAX,
        used(pod_misses(snapshot.pid_hw_counters@, pid_pods)) <= total_llc_misses,
    ensures
        weighted_shares(
            total_cpu_uw,
            total_mem_uw,
            total_llc_misses,
            snapshot,
            pid_pods,
        ).in_range(),
{
    law_weighted_power_conserves(snapshot, pid_pods);
    lemma_misses(snapshot.pid_hw_counters@, pid_pods);
    weighted_shares(
        total_cpu_uw,
        total_mem_uw,
        total_llc_misses,
        snapshot,
        pid_pods,
    ).lemma_in_range();
}

// ─── What the reports say of the observations ───────────────────

/// What a run counts for by its time, if it was of the pod `uid`.
pub open spec fn ran_for(pid_pods: Seq<(u32, PodProcess)>, uid: Seq<char>) -> spec_fn(
    (u32, u32, u64),
) -> int {
    |e: (u32, u32, u64)|
        if lookup(pid_pods, e.1) is Some && lookup(pid_pods, e.1)->0.pod_uid@ == uid {
            e.2 as int
        } else {
            0
        }
}

/// What a run counts for by its time, if it was of any pod.
pub open spec fn ran_for_pods(pid_pods: Seq<(u32, PodProcess)>) -> spec_fn((u32, u32, u64)) -> int {
    |e: (u32, u32, u64)|
        if lookup(pid_pods, e.1) is Some {
            e.2 as int
        } else {
            0
        }
}

/// What a run counts for by its time.
pub open spec fn ran() -> spec_fn((u32, u32, u64)) -> int {
    |e: (u32, u32, u64)| e.2 as int
}

/// What a run counts for by its time, if it was on a core.
pub open spec fn ran_on(cpu: u32) -> spec_fn((u32, u32, u64)) -> int {
    |e: (u32, u32, u64)|
        if e.0 == cpu {
            e.2 as int
        } else {
            0
        }
}

/// What a time at a frequency counts for: by the square of the frequency.
pub open spec fn clocked() -> spec_fn((u32, u32, u64)) -> int {
    |e: (u32, u32, u64)| e.2 * (e.1 * e.1)
}

/// What a time at a frequency counts for, if it was on a core.
pub open spec fn clocked_on(cpu: u32) -> spec_fn((u32, u32, u64)) -> int {
    |e: (u32, u32, u64)|
        if e.0 == cpu {
            e.2 * (e.1 * e.1)
        } else {
            0
        }
}

/// What a process counts for by the memory it holds, if it is of the pod `uid`.
pub open spec fn holds_for(uid: Seq<char>) -> spec_fn((u32, PodProcess)) -> int {
    |e: (u32, PodProcess)|
        if e.1.pod_uid@ == uid {
            e.1.memory as int
        } else {
            0
        }
}

/// What a process counts for by the memory it holds.
pub open spec fn holds() -> spec_fn((u32, PodProcess)) -> int {
    |e: (u32, PodProcess)| e.1.memory as int
}

/// What a process counts for by its cache misses on a core, if it is of the pod `uid`.
pub open spec fn missed_for(pid_pods: Seq<(u32, PodProcess)>, uid: Seq<char>) -> spec_fn(
    ((u32, u32), (u64, u64, u64)),
) -> int {
    |e: ((u32, u32), (u64, u64, u64))|
        if lookup(pid_pods, e.0.1) is Some && lookup(pid_pods, e.0.1)->0.pod_uid@ == uid {
            e.1.2 as int
        } else {
            0
        }
}

/// What a process counts for by its cache misses on a core.
pub open spec fn missed() -> spec_fn(((u32, u32), (u64, u64, u64))) -> int {
    |e: ((u32, u32), (u64, u64, u64))| e.1.2 as int
}

proof fn lemma_time_list(
    times: Seq<(u32, u32, u64)>,
    pid_pods: Seq<(u32, PodProcess)>,
    uid: Seq<char>,
)
    ensures
        used_by(time_list(times, pid_pods), uid) == sum_of(times, ran_for(pid_pods, uid)),
        used(time_list(times, pid_pods)) == sum_of(times, ran_for_pods(pid_pods)),
        natural_amounts(time_list(times, pid_pods)),
    decreases times.len(),
{
    if times.len() > 0 {
        lemma_time_list(times.drop_last(), pid_pods, uid);
        let before = time_list(times.drop_last(), pid_pods);
        if lookup(pid_pods, times.last().1) is Some {
            assert(time_list(times, pid_pods).drop_last() =~= before);
        }
    }
}

proof fn lemma_memory_list(pid_pods: Seq<(u32, PodProcess)>, uid: Seq<char>)
    ensures
        used_by(memory_list(pid_pods), uid) == sum_of(pid_pods, holds_for(uid)),
        used(memory_list(pid_pods)) == sum_of(pid_pods, holds()),
        natural_amounts(memory_list(pid_pods)),
{
    lemma_used_by_sum(memory_list(pid_pods), uid, pid_pods, holds_for(uid));
    lemma_used_sum(memory_list(pid_pods), pid_pods, holds());
}

pub proof fn lemma_miss_sums(
    counters: Seq<((u32, u32), (u64, u64, u64))>,
    pid_pods: Seq<(u32, PodProcess)>,
    uid: Seq<char>,
)
    ensures
        used_by(pod_misses(counters, pid_pods), uid) == sum_of(counters, missed_for(pid_pods, uid)),
        all_misses(counters) == sum_of(counters, missed()),
    decreases counters.len(),
{
    if counters.len() > 0 {
        lemma_miss_sums(counters.drop_last(), pid_pods, uid);
        let before = pod_misses(counters.drop_last(), pid_pods);
        if lookup(pid_pods, counters.last().0.1) is Some {
            assert(pod_misses(counters, pid_pods).drop_last() =~= before);
        }
    }
}

/// By run time: a pod's CPU power is to the node's as the time that its processes ran is to the
/// time that those of all pods ran, and its memory power is to the node's as the memory that its
/// processes hold is to what those of all pods hold; both are rounded down.
pub proof fn law_time_decides(
    r: Seq<PodPowerReport>,
    node_name: Seq<char>,
    cache: Seq<(String, PodInfo)>,
    total_cpu_uw: u64,
    total_mem_uw: u64,
    snapshot: EbpfSnapshot,
    pid_pods: Seq<(u32, PodProcess)>,
    now_ns: u64,
    i: int,
)
    requires
        are_pod_reports(
            r,
            node_name,
            cache,
            time_shares(total_cpu_uw, total_mem_uw, snapshot, pid_pods),
            now_ns,
        ),
        0 <= i < r.len(),
    ensures
        ({
            let times = snapshot.pid_cpu_times@;
            let all = sum_of(times, ran_for_pods(pid_pods));
            let own = sum_of(times, ran_for(pid_pods, r[i].pod_uid@));
            if all > 0 {
                r[i].cpu_uw * all <= total_cpu_uw * own < (r[i].cpu_uw + 1) * all
            } else {
                r[i].cpu_uw == 0
            }
        }),
        ({
            let all = sum_of(pid_pods, holds());
            let own = sum_of(pid_pods, holds_for(r[i].pod_uid@));
            if all > 0 {
                r[i].memory_uw * all <= total_mem_uw * own < (r[i].memory_uw + 1) * all
            } else {
                r[i].memory_uw == 0
            }
        }),
        r[i].total_uw == r[i].cpu_uw + r[i].memory_uw,
{
    let uid = r[i].pod_uid@;
    let times = snapshot.pid_cpu_times@;
    lemma_time_list(times, pid_pods, uid);
    lemma_memory_list(pid_pods, uid);
    let (cpu, memory) = (time_list(times, pid_pods), memory_list(pid_pods));
    lemma_used(cpu, uid);
    lemma_used(memory, uid);
    if used(cpu) > 0 {
        law_share(total_cpu_uw as int, used_by(cpu, uid), used(cpu));
    }
    if used(memory) > 0 {
        law_share(total_mem_uw as int, used_by(memory, uid), used(memory));
    }
}

/// What the observations on a core weigh: times at frequencies by the square of the frequency, or
/// without any, the times that processes ran on it.
pub open spec fn observed_weight(snapshot: EbpfSnapshot, cpu: u32) -> int {
    if snapshot.cpu_freq_times@.len() > 0 {
        sum_of(snapshot.cpu_freq_times@, clocked_on(cpu))
    } else {
        sum_of(snapshot.pid_cpu_times@, ran_on(cpu))
    }
}

/// What all observations weigh.
pub open spec fn all_observed_weight(snapshot: EbpfSnapshot) -> int {
    if snapshot.cpu_freq_times@.len() > 0 {
        sum_of(snapshot.cpu_freq_times@, clocked())
    } else {
        sum_of(snapshot.pid_cpu_times@, ran())
    }
}

proof fn lemma_observed_weight(snapshot: EbpfSnapshot, cpu: u32)
    ensures
        used_by(weight_list(snapshot), cpu) == observed_weight(snapshot, cpu),
        used(weight_list(snapshot)) == all_observed_weight(snapshot),
        used_by(core_times(snapshot), cpu) == sum_of(snapshot.pid_cpu_times@, ran_on(cpu)),
{
    let (freqs, times) = (snapshot.cpu_freq_times@, snapshot.pid_cpu_times@);
    if freqs.len() > 0 {
        lemma_used_by_sum(weight_list(snapshot), cpu, freqs, clocked_on(cpu));
        lemma_used_sum(weight_list(snapshot), freqs, clocked());
    } else {
        lemma_used_sum(weight_list(snapshot), times, ran());
    }
    lemma_used_by_sum(core_times(snapshot), cpu, times, ran_on(cpu));
}

/// What a run of the pod `uid` counts for, by what a unit of time counts for on each core.
pub open spec fn worth_for(
    pid_pods: Seq<(u32, PodProcess)>,
    uid: Seq<char>,
    worth: spec_fn(u32) -> int,
) -> spec_fn((u32, u32, u64)) -> int {
    |e: (u32, u32, u64)|
        if lookup(pid_pods, e.1) is Some && lookup(pid_pods, e.1)->0.pod_uid@ == uid {
            worth(e.0) * e.2
        } else {
            0
        }
}

/// Whether `worth` is what a unit of time on each core counts for, out of `whole` in all: the
/// core's part of all weights, by the time that processes ran on it.
pub open spec fn is_worth(snapshot: EbpfSnapshot, worth: spec_fn(u32) -> int, whole: int) -> bool {
    forall|cpu: u32|
        sum_of(snapshot.pid_cpu_times@, ran_on(cpu)) > 0 ==> #[trigger] worth(cpu) * (
        all_observed_weight(snapshot) * sum_of(snapshot.pid_cpu_times@, ran_on(cpu)))
            == observed_weight(snapshot, cpu) * whole
}

proof fn lemma_worth(
    snapshot: EbpfSnapshot,
    pid_pods: Seq<(u32, PodProcess)>,
    uid: Seq<char>,
    worth: spec_fn(u32) -> int,
    whole: int,
    n: int,
)
    requires
        0 <= n <= snapshot.pid_cpu_times@.len(),
        all_observed_weight(snapshot) > 0,
        is_worth(snapshot, worth, whole),
    ensures
        used_by(part_list(snapshot, pid_pods, n), uid) * whole == sum_of(
            snapshot.pid_cpu_times@.take(n),
            worth_for(pid_pods, uid, worth),
        ) * all_parts(snapshot),
    decreases n,
{
    let times = snapshot.pid_cpu_times@;
    if n > 0 {
        lemma_worth(snapshot, pid_pods, uid, worth, whole, n - 1);
        let before = part_list(snapshot, pid_pods, n - 1);
        let list = part_list(snapshot, pid_pods, n);
        assert(times.take(n).drop_last() =~= times.take(n - 1));
        let e = times[n - 1];
        assert(times.take(n).last() == e);
        lemma_one_worth(snapshot, worth, whole, n - 1);
        let (a, b, p, q, x) = (
            used_by(before, uid),
            sum_of(times.take(n - 1), worth_for(pid_pods, uid, worth)),
            process_parts(snapshot)[n - 1].1,
            worth(e.0) * e.2,
            all_parts(snapshot),
        );
        if lookup(pid_pods, e.1) is Some {
            assert(list.drop_last() =~= before);
        }
        assert((a + p) * whole == a * whole + p * whole) by (nonlinear_arith);
        assert((b + q) * x == b * x + q * x) by (nonlinear_arith);
    } else {
        assert(times.take(0) =~= Seq::empty());
        assert(0 * whole == 0 * all_parts(snapshot));
    }
}

proof fn lemma_one_worth(snapshot: EbpfSnapshot, worth: spec_fn(u32) -> int, whole: int, i: int)
    requires
        0 <= i < snapshot.pid_cpu_times@.len(),
        all_observed_weight(snapshot) > 0,
        is_worth(snapshot, worth, whole),
    ensures
        process_parts(snapshot)[i].1 * whole == (worth(snapshot.pid_cpu_times@[i].0)
            * snapshot.pid_cpu_times@[i].2) * all_parts(snapshot),
{
    let times = snapshot.pid_cpu_times@;
    let (cpu, _, time) = times[i];
    lemma_observed_weight(snapshot, cpu);
    lemma_sum_natural(times, ran_on(cpu));
    let on_core = sum_of(times, ran_on(cpu));
    assert(ran_on(cpu)(times[i]) <= on_core);
    let (p, q, t, x) = (
        process_parts(snapshot)[i].1,
        worth(cpu),
        time as int,
        all_parts(snapshot),
    );
    if on_core > 0 {
        law_process_part(snapshot, i);
        let (w, c) = (all_observed_weight(snapshot), observed_weight(snapshot, cpu));
        let d = w * on_core;
        assert(q * d == c * whole);
        assert(p * d == (c * t) * x);
        assert(0 < d) by (nonlinear_arith)
            requires
                0 < w,
                0 < on_core,
                d == w * on_core,
        ;
        assert((p * whole) * d == ((q * t) * x) * d) by (nonlinear_arith)
            requires
                p * d == (c * t) * x,
                q * d == c * whole,
        ;
        assert(p * whole == (q * t) * x) by (nonlinear_arith)
            requires
                (p * whole) * d == ((q * t) * x) * d,
                0 < d,
        ;
    } else {
        let f = core_factor(snapshot, cpu);
        assert(p == f * t);
        assert(f * 0 == 0 && q * 0 == 0 && 0 * x == 0 && 0 * whole == 0);
    }
}

/// By weighted run time: a core's part of the node's CPU power is its part of all weights, and
/// each process has of that its part of the time that processes ran on the core; a pod has what
/// its processes have on all cores, rounded down once. `worth` and `whole` say what a unit of
/// time on each core counts for, over whatever common denominator.
pub proof fn law_weighted_time_decides(
    r: Seq<PodPowerReport>,
    node_name: Seq<char>,
    cache: Seq<(String, PodInfo)>,
    total_cpu_uw: u64,
    total_mem_uw: u64,
    total_llc_misses: int,
    snapshot: EbpfSnapshot,
    pid_pods: Seq<(u32, PodProcess)>,
    now_ns: u64,
    i: int,
    worth: spec_fn(u32) -> int,
    whole: int,
)
    requires
        are_pod_reports(
            r,
            node_name,
            cache,
            weighted_shares(total_cpu_uw, total_mem_uw, total_llc_misses, snapshot, pid_pods),
            now_ns,
        ),
        0 <= i < r.len(),
        all_observed_weight(snapshot) > 0,
        0 < whole,
        is_worth(snapshot, worth, whole),
    ensures
        ({
            let own = sum_of(
                snapshot.pid_cpu_times@,
                worth_for(pid_pods, r[i].pod_uid@, worth),
            );
            r[i].cpu_uw * whole <= total_cpu_uw * own < (r[i].cpu_uw + 1) * whole
        }),
{
    let uid = r[i].pod_uid@;
    let times = snapshot.pid_cpu_times@;
    let n = times.len() as int;
    assert(times.take(n) =~= times);
    lemma_worth(snapshot, pid_pods, uid, worth, whole, n);
    lemma_observed_weight(snapshot, 0);
    law_weighted_power_conserves(snapshot, pid_pods);
    let list = part_list(snapshot, pid_pods, n);
    lemma_used(list, uid);
    lemma_run_cores(times);
    lemma_busy(snapshot, run_cores(times), 0);
    let (w, b, x) = (
        all_observed_weight(snapshot),
        busy_product(snapshot, run_cores(times)),
        all_parts(snapshot),
    );
    assert(0 < x) by (nonlinear_arith)
        requires
            0 < w,
            0 < b,
            x == w * b,
    ;
    law_share(total_cpu_uw as int, used_by(list, uid), x);
    let (s, own, c, t) = (
        used_by(list, uid),
        sum_of(times, worth_for(pid_pods, uid, worth)),
        r[i].cpu_uw as int,
        total_cpu_uw as int,
    );
    assert(c * x <= t * s < (c + 1) * x);
    assert(c * whole <= t * own < (c + 1) * whole) by (nonlinear_arith)
        requires
            c * x <= t * s < (c + 1) * x,
            s * whole == own * x,
            0 < x,
            0 < whole,
    ;
}

/// Without frequency observations a pod's CPU power is to the node's as the time that its
/// processes ran is to all time that processes ran, rounded down. So of two pods the one that
/// ran longer never gets less.
pub proof fn law_run_time_decides(
    r: Seq<PodPowerReport>,
    node_name: Seq<char>,
    cache: Seq<(String, PodInfo)>,
    total_cpu_uw: u64,
    total_mem_uw: u64,
    total_llc_misses: int,
    snapshot: EbpfSnapshot,
    pid_pods: Seq<(u32, PodProcess)>,
    now_ns: u64,
    i: int,
    j: int,
)
    requires
        are_pod_reports(
            r,
            node_name,
            cache,
            weighted_shares(total_cpu_uw, total_mem_uw, total_llc_misses, snapshot, pid_pods),
            now_ns,
        ),
        0 <= i < r.len(),
        0 <= j < r.len(),
        snapshot.cpu_freq_times@.len() == 0,
        sum_of(snapshot.pid_cpu_times@, ran()) > 0,
    ensures
        ({
            let all = sum_of(snapshot.pid_cpu_times@, ran());
            let own = sum_of(snapshot.pid_cpu_times@, ran_for(pid_pods, r[i].pod_uid@));
            r[i].cpu_uw * all <= total_cpu_uw * own < (r[i].cpu_uw + 1) * all
        }),
        sum_of(snapshot.pid_cpu_times@, ran_for(pid_pods, r[i].pod_uid@)) <= sum_of(
            snapshot.pid_cpu_times@,
            ran_for(pid_pods, r[j].pod_uid@),
        ) ==> r[i].cpu_uw <= r[j].cpu_uw,
{
    let times = snapshot.pid_cpu_times@;
    let all = sum_of(times, ran());
    let worth = |cpu: u32| 1int;
    assert forall|cpu: u32| sum_of(times, ran_on(cpu)) > 0 implies #[trigger] worth(cpu) * (
    all_observed_weight(snapshot) * sum_of(times, ran_on(cpu))) == observed_weight(snapshot, cpu)
        * all by {
        let t = sum_of(times, ran_on(cpu));
        assert(1 * (all * t) == t * all) by (nonlinear_arith);
    }
    assert(is_worth(snapshot, worth, all));
    law_weighted_time_decides(
        r,
        node_name,
        cache,
        total_cpu_uw,
        total_mem_uw,
        total_llc_misses,
        snapshot,
        pid_pods,
        now_ns,
        i,
        worth,
        all,
    );
    law_weighted_time_decides(
        r,
        node_name,
        cache,
        total_cpu_uw,
        total_mem_uw,
        total_llc_misses,
        snapshot,
        pid_pods,
        now_ns,
        j,
        worth,
        all,
    );
    let (u, v) = (r[i].pod_uid@, r[j].pod_uid@);
    assert forall|k: int| 0 <= k < times.len() implies worth_for(pid_pods, u, worth)(
        #[trigger] times[k],
    ) == ran_for(pid_pods, u)(times[k]) by {
        assert(worth(times[k].0) * times[k].2 == times[k].2);
    }
    lemma_sum_same(times, worth_for(pid_pods, u, worth), times, ran_for(pid_pods, u));
    assert forall|k: int| 0 <= k < times.len() implies worth_for(pid_pods, v, worth)(
        #[trigger] times[k],
    ) == ran_for(pid_pods, v)(times[k]) by {
        assert(worth(times[k].0) * times[k].2 == times[k].2);
    }
    lemma_sum_same(times, worth_for(pid_pods, v, worth), times, ran_for(pid_pods, v));
    let (a, b, x, y, t) = (
        sum_of(times, ran_for(pid_pods, u)),
        sum_of(times, ran_for(pid_pods, v)),
        r[i].cpu_uw as int,
        r[j].cpu_uw as int,
        total_cpu_uw as int,
    );
    if a <= b {
        assert(x <= y) by (nonlinear_arith)
            requires
                x * all <= t * a,
                t * b < (y + 1) * all,
                a <= b,
                0 <= t,
                0 < all,
        ;
    }
}

/// Memory power goes six tenths by the memory that a pod's processes hold out of what those of all
/// pods hold, and four tenths by their cache misses out of all; where no misses were counted it
/// goes by memory alone.
pub proof fn law_memory_and_misses_decide(
    r: Seq<PodPowerReport>,
    node_name: Seq<char>,
    cache: Seq<(String, PodInfo)>,
    total_cpu_uw: u64,
    total_mem_uw: u64,
    snapshot: EbpfSnapshot,
    pid_pods: Seq<(u32, PodProcess)>,
    now_ns: u64,
    i: int,
)
    requires
        are_pod_reports(
            r,
            node_name,
            cache,
            weighted_shares(
                total_cpu_uw,
                total_mem_uw,
                all_misses(snapshot.pid_hw_counters@),
                snapshot,
                pid_pods,
            ),
            now_ns,
        ),
        0 <= i < r.len(),
    ensures
        ({
            let uid = r[i].pod_uid@;
            let memory = r[i].memory_uw;
            let total = total_mem_uw;
            let held = sum_of(pid_pods, holds());
            let own_held = sum_of(pid_pods, holds_for(uid));
            let misses = sum_of(snapshot.pid_hw_counters@, missed());
            let own_misses = sum_of(snapshot.pid_hw_counters@, missed_for(pid_pods, uid));
            &&& held > 0 && misses == 0 ==> memory * held <= total * own_held < (memory + 1) * held
            &&& held > 0 && misses > 0 ==> memory * (held * misses) * 10 <= total * (6 * (own_held
                * misses) + 4 * (own_misses * held)) < (memory + 1) * (held * misses) * 10
            &&& held == 0 && misses == 0 ==> memory == 0
        }),
{
    let uid = r[i].pod_uid@;
    let counters = snapshot.pid_hw_counters@;
    lemma_memory_list(pid_pods, uid);
    lemma_miss_sums(counters, pid_pods, uid);
    lemma_misses(counters, pid_pods);
    let (memory, access) = (memory_list(pid_pods), pod_misses(counters, pid_pods));
    lemma_used(memory, uid);
    lemma_used(access, uid);
    let (m, a) = (used(memory), all_misses(counters));
    if m > 0 && a == 0 {
        law_share(total_mem_uw as int, used_by(memory, uid), m);
    } else if m > 0 {
        law_blend(total_mem_uw as int, used_by(memory, uid), m, used_by(access, uid), a);
    }
}

/// Whether a process of a pod ran.
pub open spec fn pod_ran(
    times: Seq<(u32, u32, u64)>,
    pid_pods: Seq<(u32, PodProcess)>,
    uid: Seq<char>,
) -> bool {
    exists|k: int|
        0 <= k < times.len() && lookup(pid_pods, (#[trigger] times[k]).1) is Some && lookup(
            pid_pods,
            times[k].1,
        )->0.pod_uid@ == uid
}

proof fn lemma_time_mentions(
    times: Seq<(u32, u32, u64)>,
    pid_pods: Seq<(u32, PodProcess)>,
    uid: Seq<char>,
)
    ensures
        mentions(time_list(times, pid_pods), uid) <==> pod_ran(times, pid_pods, uid),
    decreases times.len(),
{
    if times.len() > 0 {
        let rest = times.drop_last();
        lemma_time_mentions(rest, pid_pods, uid);
        let before = time_list(rest, pid_pods);
        let after = time_list(times, pid_pods);
        let last = times[times.len() - 1];
        if mentions(before, uid) {
            let i = choose|i: int| 0 <= i < before.len() && (#[trigger] before[i]).0 == uid;
            assert(after[i].0 == uid);
            let k = choose|k: int|
                0 <= k < rest.len() && lookup(pid_pods, (#[trigger] rest[k]).1) is Some && lookup(
                    pid_pods,
                    rest[k].1,
                )->0.pod_uid@ == uid;
            assert(times[k] == rest[k]);
        }
        if lookup(pid_pods, last.1) is Some && lookup(pid_pods, last.1)->0.pod_uid@ == uid {
            assert(after[before.len() as int].0 == uid);
        }
        if mentions(after, uid) && !mentions(before, uid) {
            let i = choose|i: int| 0 <= i < after.len() && (#[trigger] after[i]).0 == uid;
            if i < before.len() {
                assert(before[i].0 == uid);
            }
            assert(lookup(pid_pods, last.1) is Some);
        }
        if pod_ran(times, pid_pods, uid) {
            let k = choose|k: int|
                0 <= k < times.len() && lookup(pid_pods, (#[trigger] times[k]).1) is Some
                    && lookup(pid_pods, times[k].1)->0.pod_uid@ == uid;
            if k < rest.len() {
                assert(rest[k] == times[k]);
            }
        }
    }
}

proof fn lemma_part_mentions(
    snapshot: EbpfSnapshot,
    pid_pods: Seq<(u32, PodProcess)>,
    n: int,
    uid: Seq<char>,
)
    requires
        0 <= n <= snapshot.pid_cpu_times@.len(),
        mentions(part_list(snapshot, pid_pods, n), uid),
    ensures
        exists|k: int| 0 <= k < pid_pods.len() && (#[trigger] pid_pods[k]).1.pod_uid@ == uid,
    decreases n,
{
    if n > 0 {
        let before = part_list(snapshot, pid_pods, n - 1);
        let after = part_list(snapshot, pid_pods, n);
        let i = choose|i: int| 0 <= i < after.len() && (#[trigger] after[i]).0 == uid;
        if i < before.len() {
            assert(before[i].0 == uid);
            lemma_part_mentions(snapshot, pid_pods, n - 1, uid);
        } else {
            let pid = snapshot.pid_cpu_times@[n - 1].1;
            lemma_position(pid_pods, pid);
            let k = crate::table::position(pid_pods, pid);
            assert(pid_pods[k].1.pod_uid@ == uid);
        }
    }
}

/// By times alone a pod is told of if one of its processes ran. By weighted times every pod with a
/// known process is, also one that did not run.
pub proof fn law_pods_told(
    by_time: Seq<PodPowerReport>,
    weighted: Seq<PodPowerReport>,
    node_name: Seq<char>,
    cache: Seq<(String, PodInfo)>,
    total_cpu_uw: u64,
    total_mem_uw: u64,
    total_llc_misses: int,
    snapshot: EbpfSnapshot,
    pid_pods: Seq<(u32, PodProcess)>,
    now_ns: u64,
    uid: Seq<char>,
)
    requires
        are_pod_reports(
            by_time,
            node_name,
            cache,
            time_shares(total_cpu_uw, total_mem_uw, snapshot, pid_pods),
            now_ns,
        ),
        are_pod_reports(
            weighted,
            node_name,
            cache,
            weighted_shares(total_cpu_uw, total_mem_uw, total_llc_misses, snapshot, pid_pods),
            now_ns,
        ),
    ensures
        reported(by_time, uid) <==> pod_ran(snapshot.pid_cpu_times@, pid_pods, uid),
        reported(weighted, uid) <==> exists|k: int|
            0 <= k < pid_pods.len() && (#[trigger] pid_pods[k]).1.pod_uid@ == uid,
{
    lemma_time_mentions(snapshot.pid_cpu_times@, pid_pods, uid);
    let n = snapshot.pid_cpu_times@.len() as int;
    let memory = memory_list(pid_pods);
    if mentions(part_list(snapshot, pid_pods, n), uid) {
        lemma_part_mentions(snapshot, pid_pods, n, uid);
    }
    if mentions(memory, uid) {
        let i = choose|i: int| 0 <= i < memory.len() && (#[trigger] memory[i]).0 == uid;
        assert(pid_pods[i].1.pod_uid@ == uid);
    }
    if exists|k: int| 0 <= k < pid_pods.len() && (#[trigger] pid_pods[k]).1.pod_uid@ == uid {
        let k = choose|k: int|
            0 <= k < pid_pods.len() && (#[trigger] pid_pods[k]).1.pod_uid@ == uid;
        assert(memory[k].0 == uid);
    }
    assert(reported(by_time, uid) <==> time_shares(
        total_cpu_uw,
        total_mem_uw,
        snapshot,
        pid_pods,
    ).listed(uid));
    assert(reported(weighted, uid) <==> weighted_shares(
        total_cpu_uw,
        total_mem_uw,
        total_llc_misses,
        snapshot,
        pid_pods,
    ).listed(uid));
}

} // verus!
