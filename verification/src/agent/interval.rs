//! One interval of the agent: which data its pods' power is told by, and when it tidies up.

use super::adjust::{observed_cpu, overridden, override_cpu};
use super::kernel_pods::{
    all_misses, enumerate_pods_ebpf_weighted, law_run_time_decides, lemma_miss_sums, lemma_misses,
    lemma_weighted_in_range, list_misses, missed, missed_for, pod_misses, ran, ran_for, sum_misses,
    weight_list, weighted_shares, PodProcess,
};
use super::pods::{
    are_pod_reports, enumerate_pods, miss_list, reported_cpu, reported_memory, PodInfo, ProcessCaches,
};
use super::procfs::ProcessSample;
use crate::ebpf::EbpfSnapshot;
use crate::report::{pod_reports, PodPowerReport, PodReport};
use crate::sums::{lemma_used_sum, sum_of};
use crate::tally::{used, used_by};
use crate::text::same;
use vstd::prelude::*;

verus! {

/// What the kernel observed in an interval, and the pods of the processes that it saw.
#[derive(Debug)]
pub struct KernelView {
    pub snapshot: EbpfSnapshot,
    pub pid_pods: Vec<(u32, PodProcess)>,
}

/// Whether CPU power goes by what the kernel observed: only where it is estimated. Where it was
/// measured, data by core does not add to it.
pub open spec fn by_kernel(cpu_reading_type: Seq<char>, kernel: Option<KernelView>) -> bool {
    &&& cpu_reading_type == "estimated"@
    &&& kernel is Some
    &&& kernel->0.snapshot.pid_cpu_times@.len() > 0
}

/// The cache misses that the kernel counted.
pub open spec fn counted_misses(kernel: Option<KernelView>) -> int {
    match kernel {
        Some(k) => all_misses(k.snapshot.pid_hw_counters@),
        None => 0,
    }
}

/// The cache misses that the kernel counted for the processes of pods.
pub open spec fn pod_misses_of(kernel: Option<KernelView>) -> Seq<(Seq<char>, int)> {
    match kernel {
        Some(k) => pod_misses(k.snapshot.pid_hw_counters@, k.pid_pods@),
        None => Seq::empty(),
    }
}

/// Whether these are the pods that the kernel saw running, with their power.
pub open spec fn are_observed(
    reports: Seq<PodPowerReport>,
    node_name: Seq<char>,
    cache: Seq<(String, PodInfo)>,
    total_cpu_uw: u64,
    total_mem_uw: u64,
    kernel: KernelView,
    now_ns: u64,
) -> bool {
    if used(weight_list(kernel.snapshot)) <= 0 {
        reports.len() == 0
    } else {
        are_pod_reports(
            reports,
            node_name,
            cache,
            weighted_shares(
                total_cpu_uw,
                total_mem_uw,
                all_misses(kernel.snapshot.pid_hw_counters@),
                kernel.snapshot,
                kernel.pid_pods@,
            ),
            now_ns,
        )
    }
}

/// Shares a node's power out to its pods: by their processes' files, and where CPU power is
/// estimated, for the pods that the kernel saw running, CPU power by what it observed. Cache misses
/// are those that the kernel counted for each process; where it counted none, memory power goes by
/// memory held alone.
pub fn attribute_pods(
    node_name: &str,
    total_cpu_uw: u64,
    total_mem_uw: u64,
    cpu_reading_type: &str,
    pod_cache: &Vec<(String, PodInfo)>,
    caches: &mut ProcessCaches,
    tick_count: u64,
    samples: &Vec<ProcessSample>,
    kernel: &Option<KernelView>,
    now_ns: u64,
) -> (r: Vec<PodPowerReport>)
    requires
        total_cpu_uw + total_mem_uw <= u64::MAX,
        old(caches)@.well_formed(),
        samples@.len() <= u32::MAX,
        forall|i: int| 0 <= i < samples@.len() ==> (#[trigger] samples@[i]).plausible(),
        kernel is Some ==> kernel->0.pid_pods@.len() <= u32::MAX
            && kernel->0.snapshot.pid_hw_counters@.len() <= u32::MAX,
    ensures
        final(caches)@ == old(caches)@.after_all(samples@, tick_count),
        final(caches)@.well_formed(),
        exists|base: Seq<PodPowerReport>|
            {
                &&& #[trigger] are_pod_reports(
                    base,
                    node_name@,
                    pod_cache@,
                    old(caches)@.shares(
                        samples@,
                        tick_count,
                        total_cpu_uw,
                        total_mem_uw,
                        counted_misses(*kernel),
                        pod_misses_of(*kernel),
                    ),
                    now_ns,
                )
                &&& if by_kernel(cpu_reading_type@, *kernel) {
                    exists|observed: Seq<PodPowerReport>|
                        #[trigger] are_observed(
                            observed,
                            node_name@,
                            pod_cache@,
                            total_cpu_uw,
                            total_mem_uw,
                            kernel->0,
                            now_ns,
                        ) && pod_reports(r@) == pod_reports(base).map_values(
                            |p: PodReport| overridden(p, pod_reports(observed)),
                        )
                } else {
                    r@ == base
                }
            },
{
    let (total_llc_misses, misses): (u128, Vec<(String, u64)>) = match kernel {
        Some(k) => (
            sum_misses(&k.snapshot.pid_hw_counters),
            list_misses(&k.snapshot.pid_hw_counters, &k.pid_pods),
        ),
        None => (0, Vec::new()),
    };
    proof {
        match kernel {
            Some(k) => {
                lemma_misses(k.snapshot.pid_hw_counters@, k.pid_pods@);
            },
            None => {
                assert(miss_list(misses@) =~= Seq::empty());
            },
        }
        caches@.lemma_in_range(
            samples@,
            tick_count,
            total_cpu_uw,
            total_mem_uw,
            total_llc_misses as int,
            miss_list(misses@),
        );
    }
    let mut pods: Vec<PodPowerReport> = enumerate_pods(
        node_name,
        total_cpu_uw,
        total_mem_uw,
        total_llc_misses,
        &misses,
        pod_cache,
        caches,
        tick_count,
        samples,
        now_ns,
    );
    let ghost base = pods@;
    let ghost start = old(caches)@;
    assert(miss_list(misses@) == pod_misses_of(*kernel));
    assert(total_llc_misses == counted_misses(*kernel));
    assert(are_pod_reports(
        base,
        node_name@,
        pod_cache@,
        start.shares(
            samples@,
            tick_count,
            total_cpu_uw,
            total_mem_uw,
            counted_misses(*kernel),
            pod_misses_of(*kernel),
        ),
        now_ns,
    ));
    if let Some(k) = kernel {
        if same(cpu_reading_type, "estimated") && k.snapshot.pid_cpu_times.len() > 0 {
            proof {
                lemma_weighted_in_range(
                    total_cpu_uw,
                    total_mem_uw,
                    total_llc_misses as int,
                    k.snapshot,
                    k.pid_pods@,
                );
            }
            let observed: Vec<PodPowerReport> = enumerate_pods_ebpf_weighted(
                node_name,
                total_cpu_uw,
                total_mem_uw,
                total_llc_misses,
                pod_cache,
                &k.snapshot,
                &k.pid_pods,
                now_ns,
            );
            proof {
                let seen = pod_reports(observed@);
                assert(seen.take(observed@.len() as int) =~= seen);
                assert forall|i: int| 0 <= i < base.len() implies overridden(
                    (#[trigger] base[i])@,
                    seen,
                ).total_uw <= u64::MAX by {
                    lemma_parts(base, i);
                    lemma_observed_part(observed@, base[i].pod_uid@, observed@.len() as int);
                    assert(base[i].gpu_uw == 0);
                }
                assert(are_observed(
                    observed@,
                    node_name@,
                    pod_cache@,
                    total_cpu_uw,
                    total_mem_uw,
                    *k,
                    now_ns,
                ));
            }
            override_cpu(&mut pods, &observed);
        }
    }
    pods
}

proof fn lemma_parts(reports: Seq<PodPowerReport>, i: int)
    requires
        0 <= i < reports.len(),
    ensures
        reports[i].cpu_uw <= reported_cpu(reports),
        reports[i].memory_uw <= reported_memory(reports),
        0 <= reported_cpu(reports),
        0 <= reported_memory(reports),
    decreases reports.len(),
{
    lemma_reported_natural(reports.drop_last());
    if i < reports.len() - 1 {
        lemma_parts(reports.drop_last(), i);
        assert(reports.drop_last()[i] == reports[i]);
    }
}

proof fn lemma_reported_natural(reports: Seq<PodPowerReport>)
    ensures
        0 <= reported_cpu(reports),
        0 <= reported_memory(reports),
    decreases reports.len(),
{
    if reports.len() > 0 {
        lemma_reported_natural(reports.drop_last());
    }
}

proof fn lemma_observed_part(reports: Seq<PodPowerReport>, uid: Seq<char>, n: int)
    requires
        0 <= n <= reports.len(),
    ensures
        match observed_cpu(pod_reports(reports).take(n), uid) {
            Some(cpu) => cpu <= reported_cpu(reports),
            None => true,
        },
    decreases n,
{
    if n > 0 {
        let seen = pod_reports(reports).take(n);
        assert(seen.drop_last() =~= pod_reports(reports).take(n - 1));
        assert(seen.last() == reports[n - 1]@);
        lemma_parts(reports, n - 1);
        lemma_observed_part(reports, uid, n - 1);
    }
}

/// Whether an interval is one after which processes that are gone are forgotten.
pub open spec fn tidies_up(tick_count: int) -> bool {
    tick_count % 30 == 0
}

/// Whether the node's pods have to be asked for again.
pub open spec fn pods_are_old(last_refresh: int, now: int) -> bool {
    last_refresh + 30_000_000_000 <= now
}

/// Whether processes that are gone are forgotten after this interval: after every thirtieth.
pub fn cleanup_due(tick_count: u64) -> (r: bool)
    ensures
        r == tidies_up(tick_count as int),
        r == (tick_count % 30 == 0),
{
    tick_count % 30 == 0
}

/// Whether the node's pods are asked for again: thirty seconds after they were last.
pub fn pod_refresh_due(last_refresh: u64, now: u64) -> (r: bool)
    ensures
        r == pods_are_old(last_refresh as int, now as int),
        r == (last_refresh + 30_000_000_000 <= now),
{
    now >= 30_000_000_000 && last_refresh <= now - 30_000_000_000
}

// ─── Laws ───────────────────────────────────────────────────────

/// Of thirty intervals in a row exactly one is followed by tidying up, and pods that were asked for
/// half a minute ago or longer are asked for again.
pub proof fn law_when_to_tidy(tick_count: int, k: int, last_refresh: int, now: int)
    requires
        tidies_up(tick_count),
        0 < k < 30,
    ensures
        !tidies_up(tick_count + k),
        tidies_up(tick_count + 30),
        tidies_up(0),
        pods_are_old(last_refresh, now) <==> now - last_refresh >= 30 * 1_000_000_000,
{
}

/// Power that was measured never goes by what the kernel observed, nor does any without such an
/// observation; power that is estimated does as soon as the kernel saw a process run.
pub proof fn law_kernel_decides(cpu_reading_type: Seq<char>, kernel: KernelView)
    ensures
        !by_kernel("measured"@, Some(kernel)),
        !by_kernel("derived"@, Some(kernel)),
        !by_kernel(cpu_reading_type, None),
        by_kernel("estimated"@, Some(kernel)) <==> kernel.snapshot.pid_cpu_times@.len() > 0,
        by_kernel(cpu_reading_type, Some(kernel)) ==> cpu_reading_type == "estimated"@,
{
    reveal_strlit("measured");
    reveal_strlit("estimated");
    reveal_strlit("derived");
    assert("measured"@[0] != "estimated"@[0]);
    assert("derived"@[0] != "estimated"@[0]);
}

/// The misses that are counted are all that the kernel counted, and a pod's those of its own
/// processes; without the kernel there are none.
pub proof fn law_misses_counted(kernel: KernelView, uid: Seq<char>)
    ensures
        counted_misses(Some(kernel)) == sum_of(kernel.snapshot.pid_hw_counters@, missed()),
        used_by(pod_misses_of(Some(kernel)), uid) == sum_of(
            kernel.snapshot.pid_hw_counters@,
            missed_for(kernel.pid_pods@, uid),
        ),
        counted_misses(None) == 0,
        pod_misses_of(None).len() == 0,
{
    lemma_miss_sums(kernel.snapshot.pid_hw_counters@, kernel.pid_pods@, uid);
}

/// Where no time was observed to run at all, no pod is told of by the kernel; else each is told
/// what its processes' weighted times are of all.
pub proof fn law_observed_pods(
    r: Seq<PodPowerReport>,
    node_name: Seq<char>,
    cache: Seq<(String, PodInfo)>,
    total_cpu_uw: u64,
    total_mem_uw: u64,
    kernel: KernelView,
    now_ns: u64,
    i: int,
)
    requires
        are_observed(r, node_name, cache, total_cpu_uw, total_mem_uw, kernel, now_ns),
        kernel.snapshot.cpu_freq_times@.len() == 0,
        0 <= i < r.len(),
    ensures
        ({
            let times = kernel.snapshot.pid_cpu_times@;
            let all = sum_of(times, ran());
            let own = sum_of(times, ran_for(kernel.pid_pods@, r[i].pod_uid@));
            all > 0 && r[i].cpu_uw * all <= total_cpu_uw * own < (r[i].cpu_uw + 1) * all
        }),
{
    let snapshot = kernel.snapshot;
    lemma_used_sum(weight_list(snapshot), snapshot.pid_cpu_times@, ran());
    law_run_time_decides(
        r,
        node_name,
        cache,
        total_cpu_uw,
        total_mem_uw,
        all_misses(snapshot.pid_hw_counters@),
        snapshot,
        kernel.pid_pods@,
        now_ns,
        i,
        i,
    );
}

} // verus!
