//! Per-core views of one interval's observations: busy time, average frequency, and what each
//! PID did on the core.

use super::model::PidCoreObservation;
use crate::arith::{law_share, lemma_floor, lemma_share_bounds, share, share_of};
use crate::common::{CoreCounters, CpuFreqKey, PidCpuKey};
use crate::ebpf::ObservationSnapshot;
use crate::sums::sum_of;
use crate::table::{enter, get, lemma_position, law_put, lookup, put, distinct_keys};
use vstd::prelude::*;

verus! {

/// The frequency that a core counts as running at when none was observed: 1 GHz.
pub const DEFAULT_FREQ_KHZ: u32 = 1_000_000;

/// Nanoseconds for which `cpu` was busy.
pub open spec fn busy_time(times: Seq<(PidCpuKey, u64)>, cpu: u32) -> int
    decreases times.len(),
{
    if times.len() == 0 {
        0
    } else {
        busy_time(times.drop_last(), cpu) + if times.last().0.cpu == cpu {
            times.last().1 as int
        } else {
            0
        }
    }
}

/// Nanoseconds for which the frequency of `cpu` was observed.
pub open spec fn clocked_time(freqs: Seq<(CpuFreqKey, u64)>, cpu: u32) -> int
    decreases freqs.len(),
{
    if freqs.len() == 0 {
        0
    } else {
        clocked_time(freqs.drop_last(), cpu) + if freqs.last().0.cpu == cpu {
            freqs.last().1 as int
        } else {
            0
        }
    }
}

/// The sum of KHz × nanoseconds over the frequencies of `cpu`.
pub open spec fn clocked_sum(freqs: Seq<(CpuFreqKey, u64)>, cpu: u32) -> int
    decreases freqs.len(),
{
    if freqs.len() == 0 {
        0
    } else {
        clocked_sum(freqs.drop_last(), cpu) + if freqs.last().0.cpu == cpu {
            freqs.last().0.freq_khz * freqs.last().1
        } else {
            0
        }
    }
}

/// The time-weighted average frequency of `cpu`, in whole KHz.
pub open spec fn avg_freq(freqs: Seq<(CpuFreqKey, u64)>, cpu: u32) -> int {
    if clocked_time(freqs, cpu) > 0 {
        clocked_sum(freqs, cpu) / clocked_time(freqs, cpu)
    } else {
        DEFAULT_FREQ_KHZ as int
    }
}

/// The PIDs that ran on `core`, each with its time there.
pub open spec fn core_pids(times: Seq<(PidCpuKey, u64)>, core: u32) -> Seq<(u32, u64)>
    decreases times.len(),
{
    if times.len() == 0 {
        Seq::empty()
    } else if times.last().0.cpu == core {
        put(core_pids(times.drop_last(), core), times.last().0.pid, times.last().1)
    } else {
        core_pids(times.drop_last(), core)
    }
}

/// The times of a core's PIDs together.
pub open spec fn pid_time_sum(pids: Seq<(u32, u64)>) -> int
    decreases pids.len(),
{
    if pids.len() == 0 {
        0
    } else {
        pid_time_sum(pids.drop_last()) + pids.last().1
    }
}

/// Counters that counted nothing.
pub open spec fn no_counters() -> CoreCounters {
    CoreCounters { instructions: 0, cycles: 0, cache_misses: 0, cache_refs: 0 }
}

/// One PID's part of a core's counters, by its part of the core's time.
pub open spec fn counter_share(counters: CoreCounters, time: int, whole: int) -> CoreCounters {
    CoreCounters {
        instructions: share_of(counters.instructions as int, time, whole) as u64,
        cycles: share_of(counters.cycles as int, time, whole) as u64,
        cache_misses: share_of(counters.cache_misses as int, time, whole) as u64,
        cache_refs: share_of(counters.cache_refs as int, time, whole) as u64,
    }
}

/// The counters of the PID that ran for `time` on `core`.
pub open spec fn pid_counters(obs: ObservationSnapshot, core: u32, time: u64) -> CoreCounters {
    match lookup(obs.core_counters@, core) {
        Some(counters) => counter_share(
            counters,
            time as int,
            pid_time_sum(core_pids(obs.pid_cpu_times@, core)),
        ),
        None => no_counters(),
    }
}

/// What is known of one PID on `core`.
pub open spec fn observation(obs: ObservationSnapshot, core: u32, entry: (u32, u64)) -> PidCoreObservation {
    let counters = pid_counters(obs, core, entry.1);
    PidCoreObservation {
        pid: entry.0,
        time_ns: entry.1,
        instructions: counters.instructions,
        cycles: counters.cycles,
        cache_misses: counters.cache_misses,
    }
}

/// What is known of each PID on `core`.
pub open spec fn observations(obs: ObservationSnapshot, core: u32) -> Seq<PidCoreObservation> {
    core_pids(obs.pid_cpu_times@, core).map_values(
        |entry: (u32, u64)| observation(obs, core, entry),
    )
}

pub proof fn lemma_core_pids_distinct(times: Seq<(PidCpuKey, u64)>, core: u32)
    ensures
        distinct_keys(core_pids(times, core)),
        core_pids(times, core).len() <= times.len(),
    decreases times.len(),
{
    if times.len() > 0 {
        lemma_core_pids_distinct(times.drop_last(), core);
        if times.last().0.cpu == core {
            law_put(
                core_pids(times.drop_last(), core),
                times.last().0.pid,
                times.last().1,
                times.last().0.pid,
            );
            lemma_position(core_pids(times.drop_last(), core), times.last().0.pid);
        }
    }
}

pub proof fn lemma_pid_time_sum(pids: Seq<(u32, u64)>)
    ensures
        0 <= pid_time_sum(pids) <= pids.len() * 0xffff_ffff_ffff_ffff,
        forall|i: int| 0 <= i < pids.len() ==> (#[trigger] pids[i]).1 <= pid_time_sum(pids),
    decreases pids.len(),
{
    if pids.len() > 0 {
        lemma_pid_time_sum(pids.drop_last());
        assert forall|i: int| 0 <= i < pids.len() implies (#[trigger] pids[i]).1 <= pid_time_sum(
            pids,
        ) by {
            if i < pids.len() - 1 {
                assert(pids.drop_last()[i] == pids[i]);
            }
        }
    }
}

/// Nanoseconds for which a core was busy.
pub fn core_busy_time(times: &Vec<(PidCpuKey, u64)>, cpu: u32) -> (r: u128)
    ensures
        r == busy_time(times@, cpu),
{
    let mut sum: u128 = 0;
    let mut i: usize = 0;
    while i < times.len()
        invariant
            i <= times@.len(),
            sum == busy_time(times@.take(i as int), cpu),
            sum <= i * 0xffff_ffff_ffff_ffff,
        decreases times@.len() - i,
    {
        assert(times@.take(i + 1).drop_last() =~= times@.take(i as int));
        if times[i].0.cpu == cpu {
            sum = sum + times[i].1 as u128;
        }
        i = i + 1;
    }
    assert(times@.take(i as int) =~= times@);
    sum
}

proof fn lemma_clocked_bound(freqs: Seq<(CpuFreqKey, u64)>, cpu: u32)
    ensures
        0 <= clocked_sum(freqs, cpu) <= 0xffff_ffff * clocked_time(freqs, cpu),
    decreases freqs.len(),
{
    if freqs.len() > 0 {
        lemma_clocked_bound(freqs.drop_last(), cpu);
        let f = freqs.last().0.freq_khz as int;
        let t = freqs.last().1 as int;
        assert(0 <= f * t <= 0xffff_ffff * t) by (nonlinear_arith)
            requires
                0 <= f <= 0xffff_ffff,
                0 <= t,
        ;
    }
}

/// The sum of KHz × nanoseconds over the frequencies of one core, and for how long these were
/// observed.
pub fn sum_clocked(freqs: &Vec<(CpuFreqKey, u64)>, cpu: u32) -> (r: (u128, u128))
    requires
        freqs@.len() <= u32::MAX,
    ensures
        r.0 == clocked_sum(freqs@, cpu),
        r.1 == clocked_time(freqs@, cpu),
{
    let mut sum: u128 = 0;
    let mut time: u128 = 0;
    let mut i: usize = 0;
    while i < freqs.len()
        invariant
            i <= freqs@.len() <= u32::MAX,
            time == clocked_time(freqs@.take(i as int), cpu),
            sum == clocked_sum(freqs@.take(i as int), cpu),
            time <= i * 0xffff_ffff_ffff_ffff,
            sum <= i * 0xffff_fffe_ffff_ffff_0000_0001,
        decreases freqs@.len() - i,
    {
        assert(freqs@.take(i + 1).drop_last() =~= freqs@.take(i as int));
        if freqs[i].0.cpu == cpu {
            proof {
                let f = freqs@[i as int].0.freq_khz as int;
                let t = freqs@[i as int].1 as int;
                assert(0 <= f * t <= 0xffff_fffe_ffff_ffff_0000_0001) by (nonlinear_arith)
                    requires
                        0 <= f <= 0xffff_ffff,
                        0 <= t <= 0xffff_ffff_ffff_ffff,
                ;
            }
            sum = sum + freqs[i].0.freq_khz as u128 * freqs[i].1 as u128;
            time = time + freqs[i].1 as u128;
        }
        i = i + 1;
    }
    assert(freqs@.take(i as int) =~= freqs@);
    (sum, time)
}

/// Computes the weighted average frequency of one core during the interval.
pub fn compute_core_avg_freq(freqs: &Vec<(CpuFreqKey, u64)>, cpu: u32) -> (r: u32)
    requires
        freqs@.len() <= u32::MAX,
    ensures
        r == avg_freq(freqs@, cpu),
{
    let (sum, time): (u128, u128) = sum_clocked(freqs, cpu);
    if time > 0 {
        proof {
            lemma_clocked_bound(freqs@, cpu);
            let s = sum as int;
            let t = time as int;
            assert(0 <= s / t <= 0xffff_ffff) by (nonlinear_arith)
                requires
                    0 <= s <= 0xffff_ffff * t,
                    0 < t,
            ;
        }
        (sum / time) as u32
    } else {
        DEFAULT_FREQ_KHZ
    }
}

/// Builds the table of the PIDs that ran on one core.
pub fn core_pid_times(times: &Vec<(PidCpuKey, u64)>, core: u32) -> (r: Vec<(u32, u64)>)
    ensures
        r@ == core_pids(times@, core),
{
    let mut r: Vec<(u32, u64)> = Vec::new();
    let mut i: usize = 0;
    while i < times.len()
        invariant
            i <= times@.len(),
            r@ == core_pids(times@.take(i as int), core),
        decreases times@.len() - i,
    {
        assert(times@.take(i + 1).drop_last() =~= times@.take(i as int));
        if times[i].0.cpu == core {
            enter(&mut r, times[i].0.pid, times[i].1);
        }
        i = i + 1;
    }
    assert(times@.take(i as int) =~= times@);
    r
}

/// Sums the times of one core's PIDs.
pub fn sum_pid_times(pids: &Vec<(u32, u64)>) -> (r: u128)
    ensures
        r == pid_time_sum(pids@),
{
    let mut sum: u128 = 0;
    let mut i: usize = 0;
    while i < pids.len()
        invariant
            i <= pids@.len(),
            sum == pid_time_sum(pids@.take(i as int)),
            sum <= i * 0xffff_ffff_ffff_ffff,
        decreases pids@.len() - i,
    {
        assert(pids@.take(i + 1).drop_last() =~= pids@.take(i as int));
        sum = sum + pids[i].1 as u128;
        i = i + 1;
    }
    assert(pids@.take(i as int) =~= pids@);
    sum
}

/// Gathers what is known of each PID on one core. A core's counters are handed to its PIDs in
/// proportion to their time on it.
pub fn build_core_observations(obs: &ObservationSnapshot, core: u32) -> (r: Vec<
    PidCoreObservation,
>)
    ensures
        r@ == observations(*obs, core),
{
    let pids: Vec<(u32, u64)> = core_pid_times(&obs.pid_cpu_times, core);
    let whole: u128 = sum_pid_times(&pids);
    let counters: Option<&CoreCounters> = get(&obs.core_counters, &core);
    let mut r: Vec<PidCoreObservation> = Vec::new();
    let mut i: usize = 0;
    proof {
        lemma_pid_time_sum(pids@);
    }
    while i < pids.len()
        invariant
            i <= pids@.len(),
            pids@ == core_pids(obs.pid_cpu_times@, core),
            whole == pid_time_sum(pids@),
            forall|j: int| 0 <= j < pids@.len() ==> (#[trigger] pids@[j]).1 <= whole,
            match counters {
                Some(c) => lookup(obs.core_counters@, core) == Some(*c),
                None => lookup(obs.core_counters@, core) is None,
            },
            r@ == observations(*obs, core).take(i as int),
        decreases pids@.len() - i,
    {
        let (pid, time_ns): (u32, u64) = pids[i];
        let observed: PidCoreObservation = match counters {
            Some(c) => PidCoreObservation {
                pid,
                time_ns,
                instructions: share(c.instructions, time_ns as u128, whole),
                cycles: share(c.cycles, time_ns as u128, whole),
                cache_misses: share(c.cache_misses, time_ns as u128, whole),
            },
            None => PidCoreObservation {
                pid,
                time_ns,
                instructions: 0,
                cycles: 0,
                cache_misses: 0,
            },
        };
        assert(observed == observation(*obs, core, pids@[i as int]));
        r.push(observed);
        i = i + 1;
        assert(r@ =~= observations(*obs, core).take(i as int));
    }
    assert(r@ =~= observations(*obs, core));
    r
}

// ─── What the sums say of the observations ──────────────────────

/// What a run counts for by its time, if it was on a core.
pub open spec fn ran_on(cpu: u32) -> spec_fn((PidCpuKey, u64)) -> int {
    |e: (PidCpuKey, u64)|
        if e.0.cpu == cpu {
            e.1 as int
        } else {
            0
        }
}

/// What a time at a frequency counts for, if it was on a core.
pub open spec fn clocked_on(cpu: u32) -> spec_fn((CpuFreqKey, u64)) -> int {
    |e: (CpuFreqKey, u64)|
        if e.0.cpu == cpu {
            e.1 as int
        } else {
            0
        }
}

/// What a time at a frequency counts for by its cycles, if it was on a core.
pub open spec fn cycles_on(cpu: u32) -> spec_fn((CpuFreqKey, u64)) -> int {
    |e: (CpuFreqKey, u64)|
        if e.0.cpu == cpu {
            e.0.freq_khz * e.1
        } else {
            0
        }
}

/// A core was busy for the time that processes ran on it. Its frequency is what its cycles are by
/// the time that frequencies were observed on it, rounded down; 1 GHz where none was.
pub proof fn law_core_times(obs: ObservationSnapshot, cpu: u32)
    ensures
        busy_time(obs.pid_cpu_times@, cpu) == sum_of(obs.pid_cpu_times@, ran_on(cpu)),
        clocked_time(obs.cpu_freq_times@, cpu) == sum_of(obs.cpu_freq_times@, clocked_on(cpu)),
        clocked_sum(obs.cpu_freq_times@, cpu) == sum_of(obs.cpu_freq_times@, cycles_on(cpu)),
        ({
            let time = sum_of(obs.cpu_freq_times@, clocked_on(cpu));
            let cycles = sum_of(obs.cpu_freq_times@, cycles_on(cpu));
            let khz = avg_freq(obs.cpu_freq_times@, cpu);
            if time > 0 {
                khz * time <= cycles < (khz + 1) * time
            } else {
                khz == 1_000_000
            }
        }),
{
    lemma_busy_sum(obs.pid_cpu_times@, cpu);
    lemma_clocked_sums(obs.cpu_freq_times@, cpu);
    if clocked_time(obs.cpu_freq_times@, cpu) > 0 {
        lemma_floor(
            clocked_sum(obs.cpu_freq_times@, cpu),
            clocked_time(obs.cpu_freq_times@, cpu),
        );
    }
}

proof fn lemma_busy_sum(times: Seq<(PidCpuKey, u64)>, cpu: u32)
    ensures
        busy_time(times, cpu) == sum_of(times, ran_on(cpu)),
    decreases times.len(),
{
    if times.len() > 0 {
        lemma_busy_sum(times.drop_last(), cpu);
    }
}

proof fn lemma_clocked_sums(freqs: Seq<(CpuFreqKey, u64)>, cpu: u32)
    ensures
        clocked_time(freqs, cpu) == sum_of(freqs, clocked_on(cpu)),
        clocked_sum(freqs, cpu) == sum_of(freqs, cycles_on(cpu)),
    decreases freqs.len(),
{
    if freqs.len() > 0 {
        lemma_clocked_sums(freqs.drop_last(), cpu);
    }
}

/// Whether no process has two times on one core.
pub open spec fn one_time_each(times: Seq<(PidCpuKey, u64)>) -> bool {
    forall|i: int, j: int|
        0 <= i < j < times.len() ==> (#[trigger] times[i]).0 != (#[trigger] times[j]).0
}

proof fn lemma_core_runs(times: Seq<(PidCpuKey, u64)>, core: u32, pid: u32)
    requires
        one_time_each(times),
    ensures
        pid_time_sum(core_pids(times, core)) == sum_of(times, ran_on(core)),
        lookup(core_pids(times, core), pid) is Some <==> exists|i: int|
            0 <= i < times.len() && (#[trigger] times[i]).0.cpu == core && times[i].0.pid == pid,
        forall|i: int|
            0 <= i < times.len() && (#[trigger] times[i]).0.cpu == core && times[i].0.pid == pid
                ==> lookup(core_pids(times, core), pid) == Some(times[i].1),
    decreases times.len(),
{
    if times.len() > 0 {
        let d = times.drop_last();
        let last = times[times.len() - 1];
        assert forall|i: int, j: int| 0 <= i < j < d.len() implies (#[trigger] d[i]).0 != (
        #[trigger] d[j]).0 by {
            assert(times[i].0 != times[j].0);
        }
        lemma_core_runs(d, core, pid);
        let before = core_pids(d, core);
        let after = core_pids(times, core);
        lemma_core_pids_distinct(d, core);
        if last.0.cpu == core {
            law_put(before, last.0.pid, last.1, pid);
            lemma_core_runs(d, core, last.0.pid);
            assert(lookup(before, last.0.pid) is None) by {
                if lookup(before, last.0.pid) is Some {
                    let i = choose|i: int|
                        0 <= i < d.len() && (#[trigger] d[i]).0.cpu == core && d[i].0.pid
                            == last.0.pid;
                    assert(times[i].0 != times[times.len() - 1].0);
                }
            }
            assert(after =~= before.push((last.0.pid, last.1)));
            assert(after.drop_last() =~= before);
        }
        if lookup(after, pid) is Some {
            if last.0.cpu == core && last.0.pid == pid {
                assert(times[times.len() - 1].0.cpu == core);
            } else {
                let i = choose|i: int|
                    0 <= i < d.len() && (#[trigger] d[i]).0.cpu == core && d[i].0.pid == pid;
                assert(times[i].0.cpu == core && times[i].0.pid == pid);
            }
        }
        assert forall|i: int|
            0 <= i < times.len() && (#[trigger] times[i]).0.cpu == core && times[i].0.pid
                == pid implies lookup(after, pid) == Some(times[i].1) by {
            if i < d.len() {
                assert(d[i].0.cpu == core && d[i].0.pid == pid);
                assert(times[i].0 != times[times.len() - 1].0);
            }
        }
    }
}

/// The processes of a core are those that ran on it, each with the time that it ran there, and
/// their times together are the time that the core was busy.
pub proof fn law_core_processes(obs: ObservationSnapshot, core: u32, i: int)
    requires
        one_time_each(obs.pid_cpu_times@),
        0 <= i < obs.pid_cpu_times@.len(),
        obs.pid_cpu_times@[i].0.cpu == core,
    ensures
        lookup(core_pids(obs.pid_cpu_times@, core), obs.pid_cpu_times@[i].0.pid) == Some(
            obs.pid_cpu_times@[i].1,
        ),
        pid_time_sum(core_pids(obs.pid_cpu_times@, core)) == sum_of(
            obs.pid_cpu_times@,
            ran_on(core),
        ),
{
    lemma_core_runs(obs.pid_cpu_times@, core, obs.pid_cpu_times@[i].0.pid);
}

/// A process did not run on a core where it has no time on it.
pub proof fn law_not_on_core(obs: ObservationSnapshot, core: u32, pid: u32)
    requires
        one_time_each(obs.pid_cpu_times@),
        forall|i: int|
            0 <= i < obs.pid_cpu_times@.len() ==> (#[trigger] obs.pid_cpu_times@[i]).0
                != (PidCpuKey { cpu: core, pid }),
    ensures
        lookup(core_pids(obs.pid_cpu_times@, core), pid) is None,
{
    lemma_core_runs(obs.pid_cpu_times@, core, pid);
}

/// Each counter of a process on a core is to the core's as its time there is to that of all
/// processes there, rounded down; without counters of the core all are zero.
pub proof fn law_counters_go_with_time(obs: ObservationSnapshot, core: u32, time: u64)
    requires
        0 < time <= pid_time_sum(core_pids(obs.pid_cpu_times@, core)),
    ensures
        ({
            let all = pid_time_sum(core_pids(obs.pid_cpu_times@, core));
            let own = pid_counters(obs, core, time);
            match lookup(obs.core_counters@, core) {
                Some(c) => {
                    &&& own.instructions * all <= c.instructions * time < (own.instructions + 1)
                        * all
                    &&& own.cycles * all <= c.cycles * time < (own.cycles + 1) * all
                    &&& own.cache_misses * all <= c.cache_misses * time < (own.cache_misses + 1)
                        * all
                    &&& own.cache_refs * all <= c.cache_refs * time < (own.cache_refs + 1) * all
                },
                None => own.instructions == 0 && own.cycles == 0 && own.cache_misses == 0
                    && own.cache_refs == 0,
            }
        }),
{
    let all = pid_time_sum(core_pids(obs.pid_cpu_times@, core));
    if let Some(c) = lookup(obs.core_counters@, core) {
        law_share(c.instructions as int, time as int, all);
        law_share(c.cycles as int, time as int, all);
        law_share(c.cache_misses as int, time as int, all);
        law_share(c.cache_refs as int, time as int, all);
        lemma_share_bounds(c.instructions as int, time as int, all);
        lemma_share_bounds(c.cycles as int, time as int, all);
        lemma_share_bounds(c.cache_misses as int, time as int, all);
        lemma_share_bounds(c.cache_refs as int, time as int, all);
    }
}

/// What is known of each process on a core: its own PID and time, and its counters.
pub proof fn law_observed_process(obs: ObservationSnapshot, core: u32, i: int)
    requires
        0 <= i < observations(obs, core).len(),
    ensures
        ({
            let o = observations(obs, core)[i];
            let own = pid_counters(obs, core, o.time_ns);
            &&& o.pid == core_pids(obs.pid_cpu_times@, core)[i].0
            &&& o.time_ns == core_pids(obs.pid_cpu_times@, core)[i].1
            &&& o.instructions == own.instructions
            &&& o.cycles == own.cycles
            &&& o.cache_misses == own.cache_misses
        }),
{
}

} // verus!
