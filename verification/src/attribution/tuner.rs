//! Online auto-tuner for attribution model coefficients.
//!
//! Adjusts α (IPC weight) and β (cache miss ratio weight) based on internal consistency of
//! per-PID attributions across PIDs sharing the same core.
//!
//! Signal: for PIDs on the same core in the same interval, a well-calibrated model produces
//! consistent "energy per cycle" values. Large variance in energy/cycle across PIDs on the same
//! core indicates that α/β are wrong.
//!
//! The tuner uses numerical gradient descent with EMA momentum and a very low learning rate to
//! avoid oscillation. It only updates when there is sufficient signal: PIDs with IPC diversity of
//! more than 2x on the same core.
//!
//! Coefficients, errors and gradients are whole numbers of units of 10⁻¹², rounded down. Ratios of
//! counters are not rounded.

use crate::arith::lemma_floor;
use crate::decimal::{amount_of, attos, law_parts, read_attos, ten_to, Amount, LARGEST_ATTOS};
use crate::sums::{lemma_sum_push, sum_of};
use super::variation::{
    is_variation, law_same_do_not_vary, law_variation_exists, law_variation_scaled,
    law_variation_unique, lemma_lifted, lemma_sum_positive, lemma_sums_of_last, lemma_sums_of_move,
    lifted, product, proper, ratio_sum, ratios, square_sum, sum, variation, Ratio, MAX_ERROR, ONE,
};
use crate::table::{get, lookup};
use crate::text::chars_of;
use crate::wide::Wide;
use vstd::prelude::*;
use vstd::set_lib::*;

verus! {

/// The step by which a coefficient is varied to estimate a gradient: one hundredth.
pub const EPSILON: u128 = 10_000_000_000;

/// Bounds of α.
pub const MIN_ALPHA: u64 = 50_000_000_000;

pub const MAX_ALPHA: u64 = 2_000_000_000_000;

/// Bounds of β.
pub const MIN_BETA: u64 = 10_000_000_000;

pub const MAX_BETA: u64 = 10_000_000_000_000;

/// The largest size of a gradient.
pub const MAX_GRADIENT: i128 = 429_496_729_600_000_000_000_000;

/// A ratio of two counts.
#[derive(Clone, Copy, Debug, PartialEq, Eq, Structural)]
pub struct Fraction {
    pub num: u64,
    pub den: u64,
}

/// What is known about one PID on one core.
#[derive(Clone, Copy, Debug, PartialEq, Eq, Structural)]
pub struct PidObs {
    pub time_ns: u64,
    /// Instructions per cycle
    pub ipc: Fraction,
    /// Cache misses per instruction
    pub miss_ratio: Fraction,
    pub cycles: u64,
}

impl PidObs {
    /// An observation has cycles, and its ratios are ratios.
    pub open spec fn well_formed(&self) -> bool {
        self.cycles > 0 && self.ipc.den > 0 && self.miss_ratio.den > 0
    }
}

// ─── Observations ───────────────────────────────────────────────

/// What counters say about a PID; not for one that did not run or has no cycles.
pub open spec fn observed(time_ns: u64, counters: (u64, u64, u64)) -> Option<PidObs> {
    let (instructions, cycles, misses) = counters;
    if time_ns == 0 || cycles == 0 {
        None
    } else {
        Some(
            PidObs {
                time_ns,
                ipc: Fraction { num: instructions, den: cycles },
                miss_ratio: if instructions > 0 {
                    Fraction { num: misses, den: instructions }
                } else {
                    Fraction { num: 0, den: 1 }
                },
                cycles,
            },
        )
    }
}

/// A PID's counters on a core; without any, all are zero.
pub open spec fn counters_of(
    counters: Seq<((u32, u32), (u64, u64, u64))>,
    cpu: u32,
    pid: u32,
) -> (u64, u64, u64) {
    match lookup(counters, (cpu, pid)) {
        Some(c) => c,
        None => (0, 0, 0),
    }
}

/// The observations, each with its core, in the order of the times.
pub open spec fn observations(
    counters: Seq<((u32, u32), (u64, u64, u64))>,
    times: Seq<(u32, u32, u64)>,
) -> Seq<(u32, PidObs)>
    decreases times.len(),
{
    if times.len() == 0 {
        Seq::empty()
    } else {
        let before = observations(counters, times.drop_last());
        let (cpu, pid, time_ns) = times.last();
        match observed(time_ns, counters_of(counters, cpu, pid)) {
            Some(o) => before.push((cpu, o)),
            None => before,
        }
    }
}

/// The cores of observations, in order of first appearance.
pub open spec fn cores(obs: Seq<(u32, PidObs)>) -> Seq<u32>
    decreases obs.len(),
{
    if obs.len() == 0 {
        Seq::empty()
    } else {
        let before = cores(obs.drop_last());
        if before.contains(obs.last().0) {
            before
        } else {
            before.push(obs.last().0)
        }
    }
}

/// The observations on one core.
pub open spec fn on_core(obs: Seq<(u32, PidObs)>, cpu: u32) -> Seq<PidObs>
    decreases obs.len(),
{
    if obs.len() == 0 {
        Seq::empty()
    } else {
        let before = on_core(obs.drop_last(), cpu);
        if obs.last().0 == cpu {
            before.push(obs.last().1)
        } else {
            before
        }
    }
}

/// Whether one ratio is more than twice another.
pub open spec fn more_than_twice(a: Fraction, b: Fraction) -> bool {
    a.num * b.den > 2 * (b.num * a.den)
}

/// Whether a core gives a signal: two PIDs or more, of which one has more than twice the IPC of
/// another, and none has none.
pub open spec fn qualifies(pids: Seq<PidObs>) -> bool {
    &&& pids.len() >= 2
    &&& forall|i: int| 0 <= i < pids.len() ==> (#[trigger] pids[i]).ipc.num > 0
    &&& exists|i: int, j: int|
        0 <= i < pids.len() && 0 <= j < pids.len() && #[trigger] more_than_twice(
            pids[i].ipc,
            pids[j].ipc,
        )
}

fn observe(time_ns: u64, counters: (u64, u64, u64)) -> (r: Option<PidObs>)
    ensures
        r == observed(time_ns, counters),
{
    let (instructions, cycles, misses) = counters;
    if time_ns == 0 || cycles == 0 {
        return None;
    }
    Some(
        PidObs {
            time_ns,
            ipc: Fraction { num: instructions, den: cycles },
            miss_ratio: if instructions > 0 {
                Fraction { num: misses, den: instructions }
            } else {
                Fraction { num: 0, den: 1 }
            },
            cycles,
        },
    )
}

fn collect(
    counters: &Vec<((u32, u32), (u64, u64, u64))>,
    times: &Vec<(u32, u32, u64)>,
) -> (r: Vec<(u32, PidObs)>)
    ensures
        r@ == observations(counters@, times@),
        r@.len() <= times@.len(),
{
    let mut r: Vec<(u32, PidObs)> = Vec::new();
    let mut i: usize = 0;
    while i < times.len()
        invariant
            i <= times@.len(),
            r@ == observations(counters@, times@.take(i as int)),
            r@.len() <= i,
        decreases times@.len() - i,
    {
        let (cpu, pid, time_ns) = times[i];
        assert(times@.take(i + 1).drop_last() =~= times@.take(i as int));
        let found: (u64, u64, u64) = match get(counters, &(cpu, pid)) {
            Some(c) => *c,
            None => (0, 0, 0),
        };
        match observe(time_ns, found) {
            Some(o) => {
                r.push((cpu, o));
            },
            None => {},
        }
        i = i + 1;
    }
    assert(times@.take(i as int) =~= times@);
    r
}

fn list_cores(obs: &Vec<(u32, PidObs)>) -> (r: Vec<u32>)
    ensures
        r@ == cores(obs@),
        r@.len() <= obs@.len(),
{
    let mut r: Vec<u32> = Vec::new();
    let mut i: usize = 0;
    while i < obs.len()
        invariant
            i <= obs@.len(),
            r@ == cores(obs@.take(i as int)),
            r@.len() <= i,
        decreases obs@.len() - i,
    {
        assert(obs@.take(i + 1).drop_last() =~= obs@.take(i as int));
        let mut known: bool = false;
        let mut k: usize = 0;
        while k < r.len()
            invariant
                i < obs@.len(),
                k <= r@.len(),
                known == r@.take(k as int).contains(obs@[i as int].0),
            decreases r@.len() - k,
        {
            proof {
                let t = r@.take(k + 1);
                assert(t.drop_last() =~= r@.take(k as int));
                assert(t[k as int] == r@[k as int]);
                if r@.take(k as int).contains(obs@[i as int].0) {
                    let n = r@.take(k as int).index_of(obs@[i as int].0);
                    assert(t[n] == obs@[i as int].0);
                }
            }
            if r[k] == obs[i].0 {
                known = true;
            }
            k = k + 1;
        }
        assert(r@.take(k as int) =~= r@);
        if !known {
            r.push(obs[i].0);
        }
        i = i + 1;
    }
    assert(obs@.take(i as int) =~= obs@);
    r
}

fn select_core(obs: &Vec<(u32, PidObs)>, cpu: u32) -> (r: Vec<PidObs>)
    ensures
        r@ == on_core(obs@, cpu),
        r@.len() <= obs@.len(),
{
    let mut r: Vec<PidObs> = Vec::new();
    let mut i: usize = 0;
    while i < obs.len()
        invariant
            i <= obs@.len(),
            r@ == on_core(obs@.take(i as int), cpu),
            r@.len() <= i,
        decreases obs@.len() - i,
    {
        assert(obs@.take(i + 1).drop_last() =~= obs@.take(i as int));
        if obs[i].0 == cpu {
            r.push(obs[i].1);
        }
        i = i + 1;
    }
    assert(obs@.take(i as int) =~= obs@);
    r
}

fn exceeds_twice(a: Fraction, b: Fraction) -> (r: bool)
    ensures
        r == more_than_twice(a, b),
{
    proof {
        let (i, j, k, l) = (a.num as int, b.den as int, b.num as int, a.den as int);
        assert(0 <= i * j <= 0xffff_ffff_ffff_ffff * 0xffff_ffff_ffff_ffff) by (nonlinear_arith)
            requires
                0 <= i <= 0xffff_ffff_ffff_ffff,
                0 <= j <= 0xffff_ffff_ffff_ffff,
        ;
        assert(0 <= k * l <= 0xffff_ffff_ffff_ffff * 0xffff_ffff_ffff_ffff) by (nonlinear_arith)
            requires
                0 <= k <= 0xffff_ffff_ffff_ffff,
                0 <= l <= 0xffff_ffff_ffff_ffff,
        ;
    }
    let left: u128 = a.num as u128 * b.den as u128;
    let right: u128 = b.num as u128 * a.den as u128;
    left > 0 && (left - 1) / 2 >= right
}

fn is_diverse(pids: &Vec<PidObs>) -> (r: bool)
    ensures
        r == qualifies(pids@),
{
    if pids.len() < 2 {
        return false;
    }
    let mut diverse: bool = false;
    let mut i: usize = 0;
    while i < pids.len()
        invariant
            i <= pids@.len(),
            forall|k: int| 0 <= k < i ==> (#[trigger] pids@[k]).ipc.num > 0,
            diverse == exists|k: int, j: int|
                0 <= k < i && 0 <= j < pids@.len() && #[trigger] more_than_twice(
                    pids@[k].ipc,
                    pids@[j].ipc,
                ),
        decreases pids@.len() - i,
    {
        if pids[i].ipc.num == 0 {
            return false;
        }
        let ghost before = diverse;
        let mut n: usize = 0;
        while n < pids.len()
            invariant
                i < pids@.len(),
                n <= pids@.len(),
                diverse == (before || exists|j: int|
                    0 <= j < n && #[trigger] more_than_twice(pids@[i as int].ipc, pids@[j].ipc)),
            decreases pids@.len() - n,
        {
            if exceeds_twice(pids[i].ipc, pids[n].ipc) {
                assert(more_than_twice(pids@[i as int].ipc, pids@[n as int].ipc));
                diverse = true;
            }
            n = n + 1;
        }
        i = i + 1;
    }
    diverse
}

// ─── Consistency ────────────────────────────────────────────────

/// A PID's weight: its time, by how hard it worked, which is 1 + α × IPC + β × miss ratio.
pub open spec fn obs_weight(o: PidObs, alpha: int, beta: int) -> Ratio {
    let (i, m) = (o.ipc, o.miss_ratio);
    Ratio {
        num: o.time_ns * (ONE * (i.den * m.den) + alpha * (i.num * m.den) + beta * (m.num * i.den)),
        den: ONE * (i.den * m.den),
    }
}

/// The weights of PIDs.
pub open spec fn weights(pids: Seq<PidObs>, alpha: int, beta: int) -> Seq<Ratio> {
    pids.map_values(|o: PidObs| obs_weight(o, alpha, beta))
}

/// The weights of all PIDs together.
pub open spec fn weight_total(pids: Seq<PidObs>, alpha: int, beta: int) -> Ratio {
    ratio_sum(weights(pids, alpha, beta))
}

/// The cycles of all PIDs together.
pub open spec fn cycle_total(pids: Seq<PidObs>) -> int
    decreases pids.len(),
{
    if pids.len() == 0 {
        0
    } else {
        cycle_total(pids.drop_last()) + pids.last().cycles
    }
}

/// A PID's share of the core's energy, for which the core's cycles stand, per cycle of its own.
pub open spec fn energy_per_cycle(
    o: PidObs,
    alpha: int,
    beta: int,
    all_weight: Ratio,
    all_cycles: int,
) -> Ratio {
    let w = obs_weight(o, alpha, beta);
    Ratio {
        num: w.num * (all_weight.den * all_cycles),
        den: (w.den * o.cycles) * all_weight.num,
    }
}

/// The energy per cycle of each PID on a core.
pub open spec fn energies(pids: Seq<PidObs>, alpha: int, beta: int) -> Seq<Ratio> {
    let w = weight_total(pids, alpha, beta);
    let c = cycle_total(pids);
    pids.map_values(|o: PidObs| energy_per_cycle(o, alpha, beta, w, c))
}

/// Whether `e` is the consistency error of PIDs on a single core under α and β: the coefficient of
/// variation of their energies per cycle.
pub open spec fn is_error(e: int, pids: Seq<PidObs>, alpha: int, beta: int) -> bool {
    if weight_total(pids, alpha, beta).num <= 0 {
        e == 0
    } else {
        is_variation(e, energies(pids, alpha, beta))
    }
}

/// The consistency error of PIDs on a single core under α and β.
pub open spec fn error_of(pids: Seq<PidObs>, alpha: int, beta: int) -> int {
    choose|e: int| is_error(e, pids, alpha, beta)
}

/// Whether all observations are well formed.
pub open spec fn all_well_formed(pids: Seq<PidObs>) -> bool {
    forall|i: int| 0 <= i < pids.len() ==> (#[trigger] pids[i]).well_formed()
}

/// The weight of each PID per cycle of its own.
spec fn weights_per_cycle(pids: Seq<PidObs>, alpha: int, beta: int) -> Seq<Ratio> {
    pids.map_values(|o: PidObs| per_cycle(o, alpha, beta))
}

spec fn per_cycle(o: PidObs, alpha: int, beta: int) -> Ratio {
    let w = obs_weight(o, alpha, beta);
    Ratio { num: w.num, den: w.den * o.cycles }
}

/// A core's PIDs have one consistency error under α and β.
pub proof fn law_error_unique(e: int, pids: Seq<PidObs>, alpha: int, beta: int)
    requires
        is_error(e, pids, alpha, beta),
    ensures
        error_of(pids, alpha, beta) == e,
{
    let f = error_of(pids, alpha, beta);
    assert(is_error(f, pids, alpha, beta));
    if weight_total(pids, alpha, beta).num > 0 {
        law_variation_unique(e, f, lifted(energies(pids, alpha, beta)));
    }
}

proof fn lemma_obs_weight(o: PidObs, alpha: int, beta: int)
    requires
        0 <= alpha,
        0 <= beta,
        o.well_formed(),
    ensures
        0 <= obs_weight(o, alpha, beta).num,
        obs_weight(o, alpha, beta).num > 0 <==> o.time_ns > 0,
        0 < obs_weight(o, alpha, beta).den,
        0 < per_cycle(o, alpha, beta).den,
{
    let (i, m) = (o.ipc, o.miss_ratio);
    let base = i.den * m.den;
    assert(base > 0) by (nonlinear_arith)
        requires
            base == i.den * m.den,
            i.den > 0,
            m.den > 0,
    ;
    let x = i.num * m.den;
    let y = m.num * i.den;
    assert(x >= 0 && y >= 0) by (nonlinear_arith)
        requires
            x == i.num * m.den,
            y == m.num * i.den,
    ;
    assert(alpha * x >= 0) by (nonlinear_arith)
        requires
            alpha >= 0,
            x >= 0,
    ;
    assert(beta * y >= 0) by (nonlinear_arith)
        requires
            beta >= 0,
            y >= 0,
    ;
    let f = ONE * base + alpha * x + beta * y;
    let t = o.time_ns as int;
    assert(t * f >= 0 && (t * f > 0 <==> t > 0)) by (nonlinear_arith)
        requires
            t >= 0,
            f > 0,
    ;
    let d = ONE * base;
    let c = o.cycles as int;
    assert(d * c > 0) by (nonlinear_arith)
        requires
            d > 0,
            c > 0,
    ;
}

proof fn lemma_weights_proper(pids: Seq<PidObs>, alpha: int, beta: int)
    requires
        0 <= alpha,
        0 <= beta,
        all_well_formed(pids),
    ensures
        proper(weights(pids, alpha, beta)),
        proper(weights_per_cycle(pids, alpha, beta)),
{
    assert forall|i: int| 0 <= i < pids.len() implies 0 <= (#[trigger] weights(
        pids,
        alpha,
        beta,
    )[i]).num && 0 < weights(pids, alpha, beta)[i].den by {
        lemma_obs_weight(pids[i], alpha, beta);
    }
    assert forall|i: int| 0 <= i < pids.len() implies 0 <= (#[trigger] weights_per_cycle(
        pids,
        alpha,
        beta,
    )[i]).num && 0 < weights_per_cycle(pids, alpha, beta)[i].den by {
        lemma_obs_weight(pids[i], alpha, beta);
    }
}

proof fn lemma_cycle_total(pids: Seq<PidObs>)
    requires
        all_well_formed(pids),
    ensures
        0 <= cycle_total(pids),
        pids.len() > 0 ==> cycle_total(pids) > 0,
    decreases pids.len(),
{
    if pids.len() > 0 {
        let d = pids.drop_last();
        assert forall|i: int| 0 <= i < d.len() implies (#[trigger] d[i]).well_formed() by {
            assert(d[i] == pids[i]);
        }
        lemma_cycle_total(d);
        assert(pids[pids.len() - 1].well_formed());
    }
}

/// The energies per cycle vary as the weights per cycle do: what they differ by is the same for
/// all PIDs of a core.
proof fn lemma_error_per_cycle(e: int, pids: Seq<PidObs>, alpha: int, beta: int)
    requires
        0 <= alpha,
        0 <= beta,
        all_well_formed(pids),
    ensures
        is_error(e, pids, alpha, beta) == is_variation(e, weights_per_cycle(pids, alpha, beta)),
{
    let w = weights(pids, alpha, beta);
    let s = weights_per_cycle(pids, alpha, beta);
    lemma_weights_proper(pids, alpha, beta);
    lemma_sum_positive(w);
    lemma_sum_positive(s);
    if sum(lifted(w)) > 0 {
        let i = choose|i: int| 0 <= i < w.len() && (#[trigger] w[i]).num > 0;
        assert(s[i].num > 0);
        lemma_cycle_total(pids);
        let all = weight_total(pids, alpha, beta);
        let p = all.den * cycle_total(pids);
        assert(p > 0) by (nonlinear_arith)
            requires
                p == all.den * cycle_total(pids),
                all.den > 0,
                cycle_total(pids) > 0,
        ;
        law_variation_scaled(e, s, energies(pids, alpha, beta), p, all.num);
    } else if sum(lifted(s)) > 0 {
        let i = choose|i: int| 0 <= i < s.len() && (#[trigger] s[i]).num > 0;
        assert(w[i].num > 0);
    }
}

/// A core's PIDs have a consistency error under α and β.
pub proof fn law_error_exists(pids: Seq<PidObs>, alpha: int, beta: int)
    ensures
        is_error(error_of(pids, alpha, beta), pids, alpha, beta),
{
    if weight_total(pids, alpha, beta).num <= 0 {
        assert(is_error(0, pids, alpha, beta));
    } else {
        let e = law_variation_exists(lifted(energies(pids, alpha, beta)));
        assert(is_error(e, pids, alpha, beta));
    }
}

/// What two lists of PIDs have the same of, if their weights per cycle vary as much.
proof fn lemma_same_error(a: Seq<PidObs>, b: Seq<PidObs>, alpha: int, beta: int)
    requires
        0 <= alpha,
        0 <= beta,
        all_well_formed(a),
        all_well_formed(b),
        forall|e: int| #[trigger]
            is_variation(e, weights_per_cycle(a, alpha, beta)) ==> is_variation(
                e,
                weights_per_cycle(b, alpha, beta),
            ),
    ensures
        error_of(a, alpha, beta) == error_of(b, alpha, beta),
{
    let e = error_of(a, alpha, beta);
    law_error_exists(a, alpha, beta);
    lemma_error_per_cycle(e, a, alpha, beta);
    lemma_error_per_cycle(e, b, alpha, beta);
    law_error_unique(e, b, alpha, beta);
}

/// The consistency error does not depend on the unit of time: with all times `k` times as long it
/// is the same.
pub proof fn law_error_ignores_time_scale(
    pids: Seq<PidObs>,
    longer: Seq<PidObs>,
    k: int,
    alpha: int,
    beta: int,
)
    requires
        0 <= alpha,
        0 <= beta,
        0 < k,
        all_well_formed(pids),
        longer.len() == pids.len(),
        forall|i: int|
            0 <= i < pids.len() ==> (#[trigger] longer[i]).time_ns == pids[i].time_ns * k
                && longer[i].ipc == pids[i].ipc && longer[i].miss_ratio == pids[i].miss_ratio
                && longer[i].cycles == pids[i].cycles,
    ensures
        error_of(longer, alpha, beta) == error_of(pids, alpha, beta),
{
    let s = weights_per_cycle(pids, alpha, beta);
    let t = weights_per_cycle(longer, alpha, beta);
    assert forall|i: int| 0 <= i < longer.len() implies (#[trigger] longer[i]).well_formed() by {
        assert(pids[i].well_formed());
    }
    assert forall|i: int| 0 <= i < s.len() implies (#[trigger] t[i]).num == s[i].num * k && t[i].den
        == s[i].den * 1 by {
        let (m, n) = (longer[i].ipc, longer[i].miss_ratio);
        let f = ONE * (m.den * n.den) + alpha * (m.num * n.den) + beta * (n.num * m.den);
        let x = pids[i].time_ns as int;
        assert(longer[i].time_ns == x * k);
        assert((x * k) * f == (x * f) * k) by (nonlinear_arith);
    }
    assert forall|e: int| #[trigger] is_variation(e, s) implies is_variation(e, t) by {
        law_variation_scaled(e, s, t, k, 1);
    }
    lemma_same_error(pids, longer, alpha, beta);
}

/// The consistency error does not depend on the unit of cycles: with `k` times the cycles in all
/// PIDs it is the same.
pub proof fn law_error_ignores_cycle_scale(
    pids: Seq<PidObs>,
    more: Seq<PidObs>,
    k: int,
    alpha: int,
    beta: int,
)
    requires
        0 <= alpha,
        0 <= beta,
        0 < k,
        all_well_formed(pids),
        more.len() == pids.len(),
        forall|i: int|
            0 <= i < pids.len() ==> (#[trigger] more[i]).cycles == pids[i].cycles * k
                && more[i].ipc == pids[i].ipc && more[i].miss_ratio == pids[i].miss_ratio
                && more[i].time_ns == pids[i].time_ns,
    ensures
        error_of(more, alpha, beta) == error_of(pids, alpha, beta),
{
    let s = weights_per_cycle(pids, alpha, beta);
    let t = weights_per_cycle(more, alpha, beta);
    assert forall|i: int| 0 <= i < more.len() implies (#[trigger] more[i]).well_formed() by {
        assert(pids[i].well_formed());
        let c = pids[i].cycles as int;
        assert(c * k > 0) by (nonlinear_arith)
            requires
                c > 0,
                k > 0,
        ;
    }
    assert forall|i: int| 0 <= i < s.len() implies (#[trigger] t[i]).num == s[i].num * 1 && t[i].den
        == s[i].den * k by {
        let d = obs_weight(pids[i], alpha, beta).den;
        let c = pids[i].cycles as int;
        assert(more[i].cycles == c * k);
        assert(d * (c * k) == (d * c) * k) by (nonlinear_arith);
    }
    assert forall|e: int| #[trigger] is_variation(e, s) implies is_variation(e, t) by {
        law_variation_scaled(e, s, t, 1, k);
    }
    lemma_same_error(pids, more, alpha, beta);
}

proof fn lemma_reordered_sums(a: Seq<PidObs>, b: Seq<PidObs>, alpha: int, beta: int)
    requires
        a.to_multiset() == b.to_multiset(),
    ensures
        a.len() == b.len(),
        product(weights_per_cycle(a, alpha, beta)) == product(weights_per_cycle(b, alpha, beta)),
        sum(lifted(weights_per_cycle(a, alpha, beta))) == sum(
            lifted(weights_per_cycle(b, alpha, beta)),
        ),
        square_sum(lifted(weights_per_cycle(a, alpha, beta))) == square_sum(
            lifted(weights_per_cycle(b, alpha, beta)),
        ),
    decreases a.len(),
{
    a.to_multiset_ensures();
    b.to_multiset_ensures();
    if a.len() > 0 {
        let o = a[a.len() - 1];
        assert(a.contains(o));
        assert(b.to_multiset().count(o) > 0);
        assert(b.contains(o));
        let k = choose|k: int| 0 <= k < b.len() && b[k] == o;
        let (low, high) = (b.take(k), b.skip(k + 1));
        let rest = b.remove(k);
        assert(rest =~= low + high);
        assert(a.remove(a.len() - 1) =~= a.drop_last());
        lemma_reordered_sums(a.drop_last(), rest, alpha, beta);
        let x = per_cycle(o, alpha, beta);
        let (s, t) = (
            weights_per_cycle(low, alpha, beta),
            weights_per_cycle(high, alpha, beta),
        );
        assert(weights_per_cycle(b, alpha, beta) =~= s + (seq![x] + t));
        assert(weights_per_cycle(rest, alpha, beta) =~= s + t);
        assert(weights_per_cycle(a, alpha, beta) =~= weights_per_cycle(a.drop_last(), alpha, beta)
            + seq![x]);
        lemma_sums_of_move(s, x, t);
        lemma_sums_of_last(weights_per_cycle(a.drop_last(), alpha, beta), x);
        lemma_sums_of_last(s + t, x);
    } else {
        assert(a =~= b);
    }
}

/// The consistency error does not depend on the order of the PIDs.
pub proof fn law_error_ignores_order(a: Seq<PidObs>, b: Seq<PidObs>, alpha: int, beta: int)
    requires
        0 <= alpha,
        0 <= beta,
        all_well_formed(a),
        a.to_multiset() == b.to_multiset(),
    ensures
        error_of(a, alpha, beta) == error_of(b, alpha, beta),
{
    a.to_multiset_ensures();
    b.to_multiset_ensures();
    assert forall|i: int| 0 <= i < b.len() implies (#[trigger] b[i]).well_formed() by {
        assert(b.contains(b[i]));
        assert(a.to_multiset().count(b[i]) > 0);
        assert(a.contains(b[i]));
        let j = choose|j: int| 0 <= j < a.len() && a[j] == b[i];
        assert(a[j].well_formed());
    }
    lemma_reordered_sums(a, b, alpha, beta);
    lemma_lifted(weights_per_cycle(a, alpha, beta));
    lemma_lifted(weights_per_cycle(b, alpha, beta));
    lemma_same_error(a, b, alpha, beta);
}

// ─── Computing the error ────────────────────────────────────────

/// A PID's weight per cycle of its own.
fn weigh(o: &PidObs, alpha: u128, beta: u128) -> (r: (Wide, Wide))
    ensures
        (Ratio { num: r.0@, den: r.1@ }) == per_cycle(*o, alpha as int, beta as int),
{
    let ipc_num: Wide = Wide::from_wide(o.ipc.num as u128);
    let ipc_den: Wide = Wide::from_wide(o.ipc.den as u128);
    let miss_num: Wide = Wide::from_wide(o.miss_ratio.num as u128);
    let miss_den: Wide = Wide::from_wide(o.miss_ratio.den as u128);
    let base: Wide = Wide::from_wide(ONE).times(&ipc_den.times(&miss_den));
    let compute: Wide = Wide::from_wide(alpha).times(&ipc_num.times(&miss_den));
    let memory: Wide = Wide::from_wide(beta).times(&miss_num.times(&ipc_den));
    let worked: Wide = base.plus(&compute).plus(&memory);
    (
        Wide::from_wide(o.time_ns as u128).times(&worked),
        base.times(&Wide::from_wide(o.cycles as u128)),
    )
}

/// The consistency error of PIDs on a single core under α and β.
///
/// A well-calibrated model produces similar "energy per cycle" for all PIDs on the same core: they
/// share the same voltage and frequency.
pub fn consistency_error(pids: &Vec<PidObs>, alpha: u128, beta: u128) -> (e: u128)
    requires
        all_well_formed(pids@),
    ensures
        e == error_of(pids@, alpha as int, beta as int),
        is_error(e as int, pids@, alpha as int, beta as int),
        e < MAX_ERROR,
{
    let ghost a = alpha as int;
    let ghost b = beta as int;
    let mut v: Vec<(Wide, Wide)> = Vec::new();
    let mut i: usize = 0;
    while i < pids.len()
        invariant
            i <= pids@.len(),
            a == alpha,
            b == beta,
            ratios(v@) == weights_per_cycle(pids@.take(i as int), a, b),
        decreases pids@.len() - i,
    {
        let x: (Wide, Wide) = weigh(&pids[i], alpha, beta);
        let ghost before = v@;
        v.push(x);
        proof {
            let done = weights_per_cycle(pids@.take(i as int), a, b);
            let next = weights_per_cycle(pids@.take(i + 1), a, b);
            assert(ratios(v@) =~= ratios(before).push(Ratio { num: x.0@, den: x.1@ }));
            assert(next =~= done.push(per_cycle(pids@[i as int], a, b)));
        }
        i = i + 1;
    }
    assert(pids@.take(i as int) =~= pids@);
    proof {
        lemma_weights_proper(pids@, a, b);
        assert(ratios(v@).len() == pids@.len());
    }
    let e: u128 = variation(&v);
    proof {
        lemma_error_per_cycle(e as int, pids@, a, b);
        law_error_unique(e as int, pids@, a, b);
    }
    e
}

// ─── Gradients ──────────────────────────────────────────────────

/// How many of the first `n` cores give a signal.
pub open spec fn qualifying(obs: Seq<(u32, PidObs)>, list: Seq<u32>) -> int
    decreases list.len(),
{
    if list.len() == 0 {
        0
    } else {
        qualifying(obs, list.drop_last()) + if qualifies(on_core(obs, list.last())) {
            1int
        } else {
            0int
        }
    }
}

/// How the error of a core changes with each coefficient: by α, by β.
pub open spec fn core_gradient(pids: Seq<PidObs>, alpha: int, beta: int) -> (int, int) {
    let e = error_of(pids, alpha, beta);
    (
        (error_of(pids, alpha + EPSILON, beta) - e) * 100,
        (error_of(pids, alpha, beta + EPSILON) - e) * 100,
    )
}

/// The gradients of all cores that give a signal, added up.
pub open spec fn gradient(obs: Seq<(u32, PidObs)>, list: Seq<u32>, alpha: int, beta: int) -> (
    int,
    int,
)
    decreases list.len(),
{
    if list.len() == 0 {
        (0, 0)
    } else {
        let before = gradient(obs, list.drop_last(), alpha, beta);
        let pids = on_core(obs, list.last());
        if qualifies(pids) {
            let g = core_gradient(pids, alpha, beta);
            (before.0 + g.0, before.1 + g.1)
        } else {
            before
        }
    }
}

/// A number held between two bounds.
pub open spec fn clamped(x: int, lo: int, hi: int) -> int {
    if x < lo {
        lo
    } else if x > hi {
        hi
    } else {
        x
    }
}

/// The moving average of a gradient: nine parts what it was, one part what came.
pub open spec fn averaged(ema: int, d: int) -> int {
    (9 * ema + d) / 10
}

/// Whether a coefficient has moved by more than a twentieth.
pub open spec fn moved(value: u64, logged: u64) -> bool {
    20 * (if value > logged {
        value - logged
    } else {
        logged - value
    }) > logged
}

fn divided(n: i128, d: i128) -> (r: i128)
    requires
        0 < d,
        -0x7fff_ffff_ffff_ffff_ffff_ffff_ffff_ffff <= n,
    ensures
        r == n as int / d as int,
{
    if n >= 0 {
        (n as u128 / d as u128) as i128
    } else {
        let m: u128 = (-n) as u128;
        let q: u128 = (m + d as u128 - 1) / d as u128;
        proof {
            let x = n as int;
            let y = d as int;
            let k = q as int;
            vstd::arithmetic::div_mod::lemma_fundamental_div_mod(m + y - 1, y);
            assert(0 <= k <= m) by (nonlinear_arith)
                requires
                    k == (m + y - 1) / y,
                    m >= 1,
                    y >= 1,
            ;
            assert(y * (-k) == -(y * k)) by (nonlinear_arith);
            assert((-k) * y == -(y * k)) by (nonlinear_arith);
            vstd::arithmetic::div_mod::lemma_fundamental_div_mod_converse(x, y, -k, x + y * k);
        }
        -(q as i128)
    }
}

/// What the cores of an interval say: how many give a signal, and their gradients added up.
fn measure(obs: &Vec<(u32, PidObs)>, alpha: u64, beta: u64) -> (r: (u64, i128, i128))
    requires
        forall|i: int| 0 <= i < obs@.len() ==> (#[trigger] obs@[i]).1.well_formed(),
    ensures
        r.0 == qualifying(obs@, cores(obs@)),
        (r.1 as int, r.2 as int) == gradient(obs@, cores(obs@), alpha as int, beta as int),
        r.0 <= 0x1_0000_0000,
        -(r.0 * MAX_GRADIENT) <= r.1 <= r.0 * MAX_GRADIENT,
        -(r.0 * MAX_GRADIENT) <= r.2 <= r.0 * MAX_GRADIENT,
{
    let list: Vec<u32> = list_cores(obs);
    proof {
        lemma_cores_distinct(obs@);
        lemma_few_cores(list@);
    }
    let ghost a = alpha as int;
    let ghost b = beta as int;
    let mut n: u64 = 0;
    let mut da: i128 = 0;
    let mut db: i128 = 0;
    let mut i: usize = 0;
    while i < list.len()
        invariant
            i <= list@.len() <= 0x1_0000_0000,
            a == alpha,
            b == beta,
            list@ == cores(obs@),
            forall|j: int| 0 <= j < obs@.len() ==> (#[trigger] obs@[j]).1.well_formed(),
            n == qualifying(obs@, list@.take(i as int)),
            (da as int, db as int) == gradient(obs@, list@.take(i as int), a, b),
            n <= i,
            -(n * 429_496_729_600_000_000_000_000) <= da <= n * 429_496_729_600_000_000_000_000,
            -(n * 429_496_729_600_000_000_000_000) <= db <= n * 429_496_729_600_000_000_000_000,
        decreases list@.len() - i,
    {
        assert(list@.take(i + 1).drop_last() =~= list@.take(i as int));
        let pids: Vec<PidObs> = select_core(obs, list[i]);
        proof {
            lemma_on_core(obs@, list@[i as int]);
        }
        if is_diverse(&pids) {
            let e: u128 = consistency_error(&pids, alpha as u128, beta as u128);
            let ea: u128 = consistency_error(&pids, alpha as u128 + EPSILON, beta as u128);
            let eb: u128 = consistency_error(&pids, alpha as u128, beta as u128 + EPSILON);
            da = da + (ea as i128 - e as i128) * 100;
            db = db + (eb as i128 - e as i128) * 100;
            n = n + 1;
        }
        i = i + 1;
    }
    assert(list@.take(i as int) =~= list@);
    (n, da, db)
}

proof fn lemma_cores_distinct(obs: Seq<(u32, PidObs)>)
    ensures
        cores(obs).no_duplicates(),
    decreases obs.len(),
{
    if obs.len() > 0 {
        lemma_cores_distinct(obs.drop_last());
    }
}

/// There are no more cores than numbers for them.
proof fn lemma_few_cores(list: Seq<u32>)
    requires
        list.no_duplicates(),
    ensures
        list.len() <= 0x1_0000_0000,
{
    let wide = list.map_values(|x: u32| x as int);
    assert(wide.no_duplicates());
    wide.unique_seq_to_set();
    let all = set_int_range(0, 0x1_0000_0000);
    lemma_int_range(0, 0x1_0000_0000);
    assert(wide.to_set().subset_of(all)) by {
        assert forall|x: int| wide.to_set().contains(x) implies all.contains(x) by {
            let i = choose|i: int| 0 <= i < wide.len() && wide[i] == x;
            assert(wide[i] == list[i] as int);
        }
    }
    lemma_len_subset(wide.to_set(), all);
}

proof fn lemma_on_core(obs: Seq<(u32, PidObs)>, cpu: u32)
    requires
        forall|i: int| 0 <= i < obs.len() ==> (#[trigger] obs[i]).1.well_formed(),
    ensures
        forall|i: int|
            0 <= i < on_core(obs, cpu).len() ==> (#[trigger] on_core(obs, cpu)[i]).well_formed(),
    decreases obs.len(),
{
    if obs.len() > 0 {
        let before = obs.drop_last();
        assert forall|i: int| 0 <= i < before.len() implies (#[trigger] before[i]).1.well_formed() by {
            assert(before[i] == obs[i]);
        }
        lemma_on_core(before, cpu);
        assert(obs[obs.len() - 1].1.well_formed());
        let r = on_core(obs, cpu);
        assert forall|i: int| 0 <= i < r.len() implies (#[trigger] r[i]).well_formed() by {
            if i < on_core(before, cpu).len() {
                assert(r[i] == on_core(before, cpu)[i]);
            }
        }
    }
}

proof fn lemma_observations(
    counters: Seq<((u32, u32), (u64, u64, u64))>,
    times: Seq<(u32, u32, u64)>,
)
    ensures
        forall|i: int|
            0 <= i < observations(counters, times).len() ==> (
            #[trigger] observations(counters, times)[i]).1.well_formed(),
    decreases times.len(),
{
    if times.len() > 0 {
        lemma_observations(counters, times.drop_last());
        let before = observations(counters, times.drop_last());
        let r = observations(counters, times);
        assert forall|i: int| 0 <= i < r.len() implies (#[trigger] r[i]).1.well_formed() by {
            if i < before.len() {
                assert(r[i] == before[i]);
            }
        }
    }
}

// ─── The tuner ──────────────────────────────────────────────────

/// Online coefficient tuner for the attribution model.
#[derive(Clone, Copy, Debug, PartialEq, Eq, Structural)]
pub struct CoefficientTuner {
    pub alpha: u64,
    pub beta: u64,
    /// In units of 10⁻¹⁸
    pub learning_rate: i128,
    pub alpha_grad_ema: i128,
    pub beta_grad_ema: i128,
    pub updates: u64,
    pub qualifying_cores: u64,
    pub last_logged_alpha: u64,
    pub last_logged_beta: u64,
}

/// A change of the coefficients that is worth a message.
#[derive(Clone, Copy, Debug, PartialEq, Eq, Structural)]
pub struct CoefficientChange {
    pub old_alpha: u64,
    pub alpha: u64,
    pub old_beta: u64,
    pub beta: u64,
    pub updates: u64,
    pub qualifying_cores: u64,
}

/// That the counts cannot be held.
#[derive(Clone, Copy, Debug, PartialEq, Eq, Structural)]
pub struct OutOfRange;

/// The learning rate that a setting asks for: a thousandth where there is no setting, or where it
/// does not hold a number.
pub open spec fn rate_of(setting: Option<Seq<char>>) -> i128 {
    match setting {
        Some(s) => match amount_of(s) {
            Some(Amount::Units(u)) => attos(u) as i128,
            _ => 1_000_000_000_000_000,
        },
        None => 1_000_000_000_000_000,
    }
}

/// A coefficient once it followed its gradient.
pub open spec fn stepped(x: u64, rate: i128, ema: int, lo: u64, hi: u64) -> int {
    clamped(x - rate * ema / 1_000_000_000_000_000_000, lo as int, hi as int)
}

impl CoefficientTuner {
    /// The averages are those of gradients that can come, and the rate is one that can be set.
    pub open spec fn well_formed(&self) -> bool {
        &&& -MAX_GRADIENT <= self.alpha_grad_ema <= MAX_GRADIENT
        &&& -MAX_GRADIENT <= self.beta_grad_ema <= MAX_GRADIENT
        &&& -LARGEST_ATTOS <= self.learning_rate <= LARGEST_ATTOS
    }

    /// Whether what an interval says can be counted.
    pub open spec fn can_take(&self, obs: Seq<(u32, PidObs)>) -> bool {
        &&& qualifying(obs, cores(obs)) > 0 ==> self.updates < u64::MAX
            && self.qualifying_cores + qualifying(obs, cores(obs)) <= u64::MAX
    }

    /// The tuner after an interval that gave a signal, but for what was logged.
    pub open spec fn is_updated(&self, obs: Seq<(u32, PidObs)>, after: CoefficientTuner) -> bool {
        let n = qualifying(obs, cores(obs));
        let (da, db) = gradient(obs, cores(obs), self.alpha as int, self.beta as int);
        &&& after.alpha_grad_ema == averaged(self.alpha_grad_ema as int, da / n)
        &&& after.beta_grad_ema == averaged(self.beta_grad_ema as int, db / n)
        &&& after.alpha == stepped(
            self.alpha,
            self.learning_rate,
            after.alpha_grad_ema as int,
            MIN_ALPHA,
            MAX_ALPHA,
        )
        &&& after.beta == stepped(
            self.beta,
            self.learning_rate,
            after.beta_grad_ema as int,
            MIN_BETA,
            MAX_BETA,
        )
        &&& after.learning_rate == self.learning_rate
        &&& after.updates == self.updates + 1
        &&& after.qualifying_cores == self.qualifying_cores + n
    }

    /// A tuner that starts from given coefficients, with the learning rate that a setting asks for.
    pub fn new(alpha: u64, beta: u64, learning_rate: Option<&str>) -> (r: Self)
        ensures
            r.well_formed(),
            r == (CoefficientTuner {
                alpha,
                beta,
                learning_rate: rate_of(
                    match learning_rate {
                        Some(s) => Some(s@),
                        None => None,
                    },
                ),
                alpha_grad_ema: 0,
                beta_grad_ema: 0,
                updates: 0,
                qualifying_cores: 0,
                last_logged_alpha: alpha,
                last_logged_beta: beta,
            }),
    {
        let rate: i128 = match learning_rate {
            Some(s) => match read_attos(&chars_of(s)) {
                Some(m) => m,
                None => 1_000_000_000_000_000,
            },
            None => 1_000_000_000_000_000,
        };
        CoefficientTuner {
            alpha,
            beta,
            learning_rate: rate,
            alpha_grad_ema: 0,
            beta_grad_ema: 0,
            updates: 0,
            qualifying_cores: 0,
            last_logged_alpha: alpha,
            last_logged_beta: beta,
        }
    }

    /// Current coefficient values.
    pub fn current(&self) -> (r: (u64, u64))
        ensures
            r == (self.alpha, self.beta),
    {
        (self.alpha, self.beta)
    }

    /// Feeds one interval's per-PID per-core data into the tuner: the counters (instructions,
    /// cycles, cache misses) under core and PID, and the times as core, PID and nanoseconds.
    /// Returns a change that is worth a message. Where the counts cannot be held, the tuner stays
    /// as it is.
    pub fn update(
        &mut self,
        pid_hw_counters: &Vec<((u32, u32), (u64, u64, u64))>,
        pid_cpu_times: &Vec<(u32, u32, u64)>,
    ) -> (r: Result<Option<CoefficientChange>, OutOfRange>)
        requires
            old(self).well_formed(),
        ensures
            final(self).well_formed(),
            ({
                let obs = observations(pid_hw_counters@, pid_cpu_times@);
                let before = *old(self);
                let after = *final(self);
                if !before.can_take(obs) {
                    r == Err::<Option<CoefficientChange>, OutOfRange>(OutOfRange) && after == before
                } else if qualifying(obs, cores(obs)) == 0 {
                    r == Ok::<Option<CoefficientChange>, OutOfRange>(None) && after == before
                } else {
                    &&& before.is_updated(obs, after)
                    &&& if moved(after.alpha, before.last_logged_alpha) || moved(
                        after.beta,
                        before.last_logged_beta,
                    ) {
                        &&& after.last_logged_alpha == after.alpha
                        &&& after.last_logged_beta == after.beta
                        &&& r == Ok::<Option<CoefficientChange>, OutOfRange>(
                            Some(
                                CoefficientChange {
                                    old_alpha: before.last_logged_alpha,
                                    alpha: after.alpha,
                                    old_beta: before.last_logged_beta,
                                    beta: after.beta,
                                    updates: after.updates,
                                    qualifying_cores: after.qualifying_cores,
                                },
                            ),
                        )
                    } else {
                        &&& after.last_logged_alpha == before.last_logged_alpha
                        &&& after.last_logged_beta == before.last_logged_beta
                        &&& r == Ok::<Option<CoefficientChange>, OutOfRange>(None)
                    }
                }
            }),
    {
        let obs: Vec<(u32, PidObs)> = collect(pid_hw_counters, pid_cpu_times);
        proof {
            lemma_observations(pid_hw_counters@, pid_cpu_times@);
        }
        let (n, da, db) = measure(&obs, self.alpha, self.beta);
        if n == 0 {
            return Ok(None);
        }
        if self.updates == u64::MAX || self.qualifying_cores > u64::MAX - n {
            return Err(OutOfRange);
        }
        proof {
            lemma_average_bound(self.alpha_grad_ema as int, da as int, n as int);
            lemma_average_bound(self.beta_grad_ema as int, db as int, n as int);
        }
        let da: i128 = divided(da, n as i128);
        let db: i128 = divided(db, n as i128);
        self.alpha_grad_ema = divided(9 * self.alpha_grad_ema + da, 10);
        self.beta_grad_ema = divided(9 * self.beta_grad_ema + db, 10);
        self.alpha = step(self.alpha, self.learning_rate, self.alpha_grad_ema, MIN_ALPHA, MAX_ALPHA);
        self.beta = step(self.beta, self.learning_rate, self.beta_grad_ema, MIN_BETA, MAX_BETA);
        self.updates = self.updates + 1;
        self.qualifying_cores = self.qualifying_cores + n;
        if has_moved(self.alpha, self.last_logged_alpha) || has_moved(
            self.beta,
            self.last_logged_beta,
        ) {
            let change: CoefficientChange = CoefficientChange {
                old_alpha: self.last_logged_alpha,
                alpha: self.alpha,
                old_beta: self.last_logged_beta,
                beta: self.beta,
                updates: self.updates,
                qualifying_cores: self.qualifying_cores,
            };
            self.last_logged_alpha = self.alpha;
            self.last_logged_beta = self.beta;
            Ok(Some(change))
        } else {
            Ok(None)
        }
    }
}

proof fn lemma_average_bound(ema: int, d: int, n: int)
    requires
        -MAX_GRADIENT <= ema <= MAX_GRADIENT,
        0 < n,
        -(n * MAX_GRADIENT) <= d <= n * MAX_GRADIENT,
    ensures
        -MAX_GRADIENT <= d / n <= MAX_GRADIENT,
        -MAX_GRADIENT <= averaged(ema, d / n) <= MAX_GRADIENT,
{
    assert(-MAX_GRADIENT <= d / n <= MAX_GRADIENT) by (nonlinear_arith)
        requires
            0 < n,
            -(n * MAX_GRADIENT) <= d <= n * MAX_GRADIENT,
    ;
}

/// The size of a number.
fn size_of(n: i128) -> (r: u128)
    requires
        n > i128::MIN,
    ensures
        r == if n < 0 {
            -n
        } else {
            n as int
        },
{
    if n < 0 {
        (-n) as u128
    } else {
        n as u128
    }
}

fn step(x: u64, rate: i128, ema: i128, lo: u64, hi: u64) -> (r: u64)
    requires
        -MAX_GRADIENT <= ema <= MAX_GRADIENT,
        -LARGEST_ATTOS <= rate <= LARGEST_ATTOS,
        lo <= hi,
    ensures
        r == stepped(x, rate, ema as int, lo, hi),
        lo <= r <= hi,
{
    let ghost p = rate * ema;
    let ghost d = 1_000_000_000_000_000_000int;
    let product: Wide = Wide::from_wide(size_of(rate)).times(&Wide::from_wide(size_of(ema)));
    let unit: Wide = Wide::from_wide(1_000_000_000_000_000_000);
    let back: bool = (rate < 0 && ema > 0) || (rate > 0 && ema < 0);
    proof {
        let (a, b) = (rate as int, ema as int);
        assert(back ==> p < 0 && product@ == -p) by (nonlinear_arith)
            requires
                p == a * b,
                back == ((a < 0 && b > 0) || (a > 0 && b < 0)),
                product@ == (if a < 0 {
                    -a
                } else {
                    a
                }) * (if b < 0 {
                    -b
                } else {
                    b
                }),
        ;
        assert(!back ==> p >= 0 && product@ == p) by (nonlinear_arith)
            requires
                p == a * b,
                back == ((a < 0 && b > 0) || (a > 0 && b < 0)),
                product@ == (if a < 0 {
                    -a
                } else {
                    a
                }) * (if b < 0 {
                    -b
                } else {
                    b
                }),
        ;
    }
    let y: i128 = if back {
        let up: Wide = product.plus(&Wide::from_wide(999_999_999_999_999_999));
        let q: u64 = up.quotient(&Wide::zero(), &unit);
        proof {
            assert(p / d == -((-p + d - 1) / d));
        }
        x as i128 + q as i128
    } else {
        let q: u64 = product.quotient(&Wide::zero(), &unit);
        x as i128 - q as i128
    };
    if y < lo as i128 {
        lo
    } else if y > hi as i128 {
        hi
    } else {
        y as u64
    }
}

fn has_moved(value: u64, logged: u64) -> (r: bool)
    ensures
        r == moved(value, logged),
{
    let distance: u64 = if value > logged {
        value - logged
    } else {
        logged - value
    };
    20 * distance as u128 > logged as u128
}

// ─── Laws ───────────────────────────────────────────────────────

/// PIDs that behave alike are consistent under all coefficients.
pub proof fn law_identical_pids_are_consistent(pids: Seq<PidObs>, alpha: int, beta: int)
    requires
        0 <= alpha,
        0 <= beta,
        all_well_formed(pids),
        forall|i: int, j: int|
            0 <= i < pids.len() && 0 <= j < pids.len() ==> #[trigger] pids[i] == #[trigger] pids[j],
    ensures
        error_of(pids, alpha, beta) == 0,
{
    let s = weights_per_cycle(pids, alpha, beta);
    lemma_weights_proper(pids, alpha, beta);
    assert forall|i: int, j: int| 0 <= i < s.len() && 0 <= j < s.len() implies #[trigger] s[i]
        == #[trigger] s[j] by {
        assert(pids[i] == pids[j]);
    }
    law_same_do_not_vary(s);
    lemma_error_per_cycle(0, pids, alpha, beta);
    law_error_unique(0, pids, alpha, beta);
}

/// Once a signal has come the coefficients stay within their bounds.
pub proof fn law_coefficients_are_bounded(
    before: CoefficientTuner,
    obs: Seq<(u32, PidObs)>,
    after: CoefficientTuner,
)
    requires
        before.is_updated(obs, after),
    ensures
        MIN_ALPHA <= after.alpha <= MAX_ALPHA,
        MIN_BETA <= after.beta <= MAX_BETA,
{
}

proof fn lemma_few_observations(obs: Seq<(u32, PidObs)>, list: Seq<u32>)
    requires
        obs.len() < 2,
    ensures
        qualifying(obs, list) == 0,
    decreases list.len(),
{
    if list.len() > 0 {
        lemma_few_observations(obs, list.drop_last());
        lemma_on_core_len(obs, list.last());
    }
}

proof fn lemma_on_core_len(obs: Seq<(u32, PidObs)>, cpu: u32)
    ensures
        on_core(obs, cpu).len() <= obs.len(),
    decreases obs.len(),
{
    if obs.len() > 0 {
        lemma_on_core_len(obs.drop_last(), cpu);
    }
}

proof fn lemma_observation_count(
    counters: Seq<((u32, u32), (u64, u64, u64))>,
    times: Seq<(u32, u32, u64)>,
)
    ensures
        observations(counters, times).len() <= times.len(),
        counters.len() == 0 ==> observations(counters, times).len() == 0,
    decreases times.len(),
{
    if times.len() > 0 {
        lemma_observation_count(counters, times.drop_last());
    }
}

/// Without counters, without times or with the time of one PID alone there is no signal: the
/// coefficients stay.
pub proof fn law_no_signal(
    counters: Seq<((u32, u32), (u64, u64, u64))>,
    times: Seq<(u32, u32, u64)>,
)
    requires
        counters.len() == 0 || times.len() < 2,
    ensures
        qualifying(observations(counters, times), cores(observations(counters, times))) == 0,
{
    lemma_observation_count(counters, times);
    lemma_few_observations(observations(counters, times), cores(observations(counters, times)));
}

// ─── What is tuned ──────────────────────────────────────────────

/// A process is observed on a core if it ran there and its cycles were counted. Its instructions
/// per cycle and its misses per instruction are the ratios of what was counted.
pub proof fn law_observed(time_ns: u64, instructions: u64, cycles: u64, misses: u64)
    ensures
        match observed(time_ns, (instructions, cycles, misses)) {
            Some(o) => {
                &&& time_ns > 0 && cycles > 0
                &&& o.time_ns == time_ns
                &&& o.cycles == cycles
                &&& o.ipc.num * cycles == instructions * o.ipc.den
                &&& o.miss_ratio.num * instructions == misses * o.miss_ratio.den || instructions
                    == 0
                &&& instructions == 0 ==> o.miss_ratio.num == 0
                &&& o.ipc.den > 0 && o.miss_ratio.den > 0
            },
            None => time_ns == 0 || cycles == 0,
        },
{
}

/// What an observation counts for on a core.
pub open spec fn counted_on(cpu: u32, count: spec_fn(PidObs) -> int) -> spec_fn(
    (u32, PidObs),
) -> int {
    |e: (u32, PidObs)|
        if e.0 == cpu {
            count(e.1)
        } else {
            0
        }
}

/// What the counters of a process on a core make of its time there.
pub open spec fn counted_time(
    counters: Seq<((u32, u32), (u64, u64, u64))>,
    cpu: u32,
    count: spec_fn(PidObs) -> int,
) -> spec_fn((u32, u32, u64)) -> int {
    |t: (u32, u32, u64)|
        if t.0 == cpu {
            match lookup(counters, (t.0, t.1)) {
                Some(c) => match observed(t.2, c) {
                    Some(o) => count(o),
                    None => 0,
                },
                None => 0,
            }
        } else {
            0
        }
}

/// A core's observations are those of the times on that core, each with its own counters.
pub proof fn law_observations(
    counters: Seq<((u32, u32), (u64, u64, u64))>,
    times: Seq<(u32, u32, u64)>,
    cpu: u32,
    count: spec_fn(PidObs) -> int,
)
    ensures
        sum_of(on_core(observations(counters, times), cpu), count) == sum_of(
            times,
            counted_time(counters, cpu, count),
        ),
    decreases times.len(),
{
    lemma_counted_on(observations(counters, times), cpu, count);
    if times.len() > 0 {
        law_observations(counters, times.drop_last(), cpu, count);
        let before = observations(counters, times.drop_last());
        lemma_counted_on(before, cpu, count);
        let (core, pid, time_ns) = times.last();
        if let Some(o) = observed(time_ns, counters_of(counters, core, pid)) {
            lemma_sum_push(before, (core, o), counted_on(cpu, count));
        }
    }
}

proof fn lemma_counted_on(obs: Seq<(u32, PidObs)>, cpu: u32, count: spec_fn(PidObs) -> int)
    ensures
        sum_of(on_core(obs, cpu), count) == sum_of(obs, counted_on(cpu, count)),
    decreases obs.len(),
{
    if obs.len() > 0 {
        lemma_counted_on(obs.drop_last(), cpu, count);
        lemma_sum_push(on_core(obs.drop_last(), cpu), obs.last().1, count);
    }
}

/// Each core with an observation is listed once, and no other.
pub proof fn law_cores(obs: Seq<(u32, PidObs)>, cpu: u32)
    ensures
        cores(obs).no_duplicates(),
        cores(obs).contains(cpu) <==> exists|i: int|
            0 <= i < obs.len() && (#[trigger] obs[i]).0 == cpu,
    decreases obs.len(),
{
    if obs.len() > 0 {
        let rest = obs.drop_last();
        law_cores(rest, cpu);
        let before = cores(rest);
        let after = cores(obs);
        let last = obs[obs.len() - 1].0;
        assert(after.no_duplicates()) by {
            assert forall|i: int, j: int|
                0 <= i < after.len() && 0 <= j < after.len() && i != j implies after[i]
                != after[j] by {
                if i < before.len() {
                    assert(before.contains(before[i]));
                }
                if j < before.len() {
                    assert(before.contains(before[j]));
                }
            }
        }
        if before.contains(cpu) {
            let k = before.index_of(cpu);
            assert(after[k] == cpu);
            let i = choose|i: int| 0 <= i < rest.len() && (#[trigger] rest[i]).0 == cpu;
            assert(obs[i].0 == cpu);
        }
        if last == cpu && !before.contains(cpu) {
            assert(after[before.len() as int] == cpu);
        }
        if after.contains(cpu) && !before.contains(cpu) {
            let k = after.index_of(cpu);
            if k < before.len() {
                assert(before.contains(before[k]));
            }
            assert(last == cpu);
        }
        if exists|i: int| 0 <= i < obs.len() && (#[trigger] obs[i]).0 == cpu {
            let i = choose|i: int| 0 <= i < obs.len() && (#[trigger] obs[i]).0 == cpu;
            if i < rest.len() {
                assert(rest[i].0 == cpu);
            }
        }
    }
}

/// A core tells something of the coefficients if it has at least two processes, all of which
/// executed instructions, and one did more than twice as many per cycle as another.
pub proof fn law_core_qualifies(pids: Seq<PidObs>, i: int, j: int)
    requires
        0 <= i < pids.len(),
        0 <= j < pids.len(),
        pids[i].ipc.num * pids[j].ipc.den > 2 * pids[j].ipc.num * pids[i].ipc.den,
        forall|k: int| 0 <= k < pids.len() ==> (#[trigger] pids[k]).ipc.num > 0,
    ensures
        pids.len() >= 2 ==> qualifies(pids),
{
    let a = pids[i].ipc;
    let b = pids[j].ipc;
    assert(2 * b.num * a.den == 2 * (b.num * a.den)) by (nonlinear_arith);
    assert(more_than_twice(a, b));
}

/// What a core of which nothing can be told looks like: fewer than two processes, one that executed
/// nothing, or none that did more than twice as much per cycle as another.
pub proof fn law_core_does_not_qualify(pids: Seq<PidObs>, i: int, j: int)
    requires
        qualifies(pids),
        0 <= i < pids.len(),
    ensures
        pids.len() >= 2,
        pids[i].ipc.num > 0,
        exists|a: int, b: int|
            0 <= a < pids.len() && 0 <= b < pids.len() && (#[trigger] pids[a]).ipc.num * (
            #[trigger] pids[b]).ipc.den > 2 * (pids[b].ipc.num * pids[a].ipc.den),
{
    let (a, b) = choose|a: int, b: int|
        0 <= a < pids.len() && 0 <= b < pids.len() && #[trigger] more_than_twice(
            pids[a].ipc,
            pids[b].ipc,
        );
    assert(pids[a].ipc.num * pids[b].ipc.den > 2 * (pids[b].ipc.num * pids[a].ipc.den));
}

/// Without coefficients an observation weighs the time it ran. α adds that time by the instructions
/// per cycle, and β by the misses per instruction.
pub proof fn law_observation_weighs(o: PidObs, alpha: int, beta: int)
    ensures
        obs_weight(o, 0, 0).num == o.time_ns * obs_weight(o, 0, 0).den,
        obs_weight(o, alpha, beta).den == obs_weight(o, 0, 0).den,
        (obs_weight(o, alpha, beta).num - obs_weight(o, 0, beta).num) * (ONE * o.ipc.den)
            == alpha * o.time_ns * o.ipc.num * obs_weight(o, 0, 0).den,
        (obs_weight(o, alpha, beta).num - obs_weight(o, alpha, 0).num) * (ONE * o.miss_ratio.den)
            == beta * o.time_ns * o.miss_ratio.num * obs_weight(o, 0, 0).den,
{
    let t = o.time_ns as int;
    let (a, b) = (o.ipc.num as int, o.ipc.den as int);
    let (c, d) = (o.miss_ratio.num as int, o.miss_ratio.den as int);
    let one = ONE as int;
    let base = one * (b * d);
    assert(0 * (a * d) == 0 && 0 * (c * b) == 0);
    let x = alpha * (a * d);
    let y = beta * (c * b);
    assert(t * (base + x + y) - t * (base + 0 + y) == t * x) by (nonlinear_arith);
    assert(t * (base + x + y) - t * (base + x + 0) == t * y) by (nonlinear_arith);
    assert((t * (alpha * (a * d))) * (one * b) == alpha * t * a * (one * (b * d)))
        by (nonlinear_arith);
    assert((t * (beta * (c * b))) * (one * d) == beta * t * c * (one * (b * d)))
        by (nonlinear_arith);
}

/// The energy per cycle of a process that is alone is one. At the same weight it is the less the
/// more cycles the process had, and at the same cycles it goes with the weight.
pub proof fn law_energy_per_cycle(
    o: PidObs,
    p: PidObs,
    alpha: int,
    beta: int,
    all_weight: Ratio,
    all_cycles: int,
)
    ensures
        ({
            let alone = energy_per_cycle(o, alpha, beta, obs_weight(o, alpha, beta), o.cycles as int);
            let e = energy_per_cycle(o, alpha, beta, all_weight, all_cycles);
            let f = energy_per_cycle(p, alpha, beta, all_weight, all_cycles);
            let v = obs_weight(o, alpha, beta);
            let w = obs_weight(p, alpha, beta);
            &&& alone.num == alone.den
            &&& (e.num * f.den) * (o.cycles * (w.num * v.den)) == (f.num * e.den) * (p.cycles * (
            v.num * w.den))
        }),
{
    let v = obs_weight(o, alpha, beta);
    let w = obs_weight(p, alpha, beta);
    let (a, b) = (v.num, v.den);
    let (c, d) = (w.num, w.den);
    let (s, t) = (all_weight.num, all_weight.den);
    let k = all_cycles;
    let x = o.cycles as int;
    let y = p.cycles as int;
    assert(a * (b * x) == (b * x) * a) by (nonlinear_arith);
    lemma_products(a, b, c, d, s, t, k, x, y);
}

proof fn lemma_products(a: int, b: int, c: int, d: int, s: int, t: int, k: int, x: int, y: int)
    ensures
        ((a * (t * k)) * ((d * y) * s)) * (x * (c * b)) == ((c * (t * k)) * ((b * x) * s)) * (y * (a
            * d)),
{
    let q = t * k;
    assert((a * q) * ((d * y) * s) == (q * s) * ((a * d) * y)) by (nonlinear_arith);
    assert((c * q) * ((b * x) * s) == (q * s) * ((c * b) * x)) by (nonlinear_arith);
    let u = (a * d) * y;
    let z = (c * b) * x;
    let g = q * s;
    assert(x * (c * b) == z) by (nonlinear_arith)
        requires
            z == (c * b) * x,
    ;
    assert(y * (a * d) == u) by (nonlinear_arith)
        requires
            u == (a * d) * y,
    ;
    assert((g * u) * z == (g * z) * u) by (nonlinear_arith);
}

/// All cycles are those of each.
pub proof fn law_cycles_add_up(pids: Seq<PidObs>)
    ensures
        cycle_total(pids) == sum_of(pids, |o: PidObs| o.cycles as int),
    decreases pids.len(),
{
    if pids.len() > 0 {
        law_cycles_add_up(pids.drop_last());
    }
}

/// A core's gradient is by how much the error grows with each coefficient, over a step of a
/// hundredth.
pub proof fn law_core_gradient(pids: Seq<PidObs>, alpha: int, beta: int)
    ensures
        core_gradient(pids, alpha, beta).0 * 10_000_000_000 == (error_of(
            pids,
            alpha + 10_000_000_000,
            beta,
        ) - error_of(pids, alpha, beta)) * ONE,
        core_gradient(pids, alpha, beta).1 * 10_000_000_000 == (error_of(
            pids,
            alpha,
            beta + 10_000_000_000,
        ) - error_of(pids, alpha, beta)) * ONE,
{
}

/// What a core adds to a sum, if it tells something.
pub open spec fn told_by_core(obs: Seq<(u32, PidObs)>, count: spec_fn(Seq<PidObs>) -> int) -> spec_fn(
    u32,
) -> int {
    |cpu: u32|
        if qualifies(on_core(obs, cpu)) {
            count(on_core(obs, cpu))
        } else {
            0
        }
}

/// The gradient is that of the cores that tell something, together, and these are counted.
pub proof fn law_gradient(obs: Seq<(u32, PidObs)>, list: Seq<u32>, alpha: int, beta: int)
    ensures
        gradient(obs, list, alpha, beta).0 == sum_of(
            list,
            told_by_core(obs, |p: Seq<PidObs>| core_gradient(p, alpha, beta).0),
        ),
        gradient(obs, list, alpha, beta).1 == sum_of(
            list,
            told_by_core(obs, |p: Seq<PidObs>| core_gradient(p, alpha, beta).1),
        ),
        qualifying(obs, list) == sum_of(list, told_by_core(obs, |p: Seq<PidObs>| 1int)),
    decreases list.len(),
{
    if list.len() > 0 {
        law_gradient(obs, list.drop_last(), alpha, beta);
    }
}

/// The running average is nine tenths of what it was and a tenth of what is new, rounded down.
pub proof fn law_average(ema: int, d: int)
    ensures
        10 * averaged(ema, d) <= 9 * ema + d < 10 * averaged(ema, d) + 10,
        averaged(ema, ema) == ema,
{
}

/// A coefficient moves against its gradient, by the learning rate, and never leaves its bounds.
pub proof fn law_step(x: u64, rate: i128, ema: int, lo: u64, hi: u64)
    requires
        lo <= x <= hi,
    ensures
        lo <= stepped(x, rate, ema, lo, hi) <= hi,
        rate > 0 && ema > 0 ==> stepped(x, rate, ema, lo, hi) <= x,
        rate > 0 && ema < 0 ==> stepped(x, rate, ema, lo, hi) >= x,
        rate == 0 || ema == 0 ==> stepped(x, rate, ema, lo, hi) == x,
        ({
            let y = stepped(x, rate, ema, lo, hi);
            lo < y < hi ==> (x - y) * 1_000_000_000_000_000_000 <= rate * ema < (x - y + 1)
                * 1_000_000_000_000_000_000
        }),
{
    let p = rate * ema;
    assert(rate > 0 && ema > 0 ==> p > 0) by (nonlinear_arith)
        requires
            p == rate * ema,
    ;
    assert(rate > 0 && ema < 0 ==> p < 0) by (nonlinear_arith)
        requires
            p == rate * ema,
    ;
    assert(rate == 0 || ema == 0 ==> p == 0) by (nonlinear_arith)
        requires
            p == rate * ema,
    ;
}

/// An update counts itself and the cores that told something, and keeps the learning rate. Each
/// average takes in the mean gradient of its own coefficient.
pub proof fn law_update(before: CoefficientTuner, obs: Seq<(u32, PidObs)>, after: CoefficientTuner)
    requires
        before.is_updated(obs, after),
        qualifying(obs, cores(obs)) > 0,
    ensures
        ({
            let n = qualifying(obs, cores(obs));
            let g = gradient(obs, cores(obs), before.alpha as int, before.beta as int);
            &&& after.updates == before.updates + 1
            &&& after.qualifying_cores == before.qualifying_cores + n
            &&& after.learning_rate == before.learning_rate
            &&& exists|d: int|
                d * n <= g.0 < (d + 1) * n && 10 * after.alpha_grad_ema <= #[trigger] (9
                    * before.alpha_grad_ema + d) < 10 * after.alpha_grad_ema + 10
            &&& exists|d: int|
                d * n <= g.1 < (d + 1) * n && 10 * after.beta_grad_ema <= #[trigger] (9
                    * before.beta_grad_ema + d) < 10 * after.beta_grad_ema + 10
        }),
{
    let n = qualifying(obs, cores(obs));
    let g = gradient(obs, cores(obs), before.alpha as int, before.beta as int);
    lemma_floor(g.0, n);
    lemma_floor(g.1, n);
    let da = g.0 / n;
    let db = g.1 / n;
    assert(10 * after.alpha_grad_ema <= 9 * before.alpha_grad_ema + da);
    assert(10 * after.beta_grad_ema <= 9 * before.beta_grad_ema + db);
}

/// A coefficient has moved if it differs by more than a twentieth from the one told last.
pub proof fn law_moved(value: u64, logged: u64)
    ensures
        moved(value, logged) <==> value * 100 > logged * 105 || value * 100 < logged * 95,
{
}

/// The learning rate is what the setting says, to 10⁻¹⁸, and a thousandth where nothing is said.
pub proof fn law_rate(setting: Seq<char>, units: int, q: int)
    ensures
        rate_of(None) * 1000 == 1_000_000_000_000_000_000,
        amount_of(setting) is None ==> rate_of(Some(setting)) == rate_of(None),
        amount_of(setting) == Some(Amount::Units(units)) && 0 <= q <= LARGEST_ATTOS && q * ten_to(
            312,
        ) <= units < (q + 1) * ten_to(312) ==> rate_of(Some(setting)) == q,
        amount_of(setting) == Some(Amount::Units(-units)) && 0 <= q <= LARGEST_ATTOS && q * ten_to(
            312,
        ) <= units < (q + 1) * ten_to(312) ==> rate_of(Some(setting)) == -q,
{
    if 0 <= q {
        law_parts(units, q);
    }
}

} // verus!
