//! Attribution models: convert raw per-core observations into energy weights.
//!
//! A model takes the observations of each PID on one core and gives each PID a weight. The engine
//! normalizes the weights of a core so that they sum to the core's energy.
//!
//! Three models, selected by the data at hand:
//!
//! 1. [`FullModel`]: time × freq² × counter weights (best accuracy)
//! 2. [`FrequencyWeightedModel`]: time × freq² (no counter data)
//! 3. [`CpuTimeRatioModel`]: time only
//!
//! Weights are whole numbers of any size. Only ratios between the weights of one core matter, so
//! each model has its own unit.

use super::types::AttributionMethod;
use crate::arith::lemma_floor;
use crate::decimal::{
    amount_of, attos, lemma_ten_to, read_attos, ten_to, Amount, LARGEST_ATTOS,
};
use crate::text::chars_of;
use crate::wide::Wide;
use vstd::arithmetic::div_mod::*;
use vstd::prelude::*;

verus! {

/// What is known about one PID on one core during one interval.
#[derive(Clone, Copy, Debug, PartialEq, Eq, Structural)]
pub struct PidCoreObservation {
    pub pid: u32,
    pub time_ns: u64,
    pub instructions: u64,
    pub cycles: u64,
    pub cache_misses: u64,
}

/// Raw weight for one PID on one core. The engine normalizes it.
#[derive(Debug)]
pub struct PidCoreWeight {
    pub pid: u32,
    pub raw_weight: Wide,
}

/// An attribution model.
pub trait AttributionModel: Sized {
    /// The weight of one observation on a core that ran at `avg_freq_khz` on average.
    spec fn weight(&self, obs: PidCoreObservation, avg_freq_khz: u32) -> int;

    /// How a process is tagged whose power came from this model.
    spec fn tag(&self) -> AttributionMethod;

    /// The weight of one observation.
    fn weigh(&self, obs: &PidCoreObservation, avg_freq_khz: u32) -> (r: Wide)
        ensures
            r@ == self.weight(*obs, avg_freq_khz),
    ;

    /// Computes raw weights for all PIDs on a given core, in the order of the observations.
    fn compute_weights(&self, observations: &Vec<PidCoreObservation>, avg_freq_khz: u32) -> (r: Vec<
        PidCoreWeight,
    >)
        ensures
            r@.len() == observations@.len(),
            forall|i: int|
                0 <= i < r@.len() ==> (#[trigger] r@[i]).pid == observations@[i].pid
                    && r@[i].raw_weight@ == self.weight(observations@[i], avg_freq_khz),
    {
        let mut r: Vec<PidCoreWeight> = Vec::new();
        let mut i: usize = 0;
        while i < observations.len()
            invariant
                i <= observations@.len(),
                r@.len() == i,
                forall|j: int|
                    0 <= j < i ==> (#[trigger] r@[j]).pid == observations@[j].pid
                        && r@[j].raw_weight@ == self.weight(observations@[j], avg_freq_khz),
            decreases observations@.len() - i,
        {
            let raw_weight: Wide = self.weigh(&observations[i], avg_freq_khz);
            r.push(PidCoreWeight { pid: observations[i].pid, raw_weight });
            i = i + 1;
        }
        r
    }

    /// Which method this model uses (for metadata tagging).
    fn method(&self) -> (r: AttributionMethod)
        ensures
            r == self.tag(),
    ;
}

/// Time spent at a frequency: nanoseconds × KHz².
pub open spec fn frequency_weight(time_ns: int, freq_khz: int) -> int {
    time_ns * (freq_khz * freq_khz)
}

/// Nanoseconds × KHz² always fit.
pub fn time_at_frequency(time_ns: u64, freq_khz: u32) -> (r: u128)
    ensures
        r == frequency_weight(time_ns as int, freq_khz as int),
{
    proof {
        let t = time_ns as int;
        let f = freq_khz as int;
        assert(0 <= f * f <= 0xffff_ffff * 0xffff_ffff) by (nonlinear_arith)
            requires
                0 <= f <= 0xffff_ffff,
        ;
        assert(0 <= t * (f * f) <= 0xffff_ffff_ffff_ffff * (0xffff_ffff * 0xffff_ffff))
            by (nonlinear_arith)
            requires
                0 <= t <= 0xffff_ffff_ffff_ffff,
                0 <= f * f <= 0xffff_ffff * 0xffff_ffff,
        ;
    }
    let square: u128 = freq_khz as u128 * freq_khz as u128;
    time_ns as u128 * square
}

/// Full model: uses time, frequency, and hardware counters.
///
/// Weight = time × freq² × (1 + α·IPC + β·cache miss ratio)
///
/// - freq² approximates the voltage²×frequency power relationship
/// - IPC (instructions per cycle) indicates compute intensity
/// - the cache miss ratio (misses per instruction) indicates memory-bound behavior
///
/// The factor in brackets is counted in units of 10⁻³⁶; its two products are rounded down to them.
#[derive(Clone, Copy, Debug, PartialEq, Eq, Structural)]
pub struct FullModel {
    /// Weight of IPC contribution to power, in units of 10⁻¹⁸
    pub alpha_atto: u128,
    /// Weight of cache miss ratio contribution to power, in units of 10⁻¹⁸
    pub beta_atto: u128,
}

/// How many units of 10⁻³⁶ make one of 10⁻¹⁸.
pub open spec fn fine() -> int {
    1_000_000_000_000_000_000
}

/// α × instructions / cycles in units of 10⁻³⁶; 0 without cycles.
pub open spec fn ratio_term(coefficient_atto: int, count: int, base: int) -> int {
    if base > 0 {
        coefficient_atto * count * fine() / base
    } else {
        0
    }
}

impl FullModel {
    /// The factor by which a workload's counters scale its time, in units of 10⁻³⁶.
    pub open spec fn workload_factor(&self, obs: PidCoreObservation) -> int {
        1_000_000_000_000_000_000 * fine() + ratio_term(
            self.alpha_atto as int,
            obs.instructions as int,
            obs.cycles as int,
        ) + ratio_term(self.beta_atto as int, obs.cache_misses as int, obs.instructions as int)
    }

    /// The default coefficients: α = 0.3, β = 1.5.
    pub fn new() -> (r: Self)
        ensures
            r == (FullModel { alpha_atto: 300_000_000_000_000_000, beta_atto: 1_500_000_000_000_000_000 }),
    {
        FullModel { alpha_atto: 300_000_000_000_000_000, beta_atto: 1_500_000_000_000_000_000 }
    }

    /// A model with the given coefficients, in units of 10⁻¹⁸.
    pub fn with_coefficients(alpha_atto: u128, beta_atto: u128) -> (r: Self)
        ensures
            r == (FullModel { alpha_atto, beta_atto }),
    {
        FullModel { alpha_atto, beta_atto }
    }

    /// A model with the coefficients that settings override; α and β are as by default where a
    /// setting is missing or is no coefficient.
    pub fn from_settings(alpha: Option<&str>, beta: Option<&str>) -> (r: Self)
        ensures
            r.alpha_atto == coefficient_of(
                match alpha {
                    Some(s) => Some(s@),
                    None => None,
                },
                300_000_000_000_000_000,
            ),
            r.beta_atto == coefficient_of(
                match beta {
                    Some(s) => Some(s@),
                    None => None,
                },
                1_500_000_000_000_000_000,
            ),
    {
        FullModel {
            alpha_atto: read_coefficient(alpha, 300_000_000_000_000_000),
            beta_atto: read_coefficient(beta, 1_500_000_000_000_000_000),
        }
    }
}

/// The coefficient that a setting asks for, in units of 10⁻¹⁸: a number that is not negative, or
/// else the default.
pub open spec fn coefficient_of(setting: Option<Seq<char>>, default_atto: u128) -> u128 {
    match setting {
        Some(s) => match amount_of(s) {
            Some(Amount::Units(u)) => if 0 <= attos(u) {
                attos(u) as u128
            } else {
                default_atto
            },
            _ => default_atto,
        },
        None => default_atto,
    }
}

fn read_coefficient(setting: Option<&str>, default_atto: u128) -> (r: u128)
    ensures
        r == coefficient_of(
            match setting {
                Some(s) => Some(s@),
                None => None,
            },
            default_atto,
        ),
{
    match setting {
        Some(s) => match read_attos(&chars_of(s)) {
            Some(a) => if 0 <= a {
                a as u128
            } else {
                default_atto
            },
            None => default_atto,
        },
        None => default_atto,
    }
}

/// Long division: brings down the next group of nine places of `factor`, in `factor * count / base`.
fn bring_down(
    quotient: &Wide,
    rest: u64,
    places: u32,
    count: u64,
    base: u64,
    factor: Ghost<int>,
) -> (r: (Wide, u64))
    requires
        0 < base,
        places < 1_000_000_000,
        0 <= factor@,
        quotient@ == (factor@ * count) / base as int,
        rest == (factor@ * count) % base as int,
    ensures
        r.0@ == ((factor@ * 1_000_000_000 + places) * count) / base as int,
        r.1 == ((factor@ * 1_000_000_000 + places) * count) % base as int,
{
    let ghost n = factor@ * count;
    let ghost d = base as int;
    proof {
        lemma_fundamental_div_mod(n, d);
        assert(0 <= places * count <= 999_999_999 * 0xffff_ffff_ffff_ffff) by (nonlinear_arith)
            requires
                places <= 999_999_999,
                count <= 0xffff_ffff_ffff_ffff,
        ;
    }
    let more: u128 = rest as u128 * 1_000_000_000 + places as u128 * count as u128;
    let divisor: u128 = base as u128;
    proof {
        let next = (factor@ * 1_000_000_000 + places) * count;
        let q = quotient@ * 1_000_000_000 + more as int / d;
        lemma_fundamental_div_mod(more as int, d);
        lemma_mod_bound(more as int, d);
        let (f, c, p, old) = (factor@, count as int, places as int, quotient@);
        let (m, low) = (more as int / d, more as int % d);
        assert(next == q * d + low) by (nonlinear_arith)
            requires
                next == (f * 1_000_000_000 + p) * c,
                n == f * c,
                n == d * old + rest,
                more == rest * 1_000_000_000 + p * c,
                more == d * m + low,
                q == old * 1_000_000_000 + m,
        ;
        lemma_fundamental_div_mod_converse(next, d, q, low);
    }
    let q: Wide = quotient.times_digit(1_000_000_000).plus(&Wide::from_wide(more / divisor));
    (q, (more % divisor) as u64)
}

fn scaled_ratio(coefficient_atto: u128, count: u64, base: u64) -> (r: Wide)
    ensures
        r@ == ratio_term(coefficient_atto as int, count as int, base as int),
{
    if base == 0 {
        return Wide::zero();
    }
    let a: u128 = coefficient_atto / 1_000_000_000;
    let b: u128 = a / 1_000_000_000;
    let c: u128 = b / 1_000_000_000;
    let d: u128 = c / 1_000_000_000;
    proof {
        assert(0int * count == 0) by (nonlinear_arith);
        lemma_div_basics(base as int);
        lemma_small_mod(0, base as nat);
    }
    let (q, rest) = bring_down(&Wide::zero(), 0, d as u32, count, base, Ghost(0));
    let (q, rest) = bring_down(&q, rest, (c % 1_000_000_000) as u32, count, base, Ghost(d as int));
    let (q, rest) = bring_down(&q, rest, (b % 1_000_000_000) as u32, count, base, Ghost(c as int));
    let (q, rest) = bring_down(&q, rest, (a % 1_000_000_000) as u32, count, base, Ghost(b as int));
    let low: u32 = (coefficient_atto % 1_000_000_000) as u32;
    let (q, rest) = bring_down(&q, rest, low, count, base, Ghost(a as int));
    let ghost whole = coefficient_atto as int;
    let (q, rest) = bring_down(&q, rest, 0, count, base, Ghost(whole));
    let (q, _) = bring_down(&q, rest, 0, count, base, Ghost(whole * 1_000_000_000));
    assert((whole * 1_000_000_000 * 1_000_000_000) * count == whole * count * fine())
        by (nonlinear_arith)
        requires
            fine() == 1_000_000_000 * 1_000_000_000,
    ;
    q
}

impl AttributionModel for FullModel {
    open spec fn weight(&self, obs: PidCoreObservation, avg_freq_khz: u32) -> int {
        frequency_weight(obs.time_ns as int, avg_freq_khz as int) * self.workload_factor(obs)
    }

    open spec fn tag(&self) -> AttributionMethod {
        AttributionMethod::FullModel
    }

    fn weigh(&self, obs: &PidCoreObservation, avg_freq_khz: u32) -> (r: Wide) {
        let base: Wide = Wide::from_wide(time_at_frequency(obs.time_ns, avg_freq_khz));
        let one: Wide = Wide::from_wide(1_000_000_000_000_000_000_000_000_000_000_000_000);
        let compute: Wide = scaled_ratio(self.alpha_atto, obs.instructions, obs.cycles);
        let memory: Wide = scaled_ratio(self.beta_atto, obs.cache_misses, obs.instructions);
        base.times(&one.plus(&compute).plus(&memory))
    }

    fn method(&self) -> (r: AttributionMethod) {
        AttributionMethod::FullModel
    }
}

/// Frequency-weighted model: uses time and frequency, no counters.
///
/// Weight = time × freq²
#[derive(Clone, Copy, Debug, PartialEq, Eq, Structural)]
pub struct FrequencyWeightedModel;

impl AttributionModel for FrequencyWeightedModel {
    open spec fn weight(&self, obs: PidCoreObservation, avg_freq_khz: u32) -> int {
        frequency_weight(obs.time_ns as int, avg_freq_khz as int)
    }

    open spec fn tag(&self) -> AttributionMethod {
        AttributionMethod::FrequencyWeighted
    }

    fn weigh(&self, obs: &PidCoreObservation, avg_freq_khz: u32) -> (r: Wide) {
        Wide::from_wide(time_at_frequency(obs.time_ns, avg_freq_khz))
    }

    fn method(&self) -> (r: AttributionMethod) {
        AttributionMethod::FrequencyWeighted
    }
}

/// CPU time ratio model: the simplest.
///
/// Weight = time (frequency and counters ignored)
#[derive(Clone, Copy, Debug, PartialEq, Eq, Structural)]
pub struct CpuTimeRatioModel;

impl AttributionModel for CpuTimeRatioModel {
    open spec fn weight(&self, obs: PidCoreObservation, avg_freq_khz: u32) -> int {
        obs.time_ns as int
    }

    open spec fn tag(&self) -> AttributionMethod {
        AttributionMethod::CpuTimeRatio
    }

    fn weigh(&self, obs: &PidCoreObservation, avg_freq_khz: u32) -> (r: Wide) {
        Wide::from_wide(obs.time_ns as u128)
    }

    fn method(&self) -> (r: AttributionMethod) {
        AttributionMethod::CpuTimeRatio
    }
}

/// Any one of the models.
#[derive(Clone, Copy, Debug, PartialEq, Eq, Structural)]
pub enum Model {
    Full(FullModel),
    FrequencyWeighted(FrequencyWeightedModel),
    CpuTimeRatio(CpuTimeRatioModel),
}

impl AttributionModel for Model {
    open spec fn weight(&self, obs: PidCoreObservation, avg_freq_khz: u32) -> int {
        match *self {
            Model::Full(m) => m.weight(obs, avg_freq_khz),
            Model::FrequencyWeighted(m) => m.weight(obs, avg_freq_khz),
            Model::CpuTimeRatio(m) => m.weight(obs, avg_freq_khz),
        }
    }

    open spec fn tag(&self) -> AttributionMethod {
        match *self {
            Model::Full(m) => m.tag(),
            Model::FrequencyWeighted(m) => m.tag(),
            Model::CpuTimeRatio(m) => m.tag(),
        }
    }

    fn weigh(&self, obs: &PidCoreObservation, avg_freq_khz: u32) -> (r: Wide) {
        match self {
            Model::Full(m) => m.weigh(obs, avg_freq_khz),
            Model::FrequencyWeighted(m) => m.weigh(obs, avg_freq_khz),
            Model::CpuTimeRatio(m) => m.weigh(obs, avg_freq_khz),
        }
    }

    fn method(&self) -> (r: AttributionMethod) {
        match self {
            Model::Full(m) => m.method(),
            Model::FrequencyWeighted(m) => m.method(),
            Model::CpuTimeRatio(m) => m.method(),
        }
    }
}

/// No model gives a negative weight.
pub proof fn lemma_weight_natural(model: Model, obs: PidCoreObservation, avg_freq_khz: u32)
    ensures
        0 <= model.weight(obs, avg_freq_khz),
{
    let t = obs.time_ns as int;
    let f = avg_freq_khz as int;
    assert(0 <= t * (f * f)) by (nonlinear_arith)
        requires
            0 <= t,
    ;
    if let Model::Full(m) = model {
        lemma_ratio_natural(m.alpha_atto as int, obs.instructions as int, obs.cycles as int);
        lemma_ratio_natural(m.beta_atto as int, obs.cache_misses as int, obs.instructions as int);
        let factor = m.workload_factor(obs);
        assert(0 <= (t * (f * f)) * factor) by (nonlinear_arith)
            requires
                0 <= t * (f * f),
                0 <= factor,
        ;
    }
}

proof fn lemma_ratio_natural(coefficient_atto: int, count: int, base: int)
    requires
        0 <= coefficient_atto,
        0 <= count,
    ensures
        0 <= ratio_term(coefficient_atto, count, base),
{
    if base > 0 {
        assert(0 <= coefficient_atto * count) by (nonlinear_arith)
            requires
                0 <= coefficient_atto,
                0 <= count,
        ;
        lemma_div_pos_is_pos(coefficient_atto * count * fine(), base);
    }
}

/// A stalled process still weighs: whatever ran, on a core that ran, has a weight under every
/// model, whatever its counters say.
pub proof fn law_whatever_ran_weighs(model: Model, obs: PidCoreObservation, avg_freq_khz: u32)
    requires
        obs.time_ns > 0,
        avg_freq_khz > 0,
    ensures
        model.weight(obs, avg_freq_khz) > 0,
{
    let t = obs.time_ns as int;
    let f = avg_freq_khz as int;
    assert(0 < t * (f * f)) by (nonlinear_arith)
        requires
            0 < t,
            0 < f,
    ;
    if let Model::Full(m) = model {
        lemma_ratio_natural(m.alpha_atto as int, obs.instructions as int, obs.cycles as int);
        lemma_ratio_natural(m.beta_atto as int, obs.cache_misses as int, obs.instructions as int);
        let factor = m.workload_factor(obs);
        assert(0 < (t * (f * f)) * factor) by (nonlinear_arith)
            requires
                0 < t * (f * f),
                0 < factor,
        ;
    }
}

proof fn lemma_div_plus_one(x: int, d: int)
    requires
        0 < d,
    ensures
        (x + d) / d == x / d + 1,
{
    lemma_fundamental_div_mod(x, d);
    lemma_mod_bound(x, d);
    assert(x + d == (x / d + 1) * d + x % d) by (nonlinear_arith)
        requires
            x == d * (x / d) + x % d,
    ;
    lemma_fundamental_div_mod_converse(x + d, d, x / d + 1, x % d);
}

proof fn lemma_ratio_ordered(coefficient_atto: int, a: int, b: int, base: int)
    requires
        0 <= coefficient_atto,
        0 <= a <= b,
    ensures
        ratio_term(coefficient_atto, a, base) <= ratio_term(coefficient_atto, b, base),
{
    if base > 0 {
        assert(coefficient_atto * a <= coefficient_atto * b) by (nonlinear_arith)
            requires
                0 <= coefficient_atto,
                a <= b,
        ;
        lemma_div_is_ordered(
            coefficient_atto * a * fine(),
            coefficient_atto * b * fine(),
            base,
        );
    }
}

proof fn lemma_ratio_strict(coefficient_atto: int, a: int, b: int, base: int)
    requires
        0 <= a < b,
        0 < base <= coefficient_atto * fine(),
    ensures
        ratio_term(coefficient_atto, a, base) < ratio_term(coefficient_atto, b, base),
{
    let (x, y) = (coefficient_atto * a * fine(), coefficient_atto * b * fine());
    assert(x + base <= y) by (nonlinear_arith)
        requires
            a + 1 <= b,
            base <= coefficient_atto * fine(),
            0 < base,
            x == coefficient_atto * a * fine(),
            y == coefficient_atto * b * fine(),
    ;
    lemma_div_is_ordered(x + base, y, base);
    lemma_div_plus_one(x, base);
}

/// More work weighs more: of two processes that ran as long, the one that retired more
/// instructions in as many cycles, with no cache misses, or that missed the cache more often in
/// as many instructions and cycles, never weighs less under the full model. It weighs more where
/// both ran and the coefficient of what differs is more than 18 units of 10⁻¹⁸.
pub proof fn law_more_work_weighs_more(
    model: FullModel,
    a: PidCoreObservation,
    b: PidCoreObservation,
    avg_freq_khz: u32,
)
    requires
        a.time_ns == b.time_ns,
        a.cycles == b.cycles,
        (a.instructions <= b.instructions && a.cache_misses == 0 && b.cache_misses == 0) || (
        a.instructions == b.instructions && a.cache_misses <= b.cache_misses),
    ensures
        model.weight(a, avg_freq_khz) <= model.weight(b, avg_freq_khz),
        a.time_ns > 0 && avg_freq_khz > 0 && ((a.cycles > 0 && a.instructions < b.instructions
            && model.alpha_atto > 18) || (a.instructions > 0 && a.cache_misses < b.cache_misses
            && model.beta_atto > 18)) ==> model.weight(a, avg_freq_khz) < model.weight(
            b,
            avg_freq_khz,
        ),
{
    let alpha = model.alpha_atto as int;
    let beta = model.beta_atto as int;
    let strict = (a.cycles > 0 && a.instructions < b.instructions && alpha > 18) || (
    a.instructions > 0 && a.cache_misses < b.cache_misses && beta > 18);
    if a.cycles > 0 && a.instructions < b.instructions && alpha > 18 {
        lemma_ratio_strict(alpha, a.instructions as int, b.instructions as int, a.cycles as int);
    } else if strict {
        lemma_ratio_strict(
            beta,
            a.cache_misses as int,
            b.cache_misses as int,
            a.instructions as int,
        );
    }
    lemma_ratio_ordered(alpha, a.instructions as int, b.instructions as int, a.cycles as int);
    if a.instructions == b.instructions {
        lemma_ratio_ordered(
            beta,
            a.cache_misses as int,
            b.cache_misses as int,
            a.instructions as int,
        );
    } else {
        assert(beta * 0 == 0);
        assert(ratio_term(beta, 0, a.instructions as int) == 0) by {
            if a.instructions > 0 {
                lemma_div_basics(a.instructions as int);
            }
        }
        assert(ratio_term(beta, 0, b.instructions as int) == 0) by {
            lemma_div_basics(b.instructions as int);
        }
    }
    let w = frequency_weight(a.time_ns as int, avg_freq_khz as int);
    let fa = model.workload_factor(a);
    let fb = model.workload_factor(b);
    let t = a.time_ns as int;
    let f = avg_freq_khz as int;
    assert(0 <= t * (f * f)) by (nonlinear_arith)
        requires
            0 <= t,
    ;
    assert(w * fa <= w * fb) by (nonlinear_arith)
        requires
            0 <= w,
            fa <= fb,
    ;
    if strict && t > 0 && f > 0 {
        assert(0 < t * (f * f)) by (nonlinear_arith)
            requires
                0 < t,
                0 < f,
        ;
        assert(w * fa < w * fb) by (nonlinear_arith)
            requires
                0 < w,
                fa < fb,
        ;
    }
}

/// Weight goes with the square of frequency, under the models that know it; under the time ratio
/// it does not go with frequency at all.
pub proof fn law_frequency_squared(obs: PidCoreObservation, low_khz: u32, high_khz: u32, k: int)
    requires
        high_khz == k * low_khz,
    ensures
        FrequencyWeightedModel.weight(obs, high_khz) == (k * k) * FrequencyWeightedModel.weight(
            obs,
            low_khz,
        ),
        CpuTimeRatioModel.weight(obs, high_khz) == CpuTimeRatioModel.weight(obs, low_khz),
{
    let t = obs.time_ns as int;
    let f = low_khz as int;
    assert(t * ((k * f) * (k * f)) == (k * k) * (t * (f * f))) by (nonlinear_arith);
}

/// The best model for the data at hand, with the given coefficients for the full one. Without
/// frequency data every core counts as running at the same frequency, and the counters alone do
/// not make the full model.
pub open spec fn best_model(has_freq_data: bool, has_perf_counters: bool, full: FullModel) -> Model {
    if has_freq_data && has_perf_counters {
        Model::Full(full)
    } else if has_freq_data || has_perf_counters {
        Model::FrequencyWeighted(FrequencyWeightedModel)
    } else {
        Model::CpuTimeRatio(CpuTimeRatioModel)
    }
}

/// Selects the best model based on available data, with the default coefficients.
pub fn select_model(has_freq_data: bool, has_perf_counters: bool) -> (r: Model)
    ensures
        r == best_model(
            has_freq_data,
            has_perf_counters,
            FullModel { alpha_atto: 300_000_000_000_000_000, beta_atto: 1_500_000_000_000_000_000 },
        ),
{
    select_tuned_model(has_freq_data, has_perf_counters, FullModel::new())
}

/// Selects the best model based on available data, with the given coefficients for the full one.
pub fn select_tuned_model(
    has_freq_data: bool,
    has_perf_counters: bool,
    full: FullModel,
) -> (r: Model)
    ensures
        r == best_model(has_freq_data, has_perf_counters, full),
{
    if has_freq_data && has_perf_counters {
        Model::Full(full)
    } else if has_freq_data || has_perf_counters {
        Model::FrequencyWeighted(FrequencyWeightedModel)
    } else {
        Model::CpuTimeRatio(CpuTimeRatioModel)
    }
}

/// A term of the workload's factor is the coefficient by the ratio of the two counts, in parts of
/// 10⁻³⁶, rounded down; there is none where the second count is nothing.
pub proof fn law_ratio_term(coefficient_atto: int, count: int, base: int)
    ensures
        base > 0 ==> ratio_term(coefficient_atto, count, base) * base <= coefficient_atto * count
            * 1_000_000_000_000_000_000 < (ratio_term(coefficient_atto, count, base) + 1) * base,
        base <= 0 ==> ratio_term(coefficient_atto, count, base) == 0,
{
    if base > 0 {
        lemma_floor(coefficient_atto * count * 1_000_000_000_000_000_000, base);
    }
}

/// The workload's factor is one, and as much more as α by the instructions per cycle and β by the
/// cache misses per instruction come to, in parts of 10⁻³⁶.
pub proof fn law_workload_factor(model: FullModel, obs: PidCoreObservation)
    ensures
        ({
            let unit = 1_000_000_000_000_000_000int * 1_000_000_000_000_000_000int;
            let more = model.workload_factor(obs) - unit;
            &&& obs.cycles == 0 && obs.instructions == 0 ==> more == 0
            &&& obs.cycles > 0 && obs.cache_misses == 0 ==> more * obs.cycles <= model.alpha_atto
                * obs.instructions * 1_000_000_000_000_000_000 < (more + 1) * obs.cycles
            &&& obs.cycles == 0 && obs.instructions > 0 ==> more * obs.instructions
                <= model.beta_atto * obs.cache_misses * 1_000_000_000_000_000_000 < (more + 1)
                * obs.instructions
            &&& more == ratio_term(
                model.alpha_atto as int,
                obs.instructions as int,
                obs.cycles as int,
            ) + ratio_term(
                model.beta_atto as int,
                obs.cache_misses as int,
                obs.instructions as int,
            )
        }),
{
    law_ratio_term(model.alpha_atto as int, obs.instructions as int, obs.cycles as int);
    law_ratio_term(model.beta_atto as int, obs.cache_misses as int, obs.instructions as int);
    if obs.cache_misses == 0 && obs.instructions > 0 {
        let d = obs.instructions as int;
        assert(model.beta_atto * 0 * 1_000_000_000_000_000_000 == 0);
        assert(0int / d == 0) by (nonlinear_arith)
            requires
                d > 0,
        ;
    }
}

/// Every model's weight goes with the time that the process ran; in the two that know frequencies
/// it goes with their square besides, and in the full one with the workload's factor.
pub proof fn law_weights_are(full: FullModel, obs: PidCoreObservation, avg_freq_khz: u32)
    ensures
        CpuTimeRatioModel.weight(obs, avg_freq_khz) == obs.time_ns,
        FrequencyWeightedModel.weight(obs, avg_freq_khz) == obs.time_ns * (avg_freq_khz
            * avg_freq_khz),
        full.weight(obs, avg_freq_khz) == FrequencyWeightedModel.weight(obs, avg_freq_khz)
            * full.workload_factor(obs),
        full.tag() == AttributionMethod::FullModel,
        FrequencyWeightedModel.tag() == AttributionMethod::FrequencyWeighted,
        CpuTimeRatioModel.tag() == AttributionMethod::CpuTimeRatio,
{
}

/// The full model needs frequencies and counters, and times alone do only where both are missing.
pub proof fn law_best_model(has_freq_data: bool, has_perf_counters: bool, full: FullModel)
    ensures
        best_model(has_freq_data, has_perf_counters, full).tag() == AttributionMethod::FullModel
            <==> has_freq_data && has_perf_counters,
        best_model(has_freq_data, has_perf_counters, full).tag() == AttributionMethod::CpuTimeRatio
            <==> !has_freq_data && !has_perf_counters,
        best_model(true, true, full) == Model::Full(full),
{
}

/// A coefficient is what its setting writes, to the 18th place; one that is not set, is no number
/// or is less than nothing by a part of 10⁻¹⁸ or more has its default.
pub proof fn law_coefficient(s: Seq<char>, units: int, default_atto: u128)
    requires
        amount_of(s) == Some(Amount::Units(units)),
    ensures
        coefficient_of(None, default_atto) == default_atto,
        0 <= units && coefficient_of(Some(s), default_atto) < LARGEST_ATTOS ==> coefficient_of(
            Some(s),
            default_atto,
        ) * ten_to(312) <= units < (coefficient_of(Some(s), default_atto) + 1) * ten_to(312),
        units <= -ten_to(312) ==> coefficient_of(Some(s), default_atto) == default_atto,
{
    lemma_ten_to(312);
    let t = ten_to(312);
    if units >= 0 {
        lemma_floor(units, t);
        let q = units / t;
        assert(q >= 0) by (nonlinear_arith)
            requires
                units >= 0,
                t >= 1,
                q == units / t,
        ;
    } else if units <= -t {
        lemma_floor(-units, t);
        let q = (-units) / t;
        assert(q >= 1) by (nonlinear_arith)
            requires
                -units >= t,
                t >= 1,
                q == (-units) / t,
        ;
    }
}

/// Time at a frequency counts in proportion to the time, and to the square of the frequency.
pub proof fn law_time_at_frequency(a: int, b: int, f: int, k: int)
    ensures
        frequency_weight(a + b, f) == frequency_weight(a, f) + frequency_weight(b, f),
        frequency_weight(a, k * f) == k * k * frequency_weight(a, f),
        frequency_weight(a, 1) == a,
{
    assert((a + b) * (f * f) == a * (f * f) + b * (f * f)) by (nonlinear_arith);
    assert(a * ((k * f) * (k * f)) == k * k * (a * (f * f))) by (nonlinear_arith);
    assert(a * (1 * 1) == a) by (nonlinear_arith);
}

} // verus!
