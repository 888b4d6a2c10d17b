//! From energy per socket to energy per core.
//!
//! Cores that ran longer, or at higher frequencies, get proportionally more of their socket's
//! energy:
//!
//! core energy = socket energy × (core freq² × busy time) / Σ (freq² × busy time over the socket)
//!
//! The frequency is the time-weighted average, as a fraction: it is not rounded to whole KHz. A
//! socket on which nothing ran is split evenly.

use super::observe::{
    busy_time, clocked_on, clocked_sum, clocked_time, core_busy_time, cycles_on, law_core_times,
    ran_on, sum_clocked, DEFAULT_FREQ_KHZ,
};
use crate::arith::{
    all_natural, law_share, law_shares_conserve, lemma_floor, lemma_share_bounds,
    lemma_total_natural, part_of, share_of, shares, total,
};
use crate::ebpf::ObservationSnapshot;
use crate::sums::sum_of;
use crate::wide::Wide;
use vstd::arithmetic::div_mod::*;
use vstd::arithmetic::mul::*;
use vstd::prelude::*;

verus! {

/// The time-weighted average frequency of a core is a fraction: KHz × nanoseconds over nanoseconds,
/// or the default frequency where none was observed.
pub open spec fn freq_num(obs: ObservationSnapshot, core: u32) -> int {
    if clocked_time(obs.cpu_freq_times@, core) > 0 {
        clocked_sum(obs.cpu_freq_times@, core)
    } else {
        DEFAULT_FREQ_KHZ as int
    }
}

/// What that fraction is over.
pub open spec fn freq_den(obs: ObservationSnapshot, core: u32) -> int {
    if clocked_time(obs.cpu_freq_times@, core) > 0 {
        clocked_time(obs.cpu_freq_times@, core)
    } else {
        1
    }
}

/// What the squared frequencies of the `n` cores from `first` on are over, multiplied.
pub open spec fn den_product(obs: ObservationSnapshot, first: int, n: int) -> int
    decreases n,
{
    if n <= 0 {
        1
    } else {
        let t = freq_den(obs, (first + n - 1) as u32);
        den_product(obs, first, n - 1) * (t * t)
    }
}

/// The weight of one core of the socket of `n` cores from `first` on: freq² × busy time. The
/// weights of all cores of a socket stand over one denominator, so that none is rounded: each is
/// multiplied by what the squared frequencies of all other cores are over.
pub open spec fn core_weight(obs: ObservationSnapshot, first: int, n: int, core: u32) -> int {
    (busy_time(obs.pid_cpu_times@, core) * (freq_num(obs, core) * freq_num(obs, core))) * (
    den_product(obs, first, core - first) * den_product(obs, core + 1, first + n - core - 1))
}

/// The weights of the `n` cores from `first` on.
pub open spec fn core_weights(obs: ObservationSnapshot, first: int, n: int) -> Seq<int> {
    Seq::new(n as nat, |j: int| core_weight(obs, first, n, (first + j) as u32))
}

/// The weight of a socket of `n` cores from `first` on.
pub open spec fn socket_weight(obs: ObservationSnapshot, first: int, n: int) -> int {
    total(core_weights(obs, first, n))
}

/// The energy of one core: its part of the energy of the socket that it belongs to.
pub open spec fn core_energy(
    sockets: Seq<u64>,
    cores_per_socket: int,
    obs: ObservationSnapshot,
    core: int,
) -> int {
    if core < 0 || core >= sockets.len() * cores_per_socket {
        0
    } else {
        let socket = core / cores_per_socket;
        let first = socket * cores_per_socket;
        let whole = socket_weight(obs, first, cores_per_socket);
        if whole == 0 {
            sockets[socket] as int / cores_per_socket
        } else {
            share_of(
                sockets[socket] as int,
                core_weight(obs, first, cores_per_socket, core as u32),
                whole,
            )
        }
    }
}

/// The energies of the `n` cores from `first` on.
pub open spec fn core_energies(
    sockets: Seq<u64>,
    cores_per_socket: int,
    obs: ObservationSnapshot,
    first: int,
    n: int,
) -> Seq<int> {
    Seq::new(n as nat, |j: int| core_energy(sockets, cores_per_socket, obs, first + j))
}

/// Whether the sockets' energy can be split: cores can be numbered, every socket has one, and
/// frequencies can be averaged.
pub open spec fn can_split(sockets: Seq<u64>, cores_per_socket: int, obs: ObservationSnapshot) -> bool {
    &&& obs.cpu_freq_times@.len() <= u32::MAX
    &&& sockets.len() > 0 ==> cores_per_socket > 0
    &&& sockets.len() * cores_per_socket <= u32::MAX
}

pub proof fn lemma_busy_natural(obs: ObservationSnapshot, cpu: u32)
    ensures
        0 <= busy_time(obs.pid_cpu_times@, cpu),
{
    lemma_busy_natural_seq(obs.pid_cpu_times@, cpu);
}

proof fn lemma_busy_natural_seq(times: Seq<(crate::common::PidCpuKey, u64)>, cpu: u32)
    ensures
        0 <= busy_time(times, cpu),
    decreases times.len(),
{
    if times.len() > 0 {
        lemma_busy_natural_seq(times.drop_last(), cpu);
    }
}

proof fn lemma_den_product(obs: ObservationSnapshot, first: int, n: int)
    ensures
        0 < den_product(obs, first, n),
    decreases n,
{
    if n > 0 {
        lemma_den_product(obs, first, n - 1);
        let (p, t) = (
            den_product(obs, first, n - 1),
            freq_den(obs, (first + n - 1) as u32),
        );
        assert(0 < p * (t * t)) by (nonlinear_arith)
            requires
                0 < p,
                0 < t,
        ;
    }
}

proof fn lemma_den_split(obs: ObservationSnapshot, first: int, k: int, n: int)
    requires
        0 <= k <= n,
    ensures
        den_product(obs, first, n) == den_product(obs, first, k) * den_product(
            obs,
            first + k,
            n - k,
        ),
    decreases n - k,
{
    if k < n {
        lemma_den_split(obs, first, k, n - 1);
        let (a, b, t) = (
            den_product(obs, first, k),
            den_product(obs, first + k, n - k - 1),
            freq_den(obs, (first + n - 1) as u32),
        );
        assert((a * b) * (t * t) == a * (b * (t * t))) by (nonlinear_arith);
        assert(first + k + (n - k) - 1 == first + n - 1);
    } else {
        assert(den_product(obs, first, n) * 1 == den_product(obs, first, n));
    }
}

proof fn lemma_den_single(obs: ObservationSnapshot, core: int)
    ensures
        den_product(obs, core, 1) == freq_den(obs, core as u32) * freq_den(obs, core as u32),
{
    reveal_with_fuel(den_product, 2);
    let t = freq_den(obs, core as u32);
    assert(den_product(obs, core, 0) == 1);
    assert(1 * (t * t) == t * t);
}

/// A core's part of its socket goes by the square of its average frequency and by its busy time:
/// over the socket's common denominator its weight is `busy time × (KHz × nanoseconds)² /
/// nanoseconds²`, with nothing rounded.
pub proof fn law_core_weight(obs: ObservationSnapshot, first: int, n: int, core: u32)
    requires
        first <= core < first + n,
    ensures
        core_weight(obs, first, n, core) * (freq_den(obs, core) * freq_den(obs, core)) == (
        busy_time(obs.pid_cpu_times@, core) * (freq_num(obs, core) * freq_num(obs, core)))
            * den_product(obs, first, n),
{
    let k = core - first;
    lemma_den_split(obs, first, k, n);
    lemma_den_split(obs, core as int, 1, n - k);
    lemma_den_single(obs, core as int);
    let (w, a, t, b) = (
        busy_time(obs.pid_cpu_times@, core) * (freq_num(obs, core) * freq_num(obs, core)),
        den_product(obs, first, k),
        freq_den(obs, core) * freq_den(obs, core),
        den_product(obs, core + 1, n - k - 1),
    );
    assert((w * (a * b)) * t == w * (a * (t * b))) by (nonlinear_arith);
}

proof fn lemma_clocked_natural(freqs: Seq<(crate::common::CpuFreqKey, u64)>, cpu: u32)
    ensures
        0 <= clocked_sum(freqs, cpu),
        0 <= clocked_time(freqs, cpu),
    decreases freqs.len(),
{
    if freqs.len() > 0 {
        lemma_clocked_natural(freqs.drop_last(), cpu);
        let (f, t) = (freqs.last().0.freq_khz as int, freqs.last().1 as int);
        assert(0 <= f * t) by (nonlinear_arith)
            requires
                0 <= f,
                0 <= t,
        ;
    }
}

/// No weight is below zero, and a core has none exactly where it was idle or ran at no frequency.
pub proof fn lemma_core_weight(obs: ObservationSnapshot, first: int, n: int, core: u32)
    ensures
        0 <= core_weight(obs, first, n, core),
        core_weight(obs, first, n, core) == 0 <==> busy_time(obs.pid_cpu_times@, core) == 0
            || freq_num(obs, core) == 0,
{
    lemma_busy_natural(obs, core);
    lemma_clocked_natural(obs.cpu_freq_times@, core);
    lemma_den_product(obs, first, core - first);
    lemma_den_product(obs, core + 1, first + n - core - 1);
    let (t, f, a, b) = (
        busy_time(obs.pid_cpu_times@, core),
        freq_num(obs, core),
        den_product(obs, first, core - first),
        den_product(obs, core + 1, first + n - core - 1),
    );
    let w = t * (f * f);
    let o = a * b;
    assert(0 <= w && (w == 0 <==> t == 0 || f == 0)) by (nonlinear_arith)
        requires
            w == t * (f * f),
            0 <= t,
            0 <= f,
    ;
    assert(0 < o) by (nonlinear_arith)
        requires
            o == a * b,
            0 < a,
            0 < b,
    ;
    assert(0 <= w * o && (w * o == 0 <==> w == 0)) by (nonlinear_arith)
        requires
            0 <= w,
            0 < o,
    ;
}

pub proof fn lemma_core_weights_natural(obs: ObservationSnapshot, first: int, n: int)
    ensures
        all_natural(core_weights(obs, first, n)),
        0 <= socket_weight(obs, first, n),
{
    assert forall|j: int| 0 <= j < core_weights(obs, first, n).len() implies 0
        <= #[trigger] core_weights(obs, first, n)[j] by {
        lemma_core_weight(obs, first, n, (first + j) as u32);
    }
    lemma_total_natural(core_weights(obs, first, n));
}

/// A core's average frequency, as a fraction.
fn core_freq(obs: &ObservationSnapshot, core: u32) -> (r: (Wide, Wide))
    requires
        obs.cpu_freq_times@.len() <= u32::MAX,
    ensures
        r.0@ == freq_num(*obs, core),
        r.1@ == freq_den(*obs, core),
{
    let (sum, time): (u128, u128) = sum_clocked(&obs.cpu_freq_times, core);
    if time > 0 {
        (Wide::from_wide(sum), Wide::from_wide(time))
    } else {
        (Wide::from_wide(DEFAULT_FREQ_KHZ as u128), Wide::from_wide(1))
    }
}

/// The weights of the cores from `first` on.
fn weigh_cores(obs: &ObservationSnapshot, first: u32, n: u32) -> (r: Vec<Wide>)
    requires
        obs.cpu_freq_times@.len() <= u32::MAX,
        first + n <= u32::MAX,
    ensures
        r@.len() == n,
        forall|j: int|
            0 <= j < n ==> (#[trigger] r@[j])@ == core_weight(
                *obs,
                first as int,
                n as int,
                (first + j) as u32,
            ),
{
    // From the front: each core's own part, by all denominators before it
    let mut parts: Vec<Wide> = Vec::new();
    let mut dens: Vec<Wide> = Vec::new();
    let mut before: Wide = Wide::from_wide(1);
    let mut j: u32 = 0;
    while j < n
        invariant
            j <= n,
            first + n <= u32::MAX,
            obs.cpu_freq_times@.len() <= u32::MAX,
            before@ == den_product(*obs, first as int, j as int),
            parts@.len() == j,
            dens@.len() == j,
            forall|i: int|
                0 <= i < j ==> (#[trigger] parts@[i])@ == own_part(
                    *obs,
                    first as int,
                    (first + i) as u32,
                ),
            forall|i: int|
                0 <= i < j ==> (#[trigger] dens@[i])@ == freq_den(*obs, (first + i) as u32)
                    * freq_den(*obs, (first + i) as u32),
        decreases n - j,
    {
        let core: u32 = first + j;
        let (num, den): (Wide, Wide) = core_freq(obs, core);
        let busy: Wide = Wide::from_wide(core_busy_time(&obs.pid_cpu_times, core));
        parts.push(busy.times(&num.times(&num)).times(&before));
        let square: Wide = den.times(&den);
        before = before.times(&square);
        dens.push(square);
        j = j + 1;
        assert((first + j - 1) as u32 == core);
    }
    // From the back: by all denominators after it
    let mut back: Vec<Wide> = Vec::new();
    let mut after: Wide = Wide::from_wide(1);
    let mut k: u32 = n;
    while k > 0
        invariant
            k <= n,
            first + n <= u32::MAX,
            parts@.len() == n,
            dens@.len() == n,
            forall|i: int|
                0 <= i < n ==> (#[trigger] parts@[i])@ == own_part(
                    *obs,
                    first as int,
                    (first + i) as u32,
                ),
            forall|i: int|
                0 <= i < n ==> (#[trigger] dens@[i])@ == freq_den(*obs, (first + i) as u32)
                    * freq_den(*obs, (first + i) as u32),
            after@ == den_product(*obs, first + k, n - k),
            back@.len() == n - k,
            forall|i: int|
                0 <= i < n - k ==> (#[trigger] back@[i])@ == core_weight(
                    *obs,
                    first as int,
                    n as int,
                    (first + (n - 1 - i)) as u32,
                ),
        decreases k,
    {
        k = k - 1;
        let i: usize = k as usize;
        proof {
            let core = (first + k) as u32;
            lemma_den_split(*obs, core as int, 1, n - k);
            lemma_den_single(*obs, core as int);
            let (w, a, b) = (
                busy_time(obs.pid_cpu_times@, core) * (freq_num(*obs, core) * freq_num(*obs, core)),
                den_product(*obs, first as int, k as int),
                den_product(*obs, core + 1, n - k - 1),
            );
            assert((w * a) * b == w * (a * b)) by (nonlinear_arith);
            let t = freq_den(*obs, core) * freq_den(*obs, core);
            assert(b * t == t * b) by (nonlinear_arith);
        }
        back.push(parts[i].times(&after));
        after = after.times(&dens[i]);
    }
    // In order
    let mut r: Vec<Wide> = Vec::new();
    let mut i: u32 = 0;
    while i < n
        invariant
            i <= n,
            first + n <= u32::MAX,
            back@.len() == n,
            forall|m: int|
                0 <= m < n ==> (#[trigger] back@[m])@ == core_weight(
                    *obs,
                    first as int,
                    n as int,
                    (first + (n - 1 - m)) as u32,
                ),
            r@.len() == i,
            forall|m: int|
                0 <= m < i ==> (#[trigger] r@[m])@ == core_weight(
                    *obs,
                    first as int,
                    n as int,
                    (first + m) as u32,
                ),
        decreases n - i,
    {
        let at: usize = (n - 1 - i) as usize;
        assert(back@[at as int]@ == core_weight(
            *obs,
            first as int,
            n as int,
            (first + (n - 1 - at)) as u32,
        ));
        r.push(back[at].copy());
        i = i + 1;
    }
    r
}

/// A core's weight before the denominators of the cores after it.
spec fn own_part(obs: ObservationSnapshot, first: int, core: u32) -> int {
    (busy_time(obs.pid_cpu_times@, core) * (freq_num(obs, core) * freq_num(obs, core)))
        * den_product(obs, first, core - first)
}

/// Weights added up.
fn sum_weights(weights: &Vec<Wide>) -> (r: Wide)
    ensures
        r@ == total(weights@.map_values(|w: Wide| w@)),
{
    let ghost all = weights@.map_values(|w: Wide| w@);
    let mut r: Wide = Wide::zero();
    let mut i: usize = 0;
    while i < weights.len()
        invariant
            i <= weights@.len(),
            all == weights@.map_values(|w: Wide| w@),
            r@ == total(all.take(i as int)),
        decreases weights@.len() - i,
    {
        r = r.plus(&weights[i]);
        assert(all.take(i + 1).drop_last() =~= all.take(i as int));
        i = i + 1;
    }
    assert(all.take(i as int) =~= all);
    r
}

/// A prefix of natural numbers adds up to no more than all of them.
pub proof fn lemma_total_take(s: Seq<int>, n: int)
    requires
        all_natural(s),
        0 <= n <= s.len(),
    ensures
        0 <= total(s.take(n)) <= total(s),
    decreases s.len() - n,
{
    assert(all_natural(s.take(n))) by {
        assert forall|i: int| 0 <= i < n implies 0 <= #[trigger] s.take(n)[i] by {
            assert(s[i] >= 0);
        }
    }
    lemma_total_natural(s.take(n));
    if n < s.len() {
        assert(s.take(n + 1).drop_last() =~= s.take(n));
        lemma_total_take(s, n + 1);
        assert(s[n] >= 0);
    } else {
        assert(s.take(n) =~= s);
    }
}

/// Whether the sockets' energy can be split.
pub fn split_in_range(sockets: &Vec<u64>, cores_per_socket: u32, obs: &ObservationSnapshot) -> (r:
    bool)
    ensures
        r == can_split(sockets@, cores_per_socket as int, *obs),
{
    if obs.cpu_freq_times.len() > 0xffff_ffff {
        return false;
    }
    if sockets.len() == 0 {
        assert(sockets@.len() * cores_per_socket == 0) by (nonlinear_arith)
            requires
                sockets@.len() == 0,
        ;
        return true;
    }
    if cores_per_socket == 0 {
        return false;
    }
    let n: u128 = sockets.len() as u128;
    let c: u128 = cores_per_socket as u128;
    assert(n * c <= 0xffff_ffff_ffff_ffff * 0xffff_ffff) by (nonlinear_arith)
        requires
            0 <= n <= 0xffff_ffff_ffff_ffff,
            0 <= c <= 0xffff_ffff,
    ;
    n * c <= 0xffff_ffff
}

/// Splits per-socket energy to per-core energy, for the cores of all sockets in order.
pub fn split_socket_to_cores(
    sockets: &Vec<u64>,
    cores_per_socket: u32,
    obs: &ObservationSnapshot,
) -> (r: Vec<u64>)
    requires
        can_split(sockets@, cores_per_socket as int, *obs),
    ensures
        r@.len() == sockets@.len() * cores_per_socket,
        forall|core: int|
            0 <= core < r@.len() ==> #[trigger] r@[core] == core_energy(
                sockets@,
                cores_per_socket as int,
                *obs,
                core,
            ),
{
    let mut r: Vec<u64> = Vec::new();
    let mut s: usize = 0;
    let ghost c = cores_per_socket as int;
    while s < sockets.len()
        invariant
            s <= sockets@.len(),
            c == cores_per_socket,
            can_split(sockets@, c, *obs),
            r@.len() == s * c,
            forall|core: int|
                0 <= core < r@.len() ==> #[trigger] r@[core] == core_energy(
                    sockets@,
                    c,
                    *obs,
                    core,
                ),
        decreases sockets@.len() - s,
    {
        let energy: u64 = sockets[s];
        proof {
            let si = s as int;
            let n = sockets@.len() as int;
            assert(0 <= si * c && si * c + c <= n * c && (si + 1) * c == si * c + c && si <= si * c)
                by (nonlinear_arith)
                requires
                    0 <= si < n,
                    0 < c,
            ;
            lemma_core_weights_natural(*obs, si * c, c);
            lemma_total_natural(core_weights(*obs, si * c, c));
        }
        let first: u32 = s as u32 * cores_per_socket;
        let weights: Vec<Wide> = weigh_cores(obs, first, cores_per_socket);
        let whole: Wide = sum_weights(&weights);
        assert(weights@.map_values(|w: Wide| w@) =~= core_weights(*obs, first as int, c));
        let nothing_ran: bool = whole.is_zero();
        let mut j: u32 = 0;
        while j < cores_per_socket
            invariant
                s < sockets@.len(),
                energy == sockets@[s as int],
                0 < c == cores_per_socket,
                j <= c,
                first == s * c,
                first + c <= sockets@.len() * c <= u32::MAX,
                whole@ == socket_weight(*obs, first as int, c),
                nothing_ran == (whole@ == 0),
                weights@.map_values(|w: Wide| w@) == core_weights(*obs, first as int, c),
                all_natural(core_weights(*obs, first as int, c)),
                forall|i: int|
                    0 <= i < c ==> #[trigger] core_weights(*obs, first as int, c)[i] <= whole@,
                r@.len() == first + j,
                forall|core: int|
                    0 <= core < r@.len() ==> #[trigger] r@[core] == core_energy(
                        sockets@,
                        c,
                        *obs,
                        core,
                    ),
            decreases c - j,
        {
            proof {
                lemma_fundamental_div_mod_converse(first + j, c, s as int, j as int);
                lemma_mul_is_commutative(s as int, c);
                assert(core_weights(*obs, first as int, c)[j as int] == core_weight(
                    *obs,
                    first as int,
                    c,
                    (first + j) as u32,
                ));
                assert(weights@.map_values(|w: Wide| w@)[j as int] == weights@[j as int]@);
            }
            let amount: u64 = if nothing_ran {
                energy / cores_per_socket as u64
            } else {
                part_of(energy, &weights[j as usize], &whole)
            };
            assert(amount == core_energy(sockets@, c, *obs, first + j));
            r.push(amount);
            j = j + 1;
        }
        s = s + 1;
    }
    r
}

/// Splitting a socket's energy among its cores loses nothing but fractions: the cores never get
/// more than the socket has, and get all of it but less than one microjoule for each core.
pub proof fn law_split_conserves(
    sockets: Seq<u64>,
    cores_per_socket: int,
    obs: ObservationSnapshot,
    socket: int,
)
    requires
        0 <= socket < sockets.len(),
        0 < cores_per_socket,
    ensures
        ({
            let parts = core_energies(
                sockets,
                cores_per_socket,
                obs,
                socket * cores_per_socket,
                cores_per_socket,
            );
            &&& all_natural(parts)
            &&& total(parts) <= sockets[socket]
            &&& sockets[socket] - cores_per_socket < total(parts)
        }),
{
    let c = cores_per_socket;
    let first = socket * c;
    let weights = core_weights(obs, first, c);
    let whole = socket_weight(obs, first, c);
    let energy = sockets[socket] as int;
    let parts = core_energies(sockets, c, obs, first, c);
    lemma_core_weights_natural(obs, first, c);
    assert(first + c <= sockets.len() * c) by (nonlinear_arith)
        requires
            first == socket * c,
            socket < sockets.len(),
            0 < c,
    ;
    assert(0 <= first) by (nonlinear_arith)
        requires
            first == socket * c,
            0 <= socket,
            0 < c,
    ;
    assert forall|j: int| 0 <= j < c implies #[trigger] parts[j] == if whole == 0 {
        energy / c
    } else {
        share_of(energy, weights[j], whole)
    } by {
        lemma_mul_is_commutative(socket, c);
        lemma_fundamental_div_mod_converse(first + j, c, socket, j);
    }
    if whole == 0 {
        lemma_div_pos_is_pos(energy, c);
        assert(all_natural(parts));
        lemma_total_constant(parts, energy / c);
        lemma_fundamental_div_mod(energy, c);
        lemma_mod_bound(energy, c);
        assert(total(parts) == c * (energy / c));
    } else {
        assert(parts =~= shares(energy, weights, whole));
        law_shares_conserve(energy, weights);
        lemma_total_natural(weights);
        assert forall|j: int| 0 <= j < parts.len() implies 0 <= #[trigger] parts[j] by {
            assert(weights[j] <= whole);
            lemma_share_bounds(energy, weights[j], whole);
        }
    }
}

/// On a socket on which something ran, a core on which nothing ran gets nothing.
pub proof fn law_idle_core_gets_nothing(
    sockets: Seq<u64>,
    cores_per_socket: int,
    obs: ObservationSnapshot,
    core: u32,
)
    requires
        0 < cores_per_socket,
        core < sockets.len() * cores_per_socket,
        busy_time(obs.pid_cpu_times@, core) == 0,
        socket_weight(
            obs,
            (core as int / cores_per_socket) * cores_per_socket,
            cores_per_socket,
        ) != 0,
    ensures
        core_energy(sockets, cores_per_socket, obs, core as int) == 0,
{
    let c = cores_per_socket;
    let socket = core as int / c;
    lemma_core_weight(obs, socket * c, c, core);
    lemma_core_weights_natural(obs, socket * c, c);
    lemma_share_bounds(sockets[socket] as int, 0, socket_weight(obs, socket * c, c));
}

proof fn lemma_total_constant(s: Seq<int>, x: int)
    requires
        forall|i: int| 0 <= i < s.len() ==> #[trigger] s[i] == x,
    ensures
        total(s) == s.len() * x,
    decreases s.len(),
{
    if s.len() > 0 {
        assert forall|i: int| 0 <= i < s.drop_last().len() implies #[trigger] s.drop_last()[i]
            == x by {
            assert(s.drop_last()[i] == s[i]);
        }
        lemma_total_constant(s.drop_last(), x);
        assert((s.len() - 1) * x + x == s.len() * x) by (nonlinear_arith);
    } else {
        assert(0 * x == 0);
    }
}

// ─── What the energies satisfy ──────────────────────────────────

/// A core's energy is to its socket's as its weight is to the weights of all the socket's cores,
/// rounded down. A socket on which nothing ran is split evenly.
pub proof fn law_core_energy(
    sockets: Seq<u64>,
    cores_per_socket: int,
    obs: ObservationSnapshot,
    socket: int,
    j: int,
)
    requires
        can_split(sockets, cores_per_socket, obs),
        0 <= socket < sockets.len(),
        0 <= j < cores_per_socket,
    ensures
        ({
            let first = socket * cores_per_socket;
            let e = core_energy(sockets, cores_per_socket, obs, first + j);
            let whole = total(core_weights(obs, first, cores_per_socket));
            let own = core_weights(obs, first, cores_per_socket)[j];
            if whole > 0 {
                e * whole <= sockets[socket] * own < (e + 1) * whole
            } else {
                e * cores_per_socket <= sockets[socket] < (e + 1) * cores_per_socket
            }
        }),
{
    let c = cores_per_socket;
    let first = socket * c;
    assert(0 <= first + j < sockets.len() * c) by (nonlinear_arith)
        requires
            first == socket * c,
            0 <= socket < sockets.len(),
            0 <= j < c,
    ;
    lemma_fundamental_div_mod_converse(first + j, c, socket, j);
    lemma_core_weights_natural(obs, first, c);
    let whole = socket_weight(obs, first, c);
    lemma_total_natural(core_weights(obs, first, c));
    if whole > 0 {
        law_share(sockets[socket] as int, core_weights(obs, first, c)[j], whole);
    } else {
        lemma_floor(sockets[socket] as int, c);
    }
}

/// Of two cores of a socket, the weights are to each other as busy time by the square of the
/// average frequency: `w / w' = (t × f²) / (t' × f'²)`, where each frequency is the core's cycles
/// by the time that frequencies were observed on it.
pub proof fn law_weights_compare(obs: ObservationSnapshot, first: int, n: int, a: u32, b: u32)
    requires
        first <= a < first + n,
        first <= b < first + n,
        sum_of(obs.cpu_freq_times@, clocked_on(a)) > 0,
        sum_of(obs.cpu_freq_times@, clocked_on(b)) > 0,
    ensures
        ({
            let (ca, ta) = (
                sum_of(obs.cpu_freq_times@, cycles_on(a)),
                sum_of(obs.cpu_freq_times@, clocked_on(a)),
            );
            let (cb, tb) = (
                sum_of(obs.cpu_freq_times@, cycles_on(b)),
                sum_of(obs.cpu_freq_times@, clocked_on(b)),
            );
            let (busy_a, busy_b) = (
                sum_of(obs.pid_cpu_times@, ran_on(a)),
                sum_of(obs.pid_cpu_times@, ran_on(b)),
            );
            core_weight(obs, first, n, a) * ((busy_b * (cb * cb)) * (ta * ta)) == core_weight(
                obs,
                first,
                n,
                b,
            ) * ((busy_a * (ca * ca)) * (tb * tb))
        }),
{
    law_core_times(obs, a);
    law_core_times(obs, b);
    law_core_weight(obs, first, n, a);
    law_core_weight(obs, first, n, b);
    let (wa, wb, d) = (
        core_weight(obs, first, n, a),
        core_weight(obs, first, n, b),
        den_product(obs, first, n),
    );
    let (ta, tb) = (
        freq_den(obs, a) * freq_den(obs, a),
        freq_den(obs, b) * freq_den(obs, b),
    );
    let (xa, xb) = (
        busy_time(obs.pid_cpu_times@, a) * (freq_num(obs, a) * freq_num(obs, a)),
        busy_time(obs.pid_cpu_times@, b) * (freq_num(obs, b) * freq_num(obs, b)),
    );
    lemma_den_product(obs, first, n);
    assert(wa * (xb * ta) == wb * (xa * tb)) by (nonlinear_arith)
        requires
            wa * ta == xa * d,
            wb * tb == xb * d,
    ;
}

/// Where no frequencies were observed on a socket's cores, their weights are to each other as
/// the times that processes ran on them.
pub proof fn law_weights_by_time(obs: ObservationSnapshot, first: int, n: int, a: u32, b: u32)
    requires
        first <= a < first + n,
        first <= b < first + n,
        sum_of(obs.cpu_freq_times@, clocked_on(a)) == 0,
        sum_of(obs.cpu_freq_times@, clocked_on(b)) == 0,
    ensures
        core_weight(obs, first, n, a) * sum_of(obs.pid_cpu_times@, ran_on(b)) == core_weight(
            obs,
            first,
            n,
            b,
        ) * sum_of(obs.pid_cpu_times@, ran_on(a)),
{
    law_core_times(obs, a);
    law_core_times(obs, b);
    law_core_weight(obs, first, n, a);
    law_core_weight(obs, first, n, b);
    let (wa, wb, d, f, x, y) = (
        core_weight(obs, first, n, a),
        core_weight(obs, first, n, b),
        den_product(obs, first, n),
        DEFAULT_FREQ_KHZ * DEFAULT_FREQ_KHZ,
        busy_time(obs.pid_cpu_times@, a),
        busy_time(obs.pid_cpu_times@, b),
    );
    assert(wa * y == wb * x) by (nonlinear_arith)
        requires
            wa * (1 * 1) == (x * f) * d,
            wb * (1 * 1) == (y * f) * d,
    ;
}

/// A core whose frequency was not observed counts as one that ran at a gigahertz.
pub proof fn law_weights_mixed(obs: ObservationSnapshot, first: int, n: int, a: u32, b: u32)
    requires
        first <= a < first + n,
        first <= b < first + n,
        sum_of(obs.cpu_freq_times@, clocked_on(a)) > 0,
        sum_of(obs.cpu_freq_times@, clocked_on(b)) == 0,
    ensures
        ({
            let (ca, ta) = (
                sum_of(obs.cpu_freq_times@, cycles_on(a)),
                sum_of(obs.cpu_freq_times@, clocked_on(a)),
            );
            let (busy_a, busy_b) = (
                sum_of(obs.pid_cpu_times@, ran_on(a)),
                sum_of(obs.pid_cpu_times@, ran_on(b)),
            );
            core_weight(obs, first, n, a) * ((busy_b * (1_000_000 * 1_000_000)) * (ta * ta))
                == core_weight(obs, first, n, b) * (busy_a * (ca * ca))
        }),
{
    law_core_times(obs, a);
    law_core_times(obs, b);
    law_core_weight(obs, first, n, a);
    law_core_weight(obs, first, n, b);
    let (wa, wb, d) = (
        core_weight(obs, first, n, a),
        core_weight(obs, first, n, b),
        den_product(obs, first, n),
    );
    let ta = freq_den(obs, a) * freq_den(obs, a);
    let (xa, xb) = (
        busy_time(obs.pid_cpu_times@, a) * (freq_num(obs, a) * freq_num(obs, a)),
        busy_time(obs.pid_cpu_times@, b) * (freq_num(obs, b) * freq_num(obs, b)),
    );
    assert(wa * (xb * ta) == wb * xa) by (nonlinear_arith)
        requires
            wa * ta == xa * d,
            wb * (1 * 1) == xb * d,
    ;
}

} // verus!
