//! Attribution engine: the core computation that turns raw observations into power per process.
//!
//! 1. Split the energy of each socket among its cores
//! 2. For each core, weigh the PIDs that ran on it
//! 3. Normalize the weights so that they sum to the core's energy
//! 4. Sum across cores to get each process's CPU energy
//! 5. Attribute memory energy by last-level cache misses
//! 6. Reconcile against the platform's own reading

use super::ledger::{
    amount_in, entered, entered_pids, law_ledger_sums_agree, ledger_sum, lemma_pid_sum, lemma_row_sum, pid_sum,
    pids_sum, row_sum, rows_of, sum_ledger, sum_pid, well_kept,
};
use super::model::{
    best_model, lemma_weight_natural, select_model, select_tuned_model, AttributionModel,
    CpuTimeRatioModel, FullModel, Model, PidCoreObservation, PidCoreWeight,
};
use super::observe::{
    avg_freq, build_core_observations, compute_core_avg_freq, core_pid_times, core_pids,
    law_core_processes, law_not_on_core, lemma_core_pids_distinct, lemma_pid_time_sum,
    observations, one_time_each, pid_time_sum, ran_on, sum_pid_times,
};
use super::split::{
    can_split, core_energies, core_energy, law_split_conserves, lemma_total_take, split_in_range,
    split_socket_to_cores,
};
use super::types::{
    AttributionMethod, AttributionSnapshot, CoreAttribution, NodePower, PowerBreakdown,
    ProcessPower, Reconciliation,
};
use crate::arith::{
    all_natural, divide_up, energy_to_power, law_power, law_ratio_up, law_share,
    law_shares_conserve, lemma_share_bounds, lemma_total_natural, lemma_word_sum_bound, low_word,
    part_of, power_of, ratio_up, share, share_of, shares, sum_words, total, word_sum,
};
use crate::ebpf::ObservationSnapshot;
use crate::sums::{lemma_sum_push, sum_of};
use crate::table::{distinct_keys, get, has_key, lemma_position, lookup, position};
use crate::wide::Wide;
use vstd::arithmetic::div_mod::*;
use vstd::prelude::*;

verus! {

broadcast use vstd::std_specs::hash::group_hash_axioms;

/// Energy readings of one interval.
#[derive(Debug)]
pub struct EnergyInput {
    /// Per-socket CPU energy in microjoules (delta for this interval)
    pub socket_energy_uj: Vec<u64>,
    /// Per-socket DRAM energy in microjoules (delta for this interval)
    pub dram_energy_uj: Vec<u64>,
    /// Per-GPU energy in microjoules (delta for this interval)
    pub gpu_energy_uj: Vec<u64>,
    /// Platform (PSU) energy in microjoules (delta for this interval);
    /// `None` if no platform source is available
    pub platform_energy_uj: Option<u64>,
    /// Interval duration in nanoseconds
    pub interval_ns: u64,
}

/// The attribution engine: the machine's shape, the model in use, and the coefficients of the full
/// model for when the data allow it.
#[derive(Debug)]
pub struct AttributionEngine {
    pub model: Model,
    pub full: FullModel,
    pub num_cores: u32,
    pub cores_per_socket: u32,
}

/// All that one interval's attribution is computed from.
pub struct Interval {
    pub model: Model,
    pub num_cores: u32,
    pub cores_per_socket: u32,
    pub energy: EnergyInput,
    pub obs: ObservationSnapshot,
}

impl Interval {
    /// The energy of one core.
    pub open spec fn core_uj(self, core: u32) -> int {
        core_energy(
            self.energy.socket_energy_uj@,
            self.cores_per_socket as int,
            self.obs,
            core as int,
        )
    }

    /// The energies of the cores of all sockets.
    pub open spec fn cores_uj(self) -> Seq<int> {
        core_energies(
            self.energy.socket_energy_uj@,
            self.cores_per_socket as int,
            self.obs,
            0,
            self.energy.socket_energy_uj@.len() * self.cores_per_socket,
        )
    }

    /// The average frequency of one core.
    pub open spec fn freq(self, core: u32) -> u32 {
        avg_freq(self.obs.cpu_freq_times@, core) as u32
    }

    /// The weights of the PIDs on one core.
    pub open spec fn weights(self, core: u32) -> Seq<int> {
        observations(self.obs, core).map_values(
            |o: PidCoreObservation| self.model.weight(o, self.freq(core)),
        )
    }

    /// Whether the energy of a core is handed to PIDs: it has some, and a PID with a weight.
    pub open spec fn active(self, core: u32) -> bool {
        self.core_uj(core) != 0 && total(self.weights(core)) > 0
    }

    /// What one PID gets on one core.
    pub open spec fn detail(self, core: u32, o: PidCoreObservation) -> CoreAttribution {
        CoreAttribution {
            core,
            time_ns: o.time_ns,
            avg_freq_khz: self.freq(core),
            energy_uj: share_of(
                self.core_uj(core),
                self.model.weight(o, self.freq(core)),
                total(self.weights(core)),
            ) as u64,
            instructions: o.instructions,
            cycles: o.cycles,
            cache_misses: o.cache_misses,
        }
    }

    /// What each PID gets on one core.
    pub open spec fn details(self, core: u32) -> Seq<(u32, CoreAttribution)> {
        if self.active(core) {
            observations(self.obs, core).map_values(
                |o: PidCoreObservation| (o.pid, self.detail(core, o)),
            )
        } else {
            Seq::empty()
        }
    }

    /// The energy that each PID gets on one core.
    pub open spec fn energy_row(self, core: u32) -> Seq<(u32, u64)> {
        self.details(core).map_values(|d: (u32, CoreAttribution)| (d.0, d.1.energy_uj))
    }

    /// The energy that each PID gets on each core.
    pub open spec fn energy_ledger(self) -> Seq<Seq<(u32, u64)>> {
        Seq::new(self.num_cores as nat, |core: int| self.energy_row(core as u32))
    }

    /// The CPU energy of one PID.
    pub open spec fn cpu_uj(self, pid: u32) -> int {
        pid_sum(self.energy_ledger(), pid)
    }

    /// The CPU energy of all PIDs together.
    pub open spec fn attributed_uj(self) -> int {
        ledger_sum(self.energy_ledger())
    }

    /// What one PID gets on each of the first `n` cores, where it gets anything.
    pub open spec fn core_detail(self, pid: u32, n: int) -> Seq<CoreAttribution>
        decreases n,
    {
        if n <= 0 {
            Seq::empty()
        } else {
            match lookup(self.details((n - 1) as u32), pid) {
                Some(d) => self.core_detail(pid, n - 1).push(d),
                None => self.core_detail(pid, n - 1),
            }
        }
    }

    /// The cache misses of each PID by the `i`-th core's counters.
    pub open spec fn miss_row(self, i: int) -> Seq<(u32, u64)> {
        let pids = core_pids(self.obs.pid_cpu_times@, self.obs.core_counters@[i].0);
        let misses = self.obs.core_counters@[i].1.cache_misses as int;
        pids.map_values(
            |e: (u32, u64)| (e.0, share_of(misses, e.1 as int, pid_time_sum(pids)) as u64),
        )
    }

    /// The cache misses of each PID.
    pub open spec fn miss_ledger(self) -> Seq<Seq<(u32, u64)>> {
        Seq::new(self.obs.core_counters@.len(), |i: int| self.miss_row(i))
    }

    /// The memory energy of one PID: its part of the memory's energy, by cache misses where any
    /// were counted, else by CPU energy.
    pub open spec fn memory_uj(self, pid: u32) -> int {
        let misses = ledger_sum(self.miss_ledger());
        if misses > 0 {
            share_of(self.dram_uj(), pid_sum(self.miss_ledger(), pid), misses)
        } else {
            share_of(self.dram_uj(), self.cpu_uj(pid), self.attributed_uj())
        }
    }

    pub open spec fn dram_uj(self) -> int {
        word_sum(self.energy.dram_energy_uj@)
    }

    pub open spec fn gpu_uj(self) -> int {
        word_sum(self.energy.gpu_energy_uj@)
    }

    /// The energy of all cores together.
    pub open spec fn node_uj(self) -> int {
        total(self.cores_uj())
    }

    /// The energy of all components together.
    pub open spec fn component_uj(self) -> int {
        self.node_uj() + self.dram_uj() + self.gpu_uj()
    }

    /// The power that an energy over this interval makes, held in 64 bits.
    pub open spec fn power(self, energy_uj: int) -> int {
        low_word(power_of(energy_uj, self.energy.interval_ns as int))
    }

    /// Whether all sums can be held: energies in 64 bits, and powers as signed numbers where they
    /// are subtracted.
    pub open spec fn in_range(self) -> bool {
        &&& can_split(
            self.energy.socket_energy_uj@,
            self.cores_per_socket as int,
            self.obs,
        )
        &&& self.component_uj() <= u64::MAX
        &&& match self.energy.platform_energy_uj {
            Some(platform) => self.power(platform as int) <= i64::MAX && self.power(
                self.component_uj(),
            ) <= i64::MAX,
            None => true,
        }
    }

    /// The power of one process.
    pub open spec fn is_process(self, p: ProcessPower) -> bool {
        &&& p.comm@ == Seq::<char>::empty()
        &&& p.cgroup_id == if self.obs.pid_cgroups@.contains_key(p.pid) {
            self.obs.pid_cgroups@[p.pid]
        } else {
            0
        }
        &&& p.power == (PowerBreakdown {
            cpu_uw: self.power(self.cpu_uj(p.pid)) as u64,
            memory_uw: self.power(self.memory_uj(p.pid)) as u64,
            gpu_uw: 0,
            nic_uw: 0,
            storage_uw: 0,
        })
        &&& p.core_detail@ == self.core_detail(p.pid, self.num_cores as int)
        &&& p.attribution_method == self.model.tag()
    }

    /// The power of every process that got energy on some core, once each.
    pub open spec fn are_processes(self, processes: Seq<ProcessPower>) -> bool {
        &&& forall|i: int| 0 <= i < processes.len() ==> self.is_process(#[trigger] processes[i])
        &&& processes.map_values(|p: ProcessPower| p.pid).no_duplicates()
        &&& forall|pid: u32| #[trigger]
            entered(self.energy_ledger(), pid) <==> processes.map_values(
                |p: ProcessPower| p.pid,
            ).contains(pid)
    }

    /// The platform's power, where the platform has a reading.
    pub open spec fn platform_uw(self) -> Option<u64> {
        match self.energy.platform_energy_uj {
            Some(e) => Some(self.power(e as int) as u64),
            None => None,
        }
    }

    /// The platform's power that no component accounts for.
    pub open spec fn unaccounted_uw(self) -> int {
        match self.energy.platform_energy_uj {
            Some(e) => self.power(e as int) - self.power(self.component_uj()),
            None => 0,
        }
    }

    /// How far the platform's energy is from that of the components, either way.
    pub open spec fn gap_uj(self) -> int {
        match self.energy.platform_energy_uj {
            Some(e) => if e < self.component_uj() {
                self.component_uj() - e
            } else {
                e - self.component_uj()
            },
            None => 0,
        }
    }

    /// The gap against the platform's energy, in units of 10⁻¹⁸, rounded up.
    pub open spec fn error_ratio_atto(self) -> int {
        match self.energy.platform_energy_uj {
            Some(e) => if e > 0 {
                ratio_up(self.gap_uj(), e as int)
            } else {
                0
            },
            None => 0,
        }
    }

    /// The node's energy that no process got.
    pub open spec fn idle_uj(self) -> int {
        self.node_uj() - self.attributed_uj()
    }

    /// The snapshot of this interval, taken at `now_ns`.
    pub open spec fn is_snapshot(self, s: AttributionSnapshot, now_ns: u64) -> bool {
        &&& s.timestamp_ns == now_ns
        &&& s.interval_ns == self.energy.interval_ns
        &&& s.node == (NodePower {
            measured: PowerBreakdown {
                cpu_uw: self.power(self.node_uj()) as u64,
                memory_uw: self.power(self.dram_uj()) as u64,
                gpu_uw: self.power(self.gpu_uj()) as u64,
                nic_uw: 0,
                storage_uw: 0,
            },
            platform_uw: self.platform_uw(),
            attributed_total_uw: self.power(self.node_uj()) as u64,
        })
        &&& self.are_processes(s.processes@)
        &&& s.pods@.len() == 0
        &&& s.namespaces@.len() == 0
        &&& s.idle_power == (PowerBreakdown {
            cpu_uw: self.power(self.idle_uj()) as u64,
            memory_uw: 0,
            gpu_uw: 0,
            nic_uw: 0,
            storage_uw: 0,
        })
        &&& s.reconciliation == (Reconciliation {
            platform_uw: self.platform_uw(),
            component_sum_uw: self.power(self.component_uj()) as u64,
            attributed_sum_uw: self.power(self.node_uj()) as u64,
            unaccounted_uw: self.unaccounted_uw() as i64,
            error_ratio_atto: self.error_ratio_atto() as u128,
        })
    }

    proof fn lemma_core_uj(self, core: u32)
        requires
            can_split(self.energy.socket_energy_uj@, self.cores_per_socket as int, self.obs),
        ensures
            0 <= self.core_uj(core) <= u64::MAX,
    {
        let sockets = self.energy.socket_energy_uj@;
        let c = self.cores_per_socket as int;
        if core < sockets.len() * c {
            assert(sockets.len() > 0 && c > 0) by (nonlinear_arith)
                requires
                    0 <= core < sockets.len() * c,
                    0 <= c,
            ;
            let s = core as int / c;
            let j = core as int % c;
            lemma_fundamental_div_mod(core as int, c);
            lemma_mod_bound(core as int, c);
            lemma_div_pos_is_pos(core as int, c);
            assert(s < sockets.len()) by (nonlinear_arith)
                requires
                    core < sockets.len() * c,
                    core == c * s + j,
                    0 <= j,
                    0 < c,
            ;
            law_split_conserves(sockets, c, self.obs, s);
            let parts = core_energies(sockets, c, self.obs, s * c, c);
            lemma_total_natural(parts);
            assert(s * c == c * s) by (nonlinear_arith);
            assert(parts[j] == core_energy(sockets, c, self.obs, s * c + j));
        }
    }

    proof fn lemma_weights(self, core: u32)
        ensures
            all_natural(self.weights(core)),
            0 <= total(self.weights(core)),
            forall|i: int|
                0 <= i < self.weights(core).len() ==> #[trigger] self.weights(core)[i] <= total(
                    self.weights(core),
                ),
    {
        let w = self.weights(core);
        assert forall|i: int| 0 <= i < w.len() implies 0 <= #[trigger] w[i] by {
            lemma_weight_natural(self.model, observations(self.obs, core)[i], self.freq(core));
        }
        lemma_total_natural(w);
    }

    /// A core's energy is conserved: its PIDs never get more than the core has, and where any of
    /// them has a weight they get all of it but less than one microjoule each.
    pub proof fn law_core_conserves(self, core: u32)
        requires
            can_split(self.energy.socket_energy_uj@, self.cores_per_socket as int, self.obs),
        ensures
            0 <= row_sum(self.energy_row(core)) <= self.core_uj(core),
            self.active(core) ==> self.core_uj(core) - observations(self.obs, core).len()
                < row_sum(self.energy_row(core)),
    {
        self.lemma_core_uj(core);
        let row = self.energy_row(core);
        if self.active(core) {
            let w = self.weights(core);
            let amount = self.core_uj(core);
            self.lemma_weights(core);
            law_shares_conserve(amount, w);
            let parts = shares(amount, w, total(w));
            assert(row.map_values(|e: (u32, u64)| e.1 as int) =~= parts) by {
                assert forall|i: int| 0 <= i < parts.len() implies row.map_values(
                    |e: (u32, u64)| e.1 as int,
                )[i] == #[trigger] parts[i] by {
                    lemma_share_bounds(amount, w[i], total(w));
                }
            }
        }
        lemma_row_sum_total(row);
        lemma_row_sum(row, 0);
    }

    proof fn lemma_details_distinct(self, core: u32)
        ensures
            distinct_keys(self.details(core)),
            distinct_keys(self.energy_row(core)),
    {
        lemma_core_pids_distinct(self.obs.pid_cpu_times@, core);
        let pids = core_pids(self.obs.pid_cpu_times@, core);
        assert forall|i: int, j: int|
            0 <= i < j < self.details(core).len() implies (#[trigger] self.details(core)[i]).0@
            != (#[trigger] self.details(core)[j]).0@ by {
            assert(pids[i].0@ != pids[j].0@);
        }
        assert forall|i: int, j: int|
            0 <= i < j < self.energy_row(core).len() implies (#[trigger] self.energy_row(
            core,
        )[i]).0@ != (#[trigger] self.energy_row(core)[j]).0@ by {
            assert(self.details(core)[i].0@ != self.details(core)[j].0@);
        }
    }

    /// The energies of the first `n` cores, whether or not a socket has them.
    spec fn first_cores(self, n: int) -> Seq<int> {
        core_energies(
            self.energy.socket_energy_uj@,
            self.cores_per_socket as int,
            self.obs,
            0,
            n,
        )
    }

    proof fn lemma_first_cores(self, n: int)
        requires
            can_split(self.energy.socket_energy_uj@, self.cores_per_socket as int, self.obs),
            0 <= n <= u32::MAX,
        ensures
            all_natural(self.first_cores(n)),
            total(self.first_cores(n)) <= self.node_uj(),
        decreases n,
    {
        let m = self.energy.socket_energy_uj@.len() * self.cores_per_socket;
        assert(all_natural(self.first_cores(n))) by {
            assert forall|i: int| 0 <= i < n implies 0 <= #[trigger] self.first_cores(n)[i] by {
                self.lemma_core_uj(i as u32);
            }
        }
        if n > m {
            assert(self.first_cores(n).drop_last() =~= self.first_cores(n - 1));
            if m >= 0 {
                self.lemma_first_cores(n - 1);
            }
        } else {
            assert(all_natural(self.cores_uj())) by {
                assert forall|i: int| 0 <= i < m implies 0 <= #[trigger] self.cores_uj()[i] by {
                    self.lemma_core_uj(i as u32);
                }
            }
            assert(self.first_cores(n) =~= self.cores_uj().take(n));
            lemma_total_take(self.cores_uj(), n);
        }
    }

    /// Attribution conserves energy: all processes together never get more than the node's cores
    /// spent, so that what they got and what was idle make up exactly what was spent.
    pub proof fn law_attribution_conserves(self)
        requires
            can_split(self.energy.socket_energy_uj@, self.cores_per_socket as int, self.obs),
        ensures
            0 <= self.attributed_uj() <= self.node_uj(),
            0 <= self.idle_uj(),
            self.attributed_uj() + self.idle_uj() == self.node_uj(),
    {
        self.lemma_attributed(self.num_cores as int);
        self.lemma_first_cores(self.num_cores as int);
        assert(self.energy_ledger().take(self.num_cores as int) =~= self.energy_ledger());
        lemma_pid_sum(self.energy_ledger(), 0);
    }

    proof fn lemma_attributed(self, n: int)
        requires
            can_split(self.energy.socket_energy_uj@, self.cores_per_socket as int, self.obs),
            0 <= n <= self.num_cores,
        ensures
            ledger_sum(self.energy_ledger().take(n)) <= total(self.first_cores(n)),
        decreases n,
    {
        if n > 0 {
            self.lemma_attributed(n - 1);
            assert(self.energy_ledger().take(n).drop_last() =~= self.energy_ledger().take(n - 1));
            assert(self.first_cores(n).drop_last() =~= self.first_cores(n - 1));
            self.law_core_conserves((n - 1) as u32);
        }
    }

    /// The processes' energies add up to what was attributed: summing by process and by core
    /// comes to the same.
    pub proof fn law_processes_sum(self, processes: Seq<ProcessPower>)
        requires
            self.are_processes(processes),
        ensures
            pids_sum(
                self.energy_ledger(),
                processes.map_values(|p: ProcessPower| p.pid),
            ) == self.attributed_uj(),
    {
        assert(well_kept(self.energy_ledger())) by {
            assert forall|i: int| 0 <= i < self.energy_ledger().len() implies distinct_keys(
                #[trigger] self.energy_ledger()[i],
            ) by {
                self.lemma_details_distinct(i as u32);
            }
        }
        law_ledger_sums_agree(
            self.energy_ledger(),
            processes.map_values(|p: ProcessPower| p.pid),
        );
    }

    proof fn lemma_sockets(self, k: int)
        requires
            can_split(self.energy.socket_energy_uj@, self.cores_per_socket as int, self.obs),
            0 <= k <= self.energy.socket_energy_uj@.len(),
        ensures
            total(self.first_cores(k * self.cores_per_socket)) <= word_sum(
                self.energy.socket_energy_uj@.take(k),
            ) <= total(self.first_cores(k * self.cores_per_socket)) + k * self.cores_per_socket,
        decreases k,
    {
        let sockets = self.energy.socket_energy_uj@;
        let c = self.cores_per_socket as int;
        if k > 0 {
            self.lemma_sockets(k - 1);
            law_split_conserves(sockets, c, self.obs, k - 1);
            let before = self.first_cores((k - 1) * c);
            let parts = core_energies(sockets, c, self.obs, (k - 1) * c, c);
            assert((k - 1) * c + c == k * c && 0 <= (k - 1) * c) by (nonlinear_arith)
                requires
                    k > 0,
                    c > 0,
            ;
            assert(self.first_cores(k * c) =~= before + parts);
            lemma_total_concat(before, parts);
            assert(sockets.take(k).drop_last() =~= sockets.take(k - 1));
        } else {
            assert(0 * c == 0);
            assert(self.first_cores(0) =~= Seq::empty());
        }
    }

    /// Energy is conserved from the sockets down to the processes: what the processes got and what
    /// was idle make up what the cores spent, and that is what the sockets spent, but for less than
    /// a microjoule for each core that is lost in splitting. So the processes together never get
    /// more than the sockets spent.
    pub proof fn law_sockets_to_processes(self, processes: Seq<ProcessPower>)
        requires
            can_split(self.energy.socket_energy_uj@, self.cores_per_socket as int, self.obs),
            self.are_processes(processes),
        ensures
            ({
                let sockets = self.energy.socket_energy_uj@;
                let got = pids_sum(
                    self.energy_ledger(),
                    processes.map_values(|p: ProcessPower| p.pid),
                );
                &&& 0 <= got
                &&& 0 <= self.idle_uj()
                &&& got + self.idle_uj() <= word_sum(sockets)
                &&& word_sum(sockets) - sockets.len() * self.cores_per_socket <= got
                    + self.idle_uj()
            }),
    {
        let sockets = self.energy.socket_energy_uj@;
        self.law_attribution_conserves();
        self.law_processes_sum(processes);
        self.lemma_sockets(sockets.len() as int);
        assert(sockets.take(sockets.len() as int) =~= sockets);
        assert(self.first_cores(sockets.len() * self.cores_per_socket) =~= self.cores_uj());
    }

    proof fn lemma_miss_row(self, i: int)
        requires
            0 <= i < self.obs.core_counters@.len(),
        ensures
            0 <= row_sum(self.miss_row(i)) <= u64::MAX,
            forall|k: int|
                0 <= k < self.miss_row(i).len() ==> (#[trigger] self.miss_row(i)[k]).1 == share_of(
                    self.obs.core_counters@[i].1.cache_misses as int,
                    core_pids(self.obs.pid_cpu_times@, self.obs.core_counters@[i].0)[k].1 as int,
                    pid_time_sum(core_pids(self.obs.pid_cpu_times@, self.obs.core_counters@[i].0)),
                ),
    {
        let pids = core_pids(self.obs.pid_cpu_times@, self.obs.core_counters@[i].0);
        let misses = self.obs.core_counters@[i].1.cache_misses as int;
        let row = self.miss_row(i);
        let times = pids.map_values(|e: (u32, u64)| e.1 as int);
        lemma_pid_time_sum(pids);
        lemma_pid_time_total(pids);
        assert forall|k: int| 0 <= k < row.len() implies (#[trigger] row[k]).1 == share_of(
            misses,
            pids[k].1 as int,
            pid_time_sum(pids),
        ) by {
            lemma_share_bounds(misses, pids[k].1 as int, pid_time_sum(pids));
        }
        lemma_row_sum_total(row);
        lemma_row_sum(row, 0);
        let amounts = row.map_values(|e: (u32, u64)| e.1 as int);
        if pid_time_sum(pids) > 0 {
            assert(all_natural(times));
            law_shares_conserve(misses, times);
            assert(amounts =~= shares(misses, times, total(times)));
        } else {
            assert(amounts =~= Seq::new(pids.len(), |k: int| 0int));
            lemma_total_zero(amounts);
        }
    }

    proof fn lemma_miss_ledger(self, n: int)
        requires
            0 <= n <= self.obs.core_counters@.len(),
        ensures
            ledger_sum(self.miss_ledger().take(n)) <= n * 0xffff_ffff_ffff_ffff,
        decreases n,
    {
        if n > 0 {
            self.lemma_miss_ledger(n - 1);
            assert(self.miss_ledger().take(n).drop_last() =~= self.miss_ledger().take(n - 1));
            self.lemma_miss_row(n - 1);
        }
    }
}

impl AttributionEngine {
    /// All that the attribution of one interval is computed from, with the model in use.
    pub open spec fn interval(&self, energy: EnergyInput, obs: ObservationSnapshot) -> Interval {
        Interval {
            model: self.model,
            num_cores: self.num_cores,
            cores_per_socket: self.cores_per_socket,
            energy,
            obs,
        }
    }

    /// The same engine with the best model for what was observed.
    pub open spec fn upgraded(&self, obs: ObservationSnapshot) -> AttributionEngine {
        AttributionEngine {
            model: best_model(
                obs.cpu_freq_times@.len() > 0,
                obs.core_counters@.len() > 0,
                self.full,
            ),
            full: self.full,
            num_cores: self.num_cores,
            cores_per_socket: self.cores_per_socket,
        }
    }

    /// An engine for a machine with the given cores and sockets. It starts with the simplest
    /// model, which is upgraded after the first observation.
    pub fn new(num_cores: u32, num_sockets: u32) -> (r: Self)
        ensures
            r.model == Model::CpuTimeRatio(CpuTimeRatioModel),
            r.full == (FullModel { alpha_atto: 300_000_000_000_000_000, beta_atto: 1_500_000_000_000_000_000 }),
            r.num_cores == num_cores,
            r.cores_per_socket == if num_sockets > 0 {
                num_cores / num_sockets
            } else {
                num_cores
            },
    {
        let cores_per_socket: u32 = if num_sockets > 0 {
            num_cores / num_sockets
        } else {
            num_cores
        };
        AttributionEngine {
            model: select_model(false, false),
            full: FullModel::new(),
            num_cores,
            cores_per_socket,
        }
    }

    /// The same engine with other coefficients for the full model, such as those of
    /// [`FullModel::from_settings`].
    pub fn with_full_model(self, full: FullModel) -> (r: Self)
        ensures
            r.full == full,
            r.model == match self.model {
                Model::Full(_) => Model::Full(full),
                other => other,
            },
            r.num_cores == self.num_cores,
            r.cores_per_socket == self.cores_per_socket,
    {
        let model: Model = match self.model {
            Model::Full(_) => Model::Full(full),
            other => other,
        };
        AttributionEngine {
            model,
            full,
            num_cores: self.num_cores,
            cores_per_socket: self.cores_per_socket,
        }
    }

    /// Whether an interval's sums can all be held, with the model that it calls for.
    pub fn in_range(&self, obs: &ObservationSnapshot, energy: &EnergyInput) -> (r: bool)
        ensures
            r == self.upgraded(*obs).interval(*energy, *obs).in_range(),
    {
        let engine: AttributionEngine = AttributionEngine {
            model: select_tuned_model(
                obs.cpu_freq_times.len() > 0,
                obs.core_counters.len() > 0,
                self.full,
            ),
            full: self.full,
            num_cores: self.num_cores,
            cores_per_socket: self.cores_per_socket,
        };
        assert(engine == self.upgraded(*obs));
        let ghost iv = engine.interval(*energy, *obs);
        if !split_in_range(&energy.socket_energy_uj, self.cores_per_socket, obs) {
            return false;
        }
        let cores: Vec<u64> = split_socket_to_cores(
            &energy.socket_energy_uj,
            self.cores_per_socket,
            obs,
        );
        let node: u128 = sum_words(&cores);
        let dram: u128 = sum_words(&energy.dram_energy_uj);
        let gpu: u128 = sum_words(&energy.gpu_energy_uj);
        proof {
            lemma_word_total(cores@);
            assert(cores@.map_values(|x: u64| x as int) =~= iv.cores_uj());
            lemma_word_sum_bound(cores@);
            lemma_word_sum_bound(energy.dram_energy_uj@);
            lemma_word_sum_bound(energy.gpu_energy_uj@);
        }
        let limit: u128 = 0xffff_ffff_ffff_ffff;
        if node > limit || dram > limit || gpu > limit || node + dram + gpu > limit {
            return false;
        }
        let component: u64 = (node + dram + gpu) as u64;
        match energy.platform_energy_uj {
            Some(platform) => energy_to_power(platform, energy.interval_ns)
                <= 0x7fff_ffff_ffff_ffff && energy_to_power(component, energy.interval_ns)
                <= 0x7fff_ffff_ffff_ffff,
            None => true,
        }
    }

    /// Normalizes the weights of one core: each PID gets its part of the core's energy.
    fn attribute_core(
        &self,
        energy: &EnergyInput,
        obs: &ObservationSnapshot,
        core: u32,
        core_uj: u64,
    ) -> (r: Vec<(u32, CoreAttribution)>)
        requires
            obs.cpu_freq_times@.len() <= u32::MAX,
            can_split(
                energy.socket_energy_uj@,
                self.cores_per_socket as int,
                *obs,
            ),
            core_uj == self.interval(*energy, *obs).core_uj(core),
        ensures
            r@ == self.interval(*energy, *obs).details(core),
    {
        let ghost iv = self.interval(*energy, *obs);
        let ghost all = iv.weights(core);
        let mut r: Vec<(u32, CoreAttribution)> = Vec::new();
        if core_uj == 0 {
            return r;
        }
        let freq: u32 = compute_core_avg_freq(&obs.cpu_freq_times, core);
        let seen: Vec<PidCoreObservation> = build_core_observations(obs, core);
        let weights: Vec<PidCoreWeight> = self.model.compute_weights(&seen, freq);
        let whole: Wide = sum_weights(&weights);
        proof {
            iv.lemma_weights(core);
            assert(weights@.map_values(|w: PidCoreWeight| w.raw_weight@) =~= all);
        }
        if whole.is_zero() {
            return r;
        }
        let mut i: usize = 0;
        while i < seen.len()
            invariant
                i <= seen@.len(),
                iv == self.interval(*energy, *obs),
                all == iv.weights(core),
                seen@ == observations(*obs, core),
                freq == iv.freq(core),
                whole@ == total(all),
                whole@ > 0,
                core_uj == iv.core_uj(core),
                core_uj != 0,
                weights@.len() == seen@.len(),
                forall|j: int|
                    0 <= j < weights@.len() ==> (#[trigger] weights@[j]).raw_weight@
                        == self.model.weight(seen@[j], freq),
                forall|j: int| 0 <= j < all.len() ==> 0 <= #[trigger] all[j] <= whole@,
                r@ == iv.details(core).take(i as int),
            decreases seen@.len() - i,
        {
            assert(all[i as int] == self.model.weight(seen@[i as int], freq));
            let o: PidCoreObservation = seen[i];
            let pid_energy: u64 = part_of(core_uj, &weights[i].raw_weight, &whole);
            r.push(
                (
                    o.pid,
                    CoreAttribution {
                        core,
                        time_ns: o.time_ns,
                        avg_freq_khz: freq,
                        energy_uj: pid_energy,
                        instructions: o.instructions,
                        cycles: o.cycles,
                        cache_misses: o.cache_misses,
                    },
                ),
            );
            i = i + 1;
            assert(r@ =~= iv.details(core).take(i as int));
        }
        assert(r@ =~= iv.details(core));
        r
    }

    /// Hands each core's cache misses to its PIDs in proportion to their time on it.
    fn build_miss_ledger(&self, energy: &EnergyInput, obs: &ObservationSnapshot) -> (r: Vec<
        Vec<(u32, u64)>,
    >)
        ensures
            rows_of(r@) == self.interval(*energy, *obs).miss_ledger(),
    {
        let ghost iv = self.interval(*energy, *obs);
        let mut r: Vec<Vec<(u32, u64)>> = Vec::new();
        let mut i: usize = 0;
        while i < obs.core_counters.len()
            invariant
                i <= obs.core_counters@.len(),
                iv == self.interval(*energy, *obs),
                r@.len() == i,
                forall|j: int| 0 <= j < i ==> (#[trigger] r@[j])@ == iv.miss_row(j),
            decreases obs.core_counters@.len() - i,
        {
            let pids: Vec<(u32, u64)> = core_pid_times(
                &obs.pid_cpu_times,
                obs.core_counters[i].0,
            );
            let whole: u128 = sum_pid_times(&pids);
            let misses: u64 = obs.core_counters[i].1.cache_misses;
            let mut row: Vec<(u32, u64)> = Vec::new();
            let mut j: usize = 0;
            proof {
                lemma_pid_time_sum(pids@);
                iv.lemma_miss_row(i as int);
            }
            while j < pids.len()
                invariant
                    i < obs.core_counters@.len(),
                    j <= pids@.len(),
                    iv == self.interval(*energy, *obs),
                    pids@ == core_pids(obs.pid_cpu_times@, obs.core_counters@[i as int].0),
                    whole == pid_time_sum(pids@),
                    misses == obs.core_counters@[i as int].1.cache_misses,
                    forall|k: int| 0 <= k < pids@.len() ==> (#[trigger] pids@[k]).1 <= whole,
                    row@ == iv.miss_row(i as int).take(j as int),
                decreases pids@.len() - j,
            {
                row.push((pids[j].0, share(misses, pids[j].1 as u128, whole)));
                j = j + 1;
                assert(row@ =~= iv.miss_row(i as int).take(j as int));
            }
            assert(row@ =~= iv.miss_row(i as int));
            r.push(row);
            i = i + 1;
        }
        assert(rows_of(r@) =~= iv.miss_ledger());
        r
    }

    /// Gathers what one PID gets on each core.
    fn gather_detail(
        &self,
        energy: &EnergyInput,
        obs: &ObservationSnapshot,
        details: &Vec<Vec<(u32, CoreAttribution)>>,
        pid: u32,
    ) -> (r: Vec<CoreAttribution>)
        requires
            details@.len() == self.num_cores,
            forall|c: int|
                0 <= c < details@.len() ==> (#[trigger] details@[c])@ == self.interval(
                    *energy,
                    *obs,
                ).details(c as u32),
        ensures
            r@ == self.interval(*energy, *obs).core_detail(pid, self.num_cores as int),
    {
        let ghost iv = self.interval(*energy, *obs);
        let mut r: Vec<CoreAttribution> = Vec::new();
        let mut core: usize = 0;
        while core < details.len()
            invariant
                core <= details@.len() == self.num_cores,
                iv == self.interval(*energy, *obs),
                forall|c: int|
                    0 <= c < details@.len() ==> (#[trigger] details@[c])@ == iv.details(c as u32),
                r@ == iv.core_detail(pid, core as int),
            decreases details@.len() - core,
        {
            match get(&details[core], &pid) {
                Some(d) => {
                    r.push(*d);
                },
                None => {},
            }
            core = core + 1;
        }
        r
    }

    /// Processes one interval of observations and energy readings, taken at `now_ns`.
    pub fn attribute(
        &mut self,
        obs: &ObservationSnapshot,
        energy: &EnergyInput,
        now_ns: u64,
    ) -> (r: AttributionSnapshot)
        requires
            old(self).upgraded(*obs).interval(*energy, *obs).in_range(),
        ensures
            *final(self) == old(self).upgraded(*obs),
            old(self).upgraded(*obs).interval(*energy, *obs).is_snapshot(r, now_ns),
    {
        // Upgrade model based on available data
        self.model = select_tuned_model(
            obs.cpu_freq_times.len() > 0,
            obs.core_counters.len() > 0,
            self.full,
        );
        let ghost iv = self.interval(*energy, *obs);
        assert(*self == old(self).upgraded(*obs));

        let cores: Vec<u64> = split_socket_to_cores(
            &energy.socket_energy_uj,
            self.cores_per_socket,
            obs,
        );

        // For each core, attribute energy to PIDs
        let mut details: Vec<Vec<(u32, CoreAttribution)>> = Vec::new();
        let mut energies: Vec<Vec<(u32, u64)>> = Vec::new();
        let mut core: u32 = 0;
        while core < self.num_cores
            invariant
                core <= self.num_cores,
                iv == self.interval(*energy, *obs),
                iv.in_range(),
                cores@.len() == energy.socket_energy_uj@.len() * self.cores_per_socket,
                forall|c: int|
                    0 <= c < cores@.len() ==> #[trigger] cores@[c] == core_energy(
                        energy.socket_energy_uj@,
                        self.cores_per_socket as int,
                        *obs,
                        c,
                    ),
                details@.len() == core,
                energies@.len() == core,
                forall|c: int|
                    0 <= c < core ==> (#[trigger] details@[c])@ == iv.details(c as u32),
                forall|c: int|
                    0 <= c < core ==> (#[trigger] energies@[c])@ == iv.energy_row(c as u32),
            decreases self.num_cores - core,
        {
            let core_uj: u64 = if (core as usize) < cores.len() {
                cores[core as usize]
            } else {
                0
            };
            assert(core_uj == iv.core_uj(core));
            let rows: Vec<(u32, CoreAttribution)> = self.attribute_core(
                energy,
                obs,
                core,
                core_uj,
            );
            let row: Vec<(u32, u64)> = row_energies(&rows);
            assert(row@ =~= iv.energy_row(core));
            details.push(rows);
            energies.push(row);
            core = core + 1;
        }
        assert(rows_of(energies@) =~= iv.energy_ledger());

        let node: u128 = sum_words(&cores);
        let dram: u128 = sum_words(&energy.dram_energy_uj);
        let gpu: u128 = sum_words(&energy.gpu_energy_uj);
        proof {
            lemma_word_total(cores@);
            assert(cores@.map_values(|x: u64| x as int) =~= iv.cores_uj());
            lemma_word_sum_bound(cores@);
            lemma_word_sum_bound(energy.dram_energy_uj@);
            lemma_word_sum_bound(energy.gpu_energy_uj@);
            iv.law_attribution_conserves();
        }
        let attributed: u128 = sum_ledger(&energies);

        // Attribute memory energy via cache misses
        let misses: Vec<Vec<(u32, u64)>> = self.build_miss_ledger(energy, obs);
        proof {
            iv.lemma_miss_ledger(obs.core_counters@.len() as int);
            assert(iv.miss_ledger().take(obs.core_counters@.len() as int) =~= iv.miss_ledger());
        }
        let total_misses: u128 = sum_ledger(&misses);

        // Build process power results
        let pids: Vec<u32> = entered_pids(&energies);
        let mut processes: Vec<ProcessPower> = Vec::new();
        let mut i: usize = 0;
        while i < pids.len()
            invariant
                i <= pids@.len(),
                iv == self.interval(*energy, *obs),
                iv.in_range(),
                rows_of(energies@) == iv.energy_ledger(),
                rows_of(misses@) == iv.miss_ledger(),
                attributed == iv.attributed_uj(),
                attributed <= u64::MAX,
                total_misses == ledger_sum(iv.miss_ledger()),
                dram == iv.dram_uj(),
                dram <= u64::MAX,
                details@.len() == self.num_cores,
                forall|c: int|
                    0 <= c < details@.len() ==> (#[trigger] details@[c])@ == iv.details(c as u32),
                processes@.len() == i,
                forall|j: int| 0 <= j < i ==> iv.is_process(#[trigger] processes@[j]),
                forall|j: int| 0 <= j < i ==> (#[trigger] processes@[j]).pid == pids@[j],
            decreases pids@.len() - i,
        {
            let pid: u32 = pids[i];
            let cpu_energy: u128 = sum_pid(&energies, pid);
            let pid_misses: u128 = sum_pid(&misses, pid);
            let mem_energy: u64 = if total_misses > 0 {
                share(dram as u64, pid_misses, total_misses)
            } else {
                share(dram as u64, cpu_energy, attributed)
            };
            let cgroup_id: u64 = match obs.pid_cgroups.get(&pid) {
                Some(id) => *id,
                None => 0,
            };
            let core_detail: Vec<CoreAttribution> = self.gather_detail(energy, obs, &details, pid);
            let process: ProcessPower = ProcessPower {
                pid,
                comm: String::new(),
                cgroup_id,
                power: PowerBreakdown {
                    cpu_uw: energy_to_power(cpu_energy as u64, energy.interval_ns),
                    memory_uw: energy_to_power(mem_energy, energy.interval_ns),
                    gpu_uw: 0,
                    nic_uw: 0,
                    storage_uw: 0,
                },
                core_detail,
                attribution_method: self.model.method(),
            };
            assert(iv.is_process(process));
            processes.push(process);
            i = i + 1;
        }
        proof {
            let listed = processes@.map_values(|p: ProcessPower| p.pid);
            assert(listed =~= pids@);
        }

        // What no process got was idle
        let idle: u64 = (node - attributed) as u64;
        let component: u64 = (node + dram + gpu) as u64;
        let platform_uw: Option<u64> = match energy.platform_energy_uj {
            Some(e) => Some(energy_to_power(e, energy.interval_ns)),
            None => None,
        };
        let (unaccounted_uw, error_ratio_atto): (i64, u128) = match energy.platform_energy_uj {
            Some(platform) => reconcile_platform(platform, component, energy.interval_ns),
            None => (0, 0),
        };
        let node_uw: u64 = energy_to_power(node as u64, energy.interval_ns);
        AttributionSnapshot {
            timestamp_ns: now_ns,
            interval_ns: energy.interval_ns,
            node: NodePower {
                measured: PowerBreakdown {
                    cpu_uw: node_uw,
                    memory_uw: energy_to_power(dram as u64, energy.interval_ns),
                    gpu_uw: energy_to_power(gpu as u64, energy.interval_ns),
                    nic_uw: 0,
                    storage_uw: 0,
                },
                platform_uw,
                attributed_total_uw: node_uw,
            },
            processes,
            pods: Vec::new(),
            namespaces: Vec::new(),
            idle_power: PowerBreakdown {
                cpu_uw: energy_to_power(idle, energy.interval_ns),
                memory_uw: 0,
                gpu_uw: 0,
                nic_uw: 0,
                storage_uw: 0,
            },
            reconciliation: Reconciliation {
                platform_uw,
                component_sum_uw: energy_to_power(component, energy.interval_ns),
                attributed_sum_uw: node_uw,
                unaccounted_uw,
                error_ratio_atto,
            },
        }
    }
}

/// The platform's reading against the sum of the components: the power that is unaccounted for,
/// and the gap between the two against the reading.
fn reconcile_platform(platform: u64, component: u64, interval_ns: u64) -> (r: (i64, u128))
    requires
        low_word(power_of(platform as int, interval_ns as int)) <= i64::MAX,
        low_word(power_of(component as int, interval_ns as int)) <= i64::MAX,
    ensures
        r.0 == low_word(power_of(platform as int, interval_ns as int)) - low_word(
            power_of(component as int, interval_ns as int),
        ),
        r.1 == if platform > 0 {
            ratio_up(
                if platform < component {
                    component - platform
                } else {
                    platform - component
                },
                platform as int,
            )
        } else {
            0
        },
{
    let platform_uw: u64 = energy_to_power(platform, interval_ns);
    let component_uw: u64 = energy_to_power(component, interval_ns);
    let size: u64 = if platform < component {
        component - platform
    } else {
        platform - component
    };
    let ratio: u128 = if platform > 0 {
        divide_up(size, platform)
    } else {
        0
    };
    (platform_uw as i64 - component_uw as i64, ratio)
}

proof fn lemma_total_concat(a: Seq<int>, b: Seq<int>)
    ensures
        total(a + b) == total(a) + total(b),
    decreases b.len(),
{
    if b.len() > 0 {
        assert((a + b).drop_last() =~= a + b.drop_last());
        lemma_total_concat(a, b.drop_last());
    } else {
        assert(a + b =~= a);
    }
}

/// The weights of a core's PIDs added up.
fn sum_weights(weights: &Vec<PidCoreWeight>) -> (r: Wide)
    ensures
        r@ == total(weights@.map_values(|w: PidCoreWeight| w.raw_weight@)),
{
    let ghost all = weights@.map_values(|w: PidCoreWeight| w.raw_weight@);
    let mut r: Wide = Wide::zero();
    let mut i: usize = 0;
    while i < weights.len()
        invariant
            i <= weights@.len(),
            all == weights@.map_values(|w: PidCoreWeight| w.raw_weight@),
            r@ == total(all.take(i as int)),
        decreases weights@.len() - i,
    {
        r = r.plus(&weights[i].raw_weight);
        assert(all.take(i + 1).drop_last() =~= all.take(i as int));
        i = i + 1;
    }
    assert(all.take(i as int) =~= all);
    r
}

/// The energies of a core's rows.
fn row_energies(rows: &Vec<(u32, CoreAttribution)>) -> (r: Vec<(u32, u64)>)
    ensures
        r@ == rows@.map_values(|d: (u32, CoreAttribution)| (d.0, d.1.energy_uj)),
{
    let mut r: Vec<(u32, u64)> = Vec::new();
    let mut i: usize = 0;
    let ghost all = rows@.map_values(|d: (u32, CoreAttribution)| (d.0, d.1.energy_uj));
    while i < rows.len()
        invariant
            i <= rows@.len(),
            all == rows@.map_values(|d: (u32, CoreAttribution)| (d.0, d.1.energy_uj)),
            r@ == all.take(i as int),
        decreases rows@.len() - i,
    {
        r.push((rows[i].0, rows[i].1.energy_uj));
        i = i + 1;
        assert(r@ =~= all.take(i as int));
    }
    assert(r@ =~= all);
    r
}

proof fn lemma_word_total(s: Seq<u64>)
    ensures
        word_sum(s) == total(s.map_values(|x: u64| x as int)),
    decreases s.len(),
{
    if s.len() > 0 {
        lemma_word_total(s.drop_last());
        assert(s.map_values(|x: u64| x as int).drop_last() =~= s.drop_last().map_values(
            |x: u64| x as int,
        ));
    }
}

proof fn lemma_row_sum_total(row: Seq<(u32, u64)>)
    ensures
        row_sum(row) == total(row.map_values(|e: (u32, u64)| e.1 as int)),
    decreases row.len(),
{
    if row.len() > 0 {
        lemma_row_sum_total(row.drop_last());
        assert(row.map_values(|e: (u32, u64)| e.1 as int).drop_last()
            =~= row.drop_last().map_values(|e: (u32, u64)| e.1 as int));
    }
}

proof fn lemma_pid_time_total(pids: Seq<(u32, u64)>)
    ensures
        pid_time_sum(pids) == total(pids.map_values(|e: (u32, u64)| e.1 as int)),
    decreases pids.len(),
{
    if pids.len() > 0 {
        lemma_pid_time_total(pids.drop_last());
        assert(pids.map_values(|e: (u32, u64)| e.1 as int).drop_last()
            =~= pids.drop_last().map_values(|e: (u32, u64)| e.1 as int));
    }
}

proof fn lemma_total_zero(s: Seq<int>)
    requires
        forall|i: int| 0 <= i < s.len() ==> #[trigger] s[i] == 0,
    ensures
        total(s) == 0,
    decreases s.len(),
{
    if s.len() > 0 {
        assert forall|i: int| 0 <= i < s.drop_last().len() implies #[trigger] s.drop_last()[i]
            == 0 by {
            assert(s.drop_last()[i] == s[i]);
        }
        lemma_total_zero(s.drop_last());
    }
}

// ─── What a snapshot says of the interval ───────────────────────

/// Cache misses counted on a core fall to a process that ran on it as its time there falls to the
/// time of all processes there, rounded down; a process that did not run there has none of them.
pub proof fn law_misses_go_with_time(iv: Interval, i: int, pid: u32)
    requires
        0 <= i < iv.obs.core_counters@.len(),
        one_time_each(iv.obs.pid_cpu_times@),
    ensures
        ({
            let core = iv.obs.core_counters@[i].0;
            let counted = iv.obs.core_counters@[i].1.cache_misses;
            let all = sum_of(iv.obs.pid_cpu_times@, ran_on(core));
            let own = amount_in(iv.miss_row(i), pid);
            &&& forall|k: int|
                0 <= k < iv.obs.pid_cpu_times@.len() && (
                #[trigger] iv.obs.pid_cpu_times@[k]).0.cpu == core
                    && iv.obs.pid_cpu_times@[k].0.pid == pid && all > 0 ==> own * all <= counted
                    * iv.obs.pid_cpu_times@[k].1 < (own + 1) * all
            &&& (forall|k: int|
                0 <= k < iv.obs.pid_cpu_times@.len() ==> (
                #[trigger] iv.obs.pid_cpu_times@[k]).0.cpu != core
                    || iv.obs.pid_cpu_times@[k].0.pid != pid) ==> own == 0
            &&& counted == 0 ==> own == 0
        }),
{
    let times = iv.obs.pid_cpu_times@;
    let core = iv.obs.core_counters@[i].0;
    let counted = iv.obs.core_counters@[i].1.cache_misses as int;
    let pids = core_pids(times, core);
    let row = iv.miss_row(i);
    iv.lemma_miss_row(i);
    lemma_core_pids_distinct(times, core);
    lemma_position(pids, pid);
    lemma_position(row, pid);
    let p = position(pids, pid);
    lemma_same_positions(pids, row, pid);
    lemma_pid_time_sum(pids);
    if p >= 0 && pid_time_sum(pids) > 0 {
        law_share(counted, pids[p].1 as int, pid_time_sum(pids));
        if counted == 0 {
            assert(0 * pids[p].1 == 0);
        }
    }
    assert forall|k: int|
        0 <= k < times.len() && (#[trigger] times[k]).0.cpu == core && times[k].0.pid == pid
            && sum_of(times, ran_on(core)) > 0 implies amount_in(row, pid) * sum_of(
        times,
        ran_on(core),
    ) <= counted * times[k].1 < (amount_in(row, pid) + 1) * sum_of(times, ran_on(core)) by {
        law_core_processes(iv.obs, core, k);
    }
    if forall|k: int|
        0 <= k < times.len() ==> (#[trigger] times[k]).0.cpu != core || times[k].0.pid != pid {
        law_not_on_core(iv.obs, core, pid);
    }
    if counted == 0 && p >= 0 && pid_time_sum(pids) == 0 {
        assert(row[p].1 == 0);
    }
}

proof fn lemma_same_positions<V, W>(a: Seq<(u32, V)>, b: Seq<(u32, W)>, pid: u32)
    requires
        a.len() == b.len(),
        forall|k: int| 0 <= k < a.len() ==> (#[trigger] a[k]).0 == b[k].0,
    ensures
        position(a, pid) == position(b, pid),
    decreases a.len(),
{
    if a.len() > 0 {
        assert(a[a.len() - 1].0 == b[b.len() - 1].0);
        assert forall|k: int| 0 <= k < a.drop_last().len() implies (#[trigger] a.drop_last()[k]).0
            == b.drop_last()[k].0 by {
            assert(a[k].0 == b[k].0);
        }
        lemma_same_positions(a.drop_last(), b.drop_last(), pid);
    }
}

/// Where any cache misses were counted for processes, a process's memory energy is to that of the
/// memory as its misses are to those of all, rounded down: a process without misses gets none,
/// and of two processes the one with more misses never gets less, whatever their CPU energy.
/// Where none were counted, it is as its CPU energy to that of all processes.
pub proof fn law_memory_goes_with_misses(iv: Interval, pid: u32, other: u32)
    ensures
        ({
            let all = ledger_sum(iv.miss_ledger());
            let own = pid_sum(iv.miss_ledger(), pid);
            let e = iv.memory_uj(pid);
            let dram = word_sum(iv.energy.dram_energy_uj@);
            if all > 0 {
                &&& e * all <= dram * own < (e + 1) * all
                &&& own == 0 ==> e == 0
                &&& own <= pid_sum(iv.miss_ledger(), other) ==> e <= iv.memory_uj(other)
            } else {
                let cpu = pid_sum(iv.energy_ledger(), pid);
                let attributed = ledger_sum(iv.energy_ledger());
                attributed > 0 ==> e * attributed <= dram * cpu < (e + 1) * attributed
            }
        }),
{
    let dram = word_sum(iv.energy.dram_energy_uj@);
    lemma_word_sum_bound(iv.energy.dram_energy_uj@);
    let all = ledger_sum(iv.miss_ledger());
    let own = pid_sum(iv.miss_ledger(), pid);
    lemma_pid_sum(iv.miss_ledger(), pid);
    lemma_pid_sum(iv.miss_ledger(), other);
    lemma_pid_sum(iv.energy_ledger(), pid);
    if all > 0 {
        law_share(dram, own, all);
        let more = pid_sum(iv.miss_ledger(), other);
        if own <= more {
            assert(share_of(dram, own, all) <= share_of(dram, more, all));
        }
    } else if ledger_sum(iv.energy_ledger()) > 0 {
        law_share(
            dram,
            pid_sum(iv.energy_ledger(), pid),
            ledger_sum(iv.energy_ledger()),
        );
    }
}

proof fn lemma_no_misses(iv: Interval, pid: u32, n: int)
    requires
        0 <= n <= iv.obs.core_counters@.len(),
        one_time_each(iv.obs.pid_cpu_times@),
        forall|i: int|
            0 <= i < iv.obs.core_counters@.len() && (
            #[trigger] iv.obs.core_counters@[i]).1.cache_misses > 0 ==> !ran_there(
                iv.obs,
                iv.obs.core_counters@[i].0,
                pid,
            ),
    ensures
        pid_sum(iv.miss_ledger().take(n), pid) == 0,
    decreases n,
{
    if n > 0 {
        lemma_no_misses(iv, pid, n - 1);
        assert(iv.miss_ledger().take(n).drop_last() =~= iv.miss_ledger().take(n - 1));
        law_misses_go_with_time(iv, n - 1, pid);
        if iv.obs.core_counters@[n - 1].1.cache_misses > 0 {
            let core = iv.obs.core_counters@[n - 1].0;
            assert(!ran_there(iv.obs, core, pid));
            assert forall|k: int| 0 <= k < iv.obs.pid_cpu_times@.len() implies (
            #[trigger] iv.obs.pid_cpu_times@[k]).0.cpu != core || iv.obs.pid_cpu_times@[k].0.pid
                != pid by {}
        }
    }
}

/// Whether a process has a time on a core.
pub open spec fn ran_there(obs: ObservationSnapshot, core: u32, pid: u32) -> bool {
    exists|k: int|
        0 <= k < obs.pid_cpu_times@.len() && (#[trigger] obs.pid_cpu_times@[k]).0.cpu == core
            && obs.pid_cpu_times@[k].0.pid == pid
}

proof fn lemma_some_misses(iv: Interval, i: int, pid: u32, n: int)
    requires
        0 <= i < n <= iv.obs.core_counters@.len(),
        amount_in(iv.miss_row(i), pid) > 0,
    ensures
        pid_sum(iv.miss_ledger().take(n), pid) > 0,
    decreases n,
{
    assert(iv.miss_ledger().take(n).drop_last() =~= iv.miss_ledger().take(n - 1));
    lemma_pid_sum(iv.miss_ledger().take(n - 1), pid);
    lemma_row_sum(iv.miss_row(n - 1), pid);
    if i < n - 1 {
        lemma_some_misses(iv, i, pid, n - 1);
    }
}

/// Memory power goes to whoever caused cache misses: where a process that ran on a core had at
/// least one of the misses counted there, a process that ran on no core that counted misses draws
/// no memory power.
pub proof fn law_no_misses_no_memory_power(
    iv: Interval,
    s: AttributionSnapshot,
    now_ns: u64,
    p: int,
    i: int,
    k: int,
)
    requires
        iv.is_snapshot(s, now_ns),
        one_time_each(iv.obs.pid_cpu_times@),
        0 <= i < iv.obs.core_counters@.len(),
        0 <= k < iv.obs.pid_cpu_times@.len(),
        iv.obs.pid_cpu_times@[k].0.cpu == iv.obs.core_counters@[i].0,
        0 < sum_of(iv.obs.pid_cpu_times@, ran_on(iv.obs.core_counters@[i].0))
            <= iv.obs.core_counters@[i].1.cache_misses * iv.obs.pid_cpu_times@[k].1,
        0 <= p < s.processes@.len(),
        forall|j: int|
            0 <= j < iv.obs.core_counters@.len() && (
            #[trigger] iv.obs.core_counters@[j]).1.cache_misses > 0 ==> !ran_there(
                iv.obs,
                iv.obs.core_counters@[j].0,
                s.processes@[p].pid,
            ),
    ensures
        s.processes@[p].power.memory_uw == 0,
{
    let n = iv.obs.core_counters@.len() as int;
    let who = iv.obs.pid_cpu_times@[k].0.pid;
    let pid = s.processes@[p].pid;
    assert(iv.miss_ledger().take(n) =~= iv.miss_ledger());
    law_misses_go_with_time(iv, i, who);
    let own = amount_in(iv.miss_row(i), who);
    let all = sum_of(iv.obs.pid_cpu_times@, ran_on(iv.obs.core_counters@[i].0));
    assert(own > 0) by (nonlinear_arith)
        requires
            iv.obs.core_counters@[i].1.cache_misses * iv.obs.pid_cpu_times@[k].1 < (own + 1) * all,
            all <= iv.obs.core_counters@[i].1.cache_misses * iv.obs.pid_cpu_times@[k].1,
            0 < all,
    ;
    lemma_some_misses(iv, i, who, n);
    lemma_pid_sum(iv.miss_ledger(), who);
    lemma_no_misses(iv, pid, n);
    law_memory_goes_with_misses(iv, pid, pid);
    assert(iv.is_process(s.processes@[p]));
    assert(iv.memory_uj(pid) == 0);
    if iv.energy.interval_ns > 0 {
        law_power(0, iv.energy.interval_ns as int);
        lemma_div_basics(iv.energy.interval_ns as int);
    }
    assert(low_word(0) == 0);
}

/// A core's energy falls to its processes by their weights under the model: each gets as much of
/// it as its weight is of all, rounded down. So a process that weighs more never gets less.
pub proof fn law_core_energy_goes_with_weight(iv: Interval, core: u32, i: int, j: int)
    requires
        can_split(iv.energy.socket_energy_uj@, iv.cores_per_socket as int, iv.obs),
        iv.active(core),
        0 <= i < observations(iv.obs, core).len(),
        0 <= j < observations(iv.obs, core).len(),
    ensures
        ({
            let e = iv.details(core)[i].1.energy_uj;
            let own = iv.model.weight(observations(iv.obs, core)[i], iv.freq(core));
            let all = total(
                observations(iv.obs, core).map_values(
                    |o: PidCoreObservation| iv.model.weight(o, iv.freq(core)),
                ),
            );
            let other = iv.model.weight(observations(iv.obs, core)[j], iv.freq(core));
            &&& e * all <= iv.core_uj(core) * own < (e + 1) * all
            &&& own <= other ==> e <= iv.details(core)[j].1.energy_uj
            &&& iv.details(core)[i].0 == observations(iv.obs, core)[i].pid
            &&& iv.details(core)[i].1.core == core
            &&& iv.details(core)[i].1.time_ns == observations(iv.obs, core)[i].time_ns
            &&& iv.details(core)[i].1.instructions == observations(iv.obs, core)[i].instructions
            &&& iv.details(core)[i].1.cycles == observations(iv.obs, core)[i].cycles
            &&& iv.details(core)[i].1.cache_misses == observations(iv.obs, core)[i].cache_misses
        }),
{
    iv.lemma_core_uj(core);
    iv.lemma_weights(core);
    let w = iv.weights(core);
    let amount = iv.core_uj(core);
    assert(w[i] <= total(w) && w[j] <= total(w) && 0 <= w[i] && 0 <= w[j]);
    law_share(amount, w[i], total(w));
    lemma_share_bounds(amount, w[i], total(w));
    lemma_share_bounds(amount, w[j], total(w));
    if w[i] <= w[j] {
        assert(share_of(amount, w[i], total(w)) <= share_of(amount, w[j], total(w)));
    }
}

/// What a core's part counts for by its energy.
pub open spec fn detail_energy() -> spec_fn(CoreAttribution) -> int {
    |d: CoreAttribution| d.energy_uj as int
}

proof fn lemma_detail_sum(iv: Interval, pid: u32, n: int)
    requires
        0 <= n <= iv.num_cores,
    ensures
        sum_of(iv.core_detail(pid, n), detail_energy()) == pid_sum(
            iv.energy_ledger().take(n),
            pid,
        ),
    decreases n,
{
    if n > 0 {
        lemma_detail_sum(iv, pid, n - 1);
        let core = (n - 1) as u32;
        assert(iv.energy_ledger().take(n).drop_last() =~= iv.energy_ledger().take(n - 1));
        let (a, b) = (iv.details(core), iv.energy_row(core));
        lemma_same_positions(a, b, pid);
        lemma_position(a, pid);
        if position(a, pid) >= 0 {
            lemma_sum_push(iv.core_detail(pid, n - 1), a[position(a, pid)].1, detail_energy());
        }
    } else {
        assert(iv.energy_ledger().take(0) =~= Seq::empty());
    }
}

/// A process's CPU power over the interval makes the energy that it got on all cores, but for
/// less than what a microwatt more would.
pub proof fn law_cpu_power_of_process(iv: Interval, s: AttributionSnapshot, now_ns: u64, p: int)
    requires
        iv.in_range(),
        iv.is_snapshot(s, now_ns),
        0 <= p < s.processes@.len(),
        iv.energy.interval_ns > 0,
        sum_of(s.processes@[p].core_detail@, detail_energy()) * 1_000_000_000 <= u64::MAX
            * iv.energy.interval_ns,
    ensures
        s.processes@[p].power.cpu_uw * s.interval_ns <= sum_of(
            s.processes@[p].core_detail@,
            detail_energy(),
        ) * 1_000_000_000 < (s.processes@[p].power.cpu_uw + 1) * s.interval_ns,
{
    let process = s.processes@[p];
    assert(iv.is_process(process));
    let n = iv.num_cores as int;
    lemma_detail_sum(iv, process.pid, n);
    assert(iv.energy_ledger().take(n) =~= iv.energy_ledger());
    lemma_pid_sum(iv.energy_ledger(), process.pid);
    lemma_power_held(iv.cpu_uj(process.pid), iv.energy.interval_ns as int);
}

proof fn lemma_power_held(energy: int, interval: int)
    requires
        0 <= energy,
        0 < interval,
        energy * 1_000_000_000 <= u64::MAX * interval,
    ensures
        low_word(power_of(energy, interval)) == power_of(energy, interval),
        power_of(energy, interval) * interval <= energy * 1_000_000_000 < (power_of(
            energy,
            interval,
        ) + 1) * interval,
{
    law_power(energy, interval);
    let p = power_of(energy, interval);
    assert(p <= u64::MAX) by (nonlinear_arith)
        requires
            p * interval <= energy * 1_000_000_000,
            energy * 1_000_000_000 <= u64::MAX * interval,
            0 < interval,
    ;
    lemma_small_mod(p as nat, 0x1_0000_0000_0000_0000);
}

/// The node's power over the interval makes the energies that were read: the memory's and the
/// GPUs' of their own sources, the platform's of its own, and the CPU's of all cores. What is
/// unaccounted for and the components' power make the platform's power.
pub proof fn law_node_power(iv: Interval, s: AttributionSnapshot, now_ns: u64)
    requires
        iv.in_range(),
        iv.is_snapshot(s, now_ns),
        iv.energy.interval_ns >= 1_000_000_000,
    ensures
        s.timestamp_ns == now_ns,
        s.interval_ns == iv.energy.interval_ns,
        s.node.measured.memory_uw * s.interval_ns <= word_sum(iv.energy.dram_energy_uj@)
            * 1_000_000_000 < (s.node.measured.memory_uw + 1) * s.interval_ns,
        s.node.measured.gpu_uw * s.interval_ns <= word_sum(iv.energy.gpu_energy_uj@)
            * 1_000_000_000 < (s.node.measured.gpu_uw + 1) * s.interval_ns,
        s.node.measured.cpu_uw * s.interval_ns <= iv.node_uj() * 1_000_000_000 < (
        s.node.measured.cpu_uw + 1) * s.interval_ns,
        s.idle_power.cpu_uw * s.interval_ns <= (iv.node_uj() - iv.attributed_uj()) * 1_000_000_000
            < (s.idle_power.cpu_uw + 1) * s.interval_ns,
        s.reconciliation.component_sum_uw * s.interval_ns <= (iv.node_uj() + word_sum(
            iv.energy.dram_energy_uj@,
        ) + word_sum(iv.energy.gpu_energy_uj@)) * 1_000_000_000 < (
        s.reconciliation.component_sum_uw + 1) * s.interval_ns,
        s.node.platform_uw is Some <==> iv.energy.platform_energy_uj is Some,
        s.reconciliation.platform_uw == s.node.platform_uw,
        s.node.platform_uw is Some ==> s.node.platform_uw->0 * s.interval_ns
            <= iv.energy.platform_energy_uj->0 * 1_000_000_000 < (s.node.platform_uw->0 + 1)
            * s.interval_ns,
        s.node.platform_uw is Some ==> s.reconciliation.unaccounted_uw
            + s.reconciliation.component_sum_uw == s.node.platform_uw->0,
        s.node.platform_uw is None ==> s.reconciliation.unaccounted_uw == 0
            && s.reconciliation.error_ratio_atto == 0,
        s.node.attributed_total_uw == s.node.measured.cpu_uw,
        s.reconciliation.attributed_sum_uw == s.node.measured.cpu_uw,
{
    let t = iv.energy.interval_ns as int;
    lemma_word_sum_bound(iv.energy.dram_energy_uj@);
    lemma_word_sum_bound(iv.energy.gpu_energy_uj@);
    iv.law_attribution_conserves();
    let (d, g, n, i) = (iv.dram_uj(), iv.gpu_uj(), iv.node_uj(), iv.idle_uj());
    assert(u64::MAX * 1_000_000_000 <= u64::MAX * t) by (nonlinear_arith)
        requires
            1_000_000_000 <= t,
    ;
    lemma_power_held(d, t);
    lemma_power_held(g, t);
    lemma_power_held(n, t);
    lemma_power_held(i, t);
    lemma_power_held(n + d + g, t);
    if let Some(e) = iv.energy.platform_energy_uj {
        lemma_power_held(e as int, t);
    }
}

/// The error ratio is the gap between the platform's energy and the components', either way, by
/// the platform's, in units of 10⁻¹⁸ and rounded up.
pub proof fn law_error_ratio(iv: Interval, s: AttributionSnapshot, now_ns: u64)
    requires
        iv.in_range(),
        iv.is_snapshot(s, now_ns),
        iv.energy.platform_energy_uj is Some,
        iv.energy.platform_energy_uj->0 > 0,
    ensures
        ({
            let platform = iv.energy.platform_energy_uj->0;
            let components = iv.node_uj() + word_sum(iv.energy.dram_energy_uj@) + word_sum(
                iv.energy.gpu_energy_uj@,
            );
            let gap = if components > platform {
                components - platform
            } else {
                platform - components
            };
            let r = s.reconciliation.error_ratio_atto;
            (r - 1) * platform < gap * 1_000_000_000_000_000_000 <= r * platform
        }),
{
    let platform = iv.energy.platform_energy_uj->0;
    lemma_word_sum_bound(iv.energy.dram_energy_uj@);
    lemma_word_sum_bound(iv.energy.gpu_energy_uj@);
    iv.law_attribution_conserves();
    law_ratio_up(iv.gap_uj(), platform as int);
    let (g, p, r) = (iv.gap_uj(), platform as int, ratio_up(iv.gap_uj(), platform as int));
    assert(0 <= r <= u128::MAX) by (nonlinear_arith)
        requires
            (r - 1) * p < g * 1_000_000_000_000_000_000 <= r * p,
            0 <= g <= 0xffff_ffff_ffff_ffff,
            0 < p,
    ;
}

/// A process is listed if and only if it got a part of some core's energy, once.
pub proof fn law_processes_listed(iv: Interval, s: AttributionSnapshot, now_ns: u64, pid: u32)
    requires
        iv.is_snapshot(s, now_ns),
    ensures
        (exists|p: int| 0 <= p < s.processes@.len() && (#[trigger] s.processes@[p]).pid == pid)
            <==> exists|core: int|
            0 <= core < iv.num_cores && iv.active(core as u32) && lookup(
                (#[trigger] iv.details(core as u32)),
                pid,
            ) is Some,
        forall|p: int, q: int|
            0 <= p < q < s.processes@.len() ==> (#[trigger] s.processes@[p]).pid != (
            #[trigger] s.processes@[q]).pid,
        forall|p: int|
            0 <= p < s.processes@.len() ==> (#[trigger] s.processes@[p]).attribution_method
                == iv.model.tag() && s.processes@[p].cgroup_id == (
            if iv.obs.pid_cgroups@.contains_key(s.processes@[p].pid) {
                iv.obs.pid_cgroups@[s.processes@[p].pid]
            } else {
                0
            }),
{
    let pids = s.processes@.map_values(|p: ProcessPower| p.pid);
    assert(entered(iv.energy_ledger(), pid) <==> pids.contains(pid));
    lemma_entered(iv, pid, iv.num_cores as int);
    assert(iv.energy_ledger().take(iv.num_cores as int) =~= iv.energy_ledger());
    if pids.contains(pid) {
        let k = pids.index_of(pid);
        assert(s.processes@[k].pid == pid);
    }
    if exists|p: int| 0 <= p < s.processes@.len() && (#[trigger] s.processes@[p]).pid == pid {
        let p = choose|p: int| 0 <= p < s.processes@.len() && (#[trigger] s.processes@[p]).pid
            == pid;
        assert(pids[p] == pid);
    }
    assert forall|p: int, q: int| 0 <= p < q < s.processes@.len() implies (
    #[trigger] s.processes@[p]).pid != (#[trigger] s.processes@[q]).pid by {
        assert(pids[p] != pids[q]);
    }
}

proof fn lemma_entered(iv: Interval, pid: u32, n: int)
    requires
        0 <= n <= iv.num_cores,
    ensures
        entered(iv.energy_ledger().take(n), pid) <==> exists|core: int|
            0 <= core < n && iv.active(core as u32) && lookup(
                (#[trigger] iv.details(core as u32)),
                pid,
            ) is Some,
    decreases n,
{
    if n > 0 {
        lemma_entered(iv, pid, n - 1);
        let core = (n - 1) as u32;
        assert(iv.energy_ledger().take(n).drop_last() =~= iv.energy_ledger().take(n - 1));
        lemma_same_positions(iv.details(core), iv.energy_row(core), pid);
        lemma_position(iv.details(core), pid);
        let last = iv.energy_ledger().take(n).last();
        assert(last == iv.energy_row(core));
        if has_key(last, pid) {
            assert(lookup(iv.details((n - 1) as u32), pid) is Some);
            assert(iv.active((n - 1) as u32));
        }
        if entered(iv.energy_ledger().take(n - 1), pid) {
            let c = choose|c: int|
                0 <= c < n - 1 && iv.active(c as u32) && lookup(
                    (#[trigger] iv.details(c as u32)),
                    pid,
                ) is Some;
            assert(0 <= c < n && lookup(iv.details(c as u32), pid) is Some);
        }
        if exists|c: int|
            0 <= c < n && iv.active(c as u32) && lookup(
                (#[trigger] iv.details(c as u32)),
                pid,
            ) is Some {
            let c = choose|c: int|
                0 <= c < n && iv.active(c as u32) && lookup(
                    (#[trigger] iv.details(c as u32)),
                    pid,
                ) is Some;
            if c < n - 1 {
                assert(entered(iv.energy_ledger().take(n - 1), pid));
            } else {
                assert(has_key(last, pid));
            }
        }
    } else {
        assert(iv.energy_ledger().take(0) =~= Seq::empty());
    }
}

/// A process's power of memory over the interval makes the memory's energy that falls to it. It has
/// no power of other components.
pub proof fn law_memory_power_of_process(iv: Interval, s: AttributionSnapshot, now_ns: u64, p: int)
    requires
        iv.is_snapshot(s, now_ns),
        0 <= p < s.processes@.len(),
        iv.energy.interval_ns > 0,
        0 <= iv.memory_uj(s.processes@[p].pid) * 1_000_000_000 <= u64::MAX * iv.energy.interval_ns,
    ensures
        s.processes@[p].power.memory_uw * s.interval_ns <= iv.memory_uj(s.processes@[p].pid)
            * 1_000_000_000 < (s.processes@[p].power.memory_uw + 1) * s.interval_ns,
        s.processes@[p].power.gpu_uw == 0,
        s.processes@[p].power.nic_uw == 0,
        s.processes@[p].power.storage_uw == 0,
        s.idle_power.memory_uw == 0,
        s.idle_power.gpu_uw == 0,
        s.pods@.len() == 0,
        s.namespaces@.len() == 0,
{
    let process = s.processes@[p];
    assert(iv.is_process(process));
    lemma_power_held(iv.memory_uj(process.pid), iv.energy.interval_ns as int);
}

/// A core's energy is attributed if it has any and one of the processes that ran on it weighs
/// anything; else all of it counts as idle.
pub proof fn law_active_core(iv: Interval, core: u32)
    ensures
        iv.active(core) ==> iv.core_uj(core) != 0 && exists|i: int|
            0 <= i < observations(iv.obs, core).len() && iv.model.weight(
                #[trigger] observations(iv.obs, core)[i],
                iv.freq(core),
            ) > 0,
        forall|i: int|
            iv.core_uj(core) != 0 && 0 <= i < observations(iv.obs, core).len() && iv.model.weight(
                #[trigger] observations(iv.obs, core)[i],
                iv.freq(core),
            ) > 0 ==> iv.active(core),
        !iv.active(core) ==> iv.details(core).len() == 0,
        iv.active(core) ==> iv.details(core).len() == observations(iv.obs, core).len(),
{
    let obs = observations(iv.obs, core);
    let w = iv.weights(core);
    iv.lemma_weights(core);
    lemma_total_natural(w);
    if total(w) > 0 {
        lemma_some_weight(w);
        let i = choose|i: int| 0 <= i < w.len() && #[trigger] w[i] > 0;
        assert(iv.model.weight(obs[i], iv.freq(core)) > 0);
    }
    assert forall|i: int|
        iv.core_uj(core) != 0 && 0 <= i < obs.len() && iv.model.weight(
            #[trigger] obs[i],
            iv.freq(core),
        ) > 0 implies iv.active(core) by {
        assert(w[i] > 0);
        lemma_total_part(w, i);
    }
}

proof fn lemma_some_weight(w: Seq<int>)
    requires
        total(w) > 0,
    ensures
        exists|i: int| 0 <= i < w.len() && #[trigger] w[i] > 0,
    decreases w.len(),
{
    if w.len() > 0 {
        if w.last() > 0 {
            assert(w[w.len() - 1] > 0);
        } else {
            lemma_some_weight(w.drop_last());
            let i = choose|i: int| 0 <= i < w.drop_last().len() && #[trigger] w.drop_last()[i] > 0;
            assert(w[i] > 0);
        }
    }
}

proof fn lemma_total_part(w: Seq<int>, i: int)
    requires
        all_natural(w),
        0 <= i < w.len(),
    ensures
        w[i] <= total(w),
    decreases w.len(),
{
    let rest = w.drop_last();
    assert(all_natural(rest)) by {
        assert forall|j: int| 0 <= j < rest.len() implies 0 <= #[trigger] rest[j] by {
            assert(0 <= w[j]);
        }
    }
    assert(0 <= w[w.len() - 1]);
    lemma_total_natural(rest);
    if i < w.len() - 1 {
        lemma_total_part(rest, i);
    }
}

/// An engine takes the full model where frequencies and counters were observed, and the one of
/// times alone where neither was; what else it knows stays.
pub proof fn law_upgrade(engine: AttributionEngine, obs: ObservationSnapshot)
    ensures
        engine.upgraded(obs).model.tag() == AttributionMethod::FullModel
            <==> obs.cpu_freq_times@.len() > 0 && obs.core_counters@.len() > 0,
        engine.upgraded(obs).model.tag() == AttributionMethod::CpuTimeRatio
            <==> obs.cpu_freq_times@.len() == 0 && obs.core_counters@.len() == 0,
        engine.upgraded(obs).full == engine.full,
        engine.upgraded(obs).num_cores == engine.num_cores,
        engine.upgraded(obs).cores_per_socket == engine.cores_per_socket,
{
}

} // verus!
