//! Enrichment: maps cgroup IDs to containers, pods and namespaces, and adds process power up to
//! theirs.

use super::group::{
    add_to_group, added, group_index, group_views, groups, in_group, law_group_holds_its_own,
    law_groups_conserve, lemma_group_index, sum_over, sum_over_groups, view_all,
};
use crate::attribution::types::{
    AttributionMethod, AttributionSnapshot, ContainerPower, CoreAttribution, NamespacePower,
    PodPower, PowerBreakdown, ProcessPower,
};
use crate::sums::{lemma_sum_concat, lemma_sum_push, sum_of};
use crate::table::{distinct_keys, enter, get, law_put, lemma_position, lookup, put};
use crate::text::{chars_of, trim, trimmed, whole_text};
use vstd::prelude::*;

verus! {

/// Container metadata.
#[derive(Debug)]
pub struct ContainerInfo {
    pub container_id: String,
    pub container_name: String,
    pub pod_uid: String,
    pub pod_name: String,
    pub namespace: String,
}

/// Maps cgroup IDs to container metadata.
#[derive(Debug)]
pub struct CgroupResolver {
    /// cgroup → container
    pub cgroup_map: Vec<(u64, ContainerInfo)>,
}

impl CgroupResolver {
    pub fn new() -> (r: Self)
        ensures
            r.cgroup_map@.len() == 0,
    {
        CgroupResolver { cgroup_map: Vec::new() }
    }

    /// Updates the cgroup → container mapping from the kubelet: builds a map from cgroup v2 IDs to
    /// the metadata of the containers that its pods list. A container that is no longer listed is
    /// forgotten; of two under one ID the later one counts.
    pub fn refresh(&mut self, listed: Vec<(u64, ContainerInfo)>) -> (r: Result<(), String>)
        ensures
            r is Ok,
            distinct_keys(final(self).cgroup_map@),
            forall|id: u64| #[trigger]
                lookup(final(self).cgroup_map@, id) == lookup(listed@, id),
    {
        let ghost all = listed@;
        let mut map: Vec<(u64, ContainerInfo)> = Vec::new();
        for e in it: listed.into_iter()
            invariant
                it.seq() == all,
                distinct_keys(map@),
                forall|id: u64| #[trigger]
                    lookup(map@, id) == lookup(all.take(it.index() as int), id),
        {
            let ghost before = map@;
            let ghost i = it.index() as int;
            enter(&mut map, e.0, e.1);
            proof {
                assert(all.take(i + 1) =~= all.take(i).push(all[i]));
                lemma_enter(before, all.take(i), all[i]);
            }
        }
        assert(all.take(all.len() as int) =~= all);
        self.cgroup_map = map;
        Ok(())
    }

    /// Looks up container info for a cgroup ID.
    pub fn resolve(&self, cgroup_id: u64) -> (r: Option<&ContainerInfo>)
        ensures
            match r {
                Some(info) => lookup(self.cgroup_map@, cgroup_id) == Some(*info),
                None => lookup(self.cgroup_map@, cgroup_id) is None,
            },
    {
        get(&self.cgroup_map, &cgroup_id)
    }
}

proof fn lemma_enter(
    map: Seq<(u64, ContainerInfo)>,
    listed: Seq<(u64, ContainerInfo)>,
    e: (u64, ContainerInfo),
)
    requires
        distinct_keys(map),
        forall|id: u64| #[trigger] lookup(map, id) == lookup(listed, id),
    ensures
        distinct_keys(put(map, e.0, e.1)),
        forall|id: u64| #[trigger]
            lookup(put(map, e.0, e.1), id) == lookup(listed.push(e), id),
{
    let after = put(map, e.0, e.1);
    law_put(map, e.0, e.1, e.0);
    assert forall|id: u64| #[trigger] lookup(after, id) == lookup(listed.push(e), id) by {
        law_put(map, e.0, e.1, id);
        assert(lookup(map, id) == lookup(listed, id));
        lemma_position(listed, id);
        assert(listed.push(e).drop_last() =~= listed);
    }
}

// ─── Views ──────────────────────────────────────────────────────

/// What a [`ProcessPower`] says.
pub struct ProcessView {
    pub pid: u32,
    pub comm: Seq<char>,
    pub cgroup_id: u64,
    pub power: PowerBreakdown,
    pub core_detail: Seq<CoreAttribution>,
    pub attribution_method: AttributionMethod,
}

impl View for ProcessPower {
    type V = ProcessView;

    open spec fn view(&self) -> ProcessView {
        ProcessView {
            pid: self.pid,
            comm: self.comm@,
            cgroup_id: self.cgroup_id,
            power: self.power,
            core_detail: self.core_detail@,
            attribution_method: self.attribution_method,
        }
    }
}

/// What a [`ContainerPower`] says.
pub struct ContainerView {
    pub container_id: Seq<char>,
    pub name: Seq<char>,
    pub cgroup_id: u64,
    pub power: PowerBreakdown,
    pub processes: Seq<ProcessView>,
}

impl View for ContainerPower {
    type V = ContainerView;

    open spec fn view(&self) -> ContainerView {
        ContainerView {
            container_id: self.container_id@,
            name: self.name@,
            cgroup_id: self.cgroup_id,
            power: self.power,
            processes: view_all(self.processes@),
        }
    }
}

/// What a [`PodPower`] says.
pub struct PodView {
    pub pod_uid: Seq<char>,
    pub name: Seq<char>,
    pub namespace: Seq<char>,
    pub power: PowerBreakdown,
    pub containers: Seq<ContainerView>,
}

impl View for PodPower {
    type V = PodView;

    open spec fn view(&self) -> PodView {
        PodView {
            pod_uid: self.pod_uid@,
            name: self.name@,
            namespace: self.namespace@,
            power: self.power,
            containers: view_all(self.containers@),
        }
    }
}

/// What a [`NamespacePower`] says.
pub struct NamespaceView {
    pub namespace: Seq<char>,
    pub power: PowerBreakdown,
    pub pod_count: int,
}

impl View for NamespacePower {
    type V = NamespaceView;

    open spec fn view(&self) -> NamespaceView {
        NamespaceView {
            namespace: self.namespace@,
            power: self.power,
            pod_count: self.pod_count as int,
        }
    }
}

// ─── Sums ───────────────────────────────────────────────────────

/// Sums of power by component.
pub struct PowerTotals {
    pub cpu: int,
    pub memory: int,
    pub gpu: int,
    pub nic: int,
    pub storage: int,
}

/// The sums of power breakdowns.
pub open spec fn totals(items: Seq<PowerBreakdown>) -> PowerTotals
    decreases items.len(),
{
    if items.len() == 0 {
        PowerTotals { cpu: 0, memory: 0, gpu: 0, nic: 0, storage: 0 }
    } else {
        let t = totals(items.drop_last());
        let p = items.last();
        PowerTotals {
            cpu: t.cpu + p.cpu_uw,
            memory: t.memory + p.memory_uw,
            gpu: t.gpu + p.gpu_uw,
            nic: t.nic + p.nic_uw,
            storage: t.storage + p.storage_uw,
        }
    }
}

impl PowerTotals {
    /// Whether the sums can be held.
    pub open spec fn fit(self) -> bool {
        self.cpu <= u64::MAX && self.memory <= u64::MAX && self.gpu <= u64::MAX && self.nic
            <= u64::MAX && self.storage <= u64::MAX
    }

    pub open spec fn breakdown(self) -> PowerBreakdown {
        PowerBreakdown {
            cpu_uw: self.cpu as u64,
            memory_uw: self.memory as u64,
            gpu_uw: self.gpu as u64,
            nic_uw: self.nic as u64,
            storage_uw: self.storage as u64,
        }
    }
}

proof fn lemma_totals(items: Seq<PowerBreakdown>, n: int)
    requires
        0 <= n <= items.len(),
    ensures
        0 <= totals(items.take(n)).cpu <= totals(items).cpu,
        0 <= totals(items.take(n)).memory <= totals(items).memory,
        0 <= totals(items.take(n)).gpu <= totals(items).gpu,
        0 <= totals(items.take(n)).nic <= totals(items).nic,
        0 <= totals(items.take(n)).storage <= totals(items).storage,
    decreases items.len(),
{
    if n == items.len() {
        assert(items.take(n) =~= items);
        if n > 0 {
            lemma_totals(items.drop_last(), n - 1);
            assert(items.drop_last().take(n - 1) =~= items.drop_last());
        }
    } else {
        lemma_totals(items.drop_last(), n);
        assert(items.drop_last().take(n) =~= items.take(n));
    }
}

/// Adds power breakdowns up.
pub fn aggregate_power(items: &Vec<PowerBreakdown>) -> (r: PowerBreakdown)
    requires
        totals(items@).fit(),
    ensures
        r == totals(items@).breakdown(),
{
    let mut total: PowerBreakdown = PowerBreakdown::default();
    let mut i: usize = 0;
    while i < items.len()
        invariant
            i <= items@.len(),
            totals(items@).fit(),
            total.cpu_uw == totals(items@.take(i as int)).cpu,
            total.memory_uw == totals(items@.take(i as int)).memory,
            total.gpu_uw == totals(items@.take(i as int)).gpu,
            total.nic_uw == totals(items@.take(i as int)).nic,
            total.storage_uw == totals(items@.take(i as int)).storage,
        decreases items@.len() - i,
    {
        assert(items@.take(i + 1).drop_last() =~= items@.take(i as int));
        proof {
            lemma_totals(items@, i + 1);
        }
        let p: PowerBreakdown = items[i];
        total.cpu_uw = total.cpu_uw + p.cpu_uw;
        total.memory_uw = total.memory_uw + p.memory_uw;
        total.gpu_uw = total.gpu_uw + p.gpu_uw;
        total.nic_uw = total.nic_uw + p.nic_uw;
        total.storage_uw = total.storage_uw + p.storage_uw;
        i = i + 1;
    }
    assert(items@.take(i as int) =~= items@);
    total
}

// ─── Levels ─────────────────────────────────────────────────────

/// The name of a process: the text of its name file, if it could be read.
pub open spec fn comm_of(comms: Seq<(u32, String)>, pid: u32) -> Seq<char> {
    match lookup(comms, pid) {
        Some(text) => trimmed(text@),
        None => Seq::empty(),
    }
}

/// A process with its name.
pub open spec fn with_comm(p: ProcessView, comms: Seq<(u32, String)>) -> ProcessView {
    ProcessView { comm: comm_of(comms, p.pid), ..p }
}

/// The processes, among the first `n`, that run in containers, each with its container's ID.
pub open spec fn contained(
    ps: Seq<ProcessPower>,
    r: CgroupResolver,
    comms: Seq<(u32, String)>,
    n: int,
) -> Seq<(Seq<char>, ProcessView)>
    decreases n,
{
    if n <= 0 {
        Seq::empty()
    } else {
        let before = contained(ps, r, comms, n - 1);
        match lookup(r.cgroup_map@, ps[n - 1].cgroup_id) {
            Some(info) => before.push((info.container_id@, with_comm(ps[n - 1]@, comms))),
            None => before,
        }
    }
}

/// The processes, among the first `n`, that run in no container.
pub open spec fn uncontained(
    ps: Seq<ProcessPower>,
    r: CgroupResolver,
    comms: Seq<(u32, String)>,
    n: int,
) -> Seq<ProcessView>
    decreases n,
{
    if n <= 0 {
        Seq::empty()
    } else {
        let before = uncontained(ps, r, comms, n - 1);
        match lookup(r.cgroup_map@, ps[n - 1].cgroup_id) {
            Some(info) => before,
            None => before.push(with_comm(ps[n - 1]@, comms)),
        }
    }
}

/// What is known of a cgroup that is known.
pub open spec fn info_of(r: CgroupResolver, cgroup_id: u64) -> ContainerInfo {
    lookup(r.cgroup_map@, cgroup_id)->0
}

/// The power of a container: that of its processes. Its name is what its first process's cgroup
/// tells.
pub open spec fn container_of(g: (Seq<char>, Seq<ProcessView>), r: CgroupResolver) -> ContainerView {
    ContainerView {
        container_id: g.0,
        name: info_of(r, g.1[0].cgroup_id).container_name@,
        cgroup_id: g.1[0].cgroup_id,
        power: totals(g.1.map_values(|p: ProcessView| p.power)).breakdown(),
        processes: g.1,
    }
}

/// The containers of groups of processes, each with its pod's UID.
pub open spec fn containers_of(g: Seq<(Seq<char>, Seq<ProcessView>)>, r: CgroupResolver) -> Seq<
    (Seq<char>, ContainerView),
> {
    g.map_values(
        |e: (Seq<char>, Seq<ProcessView>)|
            (info_of(r, e.1[0].cgroup_id).pod_uid@, container_of(e, r)),
    )
}

/// The power of a pod: that of its containers. Its name is what its first container's cgroup
/// tells.
pub open spec fn pod_of(g: (Seq<char>, Seq<ContainerView>), r: CgroupResolver) -> PodView {
    let info = info_of(r, g.1[0].cgroup_id);
    PodView {
        pod_uid: g.0,
        name: info.pod_name@,
        namespace: info.namespace@,
        power: totals(g.1.map_values(|c: ContainerView| c.power)).breakdown(),
        containers: g.1,
    }
}

/// The pods of groups of containers, each with its namespace.
pub open spec fn pods_of(g: Seq<(Seq<char>, Seq<ContainerView>)>, r: CgroupResolver) -> Seq<
    (Seq<char>, PodView),
> {
    g.map_values(
        |e: (Seq<char>, Seq<ContainerView>)|
            (info_of(r, e.1[0].cgroup_id).namespace@, pod_of(e, r)),
    )
}

/// The power of a namespace: that of its pods.
pub open spec fn namespace_of(g: (Seq<char>, Seq<PodView>)) -> NamespaceView {
    NamespaceView {
        namespace: g.0,
        power: totals(g.1.map_values(|p: PodView| p.power)).breakdown(),
        pod_count: g.1.len() as int,
    }
}

/// All pods, namespace by namespace.
pub open spec fn all_pods(g: Seq<(Seq<char>, Seq<PodView>)>) -> Seq<PodView>
    decreases g.len(),
{
    if g.len() == 0 {
        Seq::empty()
    } else {
        all_pods(g.drop_last()) + g.last().1
    }
}

/// The processes of a snapshot, grouped by container.
pub open spec fn process_groups(
    ps: Seq<ProcessPower>,
    r: CgroupResolver,
    comms: Seq<(u32, String)>,
) -> Seq<(Seq<char>, Seq<ProcessView>)> {
    groups(contained(ps, r, comms, ps.len() as int))
}

/// The containers of a snapshot, grouped by pod.
pub open spec fn container_groups(
    ps: Seq<ProcessPower>,
    r: CgroupResolver,
    comms: Seq<(u32, String)>,
) -> Seq<(Seq<char>, Seq<ContainerView>)> {
    groups(containers_of(process_groups(ps, r, comms), r))
}

/// The pods of a snapshot, grouped by namespace.
pub open spec fn pod_groups(
    ps: Seq<ProcessPower>,
    r: CgroupResolver,
    comms: Seq<(u32, String)>,
) -> Seq<(Seq<char>, Seq<PodView>)> {
    groups(pods_of(container_groups(ps, r, comms), r))
}

/// Whether the sums on all levels can be held.
pub open spec fn sums_fit(
    ps: Seq<ProcessPower>,
    r: CgroupResolver,
    comms: Seq<(u32, String)>,
) -> bool {
    &&& forall|i: int|
        0 <= i < process_groups(ps, r, comms).len() ==> totals(
            (#[trigger] process_groups(ps, r, comms)[i]).1.map_values(|p: ProcessView| p.power),
        ).fit()
    &&& forall|i: int|
        0 <= i < container_groups(ps, r, comms).len() ==> totals(
            (#[trigger] container_groups(ps, r, comms)[i]).1.map_values(
                |c: ContainerView| c.power,
            ),
        ).fit()
    &&& forall|i: int|
        0 <= i < pod_groups(ps, r, comms).len() ==> totals(
            (#[trigger] pod_groups(ps, r, comms)[i]).1.map_values(|p: PodView| p.power),
        ).fit()
}

fn read_comm(comms: &Vec<(u32, String)>, pid: u32) -> (r: String)
    ensures
        r@ == comm_of(comms@, pid),
{
    match get(comms, &pid) {
        Some(text) => whole_text(&trim(&chars_of(text.as_str()))),
        None => String::new(),
    }
}

fn process_powers(v: &Vec<ProcessPower>) -> (r: Vec<PowerBreakdown>)
    ensures
        r@ == view_all(v@).map_values(|p: ProcessView| p.power),
{
    let mut r: Vec<PowerBreakdown> = Vec::new();
    let ghost all = view_all(v@).map_values(|p: ProcessView| p.power);
    for x in it: v.iter()
        invariant
            all == view_all(v@).map_values(|p: ProcessView| p.power),
            it.seq().len() == v@.len(),
            forall|i: int| 0 <= i < v@.len() ==> *(#[trigger] it.seq()[i]) == v@[i],
            r@ == all.take(it.index() as int),
    {
        r.push(x.power);
        assert(r@ =~= all.take(it.index() + 1));
    }
    assert(r@ =~= all);
    r
}

fn container_powers(v: &Vec<ContainerPower>) -> (r: Vec<PowerBreakdown>)
    ensures
        r@ == view_all(v@).map_values(|c: ContainerView| c.power),
{
    let mut r: Vec<PowerBreakdown> = Vec::new();
    let ghost all = view_all(v@).map_values(|c: ContainerView| c.power);
    for x in it: v.iter()
        invariant
            all == view_all(v@).map_values(|c: ContainerView| c.power),
            it.seq().len() == v@.len(),
            forall|i: int| 0 <= i < v@.len() ==> *(#[trigger] it.seq()[i]) == v@[i],
            r@ == all.take(it.index() as int),
    {
        r.push(x.power);
        assert(r@ =~= all.take(it.index() + 1));
    }
    assert(r@ =~= all);
    r
}

fn pod_powers(v: &Vec<PodPower>) -> (r: Vec<PowerBreakdown>)
    ensures
        r@ == view_all(v@).map_values(|p: PodView| p.power),
{
    let mut r: Vec<PowerBreakdown> = Vec::new();
    let ghost all = view_all(v@).map_values(|p: PodView| p.power);
    for x in it: v.iter()
        invariant
            all == view_all(v@).map_values(|p: PodView| p.power),
            it.seq().len() == v@.len(),
            forall|i: int| 0 <= i < v@.len() ==> *(#[trigger] it.seq()[i]) == v@[i],
            r@ == all.take(it.index() as int),
    {
        r.push(x.power);
        assert(r@ =~= all.take(it.index() + 1));
    }
    assert(r@ =~= all);
    r
}

/// Whether the first process of every group runs in a known cgroup.
spec fn processes_known(g: Seq<(Seq<char>, Seq<ProcessView>)>, r: CgroupResolver) -> bool {
    forall|i: int|
        0 <= i < g.len() ==> (#[trigger] g[i]).1.len() > 0 && lookup(
            r.cgroup_map@,
            g[i].1[0].cgroup_id,
        ) is Some
}

/// Whether the first container of every group has a known cgroup.
spec fn containers_known(g: Seq<(Seq<char>, Seq<ContainerView>)>, r: CgroupResolver) -> bool {
    forall|i: int|
        0 <= i < g.len() ==> (#[trigger] g[i]).1.len() > 0 && lookup(
            r.cgroup_map@,
            g[i].1[0].cgroup_id,
        ) is Some
}

proof fn lemma_processes_known(
    g: Seq<(Seq<char>, Seq<ProcessView>)>,
    r: CgroupResolver,
    k: Seq<char>,
    p: ProcessView,
)
    requires
        processes_known(g, r),
        lookup(r.cgroup_map@, p.cgroup_id) is Some,
    ensures
        processes_known(added(g, k, p), r),
{
    super::group::lemma_group_index(g, k);
    let a = added(g, k, p);
    let n = super::group::group_index(g, k);
    assert forall|i: int| 0 <= i < a.len() implies (#[trigger] a[i]).1.len() > 0 && lookup(
        r.cgroup_map@,
        a[i].1[0].cgroup_id,
    ) is Some by {
        if i < g.len() {
            assert(g[i].1.len() > 0);
            if i == n {
                assert(a[i].1[0] == g[i].1[0]);
            }
        }
    }
}

proof fn lemma_containers_known(
    g: Seq<(Seq<char>, Seq<ContainerView>)>,
    r: CgroupResolver,
    k: Seq<char>,
    c: ContainerView,
)
    requires
        containers_known(g, r),
        lookup(r.cgroup_map@, c.cgroup_id) is Some,
    ensures
        containers_known(added(g, k, c), r),
{
    super::group::lemma_group_index(g, k);
    let a = added(g, k, c);
    let n = super::group::group_index(g, k);
    assert forall|i: int| 0 <= i < a.len() implies (#[trigger] a[i]).1.len() > 0 && lookup(
        r.cgroup_map@,
        a[i].1[0].cgroup_id,
    ) is Some by {
        if i < g.len() {
            assert(g[i].1.len() > 0);
            if i == n {
                assert(a[i].1[0] == g[i].1[0]);
            }
        }
    }
}

/// Groups processes by container, and sets apart those that run in none.
fn group_processes(
    processes: Vec<ProcessPower>,
    resolver: &CgroupResolver,
    comms: &Vec<(u32, String)>,
) -> (r: (Vec<(String, Vec<ProcessPower>)>, Vec<ProcessPower>))
    ensures
        group_views(r.0@) == process_groups(processes@, *resolver, comms@),
        processes_known(group_views(r.0@), *resolver),
        view_all(r.1@) == uncontained(
            processes@,
            *resolver,
            comms@,
            processes@.len() as int,
        ),
{
    let ghost all = processes@;
    let mut found: Vec<(String, Vec<ProcessPower>)> = Vec::new();
    let mut rest: Vec<ProcessPower> = Vec::new();
    assert(group_views(found@) =~= groups(contained(all, *resolver, comms@, 0)));
    assert(view_all(rest@) =~= uncontained(all, *resolver, comms@, 0));
    for p in it: processes.into_iter()
        invariant
            it.seq() == all,
            group_views(found@) == groups(
                contained(all, *resolver, comms@, it.index() as int),
            ),
            processes_known(group_views(found@), *resolver),
            view_all(rest@) == uncontained(all, *resolver, comms@, it.index() as int),
    {
        let ghost i = it.index() as int;
        assert(p == all[i]);
        let comm: String = read_comm(comms, p.pid);
        let renamed: ProcessPower = ProcessPower {
            pid: p.pid,
            comm,
            cgroup_id: p.cgroup_id,
            power: p.power,
            core_detail: p.core_detail,
            attribution_method: p.attribution_method,
        };
        assert(renamed@ == with_comm(all[i]@, comms@));
        let ghost before = contained(all, *resolver, comms@, i);
        match resolver.resolve(renamed.cgroup_id) {
            Some(info) => {
                proof {
                    let next = contained(all, *resolver, comms@, i + 1);
                    assert(next.drop_last() =~= before);
                    lemma_processes_known(
                        group_views(found@),
                        *resolver,
                        info.container_id@,
                        renamed@,
                    );
                }
                add_to_group(&mut found, info.container_id.as_str(), renamed);
            },
            None => {
                let ghost old_rest = view_all(rest@);
                rest.push(renamed);
                assert(view_all(rest@) =~= old_rest.push(renamed@));
            },
        }
    }
    (found, rest)
}

/// Makes containers of groups of processes, and groups them by pod.
fn group_containers(
    found: Vec<(String, Vec<ProcessPower>)>,
    resolver: &CgroupResolver,
) -> (r: Vec<(String, Vec<ContainerPower>)>)
    requires
        processes_known(group_views(found@), *resolver),
        forall|i: int|
            0 <= i < group_views(found@).len() ==> totals(
                (#[trigger] group_views(found@)[i]).1.map_values(|p: ProcessView| p.power),
            ).fit(),
    ensures
        group_views(r@) == groups(containers_of(group_views(found@), *resolver)),
        containers_known(group_views(r@), *resolver),
{
    let ghost all = group_views(found@);
    let ghost target = containers_of(all, *resolver);
    let ghost given = found@;
    let mut r: Vec<(String, Vec<ContainerPower>)> = Vec::new();
    assert(group_views(r@) =~= groups(target.take(0)));
    for g in it: found.into_iter()
        invariant
            it.seq() == given,
            all == group_views(given),
            target == containers_of(all, *resolver),
            processes_known(all, *resolver),
            forall|i: int|
                0 <= i < all.len() ==> totals(
                    (#[trigger] all[i]).1.map_values(|p: ProcessView| p.power),
                ).fit(),
            group_views(r@) == groups(target.take(it.index() as int)),
            containers_known(group_views(r@), *resolver),
    {
        let ghost i = it.index() as int;
        assert(all[i] == (g.0@, view_all(g.1@)));
        assert(totals(all[i].1.map_values(|p: ProcessView| p.power)).fit());
        let (container_id, processes): (String, Vec<ProcessPower>) = g;
        assert(view_all(processes@)[0] == processes@[0]@);
        let cgroup_id: u64 = processes[0].cgroup_id;
        let known: Option<&ContainerInfo> = resolver.resolve(cgroup_id);
        let info: &ContainerInfo = known.unwrap();
        let power: PowerBreakdown = aggregate_power(&process_powers(&processes));
        let container: ContainerPower = ContainerPower {
            container_id,
            name: info.container_name.clone(),
            cgroup_id,
            power,
            processes,
        };
        proof {
            assert(container@ == container_of(all[i], *resolver));
            assert(target.take(i + 1).drop_last() =~= target.take(i));
            lemma_containers_known(group_views(r@), *resolver, info.pod_uid@, container@);
        }
        add_to_group(&mut r, info.pod_uid.as_str(), container);
    }
    assert(target.take(target.len() as int) =~= target);
    r
}

/// Makes pods of groups of containers, and groups them by namespace.
fn group_pods(found: Vec<(String, Vec<ContainerPower>)>, resolver: &CgroupResolver) -> (r: Vec<
    (String, Vec<PodPower>),
>)
    requires
        containers_known(group_views(found@), *resolver),
        forall|i: int|
            0 <= i < group_views(found@).len() ==> totals(
                (#[trigger] group_views(found@)[i]).1.map_values(|c: ContainerView| c.power),
            ).fit(),
    ensures
        group_views(r@) == groups(pods_of(group_views(found@), *resolver)),
{
    let ghost all = group_views(found@);
    let ghost target = pods_of(all, *resolver);
    let ghost given = found@;
    let mut r: Vec<(String, Vec<PodPower>)> = Vec::new();
    assert(group_views(r@) =~= groups(target.take(0)));
    for g in it: found.into_iter()
        invariant
            it.seq() == given,
            all == group_views(given),
            target == pods_of(all, *resolver),
            containers_known(all, *resolver),
            forall|i: int|
                0 <= i < all.len() ==> totals(
                    (#[trigger] all[i]).1.map_values(|c: ContainerView| c.power),
                ).fit(),
            group_views(r@) == groups(target.take(it.index() as int)),
    {
        let ghost i = it.index() as int;
        assert(all[i] == (g.0@, view_all(g.1@)));
        assert(totals(all[i].1.map_values(|c: ContainerView| c.power)).fit());
        let (pod_uid, containers): (String, Vec<ContainerPower>) = g;
        assert(view_all(containers@)[0] == containers@[0]@);
        let known: Option<&ContainerInfo> = resolver.resolve(containers[0].cgroup_id);
        let info: &ContainerInfo = known.unwrap();
        let power: PowerBreakdown = aggregate_power(&container_powers(&containers));
        let pod: PodPower = PodPower {
            pod_uid,
            name: info.pod_name.clone(),
            namespace: info.namespace.clone(),
            power,
            containers,
        };
        proof {
            assert(pod@ == pod_of(all[i], *resolver));
            assert(target.take(i + 1).drop_last() =~= target.take(i));
        }
        add_to_group(&mut r, info.namespace.as_str(), pod);
    }
    assert(target.take(target.len() as int) =~= target);
    r
}

/// Enriches an attribution snapshot: resolves processes to containers by their cgroups, names
/// them, and adds process power up to containers, pods and namespaces. Processes that run in no
/// container stay on their own.
pub fn enrich(
    snapshot: &mut AttributionSnapshot,
    resolver: &CgroupResolver,
    comms: &Vec<(u32, String)>,
)
    requires
        sums_fit(old(snapshot).processes@, *resolver, comms@),
    ensures
        view_all(final(snapshot).processes@) == uncontained(
            old(snapshot).processes@,
            *resolver,
            comms@,
            old(snapshot).processes@.len() as int,
        ),
        view_all(final(snapshot).pods@) == all_pods(
            pod_groups(old(snapshot).processes@, *resolver, comms@),
        ),
        view_all(final(snapshot).namespaces@) == pod_groups(
            old(snapshot).processes@,
            *resolver,
            comms@,
        ).map_values(|g: (Seq<char>, Seq<PodView>)| namespace_of(g)),
        final(snapshot).timestamp_ns == old(snapshot).timestamp_ns,
        final(snapshot).interval_ns == old(snapshot).interval_ns,
        final(snapshot).node == old(snapshot).node,
        final(snapshot).idle_power == old(snapshot).idle_power,
        final(snapshot).reconciliation == old(snapshot).reconciliation,
{
    let ghost ps = snapshot.processes@;
    let mut processes: Vec<ProcessPower> = Vec::new();
    processes.append(&mut snapshot.processes);
    assert(processes@ =~= ps);
    let (by_container, rest) = group_processes(processes, resolver, comms);
    let by_pod: Vec<(String, Vec<ContainerPower>)> = group_containers(by_container, resolver);
    assert(group_views(by_pod@) == container_groups(ps, *resolver, comms@));
    let by_namespace: Vec<(String, Vec<PodPower>)> = group_pods(by_pod, resolver);
    let ghost all = group_views(by_namespace@);
    assert(all == pod_groups(ps, *resolver, comms@));
    let ghost given = by_namespace@;
    let ghost target = all.map_values(|g: (Seq<char>, Seq<PodView>)| namespace_of(g));
    let mut namespaces: Vec<NamespacePower> = Vec::new();
    let mut pods: Vec<PodPower> = Vec::new();
    assert(view_all(pods@) =~= all_pods(all.take(0)));
    for g in it: by_namespace.into_iter()
        invariant
            it.seq() == given,
            all == group_views(given),
            all == pod_groups(ps, *resolver, comms@),
            sums_fit(ps, *resolver, comms@),
            target == all.map_values(|g: (Seq<char>, Seq<PodView>)| namespace_of(g)),
            view_all(namespaces@) == target.take(it.index() as int),
            view_all(pods@) == all_pods(all.take(it.index() as int)),
    {
        let ghost i = it.index() as int;
        assert(all[i] == (g.0@, view_all(g.1@)));
        assert(totals(
            pod_groups(ps, *resolver, comms@)[i].1.map_values(|p: PodView| p.power),
        ).fit());
        let (namespace, mut members): (String, Vec<PodPower>) = g;
        let power: PowerBreakdown = aggregate_power(&pod_powers(&members));
        let pod_count: usize = members.len();
        let ns: NamespacePower = NamespacePower { namespace, power, pod_count };
        assert(ns@ == target[i]);
        let ghost before = view_all(namespaces@);
        let ghost pods0 = view_all(pods@);
        let ghost members0 = members@;
        namespaces.push(ns);
        pods.append(&mut members);
        proof {
            assert(view_all(namespaces@) =~= before.push(ns@));
            assert(target.take(i + 1) =~= target.take(i).push(target[i]));
            assert(all.take(i + 1).drop_last() =~= all.take(i));
            assert(view_all(pods@) =~= pods0 + view_all(members0));
        }
    }
    proof {
        assert(target.take(target.len() as int) =~= target);
        assert(all.take(all.len() as int) =~= all);
    }
    snapshot.processes = rest;
    snapshot.pods = pods;
    snapshot.namespaces = namespaces;
}

// ─── Conservation ───────────────────────────────────────────────

/// The components that power is broken down by.
#[derive(Clone, Copy, Debug, PartialEq, Eq, Structural)]
pub enum Part {
    Cpu,
    Memory,
    Gpu,
    Nic,
    Storage,
}

/// One component of a power breakdown.
pub open spec fn part_of(p: PowerBreakdown, c: Part) -> int {
    match c {
        Part::Cpu => p.cpu_uw as int,
        Part::Memory => p.memory_uw as int,
        Part::Gpu => p.gpu_uw as int,
        Part::Nic => p.nic_uw as int,
        Part::Storage => p.storage_uw as int,
    }
}

proof fn lemma_part_of_totals<T>(
    items: Seq<T>,
    power: spec_fn(T) -> PowerBreakdown,
    c: Part,
)
    requires
        totals(items.map_values(power)).fit(),
    ensures
        part_of(totals(items.map_values(power)).breakdown(), c) == sum_over(
            items,
            |t: T| part_of(power(t), c),
        ),
    decreases items.len(),
{
    let all = items.map_values(power);
    if items.len() > 0 {
        assert(items.drop_last().map_values(power) =~= all.drop_last());
        lemma_totals(all, items.len() - 1);
        assert(all.take(items.len() - 1) =~= all.drop_last());
        lemma_part_of_totals(items.drop_last(), power, c);
        lemma_totals(all.drop_last(), 0);
    }
}

proof fn lemma_container_level(
    g: Seq<(Seq<char>, Seq<ProcessView>)>,
    r: CgroupResolver,
    c: Part,
)
    requires
        forall|i: int|
            0 <= i < g.len() ==> totals(
                (#[trigger] g[i]).1.map_values(|p: ProcessView| p.power),
            ).fit(),
    ensures
        sum_over(
            containers_of(g, r),
            |e: (Seq<char>, ContainerView)| part_of(e.1.power, c),
        ) == sum_over_groups(g, |p: ProcessView| part_of(p.power, c)),
    decreases g.len(),
{
    let f = |e: (Seq<char>, ContainerView)| part_of(e.1.power, c);
    let h = |p: ProcessView| part_of(p.power, c);
    let list = containers_of(g, r);
    if g.len() > 0 {
        assert forall|i: int| 0 <= i < g.drop_last().len() implies totals(
            (#[trigger] g.drop_last()[i]).1.map_values(|p: ProcessView| p.power),
        ).fit() by {
            assert(g.drop_last()[i] == g[i]);
        }
        lemma_container_level(g.drop_last(), r, c);
        assert(list.drop_last() =~= containers_of(g.drop_last(), r));
        let last = g[g.len() - 1];
        let power = |p: ProcessView| p.power;
        assert(totals(last.1.map_values(power)).fit());
        lemma_part_of_totals(last.1, power, c);
        let k = |t: ProcessView| part_of(power(t), c);
        assert forall|t: ProcessView| #[trigger] k(t) == h(t) by {}
        lemma_sum_same(last.1, k, h);
    }
}

proof fn lemma_pod_level(g: Seq<(Seq<char>, Seq<ContainerView>)>, r: CgroupResolver, c: Part)
    requires
        forall|i: int|
            0 <= i < g.len() ==> totals(
                (#[trigger] g[i]).1.map_values(|p: ContainerView| p.power),
            ).fit(),
    ensures
        sum_over(
            pods_of(g, r),
            |e: (Seq<char>, PodView)| part_of(e.1.power, c),
        ) == sum_over_groups(g, |p: ContainerView| part_of(p.power, c)),
    decreases g.len(),
{
    let f = |e: (Seq<char>, PodView)| part_of(e.1.power, c);
    let h = |p: ContainerView| part_of(p.power, c);
    let list = pods_of(g, r);
    if g.len() > 0 {
        assert forall|i: int| 0 <= i < g.drop_last().len() implies totals(
            (#[trigger] g.drop_last()[i]).1.map_values(|p: ContainerView| p.power),
        ).fit() by {
            assert(g.drop_last()[i] == g[i]);
        }
        lemma_pod_level(g.drop_last(), r, c);
        assert(list.drop_last() =~= pods_of(g.drop_last(), r));
        let last = g[g.len() - 1];
        let power = |p: ContainerView| p.power;
        assert(totals(last.1.map_values(power)).fit());
        lemma_part_of_totals(last.1, power, c);
        let k = |t: ContainerView| part_of(power(t), c);
        assert forall|t: ContainerView| #[trigger] k(t) == h(t) by {}
        lemma_sum_same(last.1, k, h);
    }
}

proof fn lemma_namespace_level(g: Seq<(Seq<char>, Seq<PodView>)>, c: Part)
    requires
        forall|i: int|
            0 <= i < g.len() ==> totals(
                (#[trigger] g[i]).1.map_values(|p: PodView| p.power),
            ).fit(),
    ensures
        sum_over(
            g.map_values(|e: (Seq<char>, Seq<PodView>)| namespace_of(e)),
            |n: NamespaceView| part_of(n.power, c),
        ) == sum_over_groups(g, |p: PodView| part_of(p.power, c)),
    decreases g.len(),
{
    let f = |n: NamespaceView| part_of(n.power, c);
    let h = |p: PodView| part_of(p.power, c);
    let m = |e: (Seq<char>, Seq<PodView>)| namespace_of(e);
    let list = g.map_values(m);
    if g.len() > 0 {
        assert forall|i: int| 0 <= i < g.drop_last().len() implies totals(
            (#[trigger] g.drop_last()[i]).1.map_values(|p: PodView| p.power),
        ).fit() by {
            assert(g.drop_last()[i] == g[i]);
        }
        lemma_namespace_level(g.drop_last(), c);
        assert(list.drop_last() =~= g.drop_last().map_values(m));
        let last = g[g.len() - 1];
        let power = |p: PodView| p.power;
        assert(totals(last.1.map_values(power)).fit());
        lemma_part_of_totals(last.1, power, c);
        let k = |t: PodView| part_of(power(t), c);
        assert forall|t: PodView| #[trigger] k(t) == h(t) by {}
        lemma_sum_same(last.1, k, h);
    }
}

proof fn lemma_sum_same<T>(items: Seq<T>, f: spec_fn(T) -> int, h: spec_fn(T) -> int)
    requires
        forall|t: T| #[trigger] f(t) == h(t),
    ensures
        sum_over(items, f) == sum_over(items, h),
    decreases items.len(),
{
    if items.len() > 0 {
        lemma_sum_same(items.drop_last(), f, h);
        assert(f(items.last()) == h(items.last()));
    }
}

/// Enrichment conserves power: for each component, what all namespaces draw is what all processes
/// that run in containers draw.
pub proof fn law_enrich_conserves(
    ps: Seq<ProcessPower>,
    r: CgroupResolver,
    comms: Seq<(u32, String)>,
    c: Part,
)
    requires
        sums_fit(ps, r, comms),
    ensures
        sum_over(
            pod_groups(ps, r, comms).map_values(
                |g: (Seq<char>, Seq<PodView>)| namespace_of(g),
            ),
            |n: NamespaceView| part_of(n.power, c),
        ) == sum_over(
            contained(ps, r, comms, ps.len() as int),
            |e: (Seq<char>, ProcessView)| part_of(e.1.power, c),
        ),
{
    let f1 = |p: ProcessView| part_of(p.power, c);
    let f2 = |p: ContainerView| part_of(p.power, c);
    let f3 = |p: PodView| part_of(p.power, c);
    let list = contained(ps, r, comms, ps.len() as int);
    law_groups_conserve(list, f1);
    let containers = containers_of(process_groups(ps, r, comms), r);
    lemma_container_level(process_groups(ps, r, comms), r, c);
    law_groups_conserve(containers, f2);
    let pods = pods_of(container_groups(ps, r, comms), r);
    lemma_pod_level(container_groups(ps, r, comms), r, c);
    law_groups_conserve(pods, f3);
    lemma_namespace_level(pod_groups(ps, r, comms), c);
    let a1 = |e: (Seq<char>, ProcessView)| f1(e.1);
    let b1 = |e: (Seq<char>, ProcessView)| part_of(e.1.power, c);
    lemma_sum_same(list, a1, b1);
    let a2 = |e: (Seq<char>, ContainerView)| f2(e.1);
    let b2 = |e: (Seq<char>, ContainerView)| part_of(e.1.power, c);
    lemma_sum_same(containers, a2, b2);
    let a3 = |e: (Seq<char>, PodView)| f3(e.1);
    let b3 = |e: (Seq<char>, PodView)| part_of(e.1.power, c);
    lemma_sum_same(pods, a3, b3);
}

// ─── Whose power it is ──────────────────────────────────────────

/// What a process draws, by a part of power, in a container.
pub open spec fn drawn_in(
    r: CgroupResolver,
    container_id: Seq<char>,
    part: spec_fn(PowerBreakdown) -> int,
) -> spec_fn(ProcessPower) -> int {
    |p: ProcessPower|
        match lookup(r.cgroup_map@, p.cgroup_id) {
            Some(info) => if info.container_id@ == container_id {
                part(p.power)
            } else {
                0
            },
            None => 0,
        }
}

proof fn lemma_drawn_in(
    ps: Seq<ProcessPower>,
    r: CgroupResolver,
    comms: Seq<(u32, String)>,
    n: int,
    id: Seq<char>,
    part: spec_fn(PowerBreakdown) -> int,
    f: spec_fn(ProcessView) -> int,
)
    requires
        0 <= n <= ps.len(),
        forall|v: ProcessView| #[trigger] f(v) == part(v.power),
    ensures
        sum_of(contained(ps, r, comms, n), in_group(id, f)) == sum_of(
            ps.take(n),
            drawn_in(r, id, part),
        ),
    decreases n,
{
    if n > 0 {
        lemma_drawn_in(ps, r, comms, n - 1, id, part, f);
        assert(ps.take(n).drop_last() =~= ps.take(n - 1));
        assert(ps.take(n).last() == ps[n - 1]);
        if let Some(info) = lookup(r.cgroup_map@, ps[n - 1].cgroup_id) {
            let e = (info.container_id@, with_comm(ps[n - 1]@, comms));
            lemma_sum_push(contained(ps, r, comms, n - 1), e, in_group(id, f));
            assert(f(e.1) == part(e.1.power));
        }
    } else {
        assert(ps.take(0) =~= Seq::empty());
    }
}

/// The power of a kind, as a number.
spec fn kind(c: Part) -> spec_fn(PowerBreakdown) -> int {
    |p: PowerBreakdown| part_of(p, c)
}

proof fn lemma_totals_of<T>(
    s: Seq<T>,
    get: spec_fn(T) -> PowerBreakdown,
    c: Part,
    f: spec_fn(T) -> int,
)
    requires
        forall|t: T| #[trigger] f(t) == part_of(get(t), c),
    ensures
        sum_over(s, f) == match c {
            Part::Cpu => totals(s.map_values(get)).cpu,
            Part::Memory => totals(s.map_values(get)).memory,
            Part::Gpu => totals(s.map_values(get)).gpu,
            Part::Nic => totals(s.map_values(get)).nic,
            Part::Storage => totals(s.map_values(get)).storage,
        },
        sum_over(s, f) >= 0,
    decreases s.len(),
{
    if s.len() > 0 {
        lemma_totals_of(s.drop_last(), get, c, f);
        let m = s.map_values(get);
        assert(m.drop_last() =~= s.drop_last().map_values(get));
        assert(m.last() == get(s.last()));
        assert(f(s.last()) == part_of(get(s.last()), c));
    }
}

proof fn lemma_container_draws(
    ps: Seq<ProcessPower>,
    r: CgroupResolver,
    comms: Seq<(u32, String)>,
    id: Seq<char>,
    c: Part,
)
    requires
        sums_fit(ps, r, comms),
        group_index(process_groups(ps, r, comms), id) >= 0,
    ensures
        ({
            let g = process_groups(ps, r, comms);
            part_of(container_of(g[group_index(g, id)], r).power, c) == sum_of(
                ps,
                drawn_in(r, id, kind(c)),
            )
        }),
{
    let n = ps.len() as int;
    let items = contained(ps, r, comms, n);
    let g = process_groups(ps, r, comms);
    let i = group_index(g, id);
    let f = |v: ProcessView| part_of(v.power, c);
    assert(ps.take(n) =~= ps);
    lemma_group_index(g, id);
    law_group_holds_its_own(items, id, f);
    lemma_drawn_in(ps, r, comms, n, id, kind(c), f);
    lemma_totals_of(g[i].1, |p: ProcessView| p.power, c, f);
    assert(totals(g[i].1.map_values(|p: ProcessView| p.power)).fit());
}

/// A container draws what the processes in it draw, of each kind of power: those whose cgroup
/// belongs to it, and no others.
pub proof fn law_container_power(
    ps: Seq<ProcessPower>,
    r: CgroupResolver,
    comms: Seq<(u32, String)>,
    id: Seq<char>,
    c: ContainerView,
)
    requires
        sums_fit(ps, r, comms),
        group_index(process_groups(ps, r, comms), id) >= 0,
        c == container_of(
            process_groups(ps, r, comms)[group_index(process_groups(ps, r, comms), id)],
            r,
        ),
    ensures
        c.container_id == id,
        c.power.cpu_uw == sum_of(
            ps,
            drawn_in(r, id, |p: PowerBreakdown| p.cpu_uw as int),
        ),
        c.power.memory_uw == sum_of(
            ps,
            drawn_in(r, id, |p: PowerBreakdown| p.memory_uw as int),
        ),
        c.power.gpu_uw == sum_of(
            ps,
            drawn_in(r, id, |p: PowerBreakdown| p.gpu_uw as int),
        ),
        c.power.nic_uw == sum_of(
            ps,
            drawn_in(r, id, |p: PowerBreakdown| p.nic_uw as int),
        ),
        c.power.storage_uw == sum_of(
            ps,
            drawn_in(r, id, |p: PowerBreakdown| p.storage_uw as int),
        ),
{
    lemma_group_index(process_groups(ps, r, comms), id);
    lemma_container_draws(ps, r, comms, id, Part::Cpu);
    lemma_drawn_same(ps, r, id, kind(Part::Cpu), |p: PowerBreakdown| p.cpu_uw as int);
    lemma_container_draws(ps, r, comms, id, Part::Memory);
    lemma_drawn_same(ps, r, id, kind(Part::Memory), |p: PowerBreakdown| p.memory_uw as int);
    lemma_container_draws(ps, r, comms, id, Part::Gpu);
    lemma_drawn_same(ps, r, id, kind(Part::Gpu), |p: PowerBreakdown| p.gpu_uw as int);
    lemma_container_draws(ps, r, comms, id, Part::Nic);
    lemma_drawn_same(ps, r, id, kind(Part::Nic), |p: PowerBreakdown| p.nic_uw as int);
    lemma_container_draws(ps, r, comms, id, Part::Storage);
    lemma_drawn_same(ps, r, id, kind(Part::Storage), |p: PowerBreakdown| p.storage_uw as int);
}

proof fn lemma_drawn_same(
    ps: Seq<ProcessPower>,
    r: CgroupResolver,
    id: Seq<char>,
    a: spec_fn(PowerBreakdown) -> int,
    b: spec_fn(PowerBreakdown) -> int,
)
    requires
        forall|p: PowerBreakdown| #[trigger] a(p) == b(p),
    ensures
        sum_of(ps, drawn_in(r, id, a)) == sum_of(ps, drawn_in(r, id, b)),
{
    let f = drawn_in(r, id, a);
    let g = drawn_in(r, id, b);
    assert forall|i: int| 0 <= i < ps.len() implies f(#[trigger] ps[i]) == g(ps[i]) by {
        assert(a(ps[i].power) == b(ps[i].power));
    }
    crate::sums::lemma_sum_same(ps, f, ps, g);
}

proof fn lemma_pod_draws(
    ps: Seq<ProcessPower>,
    r: CgroupResolver,
    comms: Seq<(u32, String)>,
    uid: Seq<char>,
    c: Part,
    f: spec_fn(ContainerView) -> int,
)
    requires
        sums_fit(ps, r, comms),
        group_index(container_groups(ps, r, comms), uid) >= 0,
        forall|v: ContainerView| #[trigger] f(v) == part_of(v.power, c),
    ensures
        ({
            let g = container_groups(ps, r, comms);
            part_of(pod_of(g[group_index(g, uid)], r).power, c) == sum_of(
                containers_of(process_groups(ps, r, comms), r),
                in_group(uid, f),
            )
        }),
{
    let items = containers_of(process_groups(ps, r, comms), r);
    let g = container_groups(ps, r, comms);
    let i = group_index(g, uid);
    lemma_group_index(g, uid);
    law_group_holds_its_own(items, uid, f);
    lemma_totals_of(g[i].1, |p: ContainerView| p.power, c, f);
    assert(totals(g[i].1.map_values(|c: ContainerView| c.power)).fit());
}

/// A pod draws what its containers draw, of each kind of power. A container is of the pod that its
/// cgroup belongs to, and the pod's name and namespace are what is known of that cgroup.
pub proof fn law_pod_power(
    ps: Seq<ProcessPower>,
    r: CgroupResolver,
    comms: Seq<(u32, String)>,
    uid: Seq<char>,
    pod: PodView,
)
    requires
        sums_fit(ps, r, comms),
        group_index(container_groups(ps, r, comms), uid) >= 0,
        pod == pod_of(
            container_groups(ps, r, comms)[group_index(container_groups(ps, r, comms), uid)],
            r,
        ),
    ensures
        pod.pod_uid == uid,
        pod.power.cpu_uw == sum_of(
            containers_of(process_groups(ps, r, comms), r),
            in_group(uid, |c: ContainerView| c.power.cpu_uw as int),
        ),
        pod.power.memory_uw == sum_of(
            containers_of(process_groups(ps, r, comms), r),
            in_group(uid, |c: ContainerView| c.power.memory_uw as int),
        ),
        pod.power.gpu_uw == sum_of(
            containers_of(process_groups(ps, r, comms), r),
            in_group(uid, |c: ContainerView| c.power.gpu_uw as int),
        ),
        pod.power.nic_uw == sum_of(
            containers_of(process_groups(ps, r, comms), r),
            in_group(uid, |c: ContainerView| c.power.nic_uw as int),
        ),
        pod.power.storage_uw == sum_of(
            containers_of(process_groups(ps, r, comms), r),
            in_group(uid, |c: ContainerView| c.power.storage_uw as int),
        ),
        forall|i: int|
            0 <= i < containers_of(process_groups(ps, r, comms), r).len() ==> {
                let e = #[trigger] containers_of(process_groups(ps, r, comms), r)[i];
                let info = lookup(r.cgroup_map@, e.1.cgroup_id)->0;
                e.0 == info.pod_uid@ && e.1.name == info.container_name@
            },
{
    lemma_group_index(container_groups(ps, r, comms), uid);
    lemma_pod_draws(
        ps,
        r,
        comms,
        uid,
        Part::Cpu,
        |c: ContainerView| c.power.cpu_uw as int,
    );
    lemma_pod_draws(
        ps,
        r,
        comms,
        uid,
        Part::Memory,
        |c: ContainerView| c.power.memory_uw as int,
    );
    lemma_pod_draws(
        ps,
        r,
        comms,
        uid,
        Part::Gpu,
        |c: ContainerView| c.power.gpu_uw as int,
    );
    lemma_pod_draws(
        ps,
        r,
        comms,
        uid,
        Part::Nic,
        |c: ContainerView| c.power.nic_uw as int,
    );
    lemma_pod_draws(
        ps,
        r,
        comms,
        uid,
        Part::Storage,
        |c: ContainerView| c.power.storage_uw as int,
    );
}

proof fn lemma_namespace_draws(
    ps: Seq<ProcessPower>,
    r: CgroupResolver,
    comms: Seq<(u32, String)>,
    ns: Seq<char>,
    c: Part,
    f: spec_fn(PodView) -> int,
)
    requires
        sums_fit(ps, r, comms),
        group_index(pod_groups(ps, r, comms), ns) >= 0,
        forall|v: PodView| #[trigger] f(v) == part_of(v.power, c),
    ensures
        ({
            let g = pod_groups(ps, r, comms);
            part_of(namespace_of(g[group_index(g, ns)]).power, c) == sum_of(
                pods_of(container_groups(ps, r, comms), r),
                in_group(ns, f),
            )
        }),
{
    let items = pods_of(container_groups(ps, r, comms), r);
    let g = pod_groups(ps, r, comms);
    let i = group_index(g, ns);
    lemma_group_index(g, ns);
    law_group_holds_its_own(items, ns, f);
    lemma_totals_of(g[i].1, |p: PodView| p.power, c, f);
    assert(totals(g[i].1.map_values(|p: PodView| p.power)).fit());
}

/// A namespace draws what its pods draw, of each kind of power, and counts as many pods as it has.
pub proof fn law_namespace_power(
    ps: Seq<ProcessPower>,
    r: CgroupResolver,
    comms: Seq<(u32, String)>,
    ns: Seq<char>,
    n: NamespaceView,
)
    requires
        sums_fit(ps, r, comms),
        group_index(pod_groups(ps, r, comms), ns) >= 0,
        n == namespace_of(
            pod_groups(ps, r, comms)[group_index(pod_groups(ps, r, comms), ns)],
        ),
    ensures
        n.namespace == ns,
        n.power.cpu_uw == sum_of(
            pods_of(container_groups(ps, r, comms), r),
            in_group(ns, |p: PodView| p.power.cpu_uw as int),
        ),
        n.power.memory_uw == sum_of(
            pods_of(container_groups(ps, r, comms), r),
            in_group(ns, |p: PodView| p.power.memory_uw as int),
        ),
        n.power.gpu_uw == sum_of(
            pods_of(container_groups(ps, r, comms), r),
            in_group(ns, |p: PodView| p.power.gpu_uw as int),
        ),
        n.power.nic_uw == sum_of(
            pods_of(container_groups(ps, r, comms), r),
            in_group(ns, |p: PodView| p.power.nic_uw as int),
        ),
        n.power.storage_uw == sum_of(
            pods_of(container_groups(ps, r, comms), r),
            in_group(ns, |p: PodView| p.power.storage_uw as int),
        ),
        n.pod_count == sum_of(
            pods_of(container_groups(ps, r, comms), r),
            in_group(ns, |p: PodView| 1int),
        ),
        forall|i: int|
            0 <= i < pods_of(container_groups(ps, r, comms), r).len() ==> {
                let e = #[trigger] pods_of(container_groups(ps, r, comms), r)[i];
                let info = lookup(r.cgroup_map@, e.1.containers[0].cgroup_id)->0;
                e.0 == info.namespace@ && e.1.namespace == info.namespace@ && e.1.name
                    == info.pod_name@
            },
{
    let g = pod_groups(ps, r, comms);
    lemma_group_index(g, ns);
    lemma_namespace_draws(
        ps,
        r,
        comms,
        ns,
        Part::Cpu,
        |p: PodView| p.power.cpu_uw as int,
    );
    lemma_namespace_draws(
        ps,
        r,
        comms,
        ns,
        Part::Memory,
        |p: PodView| p.power.memory_uw as int,
    );
    lemma_namespace_draws(
        ps,
        r,
        comms,
        ns,
        Part::Gpu,
        |p: PodView| p.power.gpu_uw as int,
    );
    lemma_namespace_draws(
        ps,
        r,
        comms,
        ns,
        Part::Nic,
        |p: PodView| p.power.nic_uw as int,
    );
    lemma_namespace_draws(
        ps,
        r,
        comms,
        ns,
        Part::Storage,
        |p: PodView| p.power.storage_uw as int,
    );
    let one = |p: PodView| 1int;
    law_group_holds_its_own(pods_of(container_groups(ps, r, comms), r), ns, one);
    lemma_count(g[group_index(g, ns)].1, one);
}

proof fn lemma_count<T>(s: Seq<T>, one: spec_fn(T) -> int)
    requires
        forall|t: T| #[trigger] one(t) == 1,
    ensures
        sum_over(s, one) == s.len(),
    decreases s.len(),
{
    if s.len() > 0 {
        lemma_count(s.drop_last(), one);
    }
}

/// What a process counts for if its cgroup belongs to no container.
pub open spec fn counted_outside(
    r: CgroupResolver,
    comms: Seq<(u32, String)>,
    count: spec_fn(ProcessView) -> int,
) -> spec_fn(ProcessPower) -> int {
    |p: ProcessPower|
        if lookup(r.cgroup_map@, p.cgroup_id) is None {
            count(with_comm(p@, comms))
        } else {
            0
        }
}

/// The processes that stay are those whose cgroup belongs to no container, with all that they had
/// and their own names.
pub proof fn law_processes_outside(
    ps: Seq<ProcessPower>,
    r: CgroupResolver,
    comms: Seq<(u32, String)>,
    n: int,
    count: spec_fn(ProcessView) -> int,
    p: ProcessView,
)
    requires
        0 <= n <= ps.len(),
    ensures
        sum_of(uncontained(ps, r, comms, n), count) == sum_of(
            ps.take(n),
            counted_outside(r, comms, count),
        ),
        with_comm(p, comms).pid == p.pid,
        with_comm(p, comms).power == p.power,
        with_comm(p, comms).cgroup_id == p.cgroup_id,
        with_comm(p, comms).core_detail == p.core_detail,
        lookup(comms, p.pid) matches Some(t) ==> with_comm(p, comms).comm == trimmed(t@),
    decreases n,
{
    if n > 0 {
        law_processes_outside(ps, r, comms, n - 1, count, p);
        assert(ps.take(n).drop_last() =~= ps.take(n - 1));
        assert(ps.take(n).last() == ps[n - 1]);
        lemma_sum_push(
            uncontained(ps, r, comms, n - 1),
            with_comm(ps[n - 1]@, comms),
            count,
        );
    } else {
        assert(ps.take(0) =~= Seq::empty());
    }
}

/// All pods that are listed are those of the containers, each once.
pub proof fn law_pods_listed(
    ps: Seq<ProcessPower>,
    r: CgroupResolver,
    comms: Seq<(u32, String)>,
    count: spec_fn(PodView) -> int,
)
    ensures
        sum_of(all_pods(pod_groups(ps, r, comms)), count) == sum_of(
            pods_of(container_groups(ps, r, comms), r),
            |e: (Seq<char>, PodView)| count(e.1),
        ),
{
    let items = pods_of(container_groups(ps, r, comms), r);
    law_groups_conserve(items, count);
    lemma_all_pods(pod_groups(ps, r, comms), count);
    lemma_over_is_of(items, |e: (Seq<char>, PodView)| count(e.1));
}

proof fn lemma_all_pods(g: Seq<(Seq<char>, Seq<PodView>)>, count: spec_fn(PodView) -> int)
    ensures
        sum_of(all_pods(g), count) == sum_over_groups(g, count),
    decreases g.len(),
{
    if g.len() > 0 {
        lemma_all_pods(g.drop_last(), count);
        lemma_sum_concat(all_pods(g.drop_last()), g.last().1, count);
        lemma_over_is_of(g.last().1, count);
    }
}

proof fn lemma_over_is_of<T>(s: Seq<T>, f: spec_fn(T) -> int)
    ensures
        sum_over(s, f) == sum_of(s, f),
    decreases s.len(),
{
    if s.len() > 0 {
        lemma_over_is_of(s.drop_last(), f);
    }
}

} // verus!
