//! GPU power by way of the DCGM exporter.
//!
//! The exporter gives the power that each GPU's own sensor measures, as metric lines such as
//! `DCGM_FI_DEV_POWER_USAGE{...,Hostname="node-1",namespace="default",pod="training"} 49.157`,
//! in watts.

use super::source::{
    raw_text, text_views, Component, Fault, Granularity, PowerReading, PowerSource, Quantities,
    ReadingType, SourceError, SourceFacts, SourceId,
};
use crate::decimal::{millionth, Amount};
use crate::json::{json_at, json_leaf, leaf_view, Leaf, LeafView};
use crate::prom::{
    label_in, label_value, line_amount, read_line_amount,
};
use crate::sums::sum_of;
use crate::text::{
    begins_with, chars_of, contains_text, decimal, decimal_text, holds_text, joined,
    law_part_is_found, lemma_digits_natural, lines, lines_of, number_of, parse_number, same,
    search, stands_at, unsigned_part, views,
};
use crate::watts::{law_power_of_sum, no_power, with_amount, PowerSum, Watts};
use vstd::prelude::*;

verus! {

/// What a line of GPU power begins with.
pub open spec fn is_power_line(line: Seq<char>) -> bool {
    begins_with(line, "DCGM_FI_DEV_POWER_USAGE{"@)
}

/// Whether a line holds a text, where one is asked for.
pub open spec fn holds_if_any(line: Seq<char>, text: Seq<char>) -> bool {
    text.len() == 0 || holds_text(line, text)
}

/// The label by which a line names its node.
pub open spec fn hostname_label(hostname: Seq<char>) -> Seq<char> {
    "Hostname=\""@ + hostname + "\""@
}

/// Whether a line tells the power of one GPU on one node. An empty name asks for none.
pub open spec fn tells_of(line: Seq<char>, hostname: Seq<char>, uuid: Seq<char>) -> bool {
    &&& is_power_line(line)
    &&& hostname.len() == 0 || holds_text(line, hostname_label(hostname))
    &&& holds_if_any(line, uuid)
}

/// The power of one GPU on one node, by the first `n` lines.
pub open spec fn gpu_power(
    lines: Seq<Seq<char>>,
    hostname: Seq<char>,
    uuid: Seq<char>,
    n: int,
) -> PowerSum
    decreases n,
{
    if n <= 0 {
        no_power()
    } else {
        let before = gpu_power(lines, hostname, uuid, n - 1);
        match line_amount(lines[n - 1]) {
            Some(amount) => if tells_of(lines[n - 1], hostname, uuid) {
                with_amount(before, amount)
            } else {
                before
            },
            None => before,
        }
    }
}

/// The reading that a sum makes: none if it comes to nothing.
pub open spec fn sum_reading(sum: PowerSum) -> Option<u64> {
    if sum.is_zero() {
        None
    } else {
        Some(sum.power())
    }
}

/// The reading of one GPU on one node out of the exporter's text.
pub open spec fn power_in(body: Seq<char>, hostname: Seq<char>, uuid: Seq<char>) -> Option<u64> {
    let all = lines_of(body);
    sum_reading(gpu_power(all, hostname, uuid, all.len() as int))
}

/// Reads the power of one GPU on one node out of the exporter's text.
pub fn read_gpu_power(body: &str, hostname: &str, uuid: &str) -> (r: Option<u64>)
    ensures
        r == power_in(body@, hostname@, uuid@),
{
    let all: Vec<Vec<char>> = lines(&chars_of(body));
    let ghost seen = lines_of(body@);
    let label: String = joined("Hostname=\"", hostname).concat("\"");
    let any_host: bool = hostname.is_empty();
    let any_gpu: bool = uuid.is_empty();
    let mut sum: Watts = Watts::zero();
    let mut i: usize = 0;
    while i < all.len()
        invariant
            i <= all@.len(),
            views(all@) == seen,
            label@ == hostname_label(hostname@),
            any_host == (hostname@.len() == 0),
            any_gpu == (uuid@.len() == 0),
            gpu_power(seen, hostname@, uuid@, i as int) == sum@,
        decreases all@.len() - i,
    {
        assert(seen[i as int] == all@[i as int]@);
        if stands_at(&all[i], "DCGM_FI_DEV_POWER_USAGE{", 0) && (any_host || search(
            &all[i],
            label.as_str(),
            0,
        ).is_some()) && (any_gpu || search(&all[i], uuid, 0).is_some()) {
            match read_line_amount(&all[i]) {
                Some(amount) => {
                    sum.add(&amount);
                },
                None => {},
            }
        }
        i = i + 1;
    }
    if sum.is_zero() {
        None
    } else {
        Some(sum.power())
    }
}

/// One GPU behind the DCGM exporter.
#[derive(Debug)]
pub struct DcgmGpuSource {
    pub id: SourceId,
    pub display_name: String,
    pub device_index: u8,
    pub dcgm_url: String,
    pub gpu_uuid: String,
    /// The node that the GPU is in; empty if it is not known
    pub node_name: String,
}

impl PowerSource for DcgmGpuSource {
    open spec fn facts(&self) -> SourceFacts {
        SourceFacts {
            id: self.id.0@,
            name: self.display_name@,
            component: Component::Gpu,
            granularity: Granularity::Device(self.device_index),
            reading_type: ReadingType::Measured,
            poll_interval_ns: 3_000_000_000,
        }
    }

    open spec fn wanted(&self) -> Seq<Seq<char>> {
        seq![self.dcgm_url@]
    }

    open spec fn outcome(&self, raw: Seq<Option<Seq<char>>>) -> Result<Quantities, Fault> {
        if raw[0] is None {
            Err(Fault::Unavailable)
        } else {
            match power_in(raw[0]->0, self.node_name@, self.gpu_uuid@) {
                Some(p) => Ok(
                    Quantities { energy_uj: None, power_uw: Some(p), max_energy_uj: 0 },
                ),
                None => Err(Fault::Unavailable),
            }
        }
    }

    fn id(&self) -> (r: &SourceId) {
        &self.id
    }

    fn name(&self) -> (r: &str) {
        self.display_name.as_str()
    }

    fn component(&self) -> (r: Component) {
        Component::Gpu
    }

    fn granularity(&self) -> (r: Granularity) {
        Granularity::Device(self.device_index)
    }

    fn reading_type(&self) -> (r: ReadingType) {
        ReadingType::Measured
    }

    fn default_poll_interval(&self) -> (r: u64) {
        3_000_000_000
    }

    fn inputs(&self) -> (r: Vec<String>) {
        let url: String = self.dcgm_url.clone();
        let r: Vec<String> = vec![url];
        assert(text_views(r@) =~= self.wanted());
        r
    }

    fn read(&self, raw: &Vec<Option<String>>, now_ns: u64) -> (r: Result<
        PowerReading,
        SourceError,
    >) {
        let power: Option<u64> = match raw_text(raw, 0) {
            Some(body) => read_gpu_power(body, self.node_name.as_str(), self.gpu_uuid.as_str()),
            None => {
                return Err(SourceError::Unavailable("DCGM request failed".to_owned()));
            },
        };
        match power {
            Some(p) => Ok(
                PowerReading {
                    source_id: self.id.clone(),
                    timestamp_ns: now_ns,
                    component: Component::Gpu,
                    granularity: Granularity::Device(self.device_index),
                    reading_type: ReadingType::Measured,
                    energy_uj: None,
                    power_uw: Some(p),
                    max_energy_uj: 0,
                },
            ),
            None => Err(SourceError::Unavailable("No GPU power reading from DCGM".to_owned())),
        }
    }
}

// ─── Discovery ──────────────────────────────────────────────────

/// A GPU that the exporter tells of.
pub struct GpuView {
    pub uuid: Seq<char>,
    pub model: Seq<char>,
    pub index: u8,
}

/// The value of a label, or another text where there is none.
pub open spec fn label_or(line: Seq<char>, label: Seq<char>, other: Seq<char>) -> Seq<char> {
    match label_value(line, label) {
        Some(v) => v,
        None => other,
    }
}

/// Whether a line may be of this node: it names no other.
pub open spec fn may_be_on(line: Seq<char>, hostname: Seq<char>) -> bool {
    hostname.len() == 0 || label_or(line, "Hostname"@, hostname) == hostname
}

/// Whether one of `gpus` has a UUID.
pub open spec fn knows_gpu(gpus: Seq<GpuView>, uuid: Seq<char>) -> bool {
    exists|i: int| 0 <= i < gpus.len() && (#[trigger] gpus[i]).uuid == uuid
}

/// The GPUs that the first `n` lines tell of, once each. One whose number cannot be read gets the
/// next number.
pub open spec fn gpus_in(lines: Seq<Seq<char>>, hostname: Seq<char>, n: int) -> Seq<GpuView>
    decreases n,
{
    if n <= 0 {
        Seq::empty()
    } else {
        let before = gpus_in(lines, hostname, n - 1);
        let line = lines[n - 1];
        let uuid = label_or(line, "UUID"@, Seq::empty());
        if is_power_line(line) && may_be_on(line, hostname) && uuid.len() > 0 && !knows_gpu(
            before,
            uuid,
        ) {
            before.push(
                GpuView {
                    uuid,
                    model: label_or(line, "modelName"@, "NVIDIA GPU"@),
                    index: match label_value(line, "gpu"@) {
                        Some(s) => match number_of(s, u8::MAX as int) {
                            Some(i) => i as u8,
                            None => (before.len() % 256) as u8,
                        },
                        None => (before.len() % 256) as u8,
                    },
                },
            )
        } else {
            before
        }
    }
}

/// Whether `s` is the source of a GPU.
pub open spec fn is_gpu_source(
    s: DcgmGpuSource,
    gpu: GpuView,
    hostname: Seq<char>,
    url: Seq<char>,
) -> bool {
    &&& s.id.0@ == "dcgm:gpu:"@ + decimal(gpu.index as int)
    &&& s.display_name@ == "DCGM "@ + gpu.model + " (GPU "@ + decimal(gpu.index as int) + ")"@
    &&& s.device_index == gpu.index
    &&& s.dcgm_url@ == url
    &&& s.gpu_uuid@ == gpu.uuid
    &&& s.node_name@ == hostname
}

fn knows_uuid(sources: &Vec<DcgmGpuSource>, uuid: &str) -> (r: bool)
    ensures
        r == exists|i: int| 0 <= i < sources@.len() && (#[trigger] sources@[i]).gpu_uuid@ == uuid@,
{
    let mut i: usize = 0;
    while i < sources.len()
        invariant
            i <= sources@.len(),
            forall|j: int| 0 <= j < i ==> (#[trigger] sources@[j]).gpu_uuid@ != uuid@,
        decreases sources@.len() - i,
    {
        if same(sources[i].gpu_uuid.as_str(), uuid) {
            return true;
        }
        i = i + 1;
    }
    false
}

/// Makes a source of each GPU on this node that the exporter's text tells of.
pub fn discover(body: &str, hostname: &str, dcgm_url: &str) -> (r: Result<
    Vec<DcgmGpuSource>,
    SourceError,
>)
    ensures
        ({
            let all = lines_of(body@);
            let gpus = gpus_in(all, hostname@, all.len() as int);
            match r {
                Ok(v) => v@.len() > 0 && v@.len() == gpus.len() && forall|i: int|
                    0 <= i < gpus.len() ==> is_gpu_source(
                        #[trigger] v@[i],
                        gpus[i],
                        hostname@,
                        dcgm_url@,
                    ),
                Err(e) => e.fault() == Fault::Unavailable && gpus.len() == 0 && e.message()
                    == "NVIDIA driver present but DCGM exporter not reachable. Set DCGM_EXPORTER_URL."@,
            }
        }),
{
    let all: Vec<Vec<char>> = lines(&chars_of(body));
    let ghost seen = lines_of(body@);
    let any_host: bool = hostname.is_empty();
    let mut v: Vec<DcgmGpuSource> = Vec::new();
    let mut i: usize = 0;
    while i < all.len()
        invariant
            i <= all@.len(),
            views(all@) == seen,
            any_host == (hostname@.len() == 0),
            v@.len() == gpus_in(seen, hostname@, i as int).len(),
            forall|k: int|
                0 <= k < v@.len() ==> is_gpu_source(
                    #[trigger] v@[k],
                    gpus_in(seen, hostname@, i as int)[k],
                    hostname@,
                    dcgm_url@,
                ),
        decreases all@.len() - i,
    {
        assert(seen[i as int] == all@[i as int]@);
        let ghost before = gpus_in(seen, hostname@, i as int);
        let local: bool = any_host || match label_in(&all[i], "Hostname") {
            Some(h) => same(h.as_str(), hostname),
            None => true,
        };
        let uuid: String = match label_in(&all[i], "UUID") {
            Some(u) => u,
            None => String::new(),
        };
        let known: bool = knows_uuid(&v, uuid.as_str());
        proof {
            assert(known == knows_gpu(before, uuid@)) by {
                if known {
                    let k = choose|k: int|
                        0 <= k < v@.len() && (#[trigger] v@[k]).gpu_uuid@ == uuid@;
                    assert(before[k].uuid == uuid@);
                }
                if knows_gpu(before, uuid@) {
                    let k = choose|k: int|
                        0 <= k < before.len() && (#[trigger] before[k]).uuid == uuid@;
                    assert(v@[k].gpu_uuid@ == uuid@);
                }
            }
        }
        if stands_at(&all[i], "DCGM_FI_DEV_POWER_USAGE{", 0) && local && !uuid.as_str().is_empty()
            && !known {
            let model: String = match label_in(&all[i], "modelName") {
                Some(m) => m,
                None => "NVIDIA GPU".to_owned(),
            };
            let next: u8 = (v.len() % 256) as u8;
            let index: u8 = match label_in(&all[i], "gpu") {
                Some(s) => match parse_number(&chars_of(s.as_str()), 255) {
                    Some(n) => n as u8,
                    None => next,
                },
                None => next,
            };
            let number: String = decimal_text(index as u64);
            let display_name: String = joined("DCGM ", model.as_str()).concat(" (GPU ").concat(
                number.as_str(),
            ).concat(")");
            v.push(
                DcgmGpuSource {
                    id: SourceId(joined("dcgm:gpu:", number.as_str())),
                    display_name,
                    device_index: index,
                    dcgm_url: dcgm_url.to_owned(),
                    gpu_uuid: uuid,
                    node_name: hostname.to_owned(),
                },
            );
        }
        i = i + 1;
    }
    if v.len() == 0 {
        return Err(
            SourceError::Unavailable(
                "NVIDIA driver present but DCGM exporter not reachable. Set DCGM_EXPORTER_URL.".to_owned(),
            ),
        );
    }
    Ok(v)
}

// ─── The exporter's address ─────────────────────────────────────

/// The address of the exporter by the list of its pods and the first one's address.
pub open spec fn exporter_url(items: Option<LeafView>, pod_ip: Option<LeafView>) -> Option<
    Seq<char>,
> {
    match (items, pod_ip) {
        (Some(LeafView::List(n)), Some(LeafView::Text(ip))) => if n > 0 {
            Some("http://"@ + ip + ":9400/metrics"@)
        } else {
            None
        },
        _ => None,
    }
}

/// Makes the exporter's address of what stands in the list of its pods.
pub fn make_exporter_url(items: &Option<Leaf>, pod_ip: &Option<Leaf>) -> (r: Option<String>)
    ensures
        exporter_url(leaf_view(*items), leaf_view(*pod_ip)) == match r {
            Some(u) => Some(u@),
            None => None,
        },
{
    match (items, pod_ip) {
        (Some(Leaf::List(n)), Some(Leaf::Text(ip))) => if *n > 0 {
            Some(joined("http://", ip.as_str()).concat(":9400/metrics"))
        } else {
            None
        },
        _ => None,
    }
}

/// Finds the exporter's address in the cluster's answer, which lists the exporter's pods on this
/// node.
pub fn discover_dcgm_url_pub(body: &str) -> (r: Option<String>)
    ensures
        exporter_url(
            json_leaf(body@, "/items"@),
            json_leaf(body@, "/items/0/status/podIP"@),
        ) == match r {
            Some(u) => Some(u@),
            None => None,
        },
{
    let items: Option<Leaf> = json_at(body, "/items");
    let pod_ip: Option<Leaf> = json_at(body, "/items/0/status/podIP");
    make_exporter_url(&items, &pod_ip)
}

/// The address at which the cluster lists the exporter's pods on one node.
pub fn dcgm_pods_url(node_name: &str) -> (r: String)
    ensures
        r@
            == "https://kubernetes.default.svc/api/v1/namespaces/nvidia-gpu-operator/pods?labelSelector=app=nvidia-dcgm-exporter&fieldSelector=spec.nodeName="@
            + node_name@,
{
    joined(
        "https://kubernetes.default.svc/api/v1/namespaces/nvidia-gpu-operator/pods?labelSelector=app=nvidia-dcgm-exporter&fieldSelector=spec.nodeName=",
        node_name,
    )
}

/// Whether the exporter's pod on this node is looked for: no address is configured, or one of a
/// service, behind which any node's pod may stand.
pub open spec fn looks_for_pod(configured: Option<Seq<char>>) -> bool {
    match configured {
        Some(url) => holds_text(url, ".svc"@),
        None => true,
    }
}

/// The address of the exporter: the pod's on this node, where it is looked for and found, or else
/// the one that is configured.
pub open spec fn dcgm_address(
    configured: Option<Seq<char>>,
    discovered: Option<Seq<char>>,
) -> Option<Seq<char>> {
    if looks_for_pod(configured) && discovered is Some {
        discovered
    } else {
        configured
    }
}

/// Whether the exporter's pod on this node has to be looked for.
pub fn needs_discovery(configured: Option<&str>) -> (r: bool)
    ensures
        r == looks_for_pod(
            match configured {
                Some(url) => Some(url@),
                None => None,
            },
        ),
{
    match configured {
        Some(url) => contains_text(url, ".svc"),
        None => true,
    }
}

/// Chooses the address of the exporter.
pub fn choose_dcgm_url(configured: Option<&str>, discovered: Option<&str>) -> (r: Option<String>)
    ensures
        dcgm_address(
            match configured {
                Some(url) => Some(url@),
                None => None,
            },
            match discovered {
                Some(url) => Some(url@),
                None => None,
            },
        ) == match r {
            Some(url) => Some(url@),
            None => None,
        },
{
    if needs_discovery(configured) {
        if let Some(url) = discovered {
            return Some(url.to_owned());
        }
    }
    match configured {
        Some(url) => Some(url.to_owned()),
        None => None,
    }
}

// ─── What the exporter tells ────────────────────────────────────

/// Whether a line tells the power of a GPU: it is of that metric, names the host where one is
/// asked for, and holds the UUID where one is asked for.
pub open spec fn is_about(line: Seq<char>, hostname: Seq<char>, uuid: Seq<char>) -> bool {
    &&& begins_with(line, "DCGM_FI_DEV_POWER_USAGE{"@)
    &&& hostname.len() > 0 ==> holds_text(line, "Hostname=\""@ + hostname + "\""@)
    &&& uuid.len() > 0 ==> holds_text(line, uuid)
}

/// What a line tells of a GPU's power, in units.
pub open spec fn told_of(hostname: Seq<char>, uuid: Seq<char>) -> spec_fn(Seq<char>) -> int {
    |line: Seq<char>|
        match line_amount(line) {
            Some(Amount::Units(u)) => if is_about(line, hostname, uuid) {
                u
            } else {
                0
            },
            _ => 0,
        }
}

/// Whether a line about a GPU tells no number.
pub open spec fn tells_no_number(lines: Seq<Seq<char>>, hostname: Seq<char>, uuid: Seq<char>) -> bool {
    exists|i: int|
        0 <= i < lines.len() && is_about(#[trigger] lines[i], hostname, uuid) && line_amount(
            lines[i],
        ) == Some(Amount::NotANumber)
}

proof fn lemma_told(lines: Seq<Seq<char>>, hostname: Seq<char>, uuid: Seq<char>, n: int)
    requires
        0 <= n <= lines.len(),
    ensures
        ({
            let sum = gpu_power(lines, hostname, uuid, n);
            &&& sum.plus - sum.minus == sum_of(lines.take(n), told_of(hostname, uuid))
            &&& sum.nan <==> tells_no_number(lines.take(n), hostname, uuid)
        }),
    decreases n,
{
    if n > 0 {
        lemma_told(lines, hostname, uuid, n - 1);
        let all = lines.take(n);
        let rest = lines.take(n - 1);
        assert(all.drop_last() =~= rest);
        assert(all.last() == lines[n - 1]);
        if tells_no_number(rest, hostname, uuid) {
            let i = choose|i: int|
                0 <= i < rest.len() && is_about(#[trigger] rest[i], hostname, uuid) && line_amount(
                    rest[i],
                ) == Some(Amount::NotANumber);
            assert(is_about(all[i], hostname, uuid));
        }
        if tells_no_number(all, hostname, uuid) {
            let i = choose|i: int|
                0 <= i < all.len() && is_about(#[trigger] all[i], hostname, uuid) && line_amount(
                    all[i],
                ) == Some(Amount::NotANumber);
            if i < rest.len() {
                assert(is_about(rest[i], hostname, uuid));
            }
        }
        if is_about(lines[n - 1], hostname, uuid) && line_amount(lines[n - 1]) == Some(
            Amount::NotANumber,
        ) {
            assert(is_about(all[n - 1], hostname, uuid));
        }
    } else {
        assert(lines.take(0) =~= Seq::empty());
    }
}

/// A GPU's power is the most whole microwatts that what the lines about it tell together suffices
/// for. There is none where that is exactly nothing.
pub proof fn law_gpu_power(body: Seq<char>, hostname: Seq<char>, uuid: Seq<char>)
    ensures
        ({
            let lines = lines_of(body);
            let told = sum_of(lines, told_of(hostname, uuid));
            let nan = tells_no_number(lines, hostname, uuid);
            match power_in(body, hostname, uuid) {
                Some(p) => {
                    &&& nan || told != 0
                    &&& nan || told < 0 ==> p == 0
                    &&& !nan && told > 0 ==> p * millionth() <= told
                    &&& !nan && told > 0 && p < u64::MAX ==> told < (p + 1) * millionth()
                },
                None => !nan && told == 0,
            }
        }),
{
    let lines = lines_of(body);
    let n = lines.len() as int;
    assert(lines.take(n) =~= lines);
    lemma_told(lines, hostname, uuid, n);
    law_power_of_sum(gpu_power(lines, hostname, uuid, n));
}

/// Whether a line tells of a GPU on a host: it is of the power metric, has a UUID and names no
/// other host.
pub open spec fn tells_gpu(line: Seq<char>, hostname: Seq<char>, uuid: Seq<char>) -> bool {
    &&& begins_with(line, "DCGM_FI_DEV_POWER_USAGE{"@)
    &&& label_value(line, "UUID"@) == Some(uuid)
    &&& uuid.len() > 0
    &&& hostname.len() > 0 && label_value(line, "Hostname"@) is Some ==> label_value(
        line,
        "Hostname"@,
    ) == Some(hostname)
}

/// The GPUs are those that lines tell of, each once, with the model and the number of the first
/// line of its own.
pub proof fn law_gpus_told(lines: Seq<Seq<char>>, hostname: Seq<char>, n: int)
    requires
        0 <= n <= lines.len(),
    ensures
        ({
            let gpus = gpus_in(lines, hostname, n);
            &&& forall|a: int, b: int|
                0 <= a < b < gpus.len() ==> (#[trigger] gpus[a]).uuid != (#[trigger] gpus[b]).uuid
            &&& forall|j: int, uuid: Seq<char>|
                0 <= j < n && #[trigger] tells_gpu(lines[j], hostname, uuid) ==> knows_gpu(
                    gpus,
                    uuid,
                )
            &&& forall|a: int|
                0 <= a < gpus.len() ==> is_told(lines, hostname, n, #[trigger] gpus[a])
        }),
    decreases n,
{
    if n > 0 {
        law_gpus_told(lines, hostname, n - 1);
        let before = gpus_in(lines, hostname, n - 1);
        let after = gpus_in(lines, hostname, n);
        let line = lines[n - 1];
        let uuid = label_or(line, "UUID"@, Seq::empty());
        let adds = is_power_line(line) && may_be_on(line, hostname) && uuid.len() > 0
            && !knows_gpu(before, uuid);
        assert forall|a: int, b: int| 0 <= a < b < after.len() implies (#[trigger] after[a]).uuid
            != (#[trigger] after[b]).uuid by {
            if b < before.len() {
                assert(before[a].uuid != before[b].uuid);
            } else {
                assert(before[a].uuid != uuid);
            }
        }
        assert forall|j: int, u: Seq<char>|
            0 <= j < n && #[trigger] tells_gpu(lines[j], hostname, u) implies knows_gpu(
            after,
            u,
        ) by {
            if knows_gpu(before, u) {
                let i = choose|i: int| 0 <= i < before.len() && (#[trigger] before[i]).uuid == u;
                assert(after[i].uuid == u);
            } else {
                assert(j == n - 1);
                assert(u == uuid);
                assert(after[before.len() as int].uuid == u);
            }
        }
        assert forall|a: int| 0 <= a < after.len() implies is_told(
            lines,
            hostname,
            n,
            #[trigger] after[a],
        ) by {
            if a < before.len() {
                assert(is_told(lines, hostname, n - 1, before[a]));
                let j = choose|j: int|
                    0 <= j < n - 1 && #[trigger] first_told(lines, hostname, j, before[a]);
                assert(first_told(lines, hostname, j, after[a]));
            } else {
                assert forall|i: int| 0 <= i < n - 1 implies !#[trigger] tells_gpu(
                    lines[i],
                    hostname,
                    uuid,
                ) by {
                }
                assert(tells_gpu(line, hostname, uuid));
                if label_value(line, "gpu"@) is Some && number_of(
                    label_value(line, "gpu"@)->0,
                    255,
                ) is Some {
                    lemma_digits_natural(unsigned_part(label_value(line, "gpu"@)->0));
                }
                assert(first_told(lines, hostname, n - 1, after[a]));
            }
        }
    }
}

/// Whether a line is the first that tells of a GPU, and tells its model, and its number if it can
/// be read.
pub open spec fn first_told(
    lines: Seq<Seq<char>>,
    hostname: Seq<char>,
    j: int,
    gpu: GpuView,
) -> bool {
    &&& tells_gpu(lines[j], hostname, gpu.uuid)
    &&& forall|i: int| 0 <= i < j ==> !#[trigger] tells_gpu(lines[i], hostname, gpu.uuid)
    &&& label_value(lines[j], "modelName"@) matches Some(m) ==> gpu.model == m
    &&& label_value(lines[j], "gpu"@) matches Some(s) ==> number_of(s, 255) matches Some(i)
        ==> gpu.index == i
}

/// Whether one of the first `n` lines is the first that tells of a GPU.
pub open spec fn is_told(lines: Seq<Seq<char>>, hostname: Seq<char>, n: int, gpu: GpuView) -> bool {
    exists|j: int| 0 <= j < n && #[trigger] first_told(lines, hostname, j, gpu)
}

/// A source of a GPU reads the power of that GPU on its host, from the exporter.
pub proof fn law_gpu_source(
    s: DcgmGpuSource,
    gpu: GpuView,
    hostname: Seq<char>,
    url: Seq<char>,
    body: Seq<char>,
)
    requires
        is_gpu_source(s, gpu, hostname, url),
    ensures
        s.wanted() == seq![url],
        s.device_index == gpu.index,
        s.outcome(seq![None]) is Err,
        match s.outcome(seq![Some(body)]) {
            Ok(q) => q.power_uw is Some && q.power_uw == power_in(body, hostname, gpu.uuid)
                && q.energy_uj is None,
            Err(_) => power_in(body, hostname, gpu.uuid) is None,
        },
{
}

/// An address of a service, or none, is replaced by that of the exporter's own pod where one was
/// found; any other address stays.
pub proof fn law_exporter_address(
    a: Seq<char>,
    b: Seq<char>,
    plain: Seq<char>,
    pod: Seq<char>,
)
    requires
        !holds_text(plain, ".svc"@),
    ensures
        dcgm_address(None, Some(pod)) == Some(pod),
        dcgm_address(None, None) is None,
        dcgm_address(Some(a + ".svc"@ + b), Some(pod)) == Some(pod),
        dcgm_address(Some(a + ".svc"@ + b), None) == Some(a + ".svc"@ + b),
        dcgm_address(Some(plain), Some(pod)) == Some(plain),
        dcgm_address(Some(plain), None) == Some(plain),
{
    law_part_is_found(a, ".svc"@, b);
}

/// The exporter's pod is looked for where nothing is configured or the address is that of a
/// service; the address of a host is taken as it is.
pub proof fn law_pod_looked_for(a: Seq<char>, b: Seq<char>, plain: Seq<char>, ip: Seq<char>, n: nat)
    requires
        !holds_text(plain, ".svc"@),
    ensures
        looks_for_pod(None),
        looks_for_pod(Some(a + ".svc"@ + b)),
        !looks_for_pod(Some(plain)),
        n > 0 ==> exporter_url(Some(LeafView::List(n)), Some(LeafView::Text(ip))) == Some(
            "http://"@ + ip + ":9400/metrics"@,
        ),
        exporter_url(Some(LeafView::List(0)), Some(LeafView::Text(ip))) is None,
        exporter_url(Some(LeafView::List(n)), None) is None,
        exporter_url(None, Some(LeafView::Text(ip))) is None,
{
    law_part_is_found(a, ".svc"@, b);
}

} // verus!
