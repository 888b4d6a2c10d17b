//! RAPL (Running Average Power Limit) energy zones.
//!
//! Each socket has a package zone `intel-rapl:N` and, below it, zones `intel-rapl:N:M`, one of
//! which may be the DRAM attached to the socket. RAPL is a firmware model of power and no
//! measurement, so its readings are tagged as estimated.

use super::source::{
    file_number, law_number_in_file, raw_text, read_u64_file, text_views, Component, Fault,
    Granularity, PowerReading, PowerSource, Quantities, ReadingType, SourceError, SourceFacts,
    SourceId,
};
use crate::sort::{insert_ranked, law_sorted, sorted, Ranked};
use crate::sums::{lemma_sum_count, lemma_sum_filter, sum_of};
use crate::table::lemma_filter;
use crate::text::{
    begins_with, blank, chars_of, decimal, decimal_text, is_digit, joined, law_decimal_reads_back,
    law_part_is_found, law_split, lemma_digits_natural, number_of, parse_number, same, split,
    split_on, starts_with, trim, trimmed, unsigned_part, views, whole_text,
};
use vstd::prelude::*;

verus! {

/// A single RAPL energy zone.
#[derive(Debug)]
pub struct RaplSource {
    pub id: SourceId,
    pub name: String,
    pub path: String,
    pub component: Component,
    pub socket: u8,
    pub max_energy_uj: u64,
}

/// The largest value of a zone's counter, or 0 where the zone does not tell.
pub open spec fn zone_max(max_text: Option<Seq<char>>) -> u64 {
    match file_number(max_text) {
        Ok(n) => n,
        Err(_) => 0,
    }
}

/// What a zone is called: the text of its name file, or else its domain.
pub open spec fn zone_name(domain: Seq<char>, name_text: Option<Seq<char>>) -> Seq<char> {
    match name_text {
        Some(s) => trimmed(s),
        None => domain,
    }
}

/// A text that may be missing.
pub open spec fn text_view(s: Option<String>) -> Option<Seq<char>> {
    match s {
        Some(t) => Some(t@),
        None => None,
    }
}

impl RaplSource {
    /// The zone of `domain` on `socket`.
    pub open spec fn is_zone(
        self,
        domain: Seq<char>,
        socket: u8,
        path: Seq<char>,
        component: Component,
        max_text: Option<Seq<char>>,
        name_text: Option<Seq<char>>,
    ) -> bool {
        &&& self.id.0@ == "rapl:"@ + domain + ":"@ + decimal(socket as int)
        &&& self.name@ == "RAPL "@ + domain + " (socket "@ + decimal(socket as int) + "): "@
            + zone_name(domain, name_text)
        &&& self.path@ == path
        &&& self.component == component
        &&& self.socket == socket
        &&& self.max_energy_uj == zone_max(max_text)
    }

    pub fn new(
        domain: &str,
        socket: u8,
        path: &str,
        component: Component,
        max_text: &Option<String>,
        name_text: &Option<String>,
    ) -> (r: Self)
        ensures
            r.is_zone(
                domain@,
                socket,
                path@,
                component,
                text_view(*max_text),
                text_view(*name_text),
            ),
    {
        let number: String = decimal_text(socket as u64);
        let max_energy_uj: u64 = match max_text {
            Some(s) => match read_u64_file(path, Some(s.as_str())) {
                Ok(n) => n,
                Err(_) => 0,
            },
            None => 0,
        };
        let zone: String = match name_text {
            Some(s) => whole_text(&trim(&chars_of(s.as_str()))),
            None => domain.to_owned(),
        };
        let id: String = joined("rapl:", domain).concat(":").concat(number.as_str());
        let name: String = joined("RAPL ", domain).concat(" (socket ").concat(
            number.as_str(),
        ).concat("): ").concat(zone.as_str());
        RaplSource {
            id: SourceId(id),
            name,
            path: path.to_owned(),
            component,
            socket,
            max_energy_uj,
        }
    }
}

impl PowerSource for RaplSource {
    open spec fn facts(&self) -> SourceFacts {
        SourceFacts {
            id: self.id.0@,
            name: self.name@,
            component: self.component,
            granularity: Granularity::Socket(self.socket),
            reading_type: ReadingType::Estimated,
            poll_interval_ns: 100_000_000,
        }
    }

    open spec fn wanted(&self) -> Seq<Seq<char>> {
        seq![self.path@ + "/energy_uj"@]
    }

    open spec fn outcome(&self, raw: Seq<Option<Seq<char>>>) -> Result<Quantities, Fault> {
        match file_number(raw[0]) {
            Ok(n) => Ok(
                Quantities {
                    energy_uj: Some(n),
                    power_uw: None,
                    max_energy_uj: self.max_energy_uj,
                },
            ),
            Err(f) => Err(f),
        }
    }

    fn id(&self) -> (r: &SourceId) {
        &self.id
    }

    fn name(&self) -> (r: &str) {
        self.name.as_str()
    }

    fn component(&self) -> (r: Component) {
        self.component
    }

    fn granularity(&self) -> (r: Granularity) {
        Granularity::Socket(self.socket)
    }

    fn reading_type(&self) -> (r: ReadingType) {
        ReadingType::Estimated
    }

    fn default_poll_interval(&self) -> (r: u64) {
        100_000_000
    }

    fn inputs(&self) -> (r: Vec<String>) {
        let path: String = joined(self.path.as_str(), "/energy_uj");
        let r: Vec<String> = vec![path];
        assert(text_views(r@) =~= self.wanted());
        r
    }

    fn read(&self, raw: &Vec<Option<String>>, now_ns: u64) -> (r: Result<
        PowerReading,
        SourceError,
    >) {
        match read_u64_file(self.path.as_str(), raw_text(raw, 0)) {
            Ok(n) => Ok(
                PowerReading {
                    source_id: self.id.clone(),
                    timestamp_ns: now_ns,
                    component: self.component,
                    granularity: Granularity::Socket(self.socket),
                    reading_type: ReadingType::Estimated,
                    energy_uj: Some(n),
                    power_uw: None,
                    max_energy_uj: self.max_energy_uj,
                },
            ),
            Err(e) => Err(e),
        }
    }
}

/// One entry of the power capping directory, with the texts of its files.
#[derive(Debug)]
pub struct PowercapEntry {
    pub file_name: String,
    pub path: String,
    /// Whether the entry has an energy counter
    pub has_energy: bool,
    pub max_text: Option<String>,
    pub name_text: Option<String>,
}

/// The socket in the name of a zone with `depth` parts: `intel-rapl:N` has two, and a zone below
/// it three.
pub open spec fn zone_socket(file_name: Seq<char>, depth: int) -> Option<int> {
    let parts = split_on(file_name, ':');
    if begins_with(file_name, "intel-rapl:"@) && parts.len() == depth {
        number_of(parts[1], u8::MAX as int)
    } else {
        None
    }
}

/// Reads the socket out of a zone's name.
fn read_zone_socket(file_name: &str, depth: usize) -> (r: Option<u8>)
    requires
        depth >= 2,
    ensures
        match r {
            Some(n) => zone_socket(file_name@, depth as int) == Some(n as int),
            None => zone_socket(file_name@, depth as int) is None,
        },
{
    if !starts_with(file_name, "intel-rapl:") {
        return None;
    }
    let parts: Vec<Vec<char>> = split(&chars_of(file_name), ':');
    assert(views(parts@).len() == parts@.len());
    if parts.len() != depth {
        return None;
    }
    match parse_number(&parts[1], 255) {
        Some(n) => Some(n as u8),
        None => None,
    }
}

/// The socket whose package zone an entry is.
pub open spec fn package_socket(e: PowercapEntry) -> Option<int> {
    if e.has_energy {
        zone_socket(e.file_name@, 2)
    } else {
        None
    }
}

/// The socket whose DRAM zone an entry is.
pub open spec fn dram_socket(e: PowercapEntry) -> Option<int> {
    if e.has_energy && e.name_text is Some && trimmed(e.name_text->0@) == "dram"@ {
        zone_socket(e.file_name@, 3)
    } else {
        None
    }
}

/// Whether `s` is the source of the entry `e` on `socket`.
pub open spec fn is_source_of(
    s: RaplSource,
    e: PowercapEntry,
    socket: Option<int>,
    domain: Seq<char>,
    component: Component,
) -> bool {
    socket is Some && s.is_zone(
        domain,
        socket->0 as u8,
        e.path@,
        component,
        text_view(e.max_text),
        text_view(e.name_text),
    )
}

/// The entries that are package zones, in order.
pub open spec fn package_entries(entries: Seq<PowercapEntry>) -> Seq<PowercapEntry> {
    entries.filter(|e: PowercapEntry| package_socket(e) is Some)
}

/// The entries that are DRAM zones, in order.
pub open spec fn dram_entries(entries: Seq<PowercapEntry>) -> Seq<PowercapEntry> {
    entries.filter(|e: PowercapEntry| dram_socket(e) is Some)
}

impl Ranked for RaplSource {
    open spec fn rank(&self) -> int {
        self.socket as int
    }

    fn ranks_below(&self, other: &Self) -> (r: bool) {
        self.socket <= other.socket
    }
}

/// The sources of package zones, each in the place of its entry.
pub open spec fn are_packages(sources: Seq<RaplSource>, zones: Seq<PowercapEntry>) -> bool {
    sources.len() == zones.len() && forall|i: int|
        0 <= i < zones.len() ==> is_source_of(
            #[trigger] sources[i],
            zones[i],
            package_socket(zones[i]),
            "package"@,
            Component::Cpu,
        )
}

/// The sources of DRAM zones, each in the place of its entry.
pub open spec fn are_drams(sources: Seq<RaplSource>, zones: Seq<PowercapEntry>) -> bool {
    sources.len() == zones.len() && forall|i: int|
        0 <= i < zones.len() ==> is_source_of(
            #[trigger] sources[i],
            zones[i],
            dram_socket(zones[i]),
            "dram"@,
            Component::Memory,
        )
}

/// Makes a source of each package zone, in order of sockets. The entries are those of the power
/// capping directory, or none where there is no such directory.
pub fn discover(entries: &Option<Vec<PowercapEntry>>) -> (r: Result<Vec<RaplSource>, SourceError>)
    ensures
        match r {
            Ok(v) => entries is Some && package_entries(entries->0@).len() > 0 && exists|
                found: Seq<RaplSource>,
            | #[trigger]
                are_packages(found, package_entries(entries->0@)) && v@ == sorted(found),
            Err(e) => e.fault() == Fault::Unavailable && (if entries is None {
                e.message() == "/sys/class/powercap not found (no RAPL support)"@
            } else {
                package_entries(entries->0@).len() == 0 && e.message()
                    == "No RAPL package domains found"@
            }),
        },
{
    let entries: &Vec<PowercapEntry> = match entries {
        Some(v) => v,
        None => {
            return Err(
                SourceError::Unavailable(
                    "/sys/class/powercap not found (no RAPL support)".to_owned(),
                ),
            );
        },
    };
    let mut v: Vec<RaplSource> = Vec::new();
    let ghost mut found: Seq<RaplSource> = Seq::empty();
    let ghost keep = |e: PowercapEntry| package_socket(e) is Some;
    let mut i: usize = 0;
    proof {
        reveal(Seq::filter);
        assert(entries@.take(0).filter(keep) =~= Seq::empty());
    }
    while i < entries.len()
        invariant
            i <= entries@.len(),
            keep == (|e: PowercapEntry| package_socket(e) is Some),
            are_packages(found, entries@.take(i as int).filter(keep)),
            v@ == sorted(found),
        decreases entries@.len() - i,
    {
        let entry: &PowercapEntry = &entries[i];
        let ghost before = entries@.take(i as int).filter(keep);
        proof {
            reveal(Seq::filter);
            assert(entries@.take(i + 1).drop_last() =~= entries@.take(i as int));
        }
        if entry.has_energy {
            if let Some(socket) = read_zone_socket(entry.file_name.as_str(), 2) {
                let source: RaplSource = RaplSource::new(
                    "package",
                    socket,
                    entry.path.as_str(),
                    Component::Cpu,
                    &entry.max_text,
                    &entry.name_text,
                );
                proof {
                    let next = found.push(source);
                    assert(next.drop_last() =~= found);
                    found = next;
                    assert(entries@.take(i + 1).filter(keep) =~= before.push(*entry));
                }
                insert_ranked(&mut v, source);
            }
        }
        i = i + 1;
    }
    assert(entries@.take(i as int) =~= entries@);
    assert(package_entries(entries@) == entries@.filter(keep));
    if v.len() == 0 {
        proof {
            law_sorted(found);
        }
        return Err(SourceError::Unavailable("No RAPL package domains found".to_owned()));
    }
    proof {
        law_sorted(found);
    }
    Ok(v)
}

/// Makes a source of each DRAM zone, in the order of the entries.
pub fn discover_dram(entries: &Option<Vec<PowercapEntry>>) -> (r: Result<
    Vec<RaplSource>,
    SourceError,
>)
    ensures
        match r {
            Ok(v) => entries is Some && dram_entries(entries->0@).len() > 0 && are_drams(
                v@,
                dram_entries(entries->0@),
            ),
            Err(e) => e.fault() == Fault::Unavailable && (if entries is None {
                e.message() == "no powercap"@
            } else {
                dram_entries(entries->0@).len() == 0 && e.message()
                    == "No RAPL DRAM domains found"@
            }),
        },
{
    let entries: &Vec<PowercapEntry> = match entries {
        Some(v) => v,
        None => {
            return Err(SourceError::Unavailable("no powercap".to_owned()));
        },
    };
    let mut v: Vec<RaplSource> = Vec::new();
    let ghost keep = |e: PowercapEntry| dram_socket(e) is Some;
    let mut i: usize = 0;
    proof {
        reveal(Seq::filter);
        assert(entries@.take(0).filter(keep) =~= Seq::empty());
    }
    while i < entries.len()
        invariant
            i <= entries@.len(),
            keep == (|e: PowercapEntry| dram_socket(e) is Some),
            are_drams(v@, entries@.take(i as int).filter(keep)),
        decreases entries@.len() - i,
    {
        let entry: &PowercapEntry = &entries[i];
        let ghost before = entries@.take(i as int).filter(keep);
        proof {
            reveal(Seq::filter);
            assert(entries@.take(i + 1).drop_last() =~= entries@.take(i as int));
        }
        let is_dram: bool = match &entry.name_text {
            Some(s) => same(whole_text(&trim(&chars_of(s.as_str()))).as_str(), "dram"),
            None => false,
        };
        if entry.has_energy && is_dram {
            if let Some(socket) = read_zone_socket(entry.file_name.as_str(), 3) {
                v.push(
                    RaplSource::new(
                        "dram",
                        socket,
                        entry.path.as_str(),
                        Component::Memory,
                        &entry.max_text,
                        &entry.name_text,
                    ),
                );
                assert(entries@.take(i + 1).filter(keep) =~= before.push(*entry));
            }
        }
        i = i + 1;
    }
    assert(entries@.take(i as int) =~= entries@);
    assert(dram_entries(entries@) == entries@.filter(keep));
    if v.len() == 0 {
        return Err(SourceError::Unavailable("No RAPL DRAM domains found".to_owned()));
    }
    Ok(v)
}

// ─── What zones tell ────────────────────────────────────────────

/// A zone's reading is the energy that its counter's file tells, with the counter's range and no
/// power; a file that cannot be read, or that holds no number, gives none.
pub proof fn law_zone_reading(s: RaplSource, n: u64, a: Seq<char>, b: Seq<char>)
    requires
        blank(a),
        blank(b),
    ensures
        match s.outcome(seq![Some(a + decimal(n as int) + b)]) {
            Ok(q) => q.energy_uj == Some(n) && q.power_uw is None && q.max_energy_uj
                == s.max_energy_uj,
            Err(_) => false,
        },
        s.outcome(seq![None]) is Err,
{
    law_number_in_file(a, n as int, b);
}

/// A zone's range is what its file tells; one whose range cannot be read has none.
pub proof fn law_zone_range(n: u64, a: Seq<char>, b: Seq<char>)
    requires
        blank(a),
        blank(b),
    ensures
        zone_max(Some(a + decimal(n as int) + b)) == n,
        zone_max(None) == 0,
{
    law_number_in_file(a, n as int, b);
}

/// A package's directory has the socket's number behind its first colon and no more; one of a part
/// of a package has the part's number behind a second colon. The socket is that of the package.
pub proof fn law_zone_names(socket: u8, part: u64)
    ensures
        ({
            let package = "intel-rapl:"@ + decimal(socket as int);
            let sub = package.push(':') + decimal(part as int);
            &&& zone_socket(package, 2) == Some(socket as int)
            &&& zone_socket(package, 3) is None
            &&& zone_socket(sub, 3) == Some(socket as int)
            &&& zone_socket(sub, 2) is None
        }),
{
    reveal_strlit("intel-rapl:");
    let start = "intel-rapl:"@;
    let front = start.drop_last();
    let d = decimal(socket as int);
    let e = decimal(part as int);
    let package = start + d;
    let sub = package.push(':') + e;
    law_decimal_reads_back(socket as int, u8::MAX as int);
    law_decimal_reads_back(part as int, u8::MAX as int);
    assert(!front.contains(':'));
    assert(!d.contains(':')) by {
        if d.contains(':') {
            let i = d.index_of(':');
            assert(is_digit(d[i]));
        }
    }
    assert(!e.contains(':')) by {
        if e.contains(':') {
            let i = e.index_of(':');
            assert(is_digit(e[i]));
        }
    }
    assert(package =~= front.push(':') + d);
    assert(sub =~= front.push(':') + (d.push(':') + e));
    law_split(front, ':', d);
    law_split(front, ':', d.push(':') + e);
    law_split(d, ':', e);
    law_split(e, ':', e);
    assert(split_on(package, ':') =~= seq![front, d]);
    assert(split_on(sub, ':') =~= seq![front, d, e]);
    law_part_is_found(Seq::empty(), start, d);
    law_part_is_found(Seq::empty(), start, d.push(':') + e);
    assert(sub =~= start + (d.push(':') + e));
}

/// The sources of packages are one for each entry that is a package's zone and has a counter: its
/// path and its range are the entry's, it is of the processor and of the socket that the name
/// tells. Those of memory are of entries named dram, of parts of packages.
pub proof fn law_sources_of_zones(
    packages: Seq<RaplSource>,
    drams: Seq<RaplSource>,
    entries: Seq<PowercapEntry>,
)
    requires
        are_packages(packages, package_entries(entries)),
        are_drams(drams, dram_entries(entries)),
    ensures
        packages.len() == sum_of(
            entries,
            |e: PowercapEntry|
                if e.has_energy && zone_socket(e.file_name@, 2) is Some {
                    1
                } else {
                    0
                },
        ),
        drams.len() == sum_of(
            entries,
            |e: PowercapEntry|
                if e.has_energy && e.name_text is Some && trimmed(e.name_text->0@) == "dram"@
                    && zone_socket(e.file_name@, 3) is Some {
                    1
                } else {
                    0
                },
        ),
        forall|i: int|
            0 <= i < packages.len() ==> (#[trigger] packages[i]).component == Component::Cpu,
        forall|i: int| 0 <= i < drams.len() ==> (#[trigger] drams[i]).component
            == Component::Memory,
        forall|i: int|
            0 <= i < packages.len() ==> exists|e: PowercapEntry|
                {
                    &&& #[trigger] entries.contains(e)
                    &&& e.has_energy
                    &&& zone_socket(e.file_name@, 2) == Some(
                        (#[trigger] packages[i]).socket as int,
                    )
                    &&& packages[i].path@ == e.path@
                    &&& packages[i].max_energy_uj == zone_max(text_view(e.max_text))
                },
        forall|i: int|
            0 <= i < drams.len() ==> exists|e: PowercapEntry|
                {
                    &&& #[trigger] entries.contains(e)
                    &&& e.has_energy
                    &&& zone_socket(e.file_name@, 3) == Some((#[trigger] drams[i]).socket as int)
                    &&& drams[i].path@ == e.path@
                    &&& drams[i].max_energy_uj == zone_max(text_view(e.max_text))
                },
{
    let p = |e: PowercapEntry| package_socket(e) is Some;
    let q = |e: PowercapEntry| dram_socket(e) is Some;
    let one = |e: PowercapEntry| 1int;
    let f = |e: PowercapEntry|
        if e.has_energy && zone_socket(e.file_name@, 2) is Some {
            1int
        } else {
            0
        };
    let g = |e: PowercapEntry|
        if e.has_energy && e.name_text is Some && trimmed(e.name_text->0@) == "dram"@
            && zone_socket(e.file_name@, 3) is Some {
            1int
        } else {
            0
        };
    lemma_sum_filter(entries, p, one, f);
    lemma_sum_filter(entries, q, one, g);
    lemma_sum_count(package_entries(entries), one);
    lemma_sum_count(dram_entries(entries), one);
    lemma_filter(entries, p);
    lemma_filter(entries, q);
    let zones = package_entries(entries);
    let parts = dram_entries(entries);
    assert forall|i: int| 0 <= i < packages.len() implies exists|e: PowercapEntry|
        {
            &&& #[trigger] entries.contains(e)
            &&& e.has_energy
            &&& zone_socket(e.file_name@, 2) == Some((#[trigger] packages[i]).socket as int)
            &&& packages[i].path@ == e.path@
            &&& packages[i].max_energy_uj == zone_max(text_view(e.max_text))
        } by {
        assert(is_source_of(
            packages[i],
            zones[i],
            package_socket(zones[i]),
            "package"@,
            Component::Cpu,
        ));
        assert(p(zones[i]) && entries.contains(zones[i]));
        lemma_socket_fits(zones[i].file_name@, 2);
    }
    assert forall|i: int| 0 <= i < drams.len() implies exists|e: PowercapEntry|
        {
            &&& #[trigger] entries.contains(e)
            &&& e.has_energy
            &&& zone_socket(e.file_name@, 3) == Some((#[trigger] drams[i]).socket as int)
            &&& drams[i].path@ == e.path@
            &&& drams[i].max_energy_uj == zone_max(text_view(e.max_text))
        } by {
        assert(is_source_of(
            drams[i],
            parts[i],
            dram_socket(parts[i]),
            "dram"@,
            Component::Memory,
        ));
        assert(q(parts[i]) && entries.contains(parts[i]));
        lemma_socket_fits(parts[i].file_name@, 3);
    }
    assert forall|i: int| 0 <= i < packages.len() implies (#[trigger] packages[i]).component
        == Component::Cpu by {
        assert(is_source_of(
            packages[i],
            zones[i],
            package_socket(zones[i]),
            "package"@,
            Component::Cpu,
        ));
    }
    assert forall|i: int| 0 <= i < drams.len() implies (#[trigger] drams[i]).component
        == Component::Memory by {
        assert(is_source_of(
            drams[i],
            parts[i],
            dram_socket(parts[i]),
            "dram"@,
            Component::Memory,
        ));
    }
}

proof fn lemma_socket_fits(name: Seq<char>, depth: int)
    ensures
        zone_socket(name, depth) matches Some(n) ==> 0 <= n <= u8::MAX,
{
    if zone_socket(name, depth) is Some {
        let d = unsigned_part(split_on(name, ':')[1]);
        lemma_digits_natural(d);
    }
}

} // verus!
