//! Power sources and their readings.
//!
//! A source names the files or addresses that it needs read, and makes a reading of their texts.

pub use crate::attribution::types::{Component, ReadingType};
use crate::text::{
    blank, chars_of, decimal, is_digit, joined, law_decimal_reads_back, law_trimmed, number_of,
    parse_number, trim, trimmed,
};
use vstd::prelude::*;

verus! {

impl Component {
    /// The component's name.
    pub open spec fn text(self) -> Seq<char> {
        match self {
            Component::Cpu => "cpu"@,
            Component::Memory => "memory"@,
            Component::Gpu => "gpu"@,
            Component::Nic => "nic"@,
            Component::Storage => "storage"@,
            Component::Fan => "fan"@,
            Component::Platform => "platform"@,
        }
    }

    pub fn name(&self) -> (r: &'static str)
        ensures
            r@ == self.text(),
    {
        match self {
            Component::Cpu => "cpu",
            Component::Memory => "memory",
            Component::Gpu => "gpu",
            Component::Nic => "nic",
            Component::Storage => "storage",
            Component::Fan => "fan",
            Component::Platform => "platform",
        }
    }
}

impl ReadingType {
    /// The reading type's name.
    pub open spec fn text(self) -> Seq<char> {
        match self {
            ReadingType::Measured => "measured"@,
            ReadingType::Estimated => "estimated"@,
            ReadingType::Derived => "derived"@,
        }
    }

    pub fn name(&self) -> (r: &'static str)
        ensures
            r@ == self.text(),
    {
        match self {
            ReadingType::Measured => "measured",
            ReadingType::Estimated => "estimated",
            ReadingType::Derived => "derived",
        }
    }

    /// How far a reading type is preferred: a measurement over an estimate, an estimate over what
    /// was calculated.
    pub open spec fn rank(self) -> int {
        match self {
            ReadingType::Measured => 3,
            ReadingType::Estimated => 2,
            ReadingType::Derived => 1,
        }
    }
}

/// At what physical level a reading is taken.
#[derive(Clone, Copy, Debug, PartialEq, Eq, Structural)]
pub enum Granularity {
    /// Whole server
    Node,
    /// CPU socket (index 0..N)
    Socket(u8),
    /// Individual core (socket, core)
    Core(u8, u16),
    /// Discrete device (GPU 0, NIC 1, etc.)
    Device(u8),
}

/// Unique identifier for a power source.
#[derive(Debug)]
pub struct SourceId(pub String);

impl Clone for SourceId {
    fn clone(&self) -> (r: Self)
        ensures
            r == *self,
    {
        SourceId(self.0.clone())
    }
}

/// A single power/energy reading from hardware: an energy counter, or power, or both.
#[derive(Debug)]
pub struct PowerReading {
    pub source_id: SourceId,
    /// Nanoseconds on a monotonic clock
    pub timestamp_ns: u64,
    pub component: Component,
    pub granularity: Granularity,
    pub reading_type: ReadingType,
    /// Cumulative energy counter in microjoules, of counter-based sources
    pub energy_uj: Option<u64>,
    /// Instantaneous power in microwatts, of power-based sources
    pub power_uw: Option<u64>,
    /// Counter max before wraparound; 0 if not applicable
    pub max_energy_uj: u64,
}

/// Errors from power source operations.
#[derive(Debug)]
pub enum SourceError {
    Unavailable(String),
    PermissionDenied(String),
    Read(String),
    Parse(String),
}

/// The kinds of [`SourceError`].
#[derive(Clone, Copy, Debug, PartialEq, Eq, Structural)]
pub enum Fault {
    Unavailable,
    PermissionDenied,
    Read,
    Parse,
}

impl SourceError {
    pub open spec fn fault(self) -> Fault {
        match self {
            SourceError::Unavailable(_) => Fault::Unavailable,
            SourceError::PermissionDenied(_) => Fault::PermissionDenied,
            SourceError::Read(_) => Fault::Read,
            SourceError::Parse(_) => Fault::Parse,
        }
    }

    /// What the error says.
    pub open spec fn message(self) -> Seq<char> {
        match self {
            SourceError::Unavailable(s) => s@,
            SourceError::PermissionDenied(s) => s@,
            SourceError::Read(s) => s@,
            SourceError::Parse(s) => s@,
        }
    }
}

/// What is known of a source before it is read.
pub struct SourceFacts {
    pub id: Seq<char>,
    pub name: Seq<char>,
    pub component: Component,
    pub granularity: Granularity,
    pub reading_type: ReadingType,
    pub poll_interval_ns: u64,
}

/// The numbers of a reading.
pub struct Quantities {
    pub energy_uj: Option<u64>,
    pub power_uw: Option<u64>,
    pub max_energy_uj: u64,
}

/// The texts that were read; those that could not be read are missing.
pub open spec fn texts(raw: Seq<Option<String>>) -> Seq<Option<Seq<char>>> {
    raw.map_values(
        |t: Option<String>|
            match t {
                Some(s) => Some(s@),
                None => None,
            },
    )
}

/// The texts that strings hold.
pub open spec fn text_views(v: Seq<String>) -> Seq<Seq<char>> {
    v.map_values(|s: String| s@)
}

/// Whether `p` is a reading of the source with these facts.
pub open spec fn is_reading(p: PowerReading, facts: SourceFacts, q: Quantities, now_ns: u64) -> bool {
    &&& p.source_id.0@ == facts.id
    &&& p.timestamp_ns == now_ns
    &&& p.component == facts.component
    &&& p.granularity == facts.granularity
    &&& p.reading_type == facts.reading_type
    &&& p.energy_uj == q.energy_uj
    &&& p.power_uw == q.power_uw
    &&& p.max_energy_uj == q.max_energy_uj
}

/// A hardware power source that can be read.
pub trait PowerSource {
    /// What is known of the source.
    spec fn facts(&self) -> SourceFacts;

    /// The files or addresses that have to be read.
    spec fn wanted(&self) -> Seq<Seq<char>>;

    /// What the texts say.
    spec fn outcome(&self, raw: Seq<Option<Seq<char>>>) -> Result<Quantities, Fault>;

    /// Unique identifier (e.g., "rapl:package:0")
    fn id(&self) -> (r: &SourceId)
        ensures
            r.0@ == self.facts().id,
    ;

    /// Human-readable name
    fn name(&self) -> (r: &str)
        ensures
            r@ == self.facts().name,
    ;

    fn component(&self) -> (r: Component)
        ensures
            r == self.facts().component,
    ;

    fn granularity(&self) -> (r: Granularity)
        ensures
            r == self.facts().granularity,
    ;

    fn reading_type(&self) -> (r: ReadingType)
        ensures
            r == self.facts().reading_type,
    ;

    /// Default polling interval, in nanoseconds
    fn default_poll_interval(&self) -> (r: u64)
        ensures
            r == self.facts().poll_interval_ns,
    ;

    /// The files or addresses that have to be read, in the order in which [`Self::read`] takes
    /// their texts
    fn inputs(&self) -> (r: Vec<String>)
        ensures
            text_views(r@) == self.wanted(),
    ;

    /// Makes a reading of the texts
    fn read(&self, raw: &Vec<Option<String>>, now_ns: u64) -> (r: Result<PowerReading, SourceError>)
        requires
            raw@.len() == self.wanted().len(),
        ensures
            match r {
                Ok(p) => self.outcome(texts(raw@)) is Ok && is_reading(
                    p,
                    self.facts(),
                    self.outcome(texts(raw@))->Ok_0,
                    now_ns,
                ),
                Err(e) => self.outcome(texts(raw@)) == Err::<Quantities, Fault>(e.fault()),
            },
    ;
}

/// The number that a file holds, with white space around it.
pub open spec fn file_number(content: Option<Seq<char>>) -> Result<u64, Fault> {
    match content {
        None => Err(Fault::Read),
        Some(s) => match number_of(trimmed(s), u64::MAX as int) {
            Some(n) => Ok(n as u64),
            None => Err(Fault::Parse),
        },
    }
}

/// Reads a number from a file's text.
pub fn read_u64_file(path: &str, content: Option<&str>) -> (r: Result<u64, SourceError>)
    ensures
        match r {
            Ok(n) => file_number(
                match content {
                    Some(s) => Some(s@),
                    None => None,
                },
            ) == Ok::<u64, Fault>(n),
            Err(e) => file_number(
                match content {
                    Some(s) => Some(s@),
                    None => None,
                },
            ) == Err::<u64, Fault>(e.fault()) && e.message() == if content is Some {
                path@ + ": not a number"@
            } else {
                path@
            },
        },
{
    match content {
        None => Err(SourceError::Read(path.to_owned())),
        Some(s) => match parse_number(&trim(&chars_of(s)), 0xffff_ffff_ffff_ffff) {
            Some(n) => Ok(n),
            None => Err(SourceError::Parse(joined(path, ": not a number"))),
        },
    }
}

/// The text at one place, if it was read.
pub fn raw_text(raw: &Vec<Option<String>>, i: usize) -> (r: Option<&str>)
    requires
        i < raw@.len(),
    ensures
        texts(raw@)[i as int] == match r {
            Some(s) => Some(s@),
            None => None,
        },
{
    match &raw[i] {
        Some(s) => Some(s.as_str()),
        None => None,
    }
}

/// A number that stands in a file, whatever white space is around it, is read as it is, as far as
/// 64 bits hold it. A file that cannot be read is a fault of reading, any other text one of
/// parsing.
pub proof fn law_number_in_file(a: Seq<char>, n: int, b: Seq<char>)
    requires
        blank(a),
        blank(b),
        0 <= n,
    ensures
        n <= u64::MAX ==> file_number(Some(a + decimal(n) + b)) == Ok::<u64, Fault>(n as u64),
        n > u64::MAX ==> file_number(Some(a + decimal(n) + b)) == Err::<u64, Fault>(Fault::Parse),
        file_number(None) == Err::<u64, Fault>(Fault::Read),
{
    law_decimal_reads_back(n, u64::MAX as int);
    let d = decimal(n);
    assert(is_digit(d[0]));
    assert(is_digit(d[d.len() - 1]));
    law_trimmed(a, d, b);
}

/// What is measured counts for more than what is estimated, and that for more than what is
/// derived.
pub proof fn law_reading_types_rank()
    ensures
        ReadingType::Measured.rank() > ReadingType::Estimated.rank(),
        ReadingType::Estimated.rank() > ReadingType::Derived.rank(),
        ReadingType::Derived.rank() > 0,
{
}

} // verus!
