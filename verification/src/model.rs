//! Canonical observation vocabulary.
//!
//! Every metric is an [`Observation`]: either a value with its source
//! observation time or exactly one explicit [`ObservationState`]. The
//! string-backed vocabularies keep unknown future names verbatim instead of
//! collapsing them into a known default.
use vstd::prelude::*;
use crate::text::{
    chars_of, string_of, same_text, is_hex_digit, char_is_hex_digit, hex_padded, push_hex_padded,
    pow16, is_lower_hex, lemma_hex_padded, lemma_hex_chars,
};

verus! {

/// A UTC wall-clock instant, in nanoseconds since the Unix epoch.
#[derive(Debug, Clone, Copy, PartialEq, Eq, Structural, PartialOrd, Ord, Hash)]
pub struct Timestamp {
    pub unix_nanos: i128,
}

impl Timestamp {
    /// The instant `unix_nanos` nanoseconds after the Unix epoch.
    pub fn from_unix_nanos(unix_nanos: i128) -> (t: Timestamp)
        ensures
            t.unix_nanos == unix_nanos,
    {
        Timestamp { unix_nanos }
    }

    /// Captures the current wall-clock time (`OffsetDateTime::now_utc`).
    /// Nothing is claimed of the instant returned: it is the machine's clock.
    #[verifier::external_body]
    pub fn now() -> Timestamp {
        Timestamp { unix_nanos: time::OffsetDateTime::now_utc().unix_timestamp_nanos() }
    }
}

// ---------------------------------------------------------------------------
// String-backed vocabularies
// ---------------------------------------------------------------------------

/// Why an observation has no current numeric value.
#[derive(Debug, PartialEq, Eq, Hash)]
pub enum ObservationState {
    /// Unsupported by the source, a documented sentinel, or structurally
    /// inapplicable to this hardware/topology.
    UnsupportedHardware,
    /// An explicit driver, ABI, or layout mismatch prevents interpretation.
    UnsupportedDriverVersion,
    /// The active source exists but access is denied.
    PermissionDenied,
    /// Runtime-suspended amdgpu denied a read; polling must not wake it.
    Asleep,
    /// Owned and reported at the primary XCP scope.
    ReportedByPrimaryPartition,
    /// A previously good observation exceeded its freshness threshold.
    Stale,
    /// The source failed, timed out, or returned malformed data.
    SourceError,
    /// A state name this build does not know, kept verbatim.
    Other(String),
}

impl ObservationState {
    pub const UNSUPPORTED_HARDWARE: ObservationState = ObservationState::UnsupportedHardware;
    pub const UNSUPPORTED_DRIVER_VERSION: ObservationState =
        ObservationState::UnsupportedDriverVersion;
    pub const PERMISSION_DENIED: ObservationState = ObservationState::PermissionDenied;
    pub const ASLEEP: ObservationState = ObservationState::Asleep;
    pub const REPORTED_BY_PRIMARY_PARTITION: ObservationState =
        ObservationState::ReportedByPrimaryPartition;
    pub const STALE: ObservationState = ObservationState::Stale;
    pub const SOURCE_ERROR: ObservationState = ObservationState::SourceError;

    /// The canonical wire name.
    pub open spec fn name(self) -> Seq<char> {
        match self {
            ObservationState::UnsupportedHardware => "unsupported_hardware"@,
            ObservationState::UnsupportedDriverVersion => "unsupported_driver_version"@,
            ObservationState::PermissionDenied => "permission_denied"@,
            ObservationState::Asleep => "asleep"@,
            ObservationState::ReportedByPrimaryPartition => "reported_by_primary_partition"@,
            ObservationState::Stale => "stale"@,
            ObservationState::SourceError => "source_error"@,
            ObservationState::Other(s) => s@,
        }
    }

    /// An unknown name never spells a known state.
    pub open spec fn canonical(self) -> bool {
        match self {
            ObservationState::Other(s) => {
                &&& s@ != "unsupported_hardware"@
                &&& s@ != "unsupported_driver_version"@
                &&& s@ != "permission_denied"@
                &&& s@ != "asleep"@
                &&& s@ != "reported_by_primary_partition"@
                &&& s@ != "stale"@
                &&& s@ != "source_error"@
            },
            _ => true,
        }
    }

    /// Wraps a state name, preserving unknown future values.
    pub fn new(value: &str) -> (r: Self)
        ensures
            r.name() == value@,
            r.canonical(),
    {
        if same_text(value, "unsupported_hardware") {
            ObservationState::UnsupportedHardware
        } else if same_text(value, "unsupported_driver_version") {
            ObservationState::UnsupportedDriverVersion
        } else if same_text(value, "permission_denied") {
            ObservationState::PermissionDenied
        } else if same_text(value, "asleep") {
            ObservationState::Asleep
        } else if same_text(value, "reported_by_primary_partition") {
            ObservationState::ReportedByPrimaryPartition
        } else if same_text(value, "stale") {
            ObservationState::Stale
        } else if same_text(value, "source_error") {
            ObservationState::SourceError
        } else {
            ObservationState::Other(value.to_owned())
        }
    }

    /// The canonical string form.
    pub fn as_str(&self) -> (r: &str)
        ensures
            r@ == self.name(),
    {
        match self {
            ObservationState::UnsupportedHardware => "unsupported_hardware",
            ObservationState::UnsupportedDriverVersion => "unsupported_driver_version",
            ObservationState::PermissionDenied => "permission_denied",
            ObservationState::Asleep => "asleep",
            ObservationState::ReportedByPrimaryPartition => "reported_by_primary_partition",
            ObservationState::Stale => "stale",
            ObservationState::SourceError => "source_error",
            ObservationState::Other(s) => s.as_str(),
        }
    }
}

impl Clone for ObservationState {
    fn clone(&self) -> (r: Self)
        ensures
            r == *self,
    {
        match self {
            ObservationState::UnsupportedHardware => ObservationState::UnsupportedHardware,
            ObservationState::UnsupportedDriverVersion => ObservationState::UnsupportedDriverVersion,
            ObservationState::PermissionDenied => ObservationState::PermissionDenied,
            ObservationState::Asleep => ObservationState::Asleep,
            ObservationState::ReportedByPrimaryPartition => {
                ObservationState::ReportedByPrimaryPartition
            },
            ObservationState::Stale => ObservationState::Stale,
            ObservationState::SourceError => ObservationState::SourceError,
            ObservationState::Other(s) => ObservationState::Other(s.clone()),
        }
    }
}

/// Priority class of the highest-priority source-backed health condition.
#[derive(Debug, PartialEq, Eq, Hash)]
pub enum HealthCategory {
    /// Uncorrectable fault, reset-required state, or severe RAS condition.
    Fault,
    /// Active thermal, power, current, or other source-reported throttle.
    Throttle,
    /// A source-reported limit being reached.
    Limit,
    /// Telemetry unavailable, stale, permission-limited, or asleep.
    Telemetry,
    /// Source-reported memory allocation pressure or failure.
    MemoryPressure,
    /// No active limits or faults.
    Normal,
    /// A category name this build does not know, kept verbatim.
    Other(String),
}

impl HealthCategory {
    pub const FAULT: HealthCategory = HealthCategory::Fault;
    pub const THROTTLE: HealthCategory = HealthCategory::Throttle;
    pub const LIMIT: HealthCategory = HealthCategory::Limit;
    pub const TELEMETRY: HealthCategory = HealthCategory::Telemetry;
    pub const MEMORY_PRESSURE: HealthCategory = HealthCategory::MemoryPressure;
    pub const NONE: HealthCategory = HealthCategory::Normal;

    /// The canonical wire name.
    pub open spec fn name(self) -> Seq<char> {
        match self {
            HealthCategory::Fault => "fault"@,
            HealthCategory::Throttle => "throttle"@,
            HealthCategory::Limit => "limit"@,
            HealthCategory::Telemetry => "telemetry"@,
            HealthCategory::MemoryPressure => "memory_pressure"@,
            HealthCategory::Normal => "none"@,
            HealthCategory::Other(s) => s@,
        }
    }

    /// An unknown name never spells a known category.
    pub open spec fn canonical(self) -> bool {
        match self {
            HealthCategory::Other(s) => {
                &&& s@ != "fault"@
                &&& s@ != "throttle"@
                &&& s@ != "limit"@
                &&& s@ != "telemetry"@
                &&& s@ != "memory_pressure"@
                &&& s@ != "none"@
            },
            _ => true,
        }
    }

    /// Wraps a category name, preserving unknown future values.
    pub fn new(value: &str) -> (r: Self)
        ensures
            r.name() == value@,
            r.canonical(),
    {
        if same_text(value, "fault") {
            HealthCategory::Fault
        } else if same_text(value, "throttle") {
            HealthCategory::Throttle
        } else if same_text(value, "limit") {
            HealthCategory::Limit
        } else if same_text(value, "telemetry") {
            HealthCategory::Telemetry
        } else if same_text(value, "memory_pressure") {
            HealthCategory::MemoryPressure
        } else if same_text(value, "none") {
            HealthCategory::Normal
        } else {
            HealthCategory::Other(value.to_owned())
        }
    }

    /// The canonical string form.
    pub fn as_str(&self) -> (r: &str)
        ensures
            r@ == self.name(),
    {
        match self {
            HealthCategory::Fault => "fault",
            HealthCategory::Throttle => "throttle",
            HealthCategory::Limit => "limit",
            HealthCategory::Telemetry => "telemetry",
            HealthCategory::MemoryPressure => "memory_pressure",
            HealthCategory::Normal => "none",
            HealthCategory::Other(s) => s.as_str(),
        }
    }
}

impl Clone for HealthCategory {
    fn clone(&self) -> (r: Self)
        ensures
            r == *self,
    {
        match self {
            HealthCategory::Fault => HealthCategory::Fault,
            HealthCategory::Throttle => HealthCategory::Throttle,
            HealthCategory::Limit => HealthCategory::Limit,
            HealthCategory::Telemetry => HealthCategory::Telemetry,
            HealthCategory::MemoryPressure => HealthCategory::MemoryPressure,
            HealthCategory::Normal => HealthCategory::Normal,
            HealthCategory::Other(s) => HealthCategory::Other(s.clone()),
        }
    }
}

/// The applicable GPU memory pool.
#[derive(Debug, PartialEq, Eq, Hash)]
pub enum MemoryPool {
    /// Dedicated VRAM on a discrete GPU.
    Vram,
    /// Explicitly shared memory on an APU.
    Shared,
    /// GTT memory on an APU.
    Gtt,
    /// A pool name this build does not know, kept verbatim.
    Other(String),
}

impl MemoryPool {
    pub const VRAM: MemoryPool = MemoryPool::Vram;
    pub const SHARED: MemoryPool = MemoryPool::Shared;
    pub const GTT: MemoryPool = MemoryPool::Gtt;

    /// The canonical wire name.
    pub open spec fn name(self) -> Seq<char> {
        match self {
            MemoryPool::Vram => "vram"@,
            MemoryPool::Shared => "shared"@,
            MemoryPool::Gtt => "gtt"@,
            MemoryPool::Other(s) => s@,
        }
    }

    /// An unknown name never spells a known pool.
    pub open spec fn canonical(self) -> bool {
        match self {
            MemoryPool::Other(s) => s@ != "vram"@ && s@ != "shared"@ && s@ != "gtt"@,
            _ => true,
        }
    }

    /// Wraps a pool name, preserving unknown future values.
    pub fn new(value: &str) -> (r: Self)
        ensures
            r.name() == value@,
            r.canonical(),
    {
        if same_text(value, "vram") {
            MemoryPool::Vram
        } else if same_text(value, "shared") {
            MemoryPool::Shared
        } else if same_text(value, "gtt") {
            MemoryPool::Gtt
        } else {
            MemoryPool::Other(value.to_owned())
        }
    }

    /// The canonical string form.
    pub fn as_str(&self) -> (r: &str)
        ensures
            r@ == self.name(),
    {
        match self {
            MemoryPool::Vram => "vram",
            MemoryPool::Shared => "shared",
            MemoryPool::Gtt => "gtt",
            MemoryPool::Other(s) => s.as_str(),
        }
    }
}

impl Clone for MemoryPool {
    fn clone(&self) -> (r: Self)
        ensures
            r == *self,
    {
        match self {
            MemoryPool::Vram => MemoryPool::Vram,
            MemoryPool::Shared => MemoryPool::Shared,
            MemoryPool::Gtt => MemoryPool::Gtt,
            MemoryPool::Other(s) => MemoryPool::Other(s.clone()),
        }
    }
}

/// The platform family a physical GPU was classified as.
#[derive(Debug, PartialEq, Eq, Hash)]
pub enum PlatformId {
    /// Strix Halo: unified memory despite discrete-looking heap evidence.
    StrixHalo,
    /// An unrecognized APU with unified, GTT-backed memory.
    GenericApu,
    /// An unrecognized discrete GPU with dedicated VRAM.
    GenericDiscrete,
    /// No conclusive evidence.
    Unknown,
    /// A platform name this build does not know, kept verbatim.
    Other(String),
}

impl PlatformId {
    pub const STRIX_HALO: PlatformId = PlatformId::StrixHalo;
    pub const GENERIC_APU: PlatformId = PlatformId::GenericApu;
    pub const GENERIC_DISCRETE: PlatformId = PlatformId::GenericDiscrete;
    pub const UNKNOWN: PlatformId = PlatformId::Unknown;

    /// The canonical wire name.
    pub open spec fn name(self) -> Seq<char> {
        match self {
            PlatformId::StrixHalo => "strix_halo"@,
            PlatformId::GenericApu => "generic_apu"@,
            PlatformId::GenericDiscrete => "generic_discrete"@,
            PlatformId::Unknown => "unknown"@,
            PlatformId::Other(s) => s@,
        }
    }

    /// An unknown name never spells a known platform.
    pub open spec fn canonical(self) -> bool {
        match self {
            PlatformId::Other(s) => {
                &&& s@ != "strix_halo"@
                &&& s@ != "generic_apu"@
                &&& s@ != "generic_discrete"@
                &&& s@ != "unknown"@
            },
            _ => true,
        }
    }

    /// Wraps a platform name, preserving unknown future values.
    pub fn new(value: &str) -> (r: Self)
        ensures
            r.name() == value@,
            r.canonical(),
    {
        if same_text(value, "strix_halo") {
            PlatformId::StrixHalo
        } else if same_text(value, "generic_apu") {
            PlatformId::GenericApu
        } else if same_text(value, "generic_discrete") {
            PlatformId::GenericDiscrete
        } else if same_text(value, "unknown") {
            PlatformId::Unknown
        } else {
            PlatformId::Other(value.to_owned())
        }
    }

    /// The canonical string form.
    pub fn as_str(&self) -> (r: &str)
        ensures
            r@ == self.name(),
    {
        match self {
            PlatformId::StrixHalo => "strix_halo",
            PlatformId::GenericApu => "generic_apu",
            PlatformId::GenericDiscrete => "generic_discrete",
            PlatformId::Unknown => "unknown",
            PlatformId::Other(s) => s.as_str(),
        }
    }
}

impl Clone for PlatformId {
    fn clone(&self) -> (r: Self)
        ensures
            r == *self,
    {
        match self {
            PlatformId::StrixHalo => PlatformId::StrixHalo,
            PlatformId::GenericApu => PlatformId::GenericApu,
            PlatformId::GenericDiscrete => PlatformId::GenericDiscrete,
            PlatformId::Unknown => PlatformId::Unknown,
            PlatformId::Other(s) => PlatformId::Other(s.clone()),
        }
    }
}

/// How one physical GPU was classified: its family and applicable pool.
#[derive(Debug, PartialEq, Eq)]
pub struct Platform {
    pub id: PlatformId,
    pub memory_pool: MemoryPool,
}

impl Platform {
    /// Whether the platform carries an NPU this build reports on. No
    /// classified platform does yet.
    pub fn has_npu(&self) -> (r: bool)
        ensures
            !r,
    {
        false
    }
}

impl Default for Platform {
    /// An unclassified GPU: unknown family, VRAM pool.
    fn default() -> (r: Platform)
        ensures
            r == (Platform { id: PlatformId::Unknown, memory_pool: MemoryPool::Vram }),
    {
        Platform { id: PlatformId::Unknown, memory_pool: MemoryPool::Vram }
    }
}

impl Clone for Platform {
    fn clone(&self) -> (r: Self)
        ensures
            r == *self,
    {
        Platform { id: self.id.clone(), memory_pool: self.memory_pool.clone() }
    }
}

// ---------------------------------------------------------------------------
// Observations
// ---------------------------------------------------------------------------

/// A metric at one hardware scope: a value with its source time or a state.
#[derive(Debug, Clone, PartialEq)]
pub enum Observation<T> {
    /// A current value and when its source observed it.
    Value { value: T, observed_at: Timestamp },
    /// No current value; the state says why. A stale observation keeps the
    /// last good observation time but never its value.
    Unavailable { state: ObservationState, observed_at: Option<Timestamp> },
}

impl<T> Observation<T> {
    /// A current value observed at `observed_at`.
    pub fn value(value: T, observed_at: Timestamp) -> (r: Self)
        ensures
            r == (Observation::Value { value, observed_at }),
    {
        Observation::Value { value, observed_at }
    }

    /// An unavailable observation without a retained time.
    pub fn unavailable(state: ObservationState) -> (r: Self)
        ensures
            r == (Observation::<T>::Unavailable { state, observed_at: None }),
    {
        Observation::Unavailable { state, observed_at: None }
    }

    /// A stale observation retaining the last good observation time and no
    /// value.
    pub fn stale(last_good: Timestamp) -> (r: Self)
        ensures
            r == (Observation::<T>::Unavailable {
                state: ObservationState::Stale,
                observed_at: Some(last_good),
            }),
            r.view_current() is None,
    {
        Observation::Unavailable { state: ObservationState::Stale, observed_at: Some(last_good) }
    }

    /// The current value, if any.
    pub open spec fn view_current(self) -> Option<T> {
        match self {
            Observation::Value { value, .. } => Some(value),
            Observation::Unavailable { .. } => None,
        }
    }

    /// The current value, if one exists.
    pub fn current(&self) -> (r: Option<&T>)
        ensures
            match self {
                Observation::Value { value, .. } => r == Some(value),
                Observation::Unavailable { .. } => r is None,
            },
    {
        match self {
            Observation::Value { value, .. } => Some(value),
            Observation::Unavailable { .. } => None,
        }
    }

    /// The unavailable state, if the observation has no current value.
    pub fn state(&self) -> (r: Option<&ObservationState>)
        ensures
            match self {
                Observation::Value { .. } => r is None,
                Observation::Unavailable { state, .. } => r == Some(state),
            },
    {
        match self {
            Observation::Value { .. } => None,
            Observation::Unavailable { state, .. } => Some(state),
        }
    }

    /// The source observation time, when known (fresh or stale).
    pub fn observed_at(&self) -> (r: Option<Timestamp>)
        ensures
            match self {
                Observation::Value { observed_at, .. } => r == Some(*observed_at),
                Observation::Unavailable { observed_at, .. } => r == *observed_at,
            },
    {
        match self {
            Observation::Value { observed_at, .. } => Some(*observed_at),
            Observation::Unavailable { observed_at, .. } => *observed_at,
        }
    }
}

// ---------------------------------------------------------------------------
// Identities
// ---------------------------------------------------------------------------

/// ASCII lowercase of one character (`char::to_ascii_lowercase`).
pub open spec fn ascii_lower(c: char) -> char {
    if 'A' <= c && c <= 'Z' {
        ((c as u32) + 32) as char
    } else {
        c
    }
}

/// A `dddd:bb:dd.f` address: twelve characters, separators at 4, 7 and 10,
/// hexadecimal digits everywhere else.
pub open spec fn is_bdf_text(s: Seq<char>) -> bool {
    &&& s.len() == 12
    &&& s[4] == ':'
    &&& s[7] == ':'
    &&& s[10] == '.'
    &&& forall|i: int|
        0 <= i < 12 && i != 4 && i != 7 && i != 10 ==> is_hex_digit(#[trigger] s[i])
}

/// The text with every ASCII uppercase letter lowered.
pub open spec fn lowercase(s: Seq<char>) -> Seq<char> {
    s.map_values(|c: char| ascii_lower(c))
}

/// A validated PCI bus/device/function address, e.g. `0000:41:00.0`.
#[derive(Debug, PartialEq, Eq, Hash)]
pub struct PciBdf(String);

impl View for PciBdf {
    type V = Seq<char>;

    closed spec fn view(&self) -> Seq<char> {
        self.0@
    }
}

/// A PCI address that failed [`PciBdf::parse`], holding the rejected text.
#[derive(Debug, Clone, PartialEq, Eq)]
pub struct InvalidPciBdf(String);

impl View for InvalidPciBdf {
    type V = Seq<char>;

    closed spec fn view(&self) -> Seq<char> {
        self.0@
    }
}

impl InvalidPciBdf {
    /// The rejected text.
    pub fn text(&self) -> (r: &str)
        ensures
            r@ == self@,
    {
        self.0.as_str()
    }
}

impl PciBdf {
    /// A parsed address is always valid lowercase text.
    pub closed spec fn wf(self) -> bool {
        is_bdf_text(self.0@) && self.0@ == lowercase(self.0@)
    }

    pub proof fn lemma_wf(self)
        requires
            self.wf(),
        ensures
            is_bdf_text(self@),
            self@ == lowercase(self@),
    {
    }

    /// Parses a `dddd:bb:dd.f` address, lowercasing hexadecimal digits.
    pub fn parse(text: &str) -> (r: Result<PciBdf, InvalidPciBdf>)
        ensures
            is_bdf_text(text@) ==> (r matches Ok(b) && b@ == lowercase(text@) && b.wf()),
            !is_bdf_text(text@) ==> (r matches Err(e) && e@ == text@),
    {
        let chars = chars_of(text);
        let mut valid = chars.len() == 12;
        if valid {
            valid = chars[4] == ':' && chars[7] == ':' && chars[10] == '.';
        }
        let mut i: usize = 0;
        while valid && i < 12
            invariant
                valid ==> chars.len() == 12,
                valid ==> chars@[4] == ':' && chars@[7] == ':' && chars@[10] == '.',
                i <= 12,
                chars@ == text@,
                valid ==> forall|j: int|
                    0 <= j < i && j != 4 && j != 7 && j != 10 ==> is_hex_digit(#[trigger] chars@[j]),
                !valid ==> !is_bdf_text(text@),
            decreases 12 - i,
        {
            if i != 4 && i != 7 && i != 10 && !char_is_hex_digit(chars[i]) {
                valid = false;
            }
            i = i + 1;
        }
        if !valid {
            return Err(InvalidPciBdf(text.to_owned()));
        }
        let mut lowered: Vec<char> = Vec::new();
        let mut k: usize = 0;
        while k < chars.len()
            invariant
                k <= chars.len(),
                lowered@ == lowercase(chars@.take(k as int)),
            decreases chars.len() - k,
        {
            let c = chars[k];
            let l = if 'A' <= c && c <= 'Z' {
                ((c as u32) + 32) as u8 as char
            } else {
                c
            };
            assert(l == ascii_lower(c)) by {
                if 'A' <= c && c <= 'Z' {
                    assert((((c as u32) + 32) as u8) as u32 == (c as u32) + 32);
                }
            }
            lowered.push(l);
            proof {
                assert(lowercase(chars@.take(k + 1)) =~= lowercase(chars@.take(k as int)).push(
                    ascii_lower(chars@[k as int]),
                ));
            }
            k = k + 1;
        }
        proof {
            assert(chars@.take(chars.len() as int) =~= chars@);
            let low = lowercase(text@);
            assert forall|j: int|
                0 <= j < 12 && j != 4 && j != 7 && j != 10 implies is_hex_digit(#[trigger] low[j]) by {
                assert(is_hex_digit(text@[j]));
            }
            assert(is_bdf_text(low));
            assert(lowercase(low) =~= low);
        }
        Ok(PciBdf(string_of(&lowered)))
    }

    /// The canonical lowercase string form.
    pub fn as_str(&self) -> (r: &str)
        ensures
            r@ == self@,
    {
        self.0.as_str()
    }

    /// Whether two addresses are the same text.
    pub fn same(&self, other: &PciBdf) -> (r: bool)
        ensures
            r == (self@ == other@),
    {
        self.0 == other.0
    }

    /// Parses the address formatted from its parts:
    /// `format!("{domain:04x}:{bus:02x}:{device:02x}.{function:x}")`.
    pub fn from_parts(domain: u64, bus: u64, device: u64, function: u64) -> (r: Result<
        PciBdf,
        InvalidPciBdf,
    >)
        ensures
            is_bdf_text(bdf_parts_text(domain, bus, device, function)) ==> (r matches Ok(b) && b@
                == bdf_parts_text(domain, bus, device, function)),
            !is_bdf_text(bdf_parts_text(domain, bus, device, function)) ==> r is Err,
            domain < 0x10000 && bus < 0x100 && device < 0x100 && function < 0x10 ==> is_bdf_text(
                bdf_parts_text(domain, bus, device, function),
            ),
    {
        let mut out: Vec<char> = Vec::new();
        push_hex_padded(&mut out, domain, 4);
        out.push(':');
        push_hex_padded(&mut out, bus, 2);
        out.push(':');
        push_hex_padded(&mut out, device, 2);
        out.push('.');
        push_hex_padded(&mut out, function, 1);
        proof {
            assert(out@ =~= bdf_parts_text(domain, bus, device, function));
            if domain < 0x10000 && bus < 0x100 && device < 0x100 && function < 0x10 {
                lemma_bdf_parts(domain, bus, device, function);
            }
        }
        let text = string_of(&out);
        proof {
            lemma_parts_text_is_lowercase(domain, bus, device, function);
        }
        PciBdf::parse(text.as_str())
    }
}

/// The formatted address text of its parts.
pub open spec fn bdf_parts_text(domain: u64, bus: u64, device: u64, function: u64) -> Seq<char> {
    hex_padded(domain as nat, 4) + seq![':'] + hex_padded(bus as nat, 2) + seq![':'] + hex_padded(
        device as nat,
        2,
    ) + seq!['.'] + hex_padded(function as nat, 1)
}

proof fn lemma_bdf_parts(domain: u64, bus: u64, device: u64, function: u64)
    requires
        domain < 0x10000,
        bus < 0x100,
        device < 0x100,
        function < 0x10,
    ensures
        is_bdf_text(bdf_parts_text(domain, bus, device, function)),
{
    reveal_with_fuel(pow16, 5);
    lemma_hex_padded(domain as nat, 4);
    lemma_hex_padded(bus as nat, 2);
    lemma_hex_padded(device as nat, 2);
    lemma_hex_padded(function as nat, 1);
    let t = bdf_parts_text(domain, bus, device, function);
    let d = hex_padded(domain as nat, 4);
    let b = hex_padded(bus as nat, 2);
    let v = hex_padded(device as nat, 2);
    let f = hex_padded(function as nat, 1);
    let s1 = d + seq![':'];
    let s2 = s1 + b;
    let s3 = s2 + seq![':'];
    let s4 = s3 + v;
    let s5 = s4 + seq!['.'];
    assert(t == s5 + f);
    assert(t.len() == 12);
    assert forall|i: int| 0 <= i < 12 && i != 4 && i != 7 && i != 10 implies is_hex_digit(
        #[trigger] t[i],
    ) by {
        if i < 4 {
            assert(t[i] == d[i]);
            assert(is_lower_hex(d[i]));
        } else if i < 7 {
            assert(t[i] == b[i - 5]);
            assert(is_lower_hex(b[i - 5]));
        } else if i < 10 {
            assert(t[i] == v[i - 8]);
            assert(is_lower_hex(v[i - 8]));
        } else {
            assert(t[i] == f[i - 11]);
            assert(is_lower_hex(f[i - 11]));
        }
    }
    assert(t[4] == ':');
    assert(t[7] == ':');
    assert(t[10] == '.');
}

proof fn lemma_parts_text_is_lowercase(domain: u64, bus: u64, device: u64, function: u64)
    ensures
        lowercase(bdf_parts_text(domain, bus, device, function)) == bdf_parts_text(
            domain,
            bus,
            device,
            function,
        ),
{
    let t = bdf_parts_text(domain, bus, device, function);
    lemma_hex_chars(domain as nat, 4);
    lemma_hex_chars(bus as nat, 2);
    lemma_hex_chars(device as nat, 2);
    lemma_hex_chars(function as nat, 1);
    assert forall|i: int| 0 <= i < t.len() implies #[trigger] ascii_lower(t[i]) == t[i] by {
        assert(is_lower_hex(t[i]) || t[i] == ':' || t[i] == '.');
    }
    assert(lowercase(t) =~= t);
}

impl Clone for PciBdf {
    fn clone(&self) -> (r: Self)
        ensures
            r == *self,
    {
        PciBdf(self.0.clone())
    }
}

/// Opaque stable identity of one physical GPU, usable for joins and
/// persistence.
#[derive(Debug, PartialEq, Eq, Hash, PartialOrd, Ord)]
pub struct PhysicalGpuId(String);

impl View for PhysicalGpuId {
    type V = Seq<char>;

    closed spec fn view(&self) -> Seq<char> {
        self.0@
    }
}

impl PhysicalGpuId {
    /// Wraps a stable identity string.
    pub fn new(id: &str) -> (r: Self)
        ensures
            r@ == id@,
    {
        PhysicalGpuId(id.to_owned())
    }

    /// The identity string.
    pub fn as_str(&self) -> (r: &str)
        ensures
            r@ == self@,
    {
        self.0.as_str()
    }

    /// Whether two identities are the same string.
    pub fn same(&self, other: &PhysicalGpuId) -> (r: bool)
        ensures
            r == (self@ == other@),
    {
        self.0 == other.0
    }
}

impl Clone for PhysicalGpuId {
    fn clone(&self) -> (r: Self)
        ensures
            r == *self,
    {
        PhysicalGpuId(self.0.clone())
    }
}

/// Opaque stable identity of one XCP partition within a physical GPU.
#[derive(Debug, PartialEq, Eq, Hash, PartialOrd, Ord)]
pub struct PartitionId(String);

impl View for PartitionId {
    type V = Seq<char>;

    closed spec fn view(&self) -> Seq<char> {
        self.0@
    }
}

impl PartitionId {
    /// Wraps a stable identity string.
    pub fn new(id: &str) -> (r: Self)
        ensures
            r@ == id@,
    {
        PartitionId(id.to_owned())
    }

    /// The identity string.
    pub fn as_str(&self) -> (r: &str)
        ensures
            r@ == self@,
    {
        self.0.as_str()
    }

    /// Whether two identities are the same string.
    pub fn same(&self, other: &PartitionId) -> (r: bool)
        ensures
            r == (self@ == other@),
    {
        self.0 == other.0
    }
}

impl Clone for PartitionId {
    fn clone(&self) -> (r: Self)
        ensures
            r == *self,
    {
        PartitionId(self.0.clone())
    }
}

/// The highest-priority active source-backed health condition of one GPU.
#[derive(Debug, PartialEq)]
pub struct Health {
    /// Priority class for automation.
    pub category: HealthCategory,
    /// One factual source-backed sentence; never a score.
    pub message: String,
    /// When the condition (or its absence) was established.
    pub observed_at: Timestamp,
}

impl Clone for Health {
    fn clone(&self) -> (r: Self)
        ensures
            r == *self,
    {
        Health {
            category: self.category.clone(),
            message: self.message.clone(),
            observed_at: self.observed_at,
        }
    }
}

/// The human phrase for an unavailable state; unknown states read as their
/// own name.
pub open spec fn phrase(state: ObservationState) -> Seq<char> {
    match state {
        ObservationState::UnsupportedHardware => "unsupported hardware"@,
        ObservationState::UnsupportedDriverVersion => "unsupported driver version"@,
        ObservationState::PermissionDenied => "permission denied"@,
        ObservationState::Asleep => "asleep"@,
        ObservationState::ReportedByPrimaryPartition => "reported by primary partition"@,
        ObservationState::Stale => "stale"@,
        ObservationState::SourceError => "source error"@,
        ObservationState::Other(s) => s@,
    }
}

/// Canonical human-readable phrase for an unavailable observation.
pub fn state_phrase(state: &ObservationState) -> (r: &str)
    ensures
        r@ == phrase(*state),
{
    match state {
        ObservationState::UnsupportedHardware => "unsupported hardware",
        ObservationState::UnsupportedDriverVersion => "unsupported driver version",
        ObservationState::PermissionDenied => "permission denied",
        ObservationState::Asleep => "asleep",
        ObservationState::ReportedByPrimaryPartition => "reported by primary partition",
        ObservationState::Stale => "stale",
        ObservationState::SourceError => "source error",
        ObservationState::Other(s) => s.as_str(),
    }
}

} // verus!
