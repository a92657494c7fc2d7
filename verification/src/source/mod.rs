//! The raw source vocabulary shared by the three source adapters.
//!
//! Expected failures are data ([`Reading`] states), not control-flow errors.
use vstd::prelude::*;

pub mod amdsmi;
pub mod kernel;
pub mod process;

verus! {

/// One raw source reading: a value in the field's documented unit or the
/// evidence-based reason there is none.
#[derive(Debug, Clone, Copy, PartialEq, Eq)]
pub enum Reading<T> {
    Value(T),
    /// The source does not provide this field (node or layout field absent).
    Absent,
    /// The source emitted its documented unavailable sentinel.
    Sentinel,
    /// Runtime-suspended amdgpu denied the read (`EPERM`).
    Asleep,
    /// The source exists but access was denied (`EACCES`).
    PermissionDenied,
    /// Explicit version/layout evidence prevents interpretation.
    UnsupportedDriver,
    /// Recognized source produced malformed or out-of-domain content.
    Malformed,
    /// Unexpected I/O failure.
    Error,
}

/// The same failure evidence at another value type; a value becomes `Error`
/// (callers use it only on failures).
pub open spec fn same_failure<T, U>(r: Reading<T>) -> Reading<U> {
    match r {
        Reading::Value(_) => Reading::Error,
        Reading::Absent => Reading::Absent,
        Reading::Sentinel => Reading::Sentinel,
        Reading::Asleep => Reading::Asleep,
        Reading::PermissionDenied => Reading::PermissionDenied,
        Reading::UnsupportedDriver => Reading::UnsupportedDriver,
        Reading::Malformed => Reading::Malformed,
        Reading::Error => Reading::Error,
    }
}

/// The preferred of a primary reading and its fallback: the primary's value
/// when it has one, else the fallback's value; with no value on either side,
/// runtime evidence beats structural absence or a sentinel.
pub open spec fn preferred<T>(primary: Reading<T>, fallback: Reading<T>) -> Reading<T> {
    match primary {
        Reading::Value(_) => primary,
        Reading::Absent | Reading::Sentinel => fallback,
        _ => match fallback {
            Reading::Value(_) => fallback,
            _ => primary,
        },
    }
}

impl<T> Reading<T> {
    /// Prefers this reading's value; otherwise falls back, keeping the more
    /// specific failure evidence when both fail. The fallback runs only when
    /// this reading has no value.
    pub fn or_else<F: FnOnce() -> Reading<T>>(self, fallback: F) -> (r: Reading<T>)
        requires
            !(self is Value) ==> fallback.requires(()),
        ensures
            self is Value ==> r == self,
            !(self is Value) ==> exists|other: Reading<T>|
                #[trigger] fallback.ensures((), other) && r == preferred(self, other),
    {
        match self {
            Reading::Value(_) => self,
            _ => {
                let other = fallback();
                self.prefer(other)
            },
        }
    }

    /// [`Reading::or_else`] with the fallback already read.
    pub fn prefer(self, fallback: Reading<T>) -> (r: Reading<T>)
        ensures
            r == preferred(self, fallback),
    {
        match self {
            Reading::Value(_) => self,
            Reading::Absent | Reading::Sentinel => fallback,
            _ => match fallback {
                Reading::Value(_) => fallback,
                _ => self,
            },
        }
    }

    /// Maps the value, preserving failure evidence.
    pub fn map<U, F: FnOnce(T) -> U>(self, f: F) -> (r: Reading<U>)
        requires
            self matches Reading::Value(v) ==> f.requires((v,)),
        ensures
            self matches Reading::Value(v) ==> (r matches Reading::Value(u) && f.ensures((v,), u)),
            !(self is Value) ==> r == same_failure::<T, U>(self),
    {
        match self {
            Reading::Value(v) => Reading::Value(f(v)),
            Reading::Absent => Reading::Absent,
            Reading::Sentinel => Reading::Sentinel,
            Reading::Asleep => Reading::Asleep,
            Reading::PermissionDenied => Reading::PermissionDenied,
            Reading::UnsupportedDriver => Reading::UnsupportedDriver,
            Reading::Malformed => Reading::Malformed,
            Reading::Error => Reading::Error,
        }
    }

    /// Fallibly maps a value; conversion failure is malformed source data.
    pub fn checked_map<U, F: FnOnce(T) -> Option<U>>(self, f: F) -> (r: Reading<U>)
        requires
            self matches Reading::Value(v) ==> f.requires((v,)),
        ensures
            self matches Reading::Value(v) ==> exists|o: Option<U>|
                #[trigger] f.ensures((v,), o) && r == (match o {
                    Some(u) => Reading::Value(u),
                    None => Reading::<U>::Malformed,
                }),
            !(self is Value) ==> r == same_failure::<T, U>(self),
    {
        match self {
            Reading::Value(v) => match f(v) {
                Some(u) => Reading::Value(u),
                None => Reading::Malformed,
            },
            Reading::Absent => Reading::Absent,
            Reading::Sentinel => Reading::Sentinel,
            Reading::Asleep => Reading::Asleep,
            Reading::PermissionDenied => Reading::PermissionDenied,
            Reading::UnsupportedDriver => Reading::UnsupportedDriver,
            Reading::Malformed => Reading::Malformed,
            Reading::Error => Reading::Error,
        }
    }

    /// The same failure evidence at another value type.
    pub fn failure<U>(self) -> (r: Reading<U>)
        requires
            !(self is Value),
        ensures
            r == same_failure::<T, U>(self),
    {
        match self {
            Reading::Value(_) => Reading::Error,
            Reading::Absent => Reading::Absent,
            Reading::Sentinel => Reading::Sentinel,
            Reading::Asleep => Reading::Asleep,
            Reading::PermissionDenied => Reading::PermissionDenied,
            Reading::UnsupportedDriver => Reading::UnsupportedDriver,
            Reading::Malformed => Reading::Malformed,
            Reading::Error => Reading::Error,
        }
    }
}

/// A primary value always wins, and with no value anywhere the result is one
/// of the two failures.
pub proof fn lemma_preferred_keeps_values<T>(primary: Reading<T>, fallback: Reading<T>)
    ensures
        primary is Value ==> preferred(primary, fallback) == primary,
        !(primary is Value) && fallback is Value ==> preferred(primary, fallback) == fallback,
        preferred(primary, fallback) == primary || preferred(primary, fallback) == fallback,
{
}

/// `EPERM`.
pub const EPERM: i32 = 1;

/// `EACCES`.
pub const EACCES: i32 = 13;

/// Sensor-read failure evidence from an OS error code and whether the node
/// was missing: amdgpu answers `EPERM` from a runtime-suspended device,
/// `EACCES` is genuine permission denial, a missing node is structural
/// absence.
pub open spec fn sensor_failure<T>(raw_os_error: Option<i32>, not_found: bool) -> Reading<T> {
    if raw_os_error == Some(EPERM) {
        Reading::Asleep
    } else if raw_os_error == Some(EACCES) {
        Reading::PermissionDenied
    } else if not_found {
        Reading::Absent
    } else {
        Reading::Error
    }
}

/// Process/KFD failure evidence: `EPERM` here is a permission limit, never
/// a sleeping GPU.
pub open spec fn process_failure<T>(raw_os_error: Option<i32>, not_found: bool) -> Reading<T> {
    if raw_os_error == Some(EPERM) || raw_os_error == Some(EACCES) {
        Reading::PermissionDenied
    } else if not_found {
        Reading::Absent
    } else {
        Reading::Error
    }
}

/// Maps a sensor-read failure to reading evidence.
pub fn sensor_failure_reading<T>(raw_os_error: Option<i32>, not_found: bool) -> (r: Reading<T>)
    ensures
        r == sensor_failure::<T>(raw_os_error, not_found),
{
    match raw_os_error {
        Some(EPERM) => Reading::Asleep,
        Some(EACCES) => Reading::PermissionDenied,
        _ => if not_found {
            Reading::Absent
        } else {
            Reading::Error
        },
    }
}

/// Maps a process-scan failure to reading evidence.
pub fn process_failure_reading<T>(raw_os_error: Option<i32>, not_found: bool) -> (r: Reading<T>)
    ensures
        r == process_failure::<T>(raw_os_error, not_found),
{
    match raw_os_error {
        Some(EPERM) | Some(EACCES) => Reading::PermissionDenied,
        _ => if not_found {
            Reading::Absent
        } else {
            Reading::Error
        },
    }
}

/// The OS error code an I/O error carries, if it came from the OS.
pub uninterp spec fn os_error_code(error: std::io::Error) -> Option<i32>;

/// The OS error code of an I/O error (`std::io::Error::raw_os_error`): the
/// code the error was made from, the same for the same error.
#[verifier::external_body]
fn io_raw_os_error(error: &std::io::Error) -> (r: Option<i32>)
    ensures
        r == os_error_code(*error),
{
    error.raw_os_error()
}

/// Whether an I/O error is `ErrorKind::NotFound` (`std::io::Error::kind`).
/// The kind is decoded from an OS code per platform, so nothing is claimed
/// of the answer.
#[verifier::external_body]
fn io_is_not_found(error: &std::io::Error) -> bool {
    error.kind() == std::io::ErrorKind::NotFound
}

/// Maps a sensor-read I/O error to reading evidence (see
/// [`sensor_failure_reading`] for the mapping of its code and kind).
pub fn kernel_error_reading<T>(error: &std::io::Error) -> (r: Reading<T>)
    ensures
        exists|not_found: bool| r == sensor_failure::<T>(os_error_code(*error), not_found),
        !(r is Value),
{
    let raw = io_raw_os_error(error);
    let not_found = io_is_not_found(error);
    sensor_failure_reading(raw, not_found)
}

/// Maps a process-scan I/O error to reading evidence (see
/// [`process_failure_reading`] for the mapping of its code and kind).
pub fn process_error_reading<T>(error: &std::io::Error) -> (r: Reading<T>)
    ensures
        exists|not_found: bool| r == process_failure::<T>(os_error_code(*error), not_found),
        r is PermissionDenied || r is Absent || r is Error,
{
    let raw = io_raw_os_error(error);
    let not_found = io_is_not_found(error);
    process_failure_reading(raw, not_found)
}

} // verus!
