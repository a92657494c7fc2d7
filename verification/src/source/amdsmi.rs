//! AMD SMI enrichment decisions: what each status code and raw field of the
//! runtime-loaded library means. The library itself is driven from outside
//! the verified core; every decision it needs is made here.
use vstd::prelude::*;
use crate::model::{PciBdf, InvalidPciBdf, bdf_parts_text};
use crate::source::Reading;

verus! {

/// `AMDSMI_INIT_AMD_GPUS`.
pub const INIT_AMD_GPUS: u64 = 2;

/// `AMDSMI_STATUS_SUCCESS`.
pub const STATUS_SUCCESS: u32 = 0;

/// `AMDSMI_STATUS_NOT_SUPPORTED`.
pub const STATUS_NOT_SUPPORTED: u32 = 2;

/// `AMDSMI_STATUS_NO_PERM`.
pub const STATUS_NO_PERM: u32 = 10;

/// `AMDSMI_PROCESSOR_TYPE_AMD_GPU`.
pub const PROCESSOR_TYPE_AMD_GPU: u32 = 1;

/// The library ABI `(year, major)` this build was checked against.
pub const KNOWN_ABI_YEAR: u32 = 25;
pub const KNOWN_ABI_MAJOR: u32 = 1;

/// Largest plausible socket or processor handle count.
pub const MAX_ENUM_HANDLES: u32 = 1024;

/// The status reported for an implausible enumeration.
pub const IMPLAUSIBLE_ENUMERATION: u32 = 42;

/// Why enrichment is disabled. All variants are normal degraded operation.
#[derive(Debug, Clone, PartialEq, Eq)]
pub enum AmdSmiUnavailable {
    LibraryNotFound,
    MissingSymbol(String),
    IncompatibleVersion(u32, u32),
    InitFailed(u32),
    EnumerationFailed(u32),
}

/// Maps a non-success status to reading evidence.
pub fn status_reading<T>(status: u32) -> (r: Reading<T>)
    ensures
        r == (if status == STATUS_NOT_SUPPORTED {
            Reading::<T>::Sentinel
        } else if status == STATUS_NO_PERM {
            Reading::<T>::PermissionDenied
        } else {
            Reading::<T>::Error
        }),
{
    match status {
        STATUS_NOT_SUPPORTED => Reading::Sentinel,
        STATUS_NO_PERM => Reading::PermissionDenied,
        _ => Reading::Error,
    }
}

/// A percent field with the documented `0xFFFF`-in-u32 sentinel.
pub fn activity_reading(value: u32) -> (r: Reading<u64>)
    ensures
        r == (if value == 0xFFFF || value == 0xFFFF_FFFF {
            Reading::<u64>::Sentinel
        } else if value > 100 {
            Reading::<u64>::Malformed
        } else {
            Reading::Value(value as u64)
        }),
{
    if value == 0xFFFF || value == 0xFFFF_FFFF {
        Reading::Sentinel
    } else if value > 100 {
        Reading::Malformed
    } else {
        Reading::Value(value as u64)
    }
}

/// A MiB quantity widened to bytes; the all-ones u32 is unavailable.
pub fn mib_reading(value: u32) -> (r: Reading<u64>)
    ensures
        r == (if value == 0xFFFF_FFFF {
            Reading::<u64>::Sentinel
        } else {
            Reading::Value((value * 1048576) as u64)
        }),
{
    if value == 0xFFFF_FFFF {
        Reading::Sentinel
    } else {
        Reading::Value((value as u64) * 1024 * 1024)
    }
}

/// The address text of `amdsmi_bdf_t::as_uint` in the checked x86-64
/// layout: function bits 0–2, device 3–7, bus 8–15, domain 16–31 (of the
/// 16–63 domain field, as printed at four digits).
pub open spec fn bdf_raw_text(raw: u64) -> Seq<char> {
    bdf_parts_text((raw >> 16) & 0xFFFF, (raw >> 8) & 0xFF, (raw >> 3) & 0x1F, raw & 0x7)
}

/// Decodes `amdsmi_bdf_t::as_uint`; every raw word decodes.
pub fn decode_bdf(raw: u64) -> (r: Result<PciBdf, InvalidPciBdf>)
    ensures
        r matches Ok(b) && b@ == bdf_raw_text(raw),
{
    let function = raw & 0x7;
    let device = (raw >> 3) & 0x1F;
    let bus = (raw >> 8) & 0xFF;
    let domain = (raw >> 16) & 0xFFFF;
    assert(function < 0x10 && device < 0x100 && bus < 0x100 && domain < 0x10000) by (bit_vector)
        requires
            function == raw & 0x7,
            device == (raw >> 3) & 0x1F,
            bus == (raw >> 8) & 0xFF,
            domain == (raw >> 16) & 0xFFFF,
    ;
    PciBdf::from_parts(domain, bus, device, function)
}

/// Outcome of `amdsmi_init`.
pub fn init_outcome(status: u32) -> (r: Result<(), AmdSmiUnavailable>)
    ensures
        status == STATUS_SUCCESS ==> r is Ok,
        status != STATUS_SUCCESS ==> r == Err::<(), AmdSmiUnavailable>(
            AmdSmiUnavailable::InitFailed(status),
        ),
{
    if status != STATUS_SUCCESS {
        Err(AmdSmiUnavailable::InitFailed(status))
    } else {
        Ok(())
    }
}

/// Outcome of `amdsmi_get_lib_version` after a successful init: only the
/// ABI-known `(year, major)` is accepted. Every error here owes the library
/// its shutdown call.
pub fn version_outcome(status: u32, year: u32, major: u32) -> (r: Result<(), AmdSmiUnavailable>)
    ensures
        status != STATUS_SUCCESS ==> r == Err::<(), AmdSmiUnavailable>(
            AmdSmiUnavailable::InitFailed(status),
        ),
        status == STATUS_SUCCESS && (year != KNOWN_ABI_YEAR || major != KNOWN_ABI_MAJOR) ==> r
            == Err::<(), AmdSmiUnavailable>(AmdSmiUnavailable::IncompatibleVersion(year, major)),
        status == STATUS_SUCCESS && year == KNOWN_ABI_YEAR && major == KNOWN_ABI_MAJOR ==> r is Ok,
{
    if status != STATUS_SUCCESS {
        Err(AmdSmiUnavailable::InitFailed(status))
    } else if year != KNOWN_ABI_YEAR || major != KNOWN_ABI_MAJOR {
        Err(AmdSmiUnavailable::IncompatibleVersion(year, major))
    } else {
        Ok(())
    }
}

/// Outcome of the socket-count query: the capacity to allocate, or why
/// enrichment stops.
pub fn socket_count_outcome(status: u32, count: u32) -> (r: Result<u32, AmdSmiUnavailable>)
    ensures
        status != STATUS_SUCCESS ==> r == Err::<u32, AmdSmiUnavailable>(
            AmdSmiUnavailable::EnumerationFailed(status),
        ),
        status == STATUS_SUCCESS && count > MAX_ENUM_HANDLES ==> r == Err::<u32, AmdSmiUnavailable>(
            AmdSmiUnavailable::EnumerationFailed(IMPLAUSIBLE_ENUMERATION),
        ),
        status == STATUS_SUCCESS && count <= MAX_ENUM_HANDLES ==> r == Ok::<u32, AmdSmiUnavailable>(
            count,
        ),
{
    if status != STATUS_SUCCESS {
        Err(AmdSmiUnavailable::EnumerationFailed(status))
    } else if count > MAX_ENUM_HANDLES {
        Err(AmdSmiUnavailable::EnumerationFailed(IMPLAUSIBLE_ENUMERATION))
    } else {
        Ok(count)
    }
}

/// Outcome of filling the socket buffer of `capacity` handles: the number
/// of handles to keep, or why enrichment stops.
pub fn socket_fill_outcome(status: u32, count: u32, capacity: u32) -> (r: Result<
    u32,
    AmdSmiUnavailable,
>)
    ensures
        status == STATUS_SUCCESS && count <= capacity ==> r == Ok::<u32, AmdSmiUnavailable>(count),
        !(status == STATUS_SUCCESS && count <= capacity) ==> r == Err::<u32, AmdSmiUnavailable>(
            AmdSmiUnavailable::EnumerationFailed(
                if status > IMPLAUSIBLE_ENUMERATION {
                    status
                } else {
                    IMPLAUSIBLE_ENUMERATION
                },
            ),
        ),
{
    if status != STATUS_SUCCESS || count > capacity {
        let code = if status > IMPLAUSIBLE_ENUMERATION {
            status
        } else {
            IMPLAUSIBLE_ENUMERATION
        };
        Err(AmdSmiUnavailable::EnumerationFailed(code))
    } else {
        Ok(count)
    }
}

/// Whether a socket's processor-count answer is usable; one bad socket
/// does not disable enrichment.
pub fn processor_count_usable(status: u32, count: u32) -> (r: bool)
    ensures
        r == (status == STATUS_SUCCESS && count <= MAX_ENUM_HANDLES),
{
    status == STATUS_SUCCESS && count <= MAX_ENUM_HANDLES
}

/// Whether a filled processor buffer of `capacity` handles is usable.
pub fn processor_fill_usable(status: u32, count: u32, capacity: u32) -> (r: bool)
    ensures
        r == (status == STATUS_SUCCESS && count <= capacity),
{
    status == STATUS_SUCCESS && count <= capacity
}

/// Whether a processor is an AMD GPU to sample.
pub fn is_gpu_processor(status: u32, kind: u32) -> (r: bool)
    ensures
        r == (status == STATUS_SUCCESS && kind == PROCESSOR_TYPE_AMD_GPU),
{
    status == STATUS_SUCCESS && kind == PROCESSOR_TYPE_AMD_GPU
}

/// GFX and memory-controller activity from one `amdsmi_get_gpu_activity`
/// answer.
pub fn activity_readings(status: u32, gfx: u32, umc: u32) -> (r: (Reading<u64>, Reading<u64>))
    ensures
        status == STATUS_SUCCESS ==> r.0 == activity_reading_spec(gfx) && r.1
            == activity_reading_spec(umc),
        status != STATUS_SUCCESS ==> r.0 == status_reading_spec::<u64>(status) && r.1
            == status_reading_spec::<u64>(status),
{
    if status == STATUS_SUCCESS {
        (activity_reading(gfx), activity_reading(umc))
    } else {
        (status_reading(status), status_reading(status))
    }
}

/// Used and total VRAM bytes from one `amdsmi_get_gpu_vram_usage` answer.
pub fn vram_readings(status: u32, used_mib: u32, total_mib: u32) -> (r: (Reading<u64>, Reading<u64>))
    ensures
        status == STATUS_SUCCESS ==> r.0 == mib_reading_spec(used_mib) && r.1 == mib_reading_spec(
            total_mib,
        ),
        status != STATUS_SUCCESS ==> r.0 == status_reading_spec::<u64>(status) && r.1
            == status_reading_spec::<u64>(status),
{
    if status == STATUS_SUCCESS {
        (mib_reading(used_mib), mib_reading(total_mib))
    } else {
        (status_reading(status), status_reading(status))
    }
}

pub open spec fn status_reading_spec<T>(status: u32) -> Reading<T> {
    if status == STATUS_NOT_SUPPORTED {
        Reading::<T>::Sentinel
    } else if status == STATUS_NO_PERM {
        Reading::<T>::PermissionDenied
    } else {
        Reading::<T>::Error
    }
}

pub open spec fn activity_reading_spec(value: u32) -> Reading<u64> {
    if value == 0xFFFF || value == 0xFFFF_FFFF {
        Reading::<u64>::Sentinel
    } else if value > 100 {
        Reading::<u64>::Malformed
    } else {
        Reading::Value(value as u64)
    }
}

pub open spec fn mib_reading_spec(value: u32) -> Reading<u64> {
    if value == 0xFFFF_FFFF {
        Reading::<u64>::Sentinel
    } else {
        Reading::Value((value * 1048576) as u64)
    }
}

} // verus!
