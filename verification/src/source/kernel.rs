//! Kernel telemetry decoding: versioned `gpu_metrics` layouts read with
//! bounds-checked little-endian offsets, text sysfs nodes, domain
//! validation without clamping, and throttle evidence.
//!
//! Unknown layouts are explicit driver-version evidence, never a guessed
//! struct.
use vstd::prelude::*;
use crate::model::PhysicalGpuId;
use crate::source::{Reading, same_failure, preferred};
use crate::text::{
    chars_of, trimmed, trim, parse_u64, parse_i64, parse_u64_spec, parse_i64_spec, extend_chars,
    lines_of, split_lines, slice_chars, ends_with, has_suffix, pieces, split_char, lemma_pieces_nonempty,
};

verus! {

/// The `energy_accumulator` resolution: one count is 2⁻¹⁶ J (15.259 µJ).
pub const ENERGY_COUNTS_PER_JOULE: u64 = 65536;

// ---------------------------------------------------------------------------
// Little-endian fields
// ---------------------------------------------------------------------------

/// The little-endian value of `b[off..off + 2]`.
pub open spec fn le16(b: Seq<u8>, off: int) -> int {
    b[off] + 256 * b[off + 1]
}

/// The little-endian value of `b[off..off + 4]`.
pub open spec fn le32(b: Seq<u8>, off: int) -> int {
    le16(b, off) + 65536 * le16(b, off + 2)
}

/// The little-endian value of `b[off..off + 8]`.
pub open spec fn le64(b: Seq<u8>, off: int) -> int {
    le32(b, off) + 4294967296 * le32(b, off + 4)
}

/// The two-byte field at `off`, when the blob holds it.
pub open spec fn field16(b: Seq<u8>, off: int) -> Option<u16> {
    if 0 <= off && off + 2 <= b.len() {
        Some(le16(b, off) as u16)
    } else {
        None
    }
}

/// The four-byte field at `off`, when the blob holds it.
pub open spec fn field32(b: Seq<u8>, off: int) -> Option<u32> {
    if 0 <= off && off + 4 <= b.len() {
        Some(le32(b, off) as u32)
    } else {
        None
    }
}

/// The eight-byte field at `off`, when the blob holds it.
pub open spec fn field64(b: Seq<u8>, off: int) -> Option<u64> {
    if 0 <= off && off + 8 <= b.len() {
        Some(le64(b, off) as u64)
    } else {
        None
    }
}

/// A sentinel-aware two-byte reading: the producer fills unpopulated fields
/// with all-ones of their declared width.
pub open spec fn reading16(b: Seq<u8>, off: int) -> Reading<u64> {
    match field16(b, off) {
        None => Reading::Malformed,
        Some(v) => if v == 0xffff {
            Reading::Sentinel
        } else {
            Reading::Value(v as u64)
        },
    }
}

/// A sentinel-aware four-byte reading.
pub open spec fn reading32(b: Seq<u8>, off: int) -> Reading<u64> {
    match field32(b, off) {
        None => Reading::Malformed,
        Some(v) => if v == 0xffff_ffff {
            Reading::Sentinel
        } else {
            Reading::Value(v as u64)
        },
    }
}

/// A sentinel-aware eight-byte counter.
pub open spec fn counter64(b: Seq<u8>, off: int) -> Option<u64> {
    match field64(b, off) {
        Some(v) => if v == u64::MAX {
            None
        } else {
            Some(v)
        },
        None => None,
    }
}

/// A reading multiplied into another unit.
pub open spec fn scaled(r: Reading<u64>, factor: int) -> Reading<u64> {
    match r {
        Reading::Value(v) => Reading::Value((v * factor) as u64),
        _ => r,
    }
}

/// A temperature reading multiplied into milli-Celsius.
pub open spec fn scaled_signed(r: Reading<u64>, factor: int) -> Reading<i64> {
    match r {
        Reading::Value(v) => Reading::Value((v * factor) as i64),
        _ => same_failure::<u64, i64>(r),
    }
}

/// Bounds-checked little-endian field access over a raw blob.
pub struct Fields<'a>(pub &'a [u8]);

impl<'a> Fields<'a> {
    pub fn u16(&self, offset: usize) -> (r: Option<u16>)
        ensures
            r == field16(self.0@, offset as int),
    {
        if offset <= self.0.len() && self.0.len() - offset >= 2 {
            let lo = self.0[offset] as u16;
            let hi = self.0[offset + 1] as u16;
            Some(lo + hi * 256)
        } else {
            None
        }
    }

    pub fn u32(&self, offset: usize) -> (r: Option<u32>)
        ensures
            r == field32(self.0@, offset as int),
    {
        if offset <= self.0.len() && self.0.len() - offset >= 4 {
            let b0 = self.0[offset] as u32;
            let b1 = self.0[offset + 1] as u32;
            let b2 = self.0[offset + 2] as u32;
            let b3 = self.0[offset + 3] as u32;
            Some(b0 + b1 * 256 + b2 * 65536 + b3 * 16777216)
        } else {
            None
        }
    }

    pub fn u64(&self, offset: usize) -> (r: Option<u64>)
        ensures
            r == field64(self.0@, offset as int),
    {
        if offset <= self.0.len() && self.0.len() - offset >= 8 {
            let lo = match self.u32(offset) {
                Some(v) => v as u64,
                None => 0,
            };
            let hi = match self.u32(offset + 4) {
                Some(v) => v as u64,
                None => 0,
            };
            Some(lo + hi * 4294967296)
        } else {
            None
        }
    }

    /// Sentinel-aware two-byte read.
    pub fn r16(&self, offset: usize) -> (r: Reading<u64>)
        ensures
            r == reading16(self.0@, offset as int),
    {
        match self.u16(offset) {
            None => Reading::Malformed,
            Some(0xFFFF) => Reading::Sentinel,
            Some(value) => Reading::Value(value as u64),
        }
    }

    /// Sentinel-aware four-byte read.
    pub fn r32(&self, offset: usize) -> (r: Reading<u64>)
        ensures
            r == reading32(self.0@, offset as int),
    {
        match self.u32(offset) {
            None => Reading::Malformed,
            Some(0xFFFF_FFFF) => Reading::Sentinel,
            Some(value) => Reading::Value(value as u64),
        }
    }

    /// Sentinel-aware eight-byte counter.
    pub fn r64(&self, offset: usize) -> (r: Option<u64>)
        ensures
            r == counter64(self.0@, offset as int),
    {
        match self.u64(offset) {
            Some(value) => if value == u64::MAX {
                None
            } else {
                Some(value)
            },
            None => None,
        }
    }

    /// A two-byte reading multiplied into another unit.
    fn r16_scaled(&self, offset: usize, factor: u64) -> (r: Reading<u64>)
        requires
            factor <= 1_000_000,
        ensures
            r == scaled(reading16(self.0@, offset as int), factor as int),
    {
        match self.r16(offset) {
            Reading::Value(v) => {
                assert(v < 65536);
                assert(v * factor <= 65535 * 1_000_000) by (nonlinear_arith)
                    requires
                        v < 65536,
                        factor <= 1_000_000,
                ;
                Reading::Value(v * factor)
            },
            other => other,
        }
    }

    /// A four-byte reading multiplied into another unit.
    fn r32_scaled(&self, offset: usize, factor: u64) -> (r: Reading<u64>)
        requires
            factor <= 1_000,
        ensures
            r == scaled(reading32(self.0@, offset as int), factor as int),
    {
        match self.r32(offset) {
            Reading::Value(v) => {
                assert(v * factor <= 4294967295 * 1_000) by (nonlinear_arith)
                    requires
                        v <= 4294967295,
                        factor <= 1_000,
                ;
                Reading::Value(v * factor)
            },
            other => other,
        }
    }

    /// A two-byte temperature multiplied into milli-Celsius.
    fn r16_temperature(&self, offset: usize, factor: u64) -> (r: Reading<i64>)
        requires
            factor <= 1_000,
        ensures
            r == scaled_signed(reading16(self.0@, offset as int), factor as int),
    {
        match self.r16(offset) {
            Reading::Value(v) => {
                assert(v * factor <= 65535 * 1_000) by (nonlinear_arith)
                    requires
                        v < 65536,
                        factor <= 1_000,
                ;
                Reading::Value((v * factor) as i64)
            },
            other => other.failure(),
        }
    }
}

// ---------------------------------------------------------------------------
// gpu_metrics layouts
// ---------------------------------------------------------------------------

/// Throttle evidence carried by a layout.
#[derive(Debug, Clone, Copy, PartialEq, Eq)]
pub enum ThrottleReading {
    /// The layout carries no interpretable throttle field.
    NoEvidence,
    /// Instantaneous status bits (v1.3–v1.5, v2.x).
    Status { status: u32, indep: Option<u64> },
    /// Accumulated throttler residencies (v1.6+).
    Residency { counter: u32, prochot: u32, ppt: u32, socket_thm: u32, vr_thm: u32, hbm_thm: u32 },
}

/// Decoded fields of one supported `gpu_metrics` layout, in documented units.
#[derive(Debug, Clone, Copy, PartialEq, Eq)]
pub struct GpuMetricsBlob {
    /// Hotspot temperature, milli-Celsius.
    pub hotspot_millic: Reading<i64>,
    /// Socket power, microwatts.
    pub socket_power_microwatts: Reading<u64>,
    /// GFX activity, centi-percent.
    pub activity_centipercent: Reading<u64>,
    /// Memory-controller activity, centi-percent.
    pub umc_centipercent: Reading<u64>,
    /// GFX clock, hertz.
    pub gfx_clock_hz: Reading<u64>,
    /// Raw socket energy accumulator, in counts of 1/[`ENERGY_COUNTS_PER_JOULE`] J.
    pub energy: Option<u64>,
    pub throttle: ThrottleReading,
}

/// Why a blob could not be decoded.
#[derive(Debug, Clone, Copy, PartialEq, Eq)]
pub enum BlobError {
    /// Header shorter than four bytes, or content shorter than (or declaring
    /// a size other than) the recognized layout.
    Truncated,
    /// A `(format_revision, content_revision)` this build does not interpret;
    /// the dynamic v1.9 layout is deliberately unsupported.
    UnsupportedVersion(u8, u8),
}

/// Structure size of every interpreted `(format, content)` revision.
pub open spec fn layout_size(format: u8, content: u8) -> Option<nat> {
    if format == 1 && content == 3 {
        Some(120)
    } else if format == 1 && content == 4 {
        Some(288)
    } else if format == 1 && content == 5 {
        Some(360)
    } else if format == 1 && content == 6 {
        Some(1664)
    } else if format == 1 && content == 7 {
        Some(2208)
    } else if format == 1 && content == 8 {
        Some(3360)
    } else if format == 2 && content == 1 {
        Some(120)
    } else if format == 2 && content == 2 {
        Some(128)
    } else if format == 2 && content == 3 {
        Some(152)
    } else if format == 2 && content == 4 {
        Some(168)
    } else if format == 3 && content == 0 {
        Some(264)
    } else {
        None
    }
}

/// The v1.3 layout.
pub open spec fn layout_v1_3(b: Seq<u8>) -> GpuMetricsBlob {
    GpuMetricsBlob {
        hotspot_millic: scaled_signed(reading16(b, 6), 1000),
        socket_power_microwatts: scaled(reading16(b, 22), 1_000_000),
        activity_centipercent: scaled(reading16(b, 16), 100),
        umc_centipercent: scaled(reading16(b, 18), 100),
        gfx_clock_hz: scaled(reading16(b, 54), 1_000_000),
        energy: counter64(b, 24),
        throttle: ThrottleReading::Status {
            status: field32(b, 68).unwrap_or(0),
            indep: field64(b, 112),
        },
    }
}

/// The six residency accumulators starting at `off`.
pub open spec fn residency_at(b: Seq<u8>, off: int) -> ThrottleReading {
    ThrottleReading::Residency {
        counter: field32(b, off).unwrap_or(0),
        prochot: field32(b, off + 4).unwrap_or(0),
        ppt: field32(b, off + 8).unwrap_or(0),
        socket_thm: field32(b, off + 12).unwrap_or(0),
        vr_thm: field32(b, off + 16).unwrap_or(0),
        hbm_thm: field32(b, off + 20).unwrap_or(0),
    }
}

/// The v1.4–v1.8 layouts, which share a prefix.
pub open spec fn layout_v1_later(b: Seq<u8>, content: u8) -> GpuMetricsBlob {
    let energy_offset: int = if content == 4 {
        24
    } else if content == 5 {
        88
    } else if content == 6 {
        16
    } else {
        24
    };
    let clock_offset: int = if content == 4 {
        240
    } else if content == 5 {
        312
    } else if content == 6 {
        264
    } else {
        296
    };
    let throttle = if content == 4 {
        ThrottleReading::Status { status: field32(b, 40).unwrap_or(0), indep: None }
    } else if content == 5 {
        ThrottleReading::Status { status: field32(b, 104).unwrap_or(0), indep: None }
    } else if content == 6 {
        residency_at(b, 32)
    } else {
        residency_at(b, 40)
    };
    GpuMetricsBlob {
        hotspot_millic: scaled_signed(reading16(b, 4), 1000),
        socket_power_microwatts: scaled(reading16(b, 10), 1_000_000),
        activity_centipercent: scaled(reading16(b, 12), 100),
        umc_centipercent: scaled(reading16(b, 14), 100),
        gfx_clock_hz: scaled(reading16(b, clock_offset), 1_000_000),
        energy: counter64(b, energy_offset),
        throttle,
    }
}

/// The v2.1–v2.3 layouts: numeric unit scales are undocumented upstream, so
/// only the unitless throttle bits are interpreted.
pub open spec fn layout_v2_early(b: Seq<u8>, content: u8) -> GpuMetricsBlob {
    GpuMetricsBlob {
        hotspot_millic: Reading::Absent,
        socket_power_microwatts: Reading::Absent,
        activity_centipercent: Reading::Absent,
        umc_centipercent: Reading::Absent,
        gfx_clock_hz: Reading::Absent,
        energy: None,
        throttle: ThrottleReading::Status {
            status: field32(b, 108).unwrap_or(0),
            indep: if content >= 2 {
                field64(b, 120)
            } else {
                None
            },
        },
    }
}

/// The v2.4 layout: centi-Celsius, centi-percent, mW, and MHz.
pub open spec fn layout_v2_4(b: Seq<u8>) -> GpuMetricsBlob {
    GpuMetricsBlob {
        hotspot_millic: scaled_signed(reading16(b, 4), 10),
        socket_power_microwatts: scaled(reading16(b, 40), 1_000),
        activity_centipercent: reading16(b, 28),
        umc_centipercent: Reading::Absent,
        gfx_clock_hz: scaled(reading16(b, 76), 1_000_000),
        energy: None,
        throttle: ThrottleReading::Status {
            status: field32(b, 108).unwrap_or(0),
            indep: field64(b, 120),
        },
    }
}

/// The v3.0 layout: [0-100] activity, mW power, MHz clocks; its temperature
/// scale is undocumented, so hwmon owns temperature.
pub open spec fn layout_v3_0(b: Seq<u8>) -> GpuMetricsBlob {
    GpuMetricsBlob {
        hotspot_millic: Reading::Absent,
        socket_power_microwatts: scaled(reading32(b, 112), 1_000),
        activity_centipercent: scaled(reading16(b, 42), 100),
        umc_centipercent: Reading::Absent,
        gfx_clock_hz: scaled(reading16(b, 174), 1_000_000),
        energy: None,
        throttle: ThrottleReading::NoEvidence,
    }
}

/// The decoding of a blob: header validation, then the layout its
/// revisions name.
pub open spec fn gpu_metrics(b: Seq<u8>) -> Result<GpuMetricsBlob, BlobError> {
    if b.len() < 4 {
        Err(BlobError::Truncated)
    } else {
        let format = b[2];
        let content = b[3];
        match layout_size(format, content) {
            None => Err(BlobError::UnsupportedVersion(format, content)),
            Some(size) => if b.len() < size || le16(b, 0) != size {
                Err(BlobError::Truncated)
            } else if format == 1 && content == 3 {
                Ok(layout_v1_3(b))
            } else if format == 1 {
                Ok(layout_v1_later(b, content))
            } else if format == 2 && content <= 3 {
                Ok(layout_v2_early(b, content))
            } else if format == 2 {
                Ok(layout_v2_4(b))
            } else {
                Ok(layout_v3_0(b))
            },
        }
    }
}

// ---------------------------------------------------------------------------
// Field placement of the kernel's gpu_metrics structs
// ---------------------------------------------------------------------------

/// The little-endian 16-bit word at byte `off` of a raw blob.
pub open spec fn word16(b: Seq<u8>, off: int) -> int {
    b[off] as int + 256 * (b[off + 1] as int)
}

/// The little-endian 32-bit word at byte `off` of a raw blob.
pub open spec fn word32(b: Seq<u8>, off: int) -> int {
    word16(b, off) + 65536 * word16(b, off + 2)
}

/// The little-endian 64-bit word at byte `off` of a raw blob.
pub open spec fn word64(b: Seq<u8>, off: int) -> int {
    word32(b, off) + 4294967296 * word32(b, off + 4)
}

/// A 16-bit sensor field at `off` in multiples of `unit`: all-ones marks an
/// unpopulated field.
pub open spec fn sensor16(b: Seq<u8>, off: int, unit: int) -> Reading<u64> {
    if word16(b, off) == 65535 {
        Reading::Sentinel
    } else {
        Reading::Value((word16(b, off) * unit) as u64)
    }
}

/// A signed-unit 16-bit temperature field at `off` in multiples of `unit`.
pub open spec fn sensor16_signed(b: Seq<u8>, off: int, unit: int) -> Reading<i64> {
    if word16(b, off) == 65535 {
        Reading::Sentinel
    } else {
        Reading::Value((word16(b, off) * unit) as i64)
    }
}

/// The six 32-bit throttler residency accumulators starting at `off`:
/// counter, PROCHOT, PPT, socket thermal, VR thermal, HBM thermal.
pub open spec fn residencies(b: Seq<u8>, off: int) -> ThrottleReading {
    ThrottleReading::Residency {
        counter: word32(b, off) as u32,
        prochot: word32(b, off + 4) as u32,
        ppt: word32(b, off + 8) as u32,
        socket_thm: word32(b, off + 12) as u32,
        vr_thm: word32(b, off + 16) as u32,
        hbm_thm: word32(b, off + 20) as u32,
    }
}

/// `gpu_metrics_v1_3` (120 bytes): hotspot °C at byte 6, GFX activity % at
/// 16, memory-controller activity % at 18, socket power W at 22, the energy
/// accumulator at 24, GFX clock MHz at 54, throttle status at 68 and the
/// independent throttle status at 112.
pub proof fn lemma_gpu_metrics_v1_3_fields(b: Seq<u8>)
    requires
        b.len() >= 120,
        word16(b, 0) == 120,
        b[2] == 1,
        b[3] == 3,
    ensures
        gpu_metrics(b) matches Ok(m) && {
            &&& m.hotspot_millic == sensor16_signed(b, 6, 1000)
            &&& m.activity_centipercent == sensor16(b, 16, 100)
            &&& m.umc_centipercent == sensor16(b, 18, 100)
            &&& m.socket_power_microwatts == sensor16(b, 22, 1_000_000)
            &&& m.gfx_clock_hz == sensor16(b, 54, 1_000_000)
            &&& m.energy == (if word64(b, 24) == u64::MAX {
                None
            } else {
                Some(word64(b, 24) as u64)
            })
            &&& m.throttle == ThrottleReading::Status {
                status: word32(b, 68) as u32,
                indep: Some(word64(b, 112) as u64),
            }
        },
{
}

/// `gpu_metrics_v1_4` to `v1_8`: hotspot °C at byte 4, socket power W at
/// 10, GFX activity % at 12, memory-controller activity % at 14, the GFX
/// clock MHz at 240 (v1.4), 312 (v1.5), 264 (v1.6) or 296 (v1.7, v1.8), and
/// the throttler residencies at 32 (v1.6) or 40 (v1.7, v1.8).
pub proof fn lemma_gpu_metrics_v1_later_fields(b: Seq<u8>)
    requires
        b[2] == 1,
        4 <= b[3] <= 8,
        b.len() >= word16(b, 0),
        word16(b, 0) == (if b[3] == 4 {
            288int
        } else if b[3] == 5 {
            360
        } else if b[3] == 6 {
            1664
        } else if b[3] == 7 {
            2208
        } else {
            3360
        }),
    ensures
        gpu_metrics(b) matches Ok(m) && {
            &&& m.hotspot_millic == sensor16_signed(b, 4, 1000)
            &&& m.socket_power_microwatts == sensor16(b, 10, 1_000_000)
            &&& m.activity_centipercent == sensor16(b, 12, 100)
            &&& m.umc_centipercent == sensor16(b, 14, 100)
            &&& m.gfx_clock_hz == sensor16(
                b,
                if b[3] == 4 {
                    240
                } else if b[3] == 5 {
                    312
                } else if b[3] == 6 {
                    264
                } else {
                    296
                },
                1_000_000,
            )
            &&& b[3] == 6 ==> m.throttle == residencies(b, 32)
            &&& b[3] >= 7 ==> m.throttle == residencies(b, 40)
            &&& b[3] == 4 ==> m.throttle == ThrottleReading::Status { status: word32(b, 40) as u32, indep: None }
            &&& b[3] == 5 ==> m.throttle == ThrottleReading::Status { status: word32(b, 104) as u32, indep: None }
            &&& {
                let e: int = if b[3] == 5 {
                    88
                } else if b[3] == 6 {
                    16
                } else {
                    24
                };
                m.energy == (if word64(b, e) == u64::MAX {
                    None
                } else {
                    Some(word64(b, e) as u64)
                })
            }
        },
{
}

/// `gpu_metrics_v2_4` (168 bytes): hotspot centi-°C at byte 4, GFX activity
/// centi-% at 28, socket power mW at 40, GFX clock MHz at 76; no
/// memory-controller activity.
pub proof fn lemma_gpu_metrics_v2_4_fields(b: Seq<u8>)
    requires
        b.len() >= 168,
        word16(b, 0) == 168,
        b[2] == 2,
        b[3] == 4,
    ensures
        gpu_metrics(b) matches Ok(m) && {
            &&& m.hotspot_millic == sensor16_signed(b, 4, 10)
            &&& m.activity_centipercent == sensor16(b, 28, 1)
            &&& m.socket_power_microwatts == sensor16(b, 40, 1_000)
            &&& m.gfx_clock_hz == sensor16(b, 76, 1_000_000)
            &&& m.umc_centipercent is Absent
            &&& m.throttle == ThrottleReading::Status {
                status: word32(b, 108) as u32,
                indep: Some(word64(b, 120) as u64),
            }
        },
{
}

/// `gpu_metrics_v3_0` (264 bytes): GFX activity % at byte 42, socket power
/// mW in the 32-bit field at 112, GFX clock MHz at 174; temperature and
/// memory-controller activity are not read from it.
pub proof fn lemma_gpu_metrics_v3_0_fields(b: Seq<u8>)
    requires
        b.len() >= 264,
        word16(b, 0) == 264,
        b[2] == 3,
        b[3] == 0,
    ensures
        gpu_metrics(b) matches Ok(m) && {
            &&& m.activity_centipercent == sensor16(b, 42, 100)
            &&& m.socket_power_microwatts == (if word32(b, 112) == 4294967295 {
                Reading::<u64>::Sentinel
            } else {
                Reading::Value((word32(b, 112) * 1000) as u64)
            })
            &&& m.gfx_clock_hz == sensor16(b, 174, 1_000_000)
            &&& m.hotspot_millic is Absent
            &&& m.umc_centipercent is Absent
        },
{
}

/// `gpu_metrics_v2_1` to `v2_3`: their numeric unit scales are undocumented,
/// so no numeric telemetry is read from them.
pub proof fn lemma_gpu_metrics_v2_early_is_not_numeric(b: Seq<u8>)
    requires
        b[2] == 2,
        1 <= b[3] <= 3,
        b.len() >= word16(b, 0),
        word16(b, 0) == (if b[3] == 1 {
            120int
        } else if b[3] == 2 {
            128
        } else {
            152
        }),
    ensures
        gpu_metrics(b) matches Ok(m) && {
            &&& m.hotspot_millic is Absent
            &&& m.activity_centipercent is Absent
            &&& m.umc_centipercent is Absent
            &&& m.socket_power_microwatts is Absent
            &&& m.gfx_clock_hz is Absent
            &&& m.energy is None
            &&& m.throttle == ThrottleReading::Status {
                status: word32(b, 108) as u32,
                indep: if b[3] >= 2 {
                    Some(word64(b, 120) as u64)
                } else {
                    None
                },
            }
        },
{
}

/// The interpreted revisions and their struct sizes in bytes, as the
/// kernel's `kgd_pp_interface.h` declares them.
pub open spec fn documented_size(format: u8, content: u8) -> Option<int> {
    if format == 1 && content == 3 {
        Some(120)
    } else if format == 1 && content == 4 {
        Some(288)
    } else if format == 1 && content == 5 {
        Some(360)
    } else if format == 1 && content == 6 {
        Some(1664)
    } else if format == 1 && content == 7 {
        Some(2208)
    } else if format == 1 && content == 8 {
        Some(3360)
    } else if format == 2 && content == 1 {
        Some(120)
    } else if format == 2 && content == 2 {
        Some(128)
    } else if format == 2 && content == 3 {
        Some(152)
    } else if format == 2 && content == 4 {
        Some(168)
    } else if format == 3 && content == 0 {
        Some(264)
    } else {
        None
    }
}

/// Header validation: a blob shorter than its header, or shorter than its
/// declared struct, or declaring another size, is truncated; a revision
/// outside the interpreted ones is reported as such, never guessed; every
/// interpreted revision of the right size decodes.
pub proof fn lemma_gpu_metrics_header(b: Seq<u8>)
    ensures
        b.len() < 4 ==> gpu_metrics(b) == Err::<GpuMetricsBlob, BlobError>(BlobError::Truncated),
        b.len() >= 4 && documented_size(b[2], b[3]) is None ==> gpu_metrics(b) == Err::<
            GpuMetricsBlob,
            BlobError,
        >(BlobError::UnsupportedVersion(b[2], b[3])),
        b.len() >= 4 && documented_size(b[2], b[3]) is Some ==> (gpu_metrics(b) is Ok <==> (b.len()
            >= documented_size(b[2], b[3])->0 && word16(b, 0) == documented_size(b[2], b[3])->0)),
        b.len() >= 4 && documented_size(b[2], b[3]) is Some && gpu_metrics(b) is Err ==> gpu_metrics(b)
            == Err::<GpuMetricsBlob, BlobError>(BlobError::Truncated),
{
}

fn expected_size(format: u8, content: u8) -> (r: Option<usize>)
    ensures
        r matches Some(n) ==> layout_size(format, content) == Some(n as nat),
        r is None ==> layout_size(format, content) is None,
{
    match (format, content) {
        (1, 3) => Some(120),
        (1, 4) => Some(288),
        (1, 5) => Some(360),
        (1, 6) => Some(1664),
        (1, 7) => Some(2208),
        (1, 8) => Some(3360),
        (2, 1) => Some(120),
        (2, 2) => Some(128),
        (2, 3) => Some(152),
        (2, 4) => Some(168),
        (3, 0) => Some(264),
        _ => None,
    }
}

fn residency_fields(f: &Fields, offset: usize) -> (r: ThrottleReading)
    requires
        offset <= 64,
    ensures
        r == residency_at(f.0@, offset as int),
{
    ThrottleReading::Residency {
        counter: f.u32(offset).unwrap_or(0),
        prochot: f.u32(offset + 4).unwrap_or(0),
        ppt: f.u32(offset + 8).unwrap_or(0),
        socket_thm: f.u32(offset + 12).unwrap_or(0),
        vr_thm: f.u32(offset + 16).unwrap_or(0),
        hbm_thm: f.u32(offset + 20).unwrap_or(0),
    }
}

/// Parses one supported `gpu_metrics` blob after validating its header.
pub fn parse_gpu_metrics(bytes: &[u8]) -> (r: Result<GpuMetricsBlob, BlobError>)
    ensures
        r == gpu_metrics(bytes@),
{
    if bytes.len() < 4 {
        return Err(BlobError::Truncated);
    }
    let f = Fields(bytes);
    let structure_size: usize = match f.u16(0) {
        Some(v) => v as usize,
        None => 0,
    };
    let format = bytes[2];
    let content = bytes[3];
    let expected = match expected_size(format, content) {
        Some(n) => n,
        None => return Err(BlobError::UnsupportedVersion(format, content)),
    };
    if bytes.len() < expected || structure_size != expected {
        return Err(BlobError::Truncated);
    }
    let blob = if format == 1 && content == 3 {
        GpuMetricsBlob {
            hotspot_millic: f.r16_temperature(6, 1000),
            socket_power_microwatts: f.r16_scaled(22, 1_000_000),
            activity_centipercent: f.r16_scaled(16, 100),
            umc_centipercent: f.r16_scaled(18, 100),
            gfx_clock_hz: f.r16_scaled(54, 1_000_000),
            energy: f.r64(24),
            throttle: ThrottleReading::Status { status: f.u32(68).unwrap_or(0), indep: f.u64(112) },
        }
    } else if format == 1 {
        let energy_offset: usize = if content == 4 {
            24
        } else if content == 5 {
            88
        } else if content == 6 {
            16
        } else {
            24
        };
        let clock_offset: usize = if content == 4 {
            240
        } else if content == 5 {
            312
        } else if content == 6 {
            264
        } else {
            296
        };
        let throttle = if content == 4 {
            ThrottleReading::Status { status: f.u32(40).unwrap_or(0), indep: None }
        } else if content == 5 {
            ThrottleReading::Status { status: f.u32(104).unwrap_or(0), indep: None }
        } else if content == 6 {
            residency_fields(&f, 32)
        } else {
            residency_fields(&f, 40)
        };
        GpuMetricsBlob {
            hotspot_millic: f.r16_temperature(4, 1000),
            socket_power_microwatts: f.r16_scaled(10, 1_000_000),
            activity_centipercent: f.r16_scaled(12, 100),
            umc_centipercent: f.r16_scaled(14, 100),
            gfx_clock_hz: f.r16_scaled(clock_offset, 1_000_000),
            energy: f.r64(energy_offset),
            throttle,
        }
    } else if format == 2 && content <= 3 {
        GpuMetricsBlob {
            hotspot_millic: Reading::Absent,
            socket_power_microwatts: Reading::Absent,
            activity_centipercent: Reading::Absent,
            umc_centipercent: Reading::Absent,
            gfx_clock_hz: Reading::Absent,
            energy: None,
            throttle: ThrottleReading::Status {
                status: f.u32(108).unwrap_or(0),
                indep: if content >= 2 {
                    f.u64(120)
                } else {
                    None
                },
            },
        }
    } else if format == 2 {
        GpuMetricsBlob {
            hotspot_millic: f.r16_temperature(4, 10),
            socket_power_microwatts: f.r16_scaled(40, 1_000),
            activity_centipercent: f.r16(28),
            umc_centipercent: Reading::Absent,
            gfx_clock_hz: f.r16_scaled(76, 1_000_000),
            energy: None,
            throttle: ThrottleReading::Status { status: f.u32(108).unwrap_or(0), indep: f.u64(120) },
        }
    } else {
        GpuMetricsBlob {
            hotspot_millic: Reading::Absent,
            socket_power_microwatts: f.r32_scaled(112, 1_000),
            activity_centipercent: f.r16_scaled(42, 100),
            umc_centipercent: Reading::Absent,
            gfx_clock_hz: f.r16_scaled(174, 1_000_000),
            energy: None,
            throttle: ThrottleReading::NoEvidence,
        }
    };
    Ok(blob)
}

/// The evidence a failed blob read leaves for every field it would have
/// carried.
pub open spec fn blob_failure(e: BlobError) -> Reading<()> {
    match e {
        BlobError::UnsupportedVersion(_, _) => Reading::UnsupportedDriver,
        BlobError::Truncated => Reading::Malformed,
    }
}

/// Maps a blob decoding failure to reading evidence.
pub fn blob_error_reading(e: BlobError) -> (r: Reading<()>)
    ensures
        r == blob_failure(e),
{
    match e {
        BlobError::UnsupportedVersion(_, _) => Reading::UnsupportedDriver,
        BlobError::Truncated => Reading::Malformed,
    }
}

} // verus!

verus! {

// ---------------------------------------------------------------------------
// Throttle evidence
// ---------------------------------------------------------------------------

/// One named throttle reason group.
#[derive(Debug, Clone, Copy, PartialEq, Eq)]
pub enum ThrottleReason {
    Prochot,
    Power,
    Current,
    Thermal,
}

impl ThrottleReason {
    pub open spec fn name(self) -> Seq<char> {
        match self {
            ThrottleReason::Prochot => "prochot"@,
            ThrottleReason::Power => "power"@,
            ThrottleReason::Current => "current"@,
            ThrottleReason::Thermal => "thermal"@,
        }
    }

    /// The reason's source name.
    pub fn as_str(&self) -> (r: &'static str)
        ensures
            r@ == self.name(),
    {
        match self {
            ThrottleReason::Prochot => "prochot",
            ThrottleReason::Power => "power",
            ThrottleReason::Current => "current",
            ThrottleReason::Thermal => "thermal",
        }
    }
}

/// Reason groups named by `indep_throttle_status` (SMU_THROTTLER_* bit
/// ranges): bits 0–7 power, 16–23 current, 32–47 temperature.
pub open spec fn indep_reason_list(indep: u64) -> Seq<ThrottleReason> {
    let power: Seq<ThrottleReason> = if indep & 0xff != 0 {
        seq![ThrottleReason::Power]
    } else {
        seq![]
    };
    let current = if indep & 0x00ff_0000 != 0 {
        power.push(ThrottleReason::Current)
    } else {
        power
    };
    if indep & 0xffff_0000_0000 != 0 {
        current.push(ThrottleReason::Thermal)
    } else {
        current
    }
}

/// The reason groups of an `indep_throttle_status` word.
pub fn indep_reasons(indep: u64) -> (r: Vec<ThrottleReason>)
    ensures
        r@ == indep_reason_list(indep),
{
    let mut reasons: Vec<ThrottleReason> = Vec::new();
    if indep & 0x0000_0000_0000_00FF != 0 {
        reasons.push(ThrottleReason::Power);
    }
    if indep & 0x0000_0000_00FF_0000 != 0 {
        reasons.push(ThrottleReason::Current);
    }
    if indep & 0x0000_FFFF_0000_0000 != 0 {
        reasons.push(ThrottleReason::Thermal);
    }
    proof {
        assert(reasons@ =~= indep_reason_list(indep));
    }
    reasons
}

/// Reason names joined by ", ", in order.
pub open spec fn joined_reasons(reasons: Seq<ThrottleReason>) -> Seq<char>
    decreases reasons.len(),
{
    if reasons.len() == 0 {
        Seq::empty()
    } else if reasons.len() == 1 {
        reasons[0].name()
    } else {
        joined_reasons(reasons.drop_last()) + ", "@ + reasons.last().name()
    }
}

/// Joins reason names with ", ".
pub fn join_reasons(reasons: &Vec<ThrottleReason>) -> (r: String)
    ensures
        r@ == joined_reasons(reasons@),
{
    let mut out: Vec<char> = Vec::new();
    let mut i: usize = 0;
    while i < reasons.len()
        invariant
            i <= reasons.len(),
            out@ == joined_reasons(reasons@.take(i as int)),
        decreases reasons.len() - i,
    {
        proof {
            assert(reasons@.take(i + 1).drop_last() =~= reasons@.take(i as int));
        }
        if i > 0 {
            extend_chars(&mut out, ", ");
        }
        extend_chars(&mut out, reasons[i].as_str());
        proof {
            if i == 0 {
                assert(out@ =~= joined_reasons(reasons@.take(1)));
            } else {
                assert(out@ =~= joined_reasons(reasons@.take(i + 1)));
            }
        }
        i = i + 1;
    }
    proof {
        assert(reasons@.take(reasons.len() as int) =~= reasons@);
    }
    crate::text::string_of(&out)
}

/// Source-reported fault/throttle evidence from kernel interfaces.
#[derive(Debug, Clone, PartialEq, Eq)]
pub enum KernelHealthSignal {
    /// An active throttle with its source-named reason groups.
    ThrottleActive { reasons: String },
    /// Uncorrectable ECC errors accumulated across RAS blocks.
    EccErrors { uncorrectable: u64 },
    /// Pending or unreservable bad VRAM pages.
    BadPages { pending: u64, unreservable: u64 },
}

/// The residency reasons that advanced between two accumulator readings.
pub open spec fn advanced_reasons(
    prochot: u32,
    ppt: u32,
    socket_thm: u32,
    vr_thm: u32,
    hbm_thm: u32,
    p_prochot: u32,
    p_ppt: u32,
    p_socket: u32,
    p_vr: u32,
    p_hbm: u32,
) -> Seq<ThrottleReason> {
    let a: Seq<ThrottleReason> = if prochot > p_prochot {
        seq![ThrottleReason::Prochot]
    } else {
        seq![]
    };
    let b = if ppt > p_ppt {
        a.push(ThrottleReason::Power)
    } else {
        a
    };
    if socket_thm > p_socket || vr_thm > p_vr || hbm_thm > p_hbm {
        b.push(ThrottleReason::Thermal)
    } else {
        b
    }
}

/// The reasons text of the throttle signal one reading emits against the
/// GPU's previous residency baseline, or `None` when it emits none. Status
/// bits signal whenever set; residencies signal only when the accumulator
/// counter advanced past a baseline and some reason advanced with it.
pub open spec fn throttle_signal(
    previous: Option<ThrottleReading>,
    throttle: ThrottleReading,
) -> Option<Seq<char>> {
    match throttle {
        ThrottleReading::NoEvidence => None,
        ThrottleReading::Status { status, indep } => if status != 0 {
            Some(
                match indep {
                    Some(i) => if i != 0 && i != u64::MAX {
                        joined_reasons(indep_reason_list(i))
                    } else {
                        Seq::empty()
                    },
                    None => Seq::empty(),
                },
            )
        } else {
            None
        },
        ThrottleReading::Residency { counter, prochot, ppt, socket_thm, vr_thm, hbm_thm } => {
            match previous {
                Some(
                    ThrottleReading::Residency {
                        counter: p_counter,
                        prochot: p_prochot,
                        ppt: p_ppt,
                        socket_thm: p_socket,
                        vr_thm: p_vr,
                        hbm_thm: p_hbm,
                    },
                ) => {
                    let reasons = advanced_reasons(
                        prochot,
                        ppt,
                        socket_thm,
                        vr_thm,
                        hbm_thm,
                        p_prochot,
                        p_ppt,
                        p_socket,
                        p_vr,
                        p_hbm,
                    );
                    if counter > p_counter && reasons.len() > 0 {
                        Some(joined_reasons(reasons))
                    } else {
                        None
                    }
                },
                _ => None,
            }
        },
    }
}

/// Each residency accumulator names a fixed reason. Once the counter has
/// advanced past the baseline, the throttle text names, in this order,
/// `prochot` when the PROCHOT residency advanced, `power` when the PPT
/// residency advanced, and `thermal` when any of the socket, VR or HBM
/// thermal residencies advanced; with nothing advanced, or without an
/// advanced counter, no throttle is reported.
pub proof fn lemma_residency_reasons_name_their_accumulators(
    counter: u32,
    prochot: u32,
    ppt: u32,
    socket_thm: u32,
    vr_thm: u32,
    hbm_thm: u32,
    p_counter: u32,
    p_prochot: u32,
    p_ppt: u32,
    p_socket: u32,
    p_vr: u32,
    p_hbm: u32,
)
    ensures
        ({
            let previous = ThrottleReading::Residency {
                counter: p_counter,
                prochot: p_prochot,
                ppt: p_ppt,
                socket_thm: p_socket,
                vr_thm: p_vr,
                hbm_thm: p_hbm,
            };
            let reading = ThrottleReading::Residency { counter, prochot, ppt, socket_thm, vr_thm, hbm_thm };
            let hot = prochot > p_prochot;
            let power = ppt > p_ppt;
            let thermal = socket_thm > p_socket || vr_thm > p_vr || hbm_thm > p_hbm;
            &&& throttle_signal(None, reading) is None
            &&& counter <= p_counter ==> throttle_signal(Some(previous), reading) is None
            &&& counter > p_counter ==> throttle_signal(Some(previous), reading) == (
            if hot && power && thermal {
                Some("prochot"@ + ", "@ + "power"@ + ", "@ + "thermal"@)
            } else if hot && power {
                Some("prochot"@ + ", "@ + "power"@)
            } else if hot && thermal {
                Some("prochot"@ + ", "@ + "thermal"@)
            } else if power && thermal {
                Some("power"@ + ", "@ + "thermal"@)
            } else if hot {
                Some("prochot"@)
            } else if power {
                Some("power"@)
            } else if thermal {
                Some("thermal"@)
            } else {
                None
            })
        }),
{
    reveal_with_fuel(joined_reasons, 3);
    let r = advanced_reasons(prochot, ppt, socket_thm, vr_thm, hbm_thm, p_prochot, p_ppt, p_socket, p_vr, p_hbm);
    let hot = prochot > p_prochot;
    let power = ppt > p_ppt;
    let thermal = socket_thm > p_socket || vr_thm > p_vr || hbm_thm > p_hbm;
    if hot && power && thermal {
        assert(r =~= seq![ThrottleReason::Prochot, ThrottleReason::Power, ThrottleReason::Thermal]);
        assert(r.drop_last() =~= seq![ThrottleReason::Prochot, ThrottleReason::Power]);
        assert(r.drop_last().drop_last() =~= seq![ThrottleReason::Prochot]);
    } else if hot && power {
        assert(r =~= seq![ThrottleReason::Prochot, ThrottleReason::Power]);
        assert(r.drop_last() =~= seq![ThrottleReason::Prochot]);
    } else if hot && thermal {
        assert(r =~= seq![ThrottleReason::Prochot, ThrottleReason::Thermal]);
        assert(r.drop_last() =~= seq![ThrottleReason::Prochot]);
    } else if power && thermal {
        assert(r =~= seq![ThrottleReason::Power, ThrottleReason::Thermal]);
        assert(r.drop_last() =~= seq![ThrottleReason::Power]);
    } else if hot {
        assert(r =~= seq![ThrottleReason::Prochot]);
    } else if power {
        assert(r =~= seq![ThrottleReason::Power]);
    } else if thermal {
        assert(r =~= seq![ThrottleReason::Thermal]);
    } else {
        assert(r.len() == 0);
    }
}

/// Throttle status bits signal exactly when set; without an interpretable
/// independent status word the signal names no reason.
pub proof fn lemma_status_bits_signal_when_set(status: u32, indep: Option<u64>)
    ensures
        status == 0 ==> throttle_signal(None, ThrottleReading::Status { status, indep }) is None,
        status != 0 && (indep is None || indep == Some(0u64) || indep == Some(u64::MAX)) ==> throttle_signal(
            None,
            ThrottleReading::Status { status, indep },
        ) == Some(Seq::<char>::empty()),
        throttle_signal(None, ThrottleReading::NoEvidence) is None,
{
}

/// Each `indep_throttle_status` bit range names a fixed reason group: with
/// the status set, the throttle text names `power` for bits 0–7, `current`
/// for bits 16–23 and `thermal` for bits 32–47, in that order.
pub proof fn lemma_status_reasons_name_their_bit_ranges(status: u32, indep: u64)
    requires
        status != 0,
        indep != 0,
        indep != u64::MAX,
    ensures
        ({
            let power = indep & 0xff != 0;
            let current = indep & 0x00ff_0000 != 0;
            let thermal = indep & 0xffff_0000_0000 != 0;
            throttle_signal(None, ThrottleReading::Status { status, indep: Some(indep) }) == Some(
                if power && current && thermal {
                    "power"@ + ", "@ + "current"@ + ", "@ + "thermal"@
                } else if power && current {
                    "power"@ + ", "@ + "current"@
                } else if power && thermal {
                    "power"@ + ", "@ + "thermal"@
                } else if current && thermal {
                    "current"@ + ", "@ + "thermal"@
                } else if power {
                    "power"@
                } else if current {
                    "current"@
                } else if thermal {
                    "thermal"@
                } else {
                    Seq::empty()
                },
            )
        }),
{
    reveal_with_fuel(joined_reasons, 3);
    let r = indep_reason_list(indep);
    let power = indep & 0xff != 0;
    let current = indep & 0x00ff_0000 != 0;
    let thermal = indep & 0xffff_0000_0000 != 0;
    if power && current && thermal {
        assert(r =~= seq![ThrottleReason::Power, ThrottleReason::Current, ThrottleReason::Thermal]);
        assert(r.drop_last() =~= seq![ThrottleReason::Power, ThrottleReason::Current]);
        assert(r.drop_last().drop_last() =~= seq![ThrottleReason::Power]);
    } else if power && current {
        assert(r =~= seq![ThrottleReason::Power, ThrottleReason::Current]);
        assert(r.drop_last() =~= seq![ThrottleReason::Power]);
    } else if power && thermal {
        assert(r =~= seq![ThrottleReason::Power, ThrottleReason::Thermal]);
        assert(r.drop_last() =~= seq![ThrottleReason::Power]);
    } else if current && thermal {
        assert(r =~= seq![ThrottleReason::Current, ThrottleReason::Thermal]);
        assert(r.drop_last() =~= seq![ThrottleReason::Current]);
    } else if power {
        assert(r =~= seq![ThrottleReason::Power]);
    } else if current {
        assert(r =~= seq![ThrottleReason::Current]);
    } else if thermal {
        assert(r =~= seq![ThrottleReason::Thermal]);
    } else {
        assert(r.len() == 0);
    }
}

/// `std::path::PathBuf`, carried opaquely as a filesystem root.
#[verifier::external_type_specification]
#[verifier::external_body]
pub struct ExPathBuf(std::path::PathBuf);

/// Kernel source state: the filesystem root and the per-GPU throttle
/// residency baselines.
pub struct KernelSource {
    root: std::path::PathBuf,
    residency: Vec<(PhysicalGpuId, ThrottleReading)>,
}

impl KernelSource {
    /// Each GPU holds at most one baseline.
    pub closed spec fn wf(&self) -> bool {
        forall|i: int, j: int|
            0 <= i < j < self.residency@.len() ==> #[trigger] self.residency@[i].0@
                != #[trigger] self.residency@[j].0@
    }

    /// The residency baseline of each GPU identity.
    pub closed spec fn baselines(&self) -> Map<Seq<char>, ThrottleReading> {
        Map::new(
            |k: Seq<char>| exists|i: int| 0 <= i < self.residency@.len() && #[trigger] self.residency@[i].0@ == k,
            |k: Seq<char>|
                self.residency@[choose|i: int|
                    0 <= i < self.residency@.len() && #[trigger] self.residency@[i].0@ == k].1,
        )
    }

    /// The filesystem root.
    pub closed spec fn root_path(&self) -> std::path::PathBuf {
        self.root
    }

    /// Creates the adapter over an explicit filesystem root (`/` in
    /// production; a fixture tree in tests), with no baselines yet.
    pub fn new(root: std::path::PathBuf) -> (r: Self)
        ensures
            r.wf(),
            r.root_path() == root,
            r.baselines() == Map::<Seq<char>, ThrottleReading>::empty(),
    {
        let r = KernelSource { root, residency: Vec::new() };
        proof {
            assert(r.baselines() =~= Map::<Seq<char>, ThrottleReading>::empty());
        }
        r
    }

    /// The filesystem root.
    pub fn root(&self) -> (r: &std::path::PathBuf)
        ensures
            *r == self.root_path(),
    {
        &self.root
    }

    proof fn lemma_lookup(&self, i: int)
        requires
            self.wf(),
            0 <= i < self.residency@.len(),
        ensures
            self.baselines().contains_key(self.residency@[i].0@),
            self.baselines()[self.residency@[i].0@] == self.residency@[i].1,
    {
        let k = self.residency@[i].0@;
        assert(self.baselines().dom().contains(k));
        let j = choose|j: int| 0 <= j < self.residency@.len() && #[trigger] self.residency@[j].0@ == k;
        if j != i {
            if j < i {
                assert(self.residency@[j].0@ != self.residency@[i].0@);
            } else {
                assert(self.residency@[i].0@ != self.residency@[j].0@);
            }
        }
    }

    fn find(&self, gpu: &PhysicalGpuId) -> (r: Option<usize>)
        requires
            self.wf(),
        ensures
            r matches Some(i) ==> i < self.residency@.len() && self.residency@[i as int].0@ == gpu@,
            r is None ==> !self.baselines().contains_key(gpu@),
    {
        let mut i: usize = 0;
        while i < self.residency.len()
            invariant
                i <= self.residency@.len(),
                forall|j: int| 0 <= j < i ==> #[trigger] self.residency@[j].0@ != gpu@,
            decreases self.residency.len() - i,
        {
            if self.residency[i].0.same(gpu) {
                return Some(i);
            }
            i = i + 1;
        }
        None
    }

    /// Records a residency baseline for one GPU.
    fn remember(&mut self, gpu: &PhysicalGpuId, reading: ThrottleReading)
        requires
            old(self).wf(),
        ensures
            final(self).wf(),
            final(self).root_path() == old(self).root_path(),
            final(self).baselines() == old(self).baselines().insert(gpu@, reading),
    {
        let ghost before = self.residency@;
        match self.find(gpu) {
            Some(i) => {
                self.residency.set(i, (gpu.clone(), reading));
                proof {
                    let after = self.residency@;
                    assert forall|a: int, b: int| 0 <= a < b < after.len() implies #[trigger] after[a].0@
                        != #[trigger] after[b].0@ by {
                        assert(before[a].0@ != before[b].0@);
                    }
                    assert(self.wf());
                    assert forall|k: Seq<char>| #[trigger] self.baselines().contains_key(k)
                        == old(self).baselines().insert(gpu@, reading).contains_key(k) by {
                        if k != gpu@ {
                            if exists|j: int| 0 <= j < after.len() && #[trigger] after[j].0@ == k {
                                let j = choose|j: int| 0 <= j < after.len() && #[trigger] after[j].0@ == k;
                                assert(before[j].0@ == k);
                            }
                            if exists|j: int| 0 <= j < before.len() && #[trigger] before[j].0@ == k {
                                let j = choose|j: int| 0 <= j < before.len() && #[trigger] before[j].0@ == k;
                                assert(after[j].0@ == k);
                            }
                        } else {
                            assert(after[i as int].0@ == k);
                        }
                    }
                    assert forall|k: Seq<char>| #[trigger] self.baselines().contains_key(k) implies
                        self.baselines()[k] == old(self).baselines().insert(gpu@, reading)[k] by {
                        let j = choose|j: int| 0 <= j < after.len() && #[trigger] after[j].0@ == k;
                        self.lemma_lookup(j);
                        if k != gpu@ {
                            old(self).lemma_lookup(j);
                        }
                    }
                    assert(self.baselines() =~= old(self).baselines().insert(gpu@, reading));
                }
            },
            None => {
                self.residency.push((gpu.clone(), reading));
                proof {
                    let after = self.residency@;
                    assert forall|a: int, b: int| 0 <= a < b < after.len() implies #[trigger] after[a].0@
                        != #[trigger] after[b].0@ by {
                        if b == after.len() - 1 {
                            if before[a].0@ == gpu@ {
                                old(self).lemma_lookup(a);
                            }
                        } else {
                            assert(before[a].0@ != before[b].0@);
                        }
                    }
                    assert(self.wf());
                    assert forall|k: Seq<char>| #[trigger] self.baselines().contains_key(k)
                        == old(self).baselines().insert(gpu@, reading).contains_key(k) by {
                        if exists|j: int| 0 <= j < after.len() && #[trigger] after[j].0@ == k {
                            let j = choose|j: int| 0 <= j < after.len() && #[trigger] after[j].0@ == k;
                            if j < before.len() {
                                assert(before[j].0@ == k);
                            }
                        }
                        if exists|j: int| 0 <= j < before.len() && #[trigger] before[j].0@ == k {
                            let j = choose|j: int| 0 <= j < before.len() && #[trigger] before[j].0@ == k;
                            assert(after[j].0@ == k);
                        }
                        if k == gpu@ {
                            assert(after[after.len() - 1].0@ == k);
                        }
                    }
                    assert forall|k: Seq<char>| #[trigger] self.baselines().contains_key(k) implies
                        self.baselines()[k] == old(self).baselines().insert(gpu@, reading)[k] by {
                        let j = choose|j: int| 0 <= j < after.len() && #[trigger] after[j].0@ == k;
                        self.lemma_lookup(j);
                        if k != gpu@ {
                            assert(j < before.len());
                            old(self).lemma_lookup(j);
                        }
                    }
                    assert(self.baselines() =~= old(self).baselines().insert(gpu@, reading));
                }
            },
        }
    }

    /// Emits an active-throttle signal from status bits or advancing
    /// residency accumulators. A residency reading becomes the GPU's new
    /// baseline; the first one only anchors it.
    pub fn throttle_health(
        &mut self,
        gpu: &PhysicalGpuId,
        throttle: &ThrottleReading,
        health: &mut Vec<KernelHealthSignal>,
    )
        requires
            old(self).wf(),
        ensures
            final(self).wf(),
            final(self).root_path() == old(self).root_path(),
            final(self).baselines() == (if throttle is Residency {
                old(self).baselines().insert(gpu@, *throttle)
            } else {
                old(self).baselines()
            }),
            match throttle_signal(
                if old(self).baselines().contains_key(gpu@) {
                    Some(old(self).baselines()[gpu@])
                } else {
                    None
                },
                *throttle,
            ) {
                None => final(health)@ == old(health)@,
                Some(text) => {
                    &&& final(health)@.len() == old(health)@.len() + 1
                    &&& final(health)@.drop_last() == old(health)@
                    &&& final(health)@.last() matches KernelHealthSignal::ThrottleActive { reasons }
                    &&& reasons@ == text
                },
            },
    {
        match throttle {
            ThrottleReading::NoEvidence => {},
            ThrottleReading::Status { status, indep } => {
                if *status != 0 {
                    let reasons = match indep {
                        Some(i) => if *i != 0 && *i != u64::MAX {
                            join_reasons(&indep_reasons(*i))
                        } else {
                            String::new()
                        },
                        None => String::new(),
                    };
                    health.push(KernelHealthSignal::ThrottleActive { reasons });
                    proof {
                        assert(health@.drop_last() =~= old(health)@);
                    }
                }
            },
            ThrottleReading::Residency { counter, prochot, ppt, socket_thm, vr_thm, hbm_thm } => {
                let previous = match self.find(gpu) {
                    Some(i) => {
                        proof {
                            self.lemma_lookup(i as int);
                        }
                        Some(self.residency[i].1)
                    },
                    None => None,
                };
                self.remember(gpu, *throttle);
                if let Some(
                    ThrottleReading::Residency {
                        counter: p_counter,
                        prochot: p_prochot,
                        ppt: p_ppt,
                        socket_thm: p_socket,
                        vr_thm: p_vr,
                        hbm_thm: p_hbm,
                    },
                ) = previous {
                    if *counter > p_counter {
                        let mut reasons: Vec<ThrottleReason> = Vec::new();
                        if *prochot > p_prochot {
                            reasons.push(ThrottleReason::Prochot);
                        }
                        if *ppt > p_ppt {
                            reasons.push(ThrottleReason::Power);
                        }
                        if *socket_thm > p_socket || *vr_thm > p_vr || *hbm_thm > p_hbm {
                            reasons.push(ThrottleReason::Thermal);
                        }
                        proof {
                            assert(reasons@ =~= advanced_reasons(
                                *prochot,
                                *ppt,
                                *socket_thm,
                                *vr_thm,
                                *hbm_thm,
                                p_prochot,
                                p_ppt,
                                p_socket,
                                p_vr,
                                p_hbm,
                            ));
                        }
                        if reasons.len() > 0 {
                            let text = join_reasons(&reasons);
                            health.push(KernelHealthSignal::ThrottleActive { reasons: text });
                            proof {
                                assert(health@.drop_last() =~= old(health)@);
                            }
                        }
                    }
                }
            },
        }
    }
}

// ---------------------------------------------------------------------------
// Domain validation and text nodes
// ---------------------------------------------------------------------------

/// Centi-percent above 100 % is malformed, never clamped.
pub fn validate_centipercent(reading: Reading<u64>) -> (r: Reading<u64>)
    ensures
        r == (match reading {
            Reading::Value(v) => if v > 10_000 {
                Reading::Malformed
            } else {
                reading
            },
            _ => reading,
        }),
{
    match reading {
        Reading::Value(v) => if v > 10_000 {
            Reading::Malformed
        } else {
            reading
        },
        other => other,
    }
}

/// Milli-Celsius outside [-273.15 °C, 1000 °C] is malformed, never clamped.
pub fn validate_millic(reading: Reading<i64>) -> (r: Reading<i64>)
    ensures
        r == (match reading {
            Reading::Value(v) => if v < -273_150 || v > 1_000_000 {
                Reading::Malformed
            } else {
                reading
            },
            _ => reading,
        }),
{
    match reading {
        Reading::Value(v) => if v < -273_150 || v > 1_000_000 {
            Reading::Malformed
        } else {
            reading
        },
        other => other,
    }
}

/// Microwatts above 20 kW are malformed, never clamped.
pub fn validate_microwatts(reading: Reading<u64>) -> (r: Reading<u64>)
    ensures
        r == (match reading {
            Reading::Value(v) => if v > 20_000_000_000 {
                Reading::Malformed
            } else {
                reading
            },
            _ => reading,
        }),
{
    match reading {
        Reading::Value(v) => if v > 20_000_000_000 {
            Reading::Malformed
        } else {
            reading
        },
        other => other,
    }
}

/// A text node's unsigned value: the trimmed text parsed as `u64`, or
/// malformed.
pub open spec fn node_u64_spec(text: Seq<char>) -> Reading<u64> {
    match parse_u64_spec(trim(text)) {
        Some(v) => Reading::Value(v),
        None => Reading::Malformed,
    }
}

/// A text node's signed value: the trimmed text parsed as `i64`, or
/// malformed.
pub open spec fn node_i64_spec(text: Seq<char>) -> Reading<i64> {
    match parse_i64_spec(trim(text)) {
        Some(v) => Reading::Value(v),
        None => Reading::Malformed,
    }
}

/// The unsigned value of a read text node.
pub open spec fn node_u64_spec_of(text: Reading<String>) -> Reading<u64> {
    match text {
        Reading::Value(t) => node_u64_spec(t@),
        _ => same_failure::<String, u64>(text),
    }
}

/// Interprets the content of an unsigned text node (`read_u64` after the
/// read).
pub fn node_u64(text: &Reading<String>) -> (r: Reading<u64>)
    ensures
        r == (match text {
            Reading::Value(t) => node_u64_spec(t@),
            _ => same_failure::<String, u64>(*text),
        }),
{
    match text {
        Reading::Value(t) => {
            let chars = chars_of(t.as_str());
            match parse_u64(&trimmed(&chars)) {
                Some(v) => Reading::Value(v),
                None => Reading::Malformed,
            }
        },
        Reading::Absent => Reading::Absent,
        Reading::Sentinel => Reading::Sentinel,
        Reading::Asleep => Reading::Asleep,
        Reading::PermissionDenied => Reading::PermissionDenied,
        Reading::UnsupportedDriver => Reading::UnsupportedDriver,
        Reading::Malformed => Reading::Malformed,
        Reading::Error => Reading::Error,
    }
}

/// Interprets the content of a signed text node (`read_i64` after the
/// read).
pub fn node_i64(text: &Reading<String>) -> (r: Reading<i64>)
    ensures
        r == (match text {
            Reading::Value(t) => node_i64_spec(t@),
            _ => same_failure::<String, i64>(*text),
        }),
{
    match text {
        Reading::Value(t) => {
            let chars = chars_of(t.as_str());
            match parse_i64(&trimmed(&chars)) {
                Some(v) => Reading::Value(v),
                None => Reading::Malformed,
            }
        },
        Reading::Absent => Reading::Absent,
        Reading::Sentinel => Reading::Sentinel,
        Reading::Asleep => Reading::Asleep,
        Reading::PermissionDenied => Reading::PermissionDenied,
        Reading::UnsupportedDriver => Reading::UnsupportedDriver,
        Reading::Malformed => Reading::Malformed,
        Reading::Error => Reading::Error,
    }
}

/// A percent node in centi-percent: ×100, malformed where that overflows.
pub open spec fn percent_to_centi(r: Reading<u64>) -> Reading<u64> {
    match r {
        Reading::Value(p) => if p * 100 <= u64::MAX {
            Reading::Value((p * 100) as u64)
        } else {
            Reading::Malformed
        },
        _ => r,
    }
}

fn centi_from_percent(r: Reading<u64>) -> (out: Reading<u64>)
    ensures
        out == percent_to_centi(r),
{
    match r {
        Reading::Value(p) => match p.checked_mul(100) {
            Some(c) => Reading::Value(c),
            None => Reading::Malformed,
        },
        other => other,
    }
}

/// A validated partition activity: the primary partition prefers the
/// coherent blob and falls back to its text node; other partitions read
/// only their own node.
pub open spec fn partition_activity_spec(
    is_primary: bool,
    blob: Reading<u64>,
    text_percent: Reading<u64>,
) -> Reading<u64> {
    let text = percent_to_centi(text_percent);
    let chosen = if is_primary {
        preferred(blob, text)
    } else {
        text
    };
    match chosen {
        Reading::Value(v) => if v > 10_000 {
            Reading::Malformed
        } else {
            chosen
        },
        _ => chosen,
    }
}

/// Combines the blob and text-node evidence for one partition's activity
/// (GFX busy or memory-controller busy), validated in centi-percent.
pub fn partition_activity(is_primary: bool, blob: Reading<u64>, text_percent: Reading<u64>) -> (r:
    Reading<u64>)
    ensures
        r == partition_activity_spec(is_primary, blob, text_percent),
{
    let text = centi_from_percent(text_percent);
    let chosen = if is_primary {
        blob.prefer(text)
    } else {
        text
    };
    validate_centipercent(chosen)
}

} // verus!

verus! {

// ---------------------------------------------------------------------------
// Discovery decisions
// ---------------------------------------------------------------------------

/// A DRM directory entry naming a card: `card` followed by one or more
/// ASCII digits.
pub open spec fn is_card(name: Seq<char>) -> bool {
    crate::text::begins_with(name, "card"@) && name.len() > 4 && crate::text::all_digits(name.skip(4))
}

/// Whether a DRM entry name is a card.
pub fn is_card_name(name: &str) -> (r: bool)
    ensures
        r == is_card(name@),
{
    proof {
        reveal_strlit("card");
    }
    let chars = chars_of(name);
    if !crate::text::has_prefix(&chars, "card") || chars.len() <= 4 {
        return false;
    }
    let mut i: usize = 4;
    while i < chars.len()
        invariant
            4 <= i <= chars.len(),
            chars@ == name@,
            forall|j: int| 4 <= j < i ==> crate::text::is_digit(#[trigger] chars@[j]),
        decreases chars.len() - i,
    {
        if !crate::text::char_is_digit(chars[i]) {
            proof {
                assert(name@.skip(4)[i - 4] == chars@[i as int]);
            }
            return false;
        }
        i = i + 1;
    }
    proof {
        assert forall|j: int| 0 <= j < name@.skip(4).len() implies crate::text::is_digit(
            #[trigger] name@.skip(4)[j],
        ) by {
            assert(name@.skip(4)[j] == chars@[j + 4]);
        }
    }
    true
}

/// The `DRIVER=` and `PCI_SLOT_NAME=` values a uevent declares (trimmed;
/// later lines win).
pub open spec fn uevent_step(acc: (Option<Seq<char>>, Option<Seq<char>>), line: Seq<char>) -> (Option<Seq<char>>, Option<Seq<char>>) {
    if crate::text::begins_with(line, "DRIVER="@) {
        (Some(trim(line.skip(7))), acc.1)
    } else if crate::text::begins_with(line, "PCI_SLOT_NAME="@) {
        (acc.0, Some(trim(line.skip(14))))
    } else {
        acc
    }
}

/// `uevent_step` over lines, in order.
pub open spec fn uevent_fold(lines: Seq<Seq<char>>) -> (Option<Seq<char>>, Option<Seq<char>>)
    decreases lines.len(),
{
    if lines.len() == 0 {
        (None, None)
    } else {
        uevent_step(uevent_fold(lines.drop_last()), lines.last())
    }
}

/// The view of an optional string.
pub open spec fn text_view(o: Option<String>) -> Option<Seq<char>> {
    match o {
        Some(s) => Some(s@),
        None => None,
    }
}

/// Reads a device uevent's driver and PCI slot name.
#[verifier::loop_isolation(false)]
pub fn uevent_fields(text: &str) -> (r: (Option<String>, Option<String>))
    ensures
        (text_view(r.0), text_view(r.1)) == uevent_fold(crate::text::lines_of(text@)),
{
    proof {
        reveal_strlit("DRIVER=");
        reveal_strlit("PCI_SLOT_NAME=");
    }
    let lines = crate::text::split_lines(&chars_of(text));
    let ghost all = crate::text::lines_of(text@);
    let mut driver: Option<String> = None;
    let mut slot: Option<String> = None;
    let mut i: usize = 0;
    proof {
        assert(all.take(0) =~= Seq::<Seq<char>>::empty());
    }
    while i < lines.len()
        invariant
            i <= lines@.len(),
            lines@.len() == all.len(),
            forall|j: int| 0 <= j < lines@.len() ==> (#[trigger] lines@[j])@ == all[j],
            (text_view(driver), text_view(slot)) == uevent_fold(all.take(i as int)),
        decreases lines.len() - i,
    {
        proof {
            assert(all.take(i + 1).drop_last() =~= all.take(i as int));
            assert(all.take(i + 1).last() == lines@[i as int]@);
        }
        let line = &lines[i];
        if crate::text::has_prefix(line, "DRIVER=") {
            let rest = crate::text::slice_chars(line, 7, line.len());
            proof {
                assert(rest@ =~= line@.skip(7));
            }
            driver = Some(crate::text::string_of(&trimmed(&rest)));
        } else if crate::text::has_prefix(line, "PCI_SLOT_NAME=") {
            let rest = crate::text::slice_chars(line, 14, line.len());
            proof {
                assert(rest@ =~= line@.skip(14));
            }
            slot = Some(crate::text::string_of(&trimmed(&rest)));
        }
        i = i + 1;
    }
    proof {
        assert(all.take(lines@.len() as int) =~= all);
    }
    (driver, slot)
}

/// An AMD GPU bound to amdgpu: driver `amdgpu` and vendor `0x1002`.
pub fn is_amd_gpu(driver: &Option<String>, vendor: &str) -> (r: bool)
    ensures
        r == (text_view(*driver) == Some("amdgpu"@) && trim(vendor@) == "0x1002"@),
{
    let bound = match driver {
        Some(d) => crate::text::same_text(d.as_str(), "amdgpu"),
        None => false,
    };
    if !bound {
        return false;
    }
    let v = crate::text::string_of(&trimmed(&chars_of(vendor)));
    crate::text::same_text(v.as_str(), "0x1002")
}

/// The value of a hexadecimal digit.
pub open spec fn hex_value(c: char) -> nat {
    if '0' <= c && c <= '9' {
        (c as int - '0' as int) as nat
    } else if 'a' <= c && c <= 'f' {
        (c as int - 'a' as int + 10) as nat
    } else {
        (c as int - 'A' as int + 10) as nat
    }
}

/// The PCI function number of an address (its last digit).
pub fn bdf_function(bdf: &crate::model::PciBdf) -> (f: u32)
    requires
        bdf.wf(),
    ensures
        f == hex_value(bdf@[11]),
{
    proof {
        bdf.lemma_wf();
    }
    let chars = chars_of(bdf.as_str());
    let c = chars[11];
    assert(crate::text::is_hex_digit(c));
    if '0' <= c && c <= '9' {
        (c as u32) - 48
    } else if 'a' <= c && c <= 'f' {
        (c as u32) - 87
    } else {
        (c as u32) - 55
    }
}

/// A trimmed node value, kept only when nonempty.
pub open spec fn nonempty_trimmed(text: Option<Seq<char>>) -> Option<Seq<char>> {
    match text {
        Some(t) => if trim(t).len() > 0 {
            Some(trim(t))
        } else {
            None
        },
        None => None,
    }
}

/// Trims a node's content, dropping it when empty.
pub fn nonempty_text(text: Option<String>) -> (r: Option<String>)
    ensures
        text_view(r) == nonempty_trimmed(text_view(text)),
{
    match text {
        Some(t) => {
            let v = trimmed(&chars_of(t.as_str()));
            if v.len() > 0 {
                Some(crate::text::string_of(&v))
            } else {
                None
            }
        },
        None => None,
    }
}

/// The stable identity of a physical GPU: `gpu-` and its unique id, or
/// `gpu-` and the primary function's address.
pub fn gpu_identity(unique_id: &Option<String>, primary: &crate::model::PciBdf) -> (id: PhysicalGpuId)
    ensures
        id@ == "gpu-"@ + match text_view(*unique_id) {
            Some(u) => u,
            None => primary@,
        },
{
    let mut out: Vec<char> = Vec::new();
    extend_chars(&mut out, "gpu-");
    match unique_id {
        Some(u) => extend_chars(&mut out, u.as_str()),
        None => extend_chars(&mut out, primary.as_str()),
    }
    PhysicalGpuId::new(crate::text::string_of(&out).as_str())
}

/// The model name: the product name, else `AMD GPU` and the device id, else
/// `AMD GPU` (inputs already trimmed, absent when empty).
pub fn device_name(product: Option<String>, device_id: Option<String>) -> (r: String)
    ensures
        r@ == match text_view(product) {
            Some(p) => p,
            None => match text_view(device_id) {
                Some(d) => "AMD GPU "@ + d,
                None => "AMD GPU"@,
            },
        },
{
    match product {
        Some(p) => p,
        None => match device_id {
            Some(d) => {
                let mut out: Vec<char> = Vec::new();
                extend_chars(&mut out, "AMD GPU ");
                extend_chars(&mut out, d.as_str());
                crate::text::string_of(&out)
            },
            None => "AMD GPU".to_owned(),
        },
    }
}

/// The `amdgpu-` UUID of a unique id.
pub fn gpu_uuid(unique_id: &Option<String>) -> (r: Option<String>)
    ensures
        text_view(r) == match text_view(*unique_id) {
            Some(u) => Some("amdgpu-"@ + u),
            None => None,
        },
{
    match unique_id {
        Some(u) => {
            let mut out: Vec<char> = Vec::new();
            extend_chars(&mut out, "amdgpu-");
            extend_chars(&mut out, u.as_str());
            Some(crate::text::string_of(&out))
        },
        None => None,
    }
}

/// The applicable pool and its used/total nodes: GTT when the driver
/// exposes a larger GTT pool than the (carveout) VRAM pool, as APUs report;
/// an unreadable total counts as zero.
pub fn applicable_pool(vram_total: Reading<u64>, gtt_total: Reading<u64>) -> (r: (crate::model::MemoryPool, &'static str, &'static str))
    ensures
        value_or_zero(gtt_total) > value_or_zero(vram_total) ==> r.0 == crate::model::MemoryPool::Gtt
            && r.1@ == "mem_info_gtt_used"@ && r.2@ == "mem_info_gtt_total"@,
        !(value_or_zero(gtt_total) > value_or_zero(vram_total)) ==> r.0 == crate::model::MemoryPool::Vram
            && r.1@ == "mem_info_vram_used"@ && r.2@ == "mem_info_vram_total"@,
{
    let vram = match vram_total {
        Reading::Value(v) => v,
        _ => 0,
    };
    let gtt = match gtt_total {
        Reading::Value(v) => v,
        _ => 0,
    };
    if gtt > vram {
        (crate::model::MemoryPool::Gtt, "mem_info_gtt_used", "mem_info_gtt_total")
    } else {
        (crate::model::MemoryPool::Vram, "mem_info_vram_used", "mem_info_vram_total")
    }
}

/// A reading's value, zero without one.
pub open spec fn value_or_zero(r: Reading<u64>) -> int {
    match r {
        Reading::Value(v) => v as int,
        _ => 0,
    }
}

/// The identity of partition `index` of a GPU: `{gpu}-xcp-{index}`.
pub fn partition_identity(gpu: &PhysicalGpuId, index: usize) -> (id: crate::model::PartitionId)
    ensures
        id@ == gpu@ + "-xcp-"@ + crate::text::decimal(index as nat),
{
    let mut out: Vec<char> = Vec::new();
    extend_chars(&mut out, gpu.as_str());
    extend_chars(&mut out, "-xcp-");
    crate::text::push_decimal(&mut out, index as u128);
    crate::model::PartitionId::new(crate::text::string_of(&out).as_str())
}

/// One partition function of a discovered physical GPU.
#[derive(Debug)]
pub struct PartitionLayout {
    pub id: crate::model::PartitionId,
    pub bdf: crate::model::PciBdf,
    pub is_primary: bool,
}

/// The partition list of one physical GPU from its functions in address
/// order: one partition per function, named `<gpu>-xcp-<i>`, keeping its
/// address, and exactly one primary — the first function with
/// `gpu_metrics`, else the lowest. Returns the primary's position too.
pub fn partition_layout(
    gpu: &PhysicalGpuId,
    bdfs: &Vec<crate::model::PciBdf>,
    has_gpu_metrics: &Vec<bool>,
) -> (r: (usize, Vec<PartitionLayout>))
    requires
        bdfs@.len() == has_gpu_metrics@.len(),
        bdfs@.len() > 0,
    ensures
        r.0 < bdfs@.len(),
        (exists|j: int| 0 <= j < has_gpu_metrics@.len() && has_gpu_metrics@[j]) ==> (
        has_gpu_metrics@[r.0 as int] && forall|j: int| 0 <= j < r.0 ==> !has_gpu_metrics@[j]),
        !(exists|j: int| 0 <= j < has_gpu_metrics@.len() && has_gpu_metrics@[j]) ==> r.0 == 0,
        r.1@.len() == bdfs@.len(),
        forall|i: int|
            0 <= i < bdfs@.len() ==> {
                &&& (#[trigger] r.1@[i]).id@ == gpu@ + "-xcp-"@ + crate::text::decimal(i as nat)
                &&& r.1@[i].bdf == bdfs@[i]
                &&& r.1@[i].is_primary == (i == r.0)
            },
{
    let primary = primary_index(has_gpu_metrics);
    let mut out: Vec<PartitionLayout> = Vec::new();
    let mut i: usize = 0;
    while i < bdfs.len()
        invariant
            i <= bdfs@.len(),
            out@.len() == i,
            forall|k: int|
                0 <= k < i ==> {
                    &&& (#[trigger] out@[k]).id@ == gpu@ + "-xcp-"@ + crate::text::decimal(k as nat)
                    &&& out@[k].bdf == bdfs@[k]
                    &&& out@[k].is_primary == (k == primary)
                },
        decreases bdfs.len() - i,
    {
        out.push(PartitionLayout { id: partition_identity(gpu, i), bdf: bdfs[i].clone(), is_primary: i == primary });
        i = i + 1;
    }
    (primary, out)
}

/// The primary partition function: the first that carries `gpu_metrics`,
/// else the lowest.
pub fn primary_index(has_gpu_metrics: &Vec<bool>) -> (i: usize)
    ensures
        (exists|j: int| 0 <= j < has_gpu_metrics@.len() && has_gpu_metrics@[j]) ==> (i
            < has_gpu_metrics@.len() && has_gpu_metrics@[i as int] && forall|j: int|
            0 <= j < i ==> !has_gpu_metrics@[j]),
        !(exists|j: int| 0 <= j < has_gpu_metrics@.len() && has_gpu_metrics@[j]) ==> i == 0,
{
    let mut i: usize = 0;
    while i < has_gpu_metrics.len()
        invariant
            i <= has_gpu_metrics@.len(),
            forall|j: int| 0 <= j < i ==> !has_gpu_metrics@[j],
        decreases has_gpu_metrics.len() - i,
    {
        if has_gpu_metrics[i] {
            return i;
        }
        i = i + 1;
    }
    0
}

/// Whether a hwmon temperature label names the junction (hotspot) sensor.
pub fn is_junction_label(label: &Reading<String>) -> (r: bool)
    ensures
        r == (*label matches Reading::Value(t) && t@ == "junction"@),
{
    match label {
        Reading::Value(t) => crate::text::same_text(t.as_str(), "junction"),
        _ => false,
    }
}

} // verus!

verus! {

/// Lexicographic order of texts (`str` comparison).
pub open spec fn text_lt(a: Seq<char>, b: Seq<char>) -> bool
    decreases a.len(),
{
    if a.len() == 0 {
        b.len() > 0
    } else if b.len() == 0 {
        false
    } else if a[0] < b[0] {
        true
    } else if a[0] > b[0] {
        false
    } else {
        text_lt(a.drop_first(), b.drop_first())
    }
}

pub proof fn lemma_text_lt_transitive(a: Seq<char>, b: Seq<char>, c: Seq<char>)
    requires
        text_lt(a, b),
        text_lt(b, c),
    ensures
        text_lt(a, c),
    decreases a.len(),
{
    if a.len() > 0 && b.len() > 0 && c.len() > 0 && a[0] == b[0] && b[0] == c[0] {
        lemma_text_lt_transitive(a.drop_first(), b.drop_first(), c.drop_first());
    }
}

pub proof fn lemma_text_lt_irreflexive(a: Seq<char>)
    ensures
        !text_lt(a, a),
    decreases a.len(),
{
    if a.len() > 0 {
        lemma_text_lt_irreflexive(a.drop_first());
    }
}

fn text_less(a: &Vec<char>, b: &Vec<char>) -> (r: bool)
    ensures
        r == text_lt(a@, b@),
{
    let mut i: usize = 0;
    proof {
        assert(a@.skip(0) =~= a@);
        assert(b@.skip(0) =~= b@);
    }
    while i < a.len() && i < b.len()
        invariant
            i <= a.len(),
            i <= b.len(),
            forall|j: int| 0 <= j < i ==> a@[j] == b@[j],
            text_lt(a@, b@) == text_lt(a@.skip(i as int), b@.skip(i as int)),
        decreases a.len() - i,
    {
        proof {
            assert(a@.skip(i as int)[0] == a@[i as int]);
            assert(b@.skip(i as int)[0] == b@[i as int]);
            assert(a@.skip(i as int).drop_first() =~= a@.skip(i + 1));
            assert(b@.skip(i as int).drop_first() =~= b@.skip(i + 1));
        }
        if a[i] < b[i] {
            return true;
        }
        if a[i] > b[i] {
            return false;
        }
        i = i + 1;
    }
    proof {
        assert(a@.skip(i as int).len() == a@.len() - i);
        assert(b@.skip(i as int).len() == b@.len() - i);
    }
    i == a.len() && i < b.len()
}

/// The order in which to visit functions: indices sorted by address text.
pub fn bdf_order(bdfs: &Vec<crate::model::PciBdf>) -> (order: Vec<usize>)
    ensures
        order@.len() == bdfs@.len(),
        forall|i: int| 0 <= i < order@.len() ==> order@[i] < bdfs@.len(),
        forall|i: int, j: int| 0 <= i < j < order@.len() ==> order@[i] != order@[j],
        forall|i: int, j: int|
            0 <= i < j < order@.len() ==> !text_lt(
                bdfs@[order@[j] as int]@,
                bdfs@[order@[i] as int]@,
            ),
{
    let mut keys: Vec<Vec<char>> = Vec::new();
    let mut k: usize = 0;
    while k < bdfs.len()
        invariant
            k <= bdfs@.len(),
            keys@.len() == k,
            forall|j: int| 0 <= j < k ==> (#[trigger] keys@[j])@ == bdfs@[j]@,
        decreases bdfs.len() - k,
    {
        keys.push(chars_of(bdfs[k].as_str()));
        k = k + 1;
    }
    let mut rest: Vec<usize> = Vec::new();
    let mut n: usize = 0;
    while n < bdfs.len()
        invariant
            n <= bdfs@.len(),
            rest@.len() == n,
            forall|j: int| 0 <= j < n ==> rest@[j] == j,
        decreases bdfs.len() - n,
    {
        rest.push(n);
        n = n + 1;
    }
    let mut order: Vec<usize> = Vec::new();
    while rest.len() > 0
        invariant
            keys@.len() == bdfs@.len(),
            forall|j: int| 0 <= j < keys@.len() ==> (#[trigger] keys@[j])@ == bdfs@[j]@,
            order@.len() + rest@.len() == bdfs@.len(),
            forall|i: int| 0 <= i < order@.len() ==> order@[i] < bdfs@.len(),
            forall|i: int| 0 <= i < rest@.len() ==> rest@[i] < bdfs@.len(),
            forall|i: int, j: int| 0 <= i < j < order@.len() ==> order@[i] != order@[j],
            forall|i: int, j: int| 0 <= i < j < rest@.len() ==> rest@[i] != rest@[j],
            forall|i: int, j: int| 0 <= i < order@.len() && 0 <= j < rest@.len() ==> order@[i] != rest@[j],
            forall|i: int, j: int|
                0 <= i < j < order@.len() ==> !text_lt(
                    bdfs@[order@[j] as int]@,
                    bdfs@[order@[i] as int]@,
                ),
            forall|i: int, j: int|
                0 <= i < order@.len() && 0 <= j < rest@.len() ==> !text_lt(
                    bdfs@[rest@[j] as int]@,
                    bdfs@[order@[i] as int]@,
                ),
        decreases rest.len(),
    {
        let mut best: usize = 0;
        let mut i: usize = 1;
        proof {
            lemma_text_lt_irreflexive(bdfs@[rest@[0] as int]@);
        }
        while i < rest.len()
            invariant
                1 <= i <= rest@.len(),
                best < i,
                keys@.len() == bdfs@.len(),
                forall|j: int| 0 <= j < keys@.len() ==> (#[trigger] keys@[j])@ == bdfs@[j]@,
                forall|j: int| 0 <= j < rest@.len() ==> rest@[j] < bdfs@.len(),
                forall|j: int|
                    0 <= j < i ==> !text_lt(
                        bdfs@[rest@[j] as int]@,
                        bdfs@[rest@[best as int] as int]@,
                    ),
            decreases rest.len() - i,
        {
            if text_less(&keys[rest[i]], &keys[rest[best]]) {
                proof {
                    lemma_text_lt_irreflexive(bdfs@[rest@[i as int] as int]@);
                    assert forall|j: int| 0 <= j < i implies !text_lt(
                        bdfs@[rest@[j] as int]@,
                        bdfs@[rest@[i as int] as int]@,
                    ) by {
                        if text_lt(bdfs@[rest@[j] as int]@, bdfs@[rest@[i as int] as int]@) {
                            lemma_text_lt_transitive(
                                bdfs@[rest@[j] as int]@,
                                bdfs@[rest@[i as int] as int]@,
                                bdfs@[rest@[best as int] as int]@,
                            );
                        }
                    }
                }
                best = i;
            }
            i = i + 1;
        }
        let ghost before_rest = rest@;
        let ghost before_order = order@;
        let pick = rest.remove(best);
        order.push(pick);
        proof {
            assert forall|a: int, b: int| 0 <= a < order@.len() && 0 <= b < rest@.len() implies !text_lt(
                bdfs@[rest@[b] as int]@,
                bdfs@[order@[a] as int]@,
            ) by {
                let rb = if b < best {
                    b
                } else {
                    b + 1
                };
                assert(rest@[b] == before_rest[rb]);
                if a < before_order.len() {
                    assert(order@[a] == before_order[a]);
                }
            }
            assert forall|a: int, b: int| 0 <= a < b < order@.len() implies !text_lt(
                bdfs@[order@[b] as int]@,
                bdfs@[order@[a] as int]@,
            ) by {
                assert(order@[a] == before_order[a] || a == before_order.len());
                if b == before_order.len() {
                    assert(order@[a] == before_order[a]);
                    assert(order@[b] == before_rest[best as int]);
                } else {
                    assert(order@[a] == before_order[a]);
                    assert(order@[b] == before_order[b]);
                }
            }
            assert forall|a: int, b: int| 0 <= a < b < rest@.len() implies rest@[a] != rest@[b] by {
                let ra = if a < best {
                    a
                } else {
                    a + 1
                };
                let rb = if b < best {
                    b
                } else {
                    b + 1
                };
                assert(rest@[a] == before_rest[ra]);
                assert(rest@[b] == before_rest[rb]);
            }
            assert forall|a: int, b: int| 0 <= a < order@.len() && 0 <= b < rest@.len() implies order@[a]
                != rest@[b] by {
                let rb = if b < best {
                    b
                } else {
                    b + 1
                };
                assert(rest@[b] == before_rest[rb]);
                if a < before_order.len() {
                    assert(order@[a] == before_order[a]);
                } else {
                    assert(order@[a] == before_rest[best as int]);
                }
            }
            assert forall|a: int, b: int| 0 <= a < b < order@.len() implies order@[a] != order@[b] by {
                if b == before_order.len() {
                    assert(order@[a] == before_order[a]);
                    assert(order@[b] == before_rest[best as int]);
                } else {
                    assert(order@[a] == before_order[a]);
                    assert(order@[b] == before_order[b]);
                }
            }
            assert forall|a: int| 0 <= a < rest@.len() implies rest@[a] < bdfs@.len() by {
                let ra = if a < best {
                    a
                } else {
                    a + 1
                };
                assert(rest@[a] == before_rest[ra]);
            }
        }
    }
    order
}

/// The end of the run of functions that share `sorted[start]`'s
/// `domain:bus:device` (the first ten characters).
pub fn group_end(sorted: &Vec<crate::model::PciBdf>, start: usize) -> (end: usize)
    requires
        start < sorted@.len(),
        forall|j: int| 0 <= j < sorted@.len() ==> (#[trigger] sorted@[j]).wf(),
    ensures
        start < end <= sorted@.len(),
        forall|j: int| start <= j < end ==> (#[trigger] sorted@[j])@.take(10) == sorted@[start as int]@.take(10),
        end < sorted@.len() ==> sorted@[end as int]@.take(10) != sorted@[start as int]@.take(10),
{
    let key = chars_of(sorted[start].as_str());
    let len = sorted.len();
    let mut end = start + 1;
    while end < sorted.len()
        invariant
            start < end <= sorted@.len(),
            forall|j: int| 0 <= j < sorted@.len() ==> (#[trigger] sorted@[j]).wf(),
            key@ == sorted@[start as int]@,
            forall|j: int| start <= j < end ==> (#[trigger] sorted@[j])@.take(10) == sorted@[start as int]@.take(10),
        decreases sorted.len() - end,
    {
        let other = chars_of(sorted[end].as_str());
        proof {
            sorted@[end as int].lemma_wf();
            sorted@[start as int].lemma_wf();
        }
        if !same_prefix10(&other, &key) {
            return end;
        }
        end = end + 1;
    }
    end
}

fn same_prefix10(a: &Vec<char>, b: &Vec<char>) -> (r: bool)
    requires
        a@.len() >= 10,
        b@.len() >= 10,
    ensures
        r == (a@.take(10) == b@.take(10)),
{
    let mut i: usize = 0;
    while i < 10
        invariant
            i <= 10,
            a@.len() >= 10,
            b@.len() >= 10,
            forall|j: int| 0 <= j < i ==> a@[j] == b@[j],
        decreases 10 - i,
    {
        if a[i] != b[i] {
            proof {
                assert(a@.take(10)[i as int] != b@.take(10)[i as int]);
            }
            return false;
        }
        i = i + 1;
    }
    proof {
        assert(a@.take(10) =~= b@.take(10));
    }
    true
}

/// Splits address-sorted functions into physical devices: maximal runs that
/// share their first ten characters (domain and bus), as `(start, end)`
/// index ranges that tile the whole sequence in order.
pub fn group_bounds(sorted: &Vec<crate::model::PciBdf>) -> (groups: Vec<(usize, usize)>)
    requires
        forall|j: int| 0 <= j < sorted@.len() ==> (#[trigger] sorted@[j]).wf(),
    ensures
        sorted@.len() == 0 ==> groups@.len() == 0,
        sorted@.len() > 0 ==> groups@.len() > 0 && groups@[0].0 == 0
            && groups@[groups@.len() - 1].1 == sorted@.len(),
        forall|g: int| 0 <= g < groups@.len() ==> (#[trigger] groups@[g]).0 < groups@[g].1,
        forall|g: int| 0 < g < groups@.len() ==> (#[trigger] groups@[g]).0 == groups@[g - 1].1,
        forall|g: int, j: int|
            0 <= g < groups@.len() && (#[trigger] groups@[g]).0 <= j < groups@[g].1 ==> (
            #[trigger] sorted@[j])@.take(10) == sorted@[groups@[g].0 as int]@.take(10),
        forall|g: int|
            0 <= g < groups@.len() && (#[trigger] groups@[g]).1 < sorted@.len() ==> sorted@[groups@[g].1 as int]@.take(10)
                != sorted@[groups@[g].0 as int]@.take(10),
{
    let mut groups: Vec<(usize, usize)> = Vec::new();
    let mut index: usize = 0;
    while index < sorted.len()
        invariant
            index <= sorted@.len(),
            forall|j: int| 0 <= j < sorted@.len() ==> (#[trigger] sorted@[j]).wf(),
            index == 0 <==> groups@.len() == 0,
            groups@.len() > 0 ==> groups@[0].0 == 0 && groups@[groups@.len() - 1].1 == index,
            forall|g: int| 0 <= g < groups@.len() ==> (#[trigger] groups@[g]).0 < groups@[g].1,
            forall|g: int| 0 < g < groups@.len() ==> (#[trigger] groups@[g]).0 == groups@[g - 1].1,
            forall|g: int, j: int|
                0 <= g < groups@.len() && (#[trigger] groups@[g]).0 <= j < groups@[g].1 ==> (
                #[trigger] sorted@[j])@.take(10) == sorted@[groups@[g].0 as int]@.take(10),
            forall|g: int|
                0 <= g < groups@.len() && (#[trigger] groups@[g]).1 < sorted@.len() ==> sorted@[groups@[g].1 as int]@.take(10)
                    != sorted@[groups@[g].0 as int]@.take(10),
        decreases sorted@.len() - index,
    {
        let end = group_end(sorted, index);
        groups.push((index, end));
        index = end;
    }
    groups
}

/// Whether a trimmed line opens with the uncorrectable-count key `ue:`.
pub open spec fn is_ue_line(t: Seq<char>) -> bool {
    t.len() >= 3 && t[0] == 'u' && t[1] == 'e' && t[2] == ':'
}

/// The uncorrectable count one line of a RAS error-count node contributes:
/// the number after `ue:`, or 0 where the line is another key or the number
/// does not parse.
pub open spec fn ue_value(line: Seq<char>) -> nat {
    let t = trim(line);
    if is_ue_line(t) {
        match parse_u64_spec(trim(t.skip(3))) {
            Some(v) => v as nat,
            None => 0,
        }
    } else {
        0
    }
}

/// The total of the `ue:` counts over some lines.
pub open spec fn ue_sum(lines: Seq<Seq<char>>) -> nat
    decreases lines.len(),
{
    if lines.len() == 0 {
        0
    } else {
        ue_sum(lines.drop_last()) + ue_value(lines.last())
    }
}

/// A count held in 64 bits, pinned at the largest value beyond it.
pub open spec fn saturated(n: nat) -> u64 {
    if n > u64::MAX {
        u64::MAX
    } else {
        n as u64
    }
}

/// The uncorrectable errors one RAS `*_err_count` node reports.
pub fn ras_uncorrectable(text: &str) -> (r: u64)
    ensures
        r == saturated(ue_sum(lines_of(text@))),
{
    let lines = split_lines(&chars_of(text));
    let ghost all = lines_of(text@);
    let mut total: u64 = 0;
    let mut i: usize = 0;
    while i < lines.len()
        invariant
            i <= lines@.len(),
            lines@.len() == all.len(),
            forall|k: int| 0 <= k < lines@.len() ==> (#[trigger] lines@[k])@ == all[k],
            total == saturated(ue_sum(all.take(i as int))),
        decreases lines.len() - i,
    {
        let t = trimmed(&lines[i]);
        let mut value: u64 = 0;
        if t.len() >= 3 && t[0] == 'u' && t[1] == 'e' && t[2] == ':' {
            let n = t.len();
            let rest = trimmed(&slice_chars(&t, 3, n));
            proof {
                assert(t@.subrange(3, n as int) =~= t@.skip(3));
            }
            match parse_u64(&rest) {
                Some(v) => {
                    value = v;
                },
                None => {},
            }
        }
        proof {
            assert(all.take(i + 1).drop_last() =~= all.take(i as int));
            assert(all.take(i + 1).last() == all[i as int]);
            assert(value == ue_value(all[i as int]));
        }
        total = total.saturating_add(value);
        i = i + 1;
    }
    proof {
        assert(all.take(lines@.len() as int) =~= all);
    }
    total
}

/// The name of a RAS node that holds error counts.
pub open spec fn is_err_count_name(name: Seq<char>) -> bool {
    ends_with(name, "_err_count"@)
}

/// The uncorrectable count of a set of RAS nodes, each given by its file name
/// and what reading it gave: only `*_err_count` nodes that read count.
pub open spec fn ecc_total(nodes: Seq<(String, Reading<String>)>) -> nat
    decreases nodes.len(),
{
    if nodes.len() == 0 {
        0
    } else {
        let last = nodes.last();
        let here: nat = match last.1 {
            Reading::Value(text) => if is_err_count_name(last.0@) {
                ue_sum(lines_of(text@))
            } else {
                0
            },
            _ => 0,
        };
        ecc_total(nodes.drop_last()) + here
    }
}

/// The ECC signal of a device's RAS directory: uncorrectable errors summed
/// over its `*_err_count` nodes, raised only when there are any.
pub fn ecc_signal(nodes: &Vec<(String, Reading<String>)>) -> (r: Option<KernelHealthSignal>)
    ensures
        r == (if saturated(ecc_total(nodes@)) > 0 {
            Some(KernelHealthSignal::EccErrors { uncorrectable: saturated(ecc_total(nodes@)) })
        } else {
            None
        }),
{
    let mut total: u64 = 0;
    let mut i: usize = 0;
    while i < nodes.len()
        invariant
            i <= nodes@.len(),
            total == saturated(ecc_total(nodes@.take(i as int))),
        decreases nodes.len() - i,
    {
        let mut here: u64 = 0;
        match &nodes[i].1 {
            Reading::Value(text) => {
                if has_suffix(&chars_of(nodes[i].0.as_str()), "_err_count") {
                    here = ras_uncorrectable(text.as_str());
                }
            },
            _ => {},
        }
        proof {
            assert(nodes@.take(i + 1).drop_last() =~= nodes@.take(i as int));
            assert(nodes@.take(i + 1).last() == nodes@[i as int]);
        }
        total = total.saturating_add(here);
        i = i + 1;
    }
    proof {
        assert(nodes@.take(nodes@.len() as int) =~= nodes@);
    }
    if total > 0 {
        Some(KernelHealthSignal::EccErrors { uncorrectable: total })
    } else {
        None
    }
}

/// The retirement flag of one bad-page line: its last `:`-separated field,
/// trimmed.
pub open spec fn page_flag(line: Seq<char>) -> Seq<char> {
    trim(pieces(line, ':').last())
}

/// How many lines carry the one-letter flag `f`.
pub open spec fn flagged(lines: Seq<Seq<char>>, f: char) -> nat
    decreases lines.len(),
{
    if lines.len() == 0 {
        0
    } else {
        flagged(lines.drop_last(), f) + if page_flag(lines.last()) == seq![f] {
            1nat
        } else {
            0nat
        }
    }
}

proof fn lemma_flagged_bound(lines: Seq<Seq<char>>, f: char)
    ensures
        flagged(lines, f) <= lines.len(),
    decreases lines.len(),
{
    if lines.len() > 0 {
        lemma_flagged_bound(lines.drop_last(), f);
    }
}

fn is_flag(piece: &Vec<char>, f: char) -> (r: bool)
    ensures
        r == (trim(piece@) == seq![f]),
{
    let t = trimmed(piece);
    let r = t.len() == 1 && t[0] == f;
    proof {
        if t@.len() == 1 && t@[0] == f {
            assert(t@ =~= seq![f]);
        }
    }
    r
}

/// The bad-page signal of a device's `gpu_vram_bad_pages` node: the pages
/// flagged pending (`P`) and unreservable (`F`), raised only when there are
/// any and the node read.
pub fn bad_pages_signal(node: &Reading<String>) -> (r: Option<KernelHealthSignal>)
    ensures
        r == (match node {
            Reading::Value(text) => {
                let pending = flagged(lines_of(text@), 'P');
                let unreservable = flagged(lines_of(text@), 'F');
                if pending > 0 || unreservable > 0 {
                    Some(
                        KernelHealthSignal::BadPages {
                            pending: pending as u64,
                            unreservable: unreservable as u64,
                        },
                    )
                } else {
                    None
                }
            },
            _ => None,
        }),
{
    match node {
        Reading::Value(text) => {
            let lines = split_lines(&chars_of(text.as_str()));
            let ghost all = lines_of(text@);
            let mut pending: u64 = 0;
            let mut unreservable: u64 = 0;
            let mut i: usize = 0;
            while i < lines.len()
                invariant
                    i <= lines@.len(),
                    lines@.len() == all.len(),
                    forall|k: int| 0 <= k < lines@.len() ==> (#[trigger] lines@[k])@ == all[k],
                    pending == flagged(all.take(i as int), 'P'),
                    unreservable == flagged(all.take(i as int), 'F'),
                decreases lines.len() - i,
            {
                let fields = split_char(&lines[i], ':');
                proof {
                    lemma_pieces_nonempty(all[i as int], ':');
                    assert(all.take(i + 1).drop_last() =~= all.take(i as int));
                    assert(all.take(i + 1).last() == all[i as int]);
                    lemma_flagged_bound(all.take(i as int), 'P');
                    lemma_flagged_bound(all.take(i as int), 'F');
                    assert(seq!['P'][0] != seq!['F'][0]);
                }
                let last = fields.len() - 1;
                if is_flag(&fields[last], 'P') {
                    pending = pending + 1;
                } else if is_flag(&fields[last], 'F') {
                    unreservable = unreservable + 1;
                }
                i = i + 1;
            }
            proof {
                assert(all.take(lines@.len() as int) =~= all);
            }
            if pending > 0 || unreservable > 0 {
                Some(KernelHealthSignal::BadPages { pending, unreservable })
            } else {
                None
            }
        },
        _ => None,
    }
}

} // verus!
