//! The source-to-domain seam: reading evidence becomes exactly one canonical
//! observation state, and kernel health signals become health candidates.
use vstd::prelude::*;
use crate::model::{HealthCategory, ObservationState, Timestamp};
use crate::source::Reading;
use crate::source::kernel::KernelHealthSignal;
use crate::state::health::HealthCandidate;
use crate::text::{extend_chars, push_decimal, string_of, decimal};
use crate::ui::format::{tenths_text, round_half_even, elapsed_nanos};

verus! {

/// The canonical state of a failed reading. Structural absence on a
/// secondary partition whose metric the primary XCP owns reads as
/// `reported_by_primary_partition`.
pub open spec fn state_of<T>(reading: Reading<T>, reported_by_primary: bool) -> ObservationState {
    match reading {
        Reading::Absent | Reading::Sentinel => if reported_by_primary {
            ObservationState::ReportedByPrimaryPartition
        } else {
            ObservationState::UnsupportedHardware
        },
        Reading::Asleep => ObservationState::Asleep,
        Reading::PermissionDenied => ObservationState::PermissionDenied,
        Reading::UnsupportedDriver => ObservationState::UnsupportedDriverVersion,
        _ => ObservationState::SourceError,
    }
}

/// Maps the evidence of a reading without a value to its one canonical
/// observation state.
pub fn map_state<T>(reading: &Reading<T>, reported_by_primary: bool) -> (s: ObservationState)
    requires
        !(*reading is Value),
    ensures
        s == state_of(*reading, reported_by_primary),
{
    match reading {
        Reading::Absent | Reading::Sentinel => if reported_by_primary {
            ObservationState::ReportedByPrimaryPartition
        } else {
            ObservationState::UnsupportedHardware
        },
        Reading::Asleep => ObservationState::Asleep,
        Reading::PermissionDenied => ObservationState::PermissionDenied,
        Reading::UnsupportedDriver => ObservationState::UnsupportedDriverVersion,
        _ => ObservationState::SourceError,
    }
}

/// A reading as a metric outcome: its value, or its canonical state.
pub open spec fn outcome_of<T>(reading: Reading<T>, reported_by_primary: bool) -> Result<
    T,
    ObservationState,
> {
    match reading {
        Reading::Value(v) => Ok(v),
        _ => Err(state_of(reading, reported_by_primary)),
    }
}

/// A reading as a metric outcome: its value, or its canonical state.
pub fn outcome<T>(reading: Reading<T>, reported_by_primary: bool) -> (r: Result<T, ObservationState>)
    ensures
        r == outcome_of(reading, reported_by_primary),
        match reading {
            Reading::Value(v) => r == Ok::<T, ObservationState>(v),
            _ => r == Err::<T, ObservationState>(state_of(reading, reported_by_primary)),
        },
{
    match reading {
        Reading::Value(v) => Ok(v),
        other => Err(map_state(&other, reported_by_primary)),
    }
}

/// The sentence of a kernel health signal.
pub open spec fn signal_message(signal: KernelHealthSignal) -> Seq<char> {
    match signal {
        KernelHealthSignal::ThrottleActive { reasons } => if reasons@.len() == 0 {
            "throttle active"@
        } else {
            reasons@ + " throttle active"@
        },
        KernelHealthSignal::EccErrors { uncorrectable } => if uncorrectable == 1 {
            "1 uncorrectable ECC error"@
        } else {
            decimal(uncorrectable as nat) + " uncorrectable ECC errors"@
        },
        KernelHealthSignal::BadPages { pending, unreservable } => {
            let p = decimal(pending as nat) + " pending"@;
            let u = decimal(unreservable as nat) + " unreservable"@;
            let parts = if pending > 0 && unreservable > 0 {
                p + ", "@ + u
            } else if pending > 0 {
                p
            } else if unreservable > 0 {
                u
            } else {
                Seq::empty()
            };
            parts + " bad memory pages"@
        },
    }
}

/// The category of a kernel health signal: throttles throttle, ECC errors
/// and bad pages are faults.
pub open spec fn signal_category(signal: KernelHealthSignal) -> HealthCategory {
    match signal {
        KernelHealthSignal::ThrottleActive { .. } => HealthCategory::Throttle,
        _ => HealthCategory::Fault,
    }
}

/// Turns one kernel health signal into a health candidate.
pub fn health_candidate(signal: &KernelHealthSignal, observed_at: Timestamp) -> (c: HealthCandidate)
    ensures
        c.category == signal_category(*signal),
        c.message@ == signal_message(*signal),
        c.observed_at == observed_at,
{
    let mut out: Vec<char> = Vec::new();
    let category = match signal {
        KernelHealthSignal::ThrottleActive { reasons } => {
            if crate::text::chars_of(reasons.as_str()).len() == 0 {
                extend_chars(&mut out, "throttle active");
            } else {
                extend_chars(&mut out, reasons.as_str());
                extend_chars(&mut out, " throttle active");
            }
            proof {
                reveal_strlit("");
            }
            HealthCategory::Throttle
        },
        KernelHealthSignal::EccErrors { uncorrectable } => {
            if *uncorrectable == 1 {
                extend_chars(&mut out, "1 uncorrectable ECC error");
            } else {
                push_decimal(&mut out, *uncorrectable as u128);
                extend_chars(&mut out, " uncorrectable ECC errors");
            }
            HealthCategory::Fault
        },
        KernelHealthSignal::BadPages { pending, unreservable } => {
            if *pending > 0 {
                push_decimal(&mut out, *pending as u128);
                extend_chars(&mut out, " pending");
            }
            if *unreservable > 0 {
                if *pending > 0 {
                    extend_chars(&mut out, ", ");
                }
                push_decimal(&mut out, *unreservable as u128);
                extend_chars(&mut out, " unreservable");
            }
            extend_chars(&mut out, " bad memory pages");
            HealthCategory::Fault
        },
    };
    proof {
        assert(out@ =~= signal_message(*signal));
    }
    HealthCandidate { category, message: string_of(&out), observed_at }
}

/// The telemetry-trouble sentence of an unavailable contracted metric; a
/// stale one states the age of its last sample at `now` in tenths of a
/// second (no last sample reads as zero).
pub open spec fn trouble_message(
    state: ObservationState,
    last_good: Option<Timestamp>,
    now: Timestamp,
) -> Seq<char> {
    match state {
        ObservationState::Asleep => "GPU asleep"@,
        ObservationState::PermissionDenied => "telemetry permission denied"@,
        ObservationState::UnsupportedDriverVersion => "telemetry unsupported by this driver version"@,
        ObservationState::Stale => "telemetry stale · last sample "@ + tenths_text(
            round_half_even(
                match last_good {
                    Some(t) => elapsed_nanos(t, now),
                    None => 0,
                },
                100_000_000,
            ),
        ) + "s ago"@,
        _ => "telemetry source error"@,
    }
}

/// Words the telemetry-trouble sentence of an unavailable metric.
pub fn telemetry_message(state: &ObservationState, last_good: Option<Timestamp>, now: Timestamp) -> (r:
    String)
    ensures
        r@ == trouble_message(*state, last_good, now),
{
    let mut out: Vec<char> = Vec::new();
    match state {
        ObservationState::Asleep => extend_chars(&mut out, "GPU asleep"),
        ObservationState::PermissionDenied => extend_chars(&mut out, "telemetry permission denied"),
        ObservationState::UnsupportedDriverVersion => extend_chars(
            &mut out,
            "telemetry unsupported by this driver version",
        ),
        ObservationState::Stale => {
            let since_last = match last_good {
                Some(t) => crate::ui::format::elapsed(t, now),
                None => 0,
            };
            let tenths = crate::ui::format::round_half_even_exec(since_last, 100_000_000);
            extend_chars(&mut out, "telemetry stale · last sample ");
            push_decimal(&mut out, tenths / 10);
            out.push('.');
            push_decimal(&mut out, tenths % 10);
            extend_chars(&mut out, "s ago");
        },
        _ => extend_chars(&mut out, "telemetry source error"),
    }
    proof {
        assert(out@ =~= trouble_message(*state, last_good, now));
    }
    string_of(&out)
}

/// Adds a telemetry candidate unless one with the same sentence is already
/// listed.
pub fn add_telemetry_candidate(candidates: &mut Vec<HealthCandidate>, message: String, observed_at: Timestamp)
    ensures
        (exists|i: int|
            0 <= i < old(candidates)@.len() && (#[trigger] old(candidates)@[i]).category
                == HealthCategory::Telemetry && old(candidates)@[i].message@ == message@) ==> final(
            candidates)@ == old(candidates)@,
        !(exists|i: int|
            0 <= i < old(candidates)@.len() && (#[trigger] old(candidates)@[i]).category
                == HealthCategory::Telemetry && old(candidates)@[i].message@ == message@) ==> final(
            candidates)@ == old(candidates)@.push(
            HealthCandidate { category: HealthCategory::Telemetry, message, observed_at },
        ),
{
    let mut i: usize = 0;
    while i < candidates.len()
        invariant
            i <= candidates@.len(),
            candidates@ == old(candidates)@,
            forall|j: int|
                0 <= j < i ==> !((#[trigger] candidates@[j]).category == HealthCategory::Telemetry
                    && candidates@[j].message@ == message@),
        decreases candidates.len() - i,
    {
        let is_telemetry = match &candidates[i].category {
            HealthCategory::Telemetry => true,
            _ => false,
        };
        if is_telemetry && candidates[i].message == message {
            return;
        }
        i = i + 1;
    }
    candidates.push(HealthCandidate { category: HealthCategory::Telemetry, message, observed_at });
}

/// The sentence of a reached thermal limit, in whole degrees Celsius.
pub open spec fn thermal_limit_message(hotspot_millic: nat, limit_millic: nat) -> Seq<char> {
    "thermal limit reached · hotspot "@ + decimal(round_half_even(hotspot_millic, 1000)) + " / "@
        + decimal(round_half_even(limit_millic, 1000)) + "°C"@
}

/// The sentence of an active power limit, in whole watts.
pub open spec fn power_limit_message(power_uw: nat, cap_uw: nat) -> Seq<char> {
    "power limit active · "@ + decimal(round_half_even(power_uw, 1_000_000)) + " / "@ + decimal(
        round_half_even(cap_uw, 1_000_000),
    ) + " W"@
}

/// The fresh hotspot has reached its fresh, positive source-reported limit.
pub open spec fn thermal_limit_reached(
    hotspot: Option<(i64, Timestamp)>,
    limit: Option<(i64, Timestamp)>,
) -> bool {
    hotspot is Some && limit is Some && (limit->0).0 > 0 && (hotspot->0).0 >= (limit->0).0
}

/// The fresh socket power has reached its fresh, positive power cap.
pub open spec fn power_limit_reached(power: Option<(u64, Timestamp)>, cap: Option<(u64, Timestamp)>) -> bool {
    power is Some && cap is Some && (cap->0).0 > 0 && (power->0).0 >= (cap->0).0
}

/// Limit candidates from fresh source-reported values: a hotspot at or above
/// its limit, then a socket power at or above its cap, each observed when its
/// value was.
pub fn limit_candidates(
    hotspot: Option<(i64, Timestamp)>,
    limit: Option<(i64, Timestamp)>,
    power: Option<(u64, Timestamp)>,
    cap: Option<(u64, Timestamp)>,
) -> (r: Vec<HealthCandidate>)
    ensures
        r@.len() == (if thermal_limit_reached(hotspot, limit) {
            1int
        } else {
            0int
        }) + (if power_limit_reached(power, cap) {
            1int
        } else {
            0int
        }),
        thermal_limit_reached(hotspot, limit) ==> r@[0].category == HealthCategory::Limit
            && r@[0].message@ == thermal_limit_message((hotspot->0).0 as nat, (limit->0).0 as nat)
            && r@[0].observed_at == (hotspot->0).1,
        power_limit_reached(power, cap) ==> r@[r@.len() - 1].category == HealthCategory::Limit
            && r@[r@.len() - 1].message@ == power_limit_message((power->0).0 as nat, (cap->0).0 as nat)
            && r@[r@.len() - 1].observed_at == (power->0).1,
{
    let mut out: Vec<HealthCandidate> = Vec::new();
    match (hotspot, limit) {
        (Some((h, at)), Some((l, _))) => {
            if l > 0 && h >= l {
                let mut text: Vec<char> = Vec::new();
                extend_chars(&mut text, "thermal limit reached · hotspot ");
                push_decimal(&mut text, crate::ui::format::round_half_even_exec(h as u128, 1000));
                extend_chars(&mut text, " / ");
                push_decimal(&mut text, crate::ui::format::round_half_even_exec(l as u128, 1000));
                extend_chars(&mut text, "°C");
                proof {
                    assert(text@ =~= thermal_limit_message(h as nat, l as nat));
                }
                out.push(
                    HealthCandidate {
                        category: HealthCategory::Limit,
                        message: string_of(&text),
                        observed_at: at,
                    },
                );
            }
        },
        _ => {},
    }
    match (power, cap) {
        (Some((p, at)), Some((c, _))) => {
            if c > 0 && p >= c {
                let mut text: Vec<char> = Vec::new();
                extend_chars(&mut text, "power limit active · ");
                push_decimal(&mut text, crate::ui::format::round_half_even_exec(p as u128, 1_000_000));
                extend_chars(&mut text, " / ");
                push_decimal(&mut text, crate::ui::format::round_half_even_exec(c as u128, 1_000_000));
                extend_chars(&mut text, " W");
                proof {
                    assert(text@ =~= power_limit_message(p as nat, c as nat));
                }
                out.push(
                    HealthCandidate {
                        category: HealthCategory::Limit,
                        message: string_of(&text),
                        observed_at: at,
                    },
                );
            }
        },
        _ => {},
    }
    out
}

} // verus!
