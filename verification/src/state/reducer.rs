//! One physical GPU's product state on integer cells: routing each sample
//! to its cells, closing production ticks, and assembling the health
//! sentence.
use vstd::prelude::*;
use crate::model::{Health, HealthCategory, Observation, ObservationState, Timestamp};
use crate::normalize::{
    add_telemetry_candidate, health_candidate, limit_candidates, outcome, outcome_of,
    power_limit_message, power_limit_reached, signal_category, signal_message, telemetry_message,
    thermal_limit_message, thermal_limit_reached, trouble_message,
};
use crate::source::Reading;
use crate::source::kernel::KernelHealthSignal;
use crate::state::cell::{
    Cell, accepted_value, applied, evaluated, fresh_of, lemma_evaluated_value_is_recent, observation_of,
    read_within, trouble_of,
};
use crate::state::health::{HealthCandidate, is_winner, normal_message, select};
use crate::state::session::{PartitionSession, raised_peak};
use crate::state::daily::{DailyAccumulator, day_observed};
use crate::state::history::{HISTORY_CAPACITY, appended, latest, lemma_appended_keeps_latest};
use crate::state::{Lane, Origin};

verus! {

/// One partition's fast readings.
#[derive(Debug, Clone, Copy)]
pub struct PartitionFast {
    pub activity_centipercent: Reading<u64>,
    pub mem_ctl_centipercent: Reading<u64>,
    pub mem_used_bytes: Reading<u64>,
    pub mem_total_bytes: Reading<u64>,
}

/// One GPU's fast readings, partitions in discovery order.
#[derive(Debug)]
pub struct FastSample {
    pub hotspot_millic: Reading<i64>,
    pub socket_power_microwatts: Reading<u64>,
    pub partitions: Vec<PartitionFast>,
}

/// One GPU's slow readings.
#[derive(Debug)]
pub struct SlowSample {
    pub limit_millic: Reading<i64>,
    pub cap_microwatts: Reading<u64>,
    /// The primary partition's GFX clock, hertz.
    pub gfx_clock_hz: Reading<u64>,
    pub health: Vec<KernelHealthSignal>,
}

/// One partition's cells and session.
pub struct PartState {
    pub is_primary: bool,
    pub activity: Cell<u64>,
    pub mem_ctl: Cell<u64>,
    pub mem_used: Cell<u64>,
    pub mem_total: Cell<u64>,
    pub gfx_clock: Cell<u64>,
    pub session: PartitionSession,
}

/// One physical GPU's cells, health candidates and partitions.
pub struct GpuCells {
    pub hotspot: Cell<i64>,
    pub limit: Cell<i64>,
    pub power: Cell<u64>,
    pub cap: Cell<u64>,
    /// Candidates from the last slow kernel sample.
    pub kernel_health: Vec<HealthCandidate>,
    pub partitions: Vec<PartState>,
}

/// A partition after one fast reading from `origin`: every read cell takes
/// its outcome (structural absence on a secondary partition is the
/// primary's), the accepted values are staged, and nothing else changes.
pub open spec fn part_after(p: PartState, r: PartitionFast, origin: Origin, wall: Timestamp, mono: u64) -> PartState {
    PartState {
        is_primary: p.is_primary,
        activity: applied(p.activity, outcome_of(r.activity_centipercent, !p.is_primary), origin, Lane::Fast, wall, mono),
        mem_ctl: applied(p.mem_ctl, outcome_of(r.mem_ctl_centipercent, !p.is_primary), origin, Lane::Fast, wall, mono),
        mem_used: applied(p.mem_used, outcome_of(r.mem_used_bytes, false), origin, Lane::Fast, wall, mono),
        mem_total: applied(p.mem_total, outcome_of(r.mem_total_bytes, false), origin, Lane::Fast, wall, mono),
        gfx_clock: p.gfx_clock,
        session: p.session,
    }
}

/// The session of a partition after one fast reading from `origin` stages
/// what its cells accepted.
pub open spec fn staged_after(
    p: PartState,
    r: PartitionFast,
    origin: Origin,
    mono: u64,
    q: PartitionSession,
) -> bool {
    let a = accepted_value(p.activity, outcome_of(r.activity_centipercent, !p.is_primary), origin, mono);
    let u = accepted_value(p.mem_used, outcome_of(r.mem_used_bytes, false), origin, mono);
    let t = accepted_value(p.mem_total, outcome_of(r.mem_total_bytes, false), origin, mono);
    &&& q.staged_activity() == (match a {
        Some(v) => Some(v),
        None => p.session.staged_activity(),
    })
    &&& q.staged_memory() == (match (u, t) {
        (Some(x), Some(y)) => if y > 0 {
            Some((x, y))
        } else {
            p.session.staged_memory()
        },
        _ => p.session.staged_memory(),
    })
    &&& q.activity_history() == p.session.activity_history()
    &&& q.memory_history() == p.session.memory_history()
    &&& q.peak() == p.session.peak()
    &&& q.wf() == p.session.wf()
}

/// Applies one partition reading from `origin` to a partition's cells,
/// staging what they accept.
fn apply_partition(p: &mut PartState, r: &PartitionFast, origin: Origin, wall: Timestamp, mono: u64)
    ensures
        same_cells(*final(p), part_after(*old(p), *r, origin, wall, mono)),
        staged_after(*old(p), *r, origin, mono, final(p).session),
{
    let a = p.activity.apply(outcome(r.activity_centipercent, !p.is_primary), origin, Lane::Fast, wall, mono);
    p.session.stage_activity(a);
    p.mem_ctl.apply(outcome(r.mem_ctl_centipercent, !p.is_primary), origin, Lane::Fast, wall, mono);
    let u = p.mem_used.apply(outcome(r.mem_used_bytes, false), origin, Lane::Fast, wall, mono);
    let t = p.mem_total.apply(outcome(r.mem_total_bytes, false), origin, Lane::Fast, wall, mono);
    p.session.stage_memory(u, t);
}

/// A cell after an enrichment reading: a value is applied as AMD SMI's;
/// a reading without one leaves the cell as it was.
pub open spec fn enriched<V>(c: Cell<V>, r: Reading<V>, wall: Timestamp, mono: u64) -> Cell<V> {
    match r {
        Reading::Value(v) => applied(c, Ok(v), Origin::AmdSmi, Lane::Fast, wall, mono),
        _ => c,
    }
}

/// The value an enrichment reading makes fresh, if any.
pub open spec fn enriched_value<V>(c: Cell<V>, r: Reading<V>, mono: u64) -> Option<V> {
    match r {
        Reading::Value(v) => accepted_value(c, Ok(v), Origin::AmdSmi, mono),
        _ => None,
    }
}

/// A partition after one AMD SMI reading: each value it carries enriches
/// its cell, and what the cells accept is staged.
pub open spec fn part_enriched(p: PartState, r: PartitionFast, wall: Timestamp, mono: u64, q: PartState) -> bool {
    let a = enriched_value(p.activity, r.activity_centipercent, mono);
    let u = enriched_value(p.mem_used, r.mem_used_bytes, mono);
    let t = enriched_value(p.mem_total, r.mem_total_bytes, mono);
    &&& q.is_primary == p.is_primary
    &&& q.activity == enriched(p.activity, r.activity_centipercent, wall, mono)
    &&& q.mem_ctl == enriched(p.mem_ctl, r.mem_ctl_centipercent, wall, mono)
    &&& q.mem_used == enriched(p.mem_used, r.mem_used_bytes, wall, mono)
    &&& q.mem_total == enriched(p.mem_total, r.mem_total_bytes, wall, mono)
    &&& q.gfx_clock == p.gfx_clock
    &&& q.session.staged_activity() == (match a {
        Some(v) => Some(v),
        None => p.session.staged_activity(),
    })
    &&& q.session.staged_memory() == (match (u, t) {
        (Some(x), Some(y)) => if y > 0 {
            Some((x, y))
        } else {
            p.session.staged_memory()
        },
        _ => p.session.staged_memory(),
    })
    &&& q.session.activity_history() == p.session.activity_history()
    &&& q.session.memory_history() == p.session.memory_history()
    &&& q.session.peak() == p.session.peak()
    &&& q.session.wf() == p.session.wf()
}

/// Applies one enrichment reading to a cell.
fn enrich(c: &mut Cell<u64>, r: Reading<u64>, wall: Timestamp, mono: u64) -> (accepted: Option<u64>)
    ensures
        *final(c) == enriched(*old(c), r, wall, mono),
        accepted == enriched_value(*old(c), r, mono),
{
    match r {
        Reading::Value(v) => c.apply(Ok(v), Origin::AmdSmi, Lane::Fast, wall, mono),
        _ => None,
    }
}

/// Applies one AMD SMI reading to a partition's cells, staging what they
/// accept.
fn apply_enrichment(p: &mut PartState, r: &PartitionFast, wall: Timestamp, mono: u64)
    ensures
        part_enriched(*old(p), *r, wall, mono, *final(p)),
{
    let a = enrich(&mut p.activity, r.activity_centipercent, wall, mono);
    p.session.stage_activity(a);
    enrich(&mut p.mem_ctl, r.mem_ctl_centipercent, wall, mono);
    let u = enrich(&mut p.mem_used, r.mem_used_bytes, wall, mono);
    let t = enrich(&mut p.mem_total, r.mem_total_bytes, wall, mono);
    p.session.stage_memory(u, t);
}

/// A partition's cells other than its session are equal.
pub open spec fn same_cells(a: PartState, b: PartState) -> bool {
    a.is_primary == b.is_primary && a.activity == b.activity && a.mem_ctl == b.mem_ctl && a.mem_used
        == b.mem_used && a.mem_total == b.mem_total && a.gfx_clock == b.gfx_clock
}

impl GpuCells {
    /// Every partition's session is well formed.
    pub open spec fn wf(&self) -> bool {
        forall|i: int| 0 <= i < self.partitions@.len() ==> (#[trigger] self.partitions@[i]).session.wf()
    }

    /// A GPU with empty cells and sessions, one partition per flag
    /// (`true` for the primary).
    pub fn new(primary: &Vec<bool>) -> (g: GpuCells)
        ensures
            g.wf(),
            g.partitions@.len() == primary@.len(),
            g.kernel_health@.len() == 0,
            g.hotspot.state is Empty && g.limit.state is Empty && g.power.state is Empty
                && g.cap.state is Empty,
            forall|i: int|
                0 <= i < primary@.len() ==> {
                    let p = #[trigger] g.partitions@[i];
                    &&& p.is_primary == primary@[i]
                    &&& p.activity.state is Empty && p.mem_ctl.state is Empty
                    &&& p.mem_used.state is Empty && p.mem_total.state is Empty
                    &&& p.gfx_clock.state is Empty
                    &&& p.session.activity_history().len() == 0 && p.session.peak() is None
                    &&& p.session.staged_activity() is None && p.session.staged_memory() is None
                },
    {
        let mut partitions: Vec<PartState> = Vec::new();
        let mut i: usize = 0;
        while i < primary.len()
            invariant
                i <= primary@.len(),
                partitions@.len() == i,
                forall|k: int|
                    0 <= k < i ==> {
                        let p = #[trigger] partitions@[k];
                        &&& p.session.wf()
                        &&& p.is_primary == primary@[k]
                        &&& p.activity.state is Empty && p.mem_ctl.state is Empty
                        &&& p.mem_used.state is Empty && p.mem_total.state is Empty
                        &&& p.gfx_clock.state is Empty
                        &&& p.session.activity_history().len() == 0 && p.session.peak() is None
                        &&& p.session.staged_activity() is None && p.session.staged_memory() is None
                    },
            decreases primary.len() - i,
        {
            partitions.push(
                PartState {
                    is_primary: primary[i],
                    activity: Cell::new(),
                    mem_ctl: Cell::new(),
                    mem_used: Cell::new(),
                    mem_total: Cell::new(),
                    gfx_clock: Cell::new(),
                    session: PartitionSession::new(),
                },
            );
            i = i + 1;
        }
        GpuCells {
            hotspot: Cell::new(),
            limit: Cell::new(),
            power: Cell::new(),
            cap: Cell::new(),
            kernel_health: Vec::new(),
            partitions,
        }
    }

    /// Routes one fast sample: socket readings to the socket cells, the
    /// `i`-th partition reading to the `i`-th partition (partitions without
    /// a reading keep their state), staging what the cells accepted.
    pub fn apply_fast(&mut self, sample: &FastSample, wall: Timestamp, mono: u64)
        ensures
            final(self).hotspot == applied(
                old(self).hotspot,
                outcome_of(sample.hotspot_millic, false),
                Origin::Kernel,
                Lane::Fast,
                wall,
                mono,
            ),
            final(self).power == applied(
                old(self).power,
                outcome_of(sample.socket_power_microwatts, false),
                Origin::Kernel,
                Lane::Fast,
                wall,
                mono,
            ),
            final(self).limit == old(self).limit,
            final(self).cap == old(self).cap,
            final(self).kernel_health@ == old(self).kernel_health@,
            final(self).partitions@.len() == old(self).partitions@.len(),
            forall|i: int|
                0 <= i < old(self).partitions@.len() ==> if i < sample.partitions@.len() {
                    &&& same_cells(
                        #[trigger] final(self).partitions@[i],
                        part_after(old(self).partitions@[i], sample.partitions@[i], Origin::Kernel, wall, mono),
                    )
                    &&& staged_after(
                        old(self).partitions@[i],
                        sample.partitions@[i],
                        Origin::Kernel,
                        mono,
                        final(self).partitions@[i].session,
                    )
                } else {
                    final(self).partitions@[i] == old(self).partitions@[i]
                },
            old(self).wf() ==> final(self).wf(),
    {
        self.hotspot.apply(outcome(sample.hotspot_millic, false), Origin::Kernel, Lane::Fast, wall, mono);
        self.power.apply(
            outcome(sample.socket_power_microwatts, false),
            Origin::Kernel,
            Lane::Fast,
            wall,
            mono,
        );
        let ghost before = self.partitions@;
        let mut rest: Vec<PartState> = Vec::new();
        std::mem::swap(&mut rest, &mut self.partitions);
        assert(before.len() == rest.len());
        let mut done: Vec<PartState> = Vec::new();
        let mut i: usize = 0;
        while rest.len() > 0
            invariant
                done@.len() == i,
                i + rest@.len() == before.len(),
                before.len() <= usize::MAX,
                rest@ == before.subrange(i as int, before.len() as int),
                forall|k: int|
                    0 <= k < i ==> if k < sample.partitions@.len() {
                        &&& same_cells(
                            #[trigger] done@[k],
                            part_after(before[k], sample.partitions@[k], Origin::Kernel, wall, mono),
                        )
                        &&& staged_after(before[k], sample.partitions@[k], Origin::Kernel, mono, done@[k].session)
                    } else {
                        done@[k] == before[k]
                    },
            decreases rest@.len(),
        {
            let mut p = rest.remove(0);
            assert(p == before[i as int]);
            if i < sample.partitions.len() {
                apply_partition(&mut p, &sample.partitions[i], Origin::Kernel, wall, mono);
            }
            done.push(p);
            i = i + 1;
            assert(rest@ =~= before.subrange(i as int, before.len() as int));
        }
        self.partitions = done;
    }

    /// Applies one slow sample: the limit and cap cells take their readings,
    /// the primary partition's clock cell its clock (secondary partitions
    /// record that the primary reports it), and the kernel health
    /// candidates become the sample's signals, observed at `wall`.
    pub fn apply_slow(&mut self, sample: &SlowSample, wall: Timestamp, mono: u64)
        ensures
            final(self).limit == applied(
                old(self).limit,
                outcome_of(sample.limit_millic, false),
                Origin::Kernel,
                Lane::Slow,
                wall,
                mono,
            ),
            final(self).cap == applied(
                old(self).cap,
                outcome_of(sample.cap_microwatts, false),
                Origin::Kernel,
                Lane::Slow,
                wall,
                mono,
            ),
            final(self).hotspot == old(self).hotspot,
            final(self).power == old(self).power,
            final(self).kernel_health@.len() == sample.health@.len(),
            forall|k: int|
                0 <= k < sample.health@.len() ==> {
                    &&& (#[trigger] final(self).kernel_health@[k]).category == signal_category(
                        sample.health@[k],
                    )
                    &&& final(self).kernel_health@[k].message@ == signal_message(sample.health@[k])
                    &&& final(self).kernel_health@[k].observed_at == wall
                },
            final(self).partitions@.len() == old(self).partitions@.len(),
            forall|i: int|
                0 <= i < old(self).partitions@.len() ==> {
                    let p = old(self).partitions@[i];
                    let q = #[trigger] final(self).partitions@[i];
                    &&& q.gfx_clock == applied(
                        p.gfx_clock,
                        outcome_of(
                            if p.is_primary {
                                sample.gfx_clock_hz
                            } else {
                                Reading::<u64>::Absent
                            },
                            !p.is_primary,
                        ),
                        Origin::Kernel,
                        Lane::Slow,
                        wall,
                        mono,
                    )
                    &&& q.is_primary == p.is_primary && q.activity == p.activity && q.mem_ctl
                        == p.mem_ctl && q.mem_used == p.mem_used && q.mem_total == p.mem_total
                    &&& q.session == p.session
                },
            old(self).wf() ==> final(self).wf(),
    {
        self.limit.apply(outcome(sample.limit_millic, false), Origin::Kernel, Lane::Slow, wall, mono);
        self.cap.apply(outcome(sample.cap_microwatts, false), Origin::Kernel, Lane::Slow, wall, mono);
        let mut candidates: Vec<HealthCandidate> = Vec::new();
        let mut k: usize = 0;
        while k < sample.health.len()
            invariant
                k <= sample.health@.len(),
                candidates@.len() == k,
                forall|j: int|
                    0 <= j < k ==> {
                        &&& (#[trigger] candidates@[j]).category == signal_category(sample.health@[j])
                        &&& candidates@[j].message@ == signal_message(sample.health@[j])
                        &&& candidates@[j].observed_at == wall
                    },
            decreases sample.health.len() - k,
        {
            candidates.push(health_candidate(&sample.health[k], wall));
            k = k + 1;
        }
        self.kernel_health = candidates;
        let ghost before = self.partitions@;
        let mut rest: Vec<PartState> = Vec::new();
        std::mem::swap(&mut rest, &mut self.partitions);
        assert(before.len() == rest.len());
        let mut done: Vec<PartState> = Vec::new();
        let mut i: usize = 0;
        while rest.len() > 0
            invariant
                done@.len() == i,
                i + rest@.len() == before.len(),
                before.len() <= usize::MAX,
                rest@ == before.subrange(i as int, before.len() as int),
                forall|j: int|
                    0 <= j < i ==> {
                        let p = before[j];
                        let q = #[trigger] done@[j];
                        &&& q.gfx_clock == applied(
                            p.gfx_clock,
                            outcome_of(
                                if p.is_primary {
                                    sample.gfx_clock_hz
                                } else {
                                    Reading::<u64>::Absent
                                },
                                !p.is_primary,
                            ),
                            Origin::Kernel,
                            Lane::Slow,
                            wall,
                            mono,
                        )
                        &&& q.is_primary == p.is_primary && q.activity == p.activity && q.mem_ctl
                            == p.mem_ctl && q.mem_used == p.mem_used && q.mem_total == p.mem_total
                        &&& q.session == p.session
                    },
            decreases rest@.len(),
        {
            let mut p = rest.remove(0);
            assert(p == before[i as int]);
            let clock = if p.is_primary {
                sample.gfx_clock_hz
            } else {
                Reading::Absent
            };
            p.gfx_clock.apply(outcome(clock, !p.is_primary), Origin::Kernel, Lane::Slow, wall, mono);
            done.push(p);
            i = i + 1;
            assert(rest@ =~= before.subrange(i as int, before.len() as int));
        }
        self.partitions = done;
    }

    /// Applies one AMD SMI reading to the partition at `index` (nothing
    /// happens without such a partition): its values enrich the cells, a
    /// fresh kernel value keeps precedence, and a missing value changes
    /// nothing.
    pub fn apply_amdsmi(&mut self, index: usize, reading: &PartitionFast, wall: Timestamp, mono: u64)
        ensures
            final(self).hotspot == old(self).hotspot && final(self).power == old(self).power
                && final(self).limit == old(self).limit && final(self).cap == old(self).cap,
            final(self).kernel_health@ == old(self).kernel_health@,
            final(self).partitions@.len() == old(self).partitions@.len(),
            forall|i: int|
                0 <= i < old(self).partitions@.len() ==> if i == index {
                    part_enriched(old(self).partitions@[i], *reading, wall, mono, #[trigger] final(self).partitions@[i])
                } else {
                    final(self).partitions@[i] == old(self).partitions@[i]
                },
            old(self).wf() ==> final(self).wf(),
    {
        if index >= self.partitions.len() {
            return;
        }
        let ghost before = self.partitions@;
        let mut parts: Vec<PartState> = Vec::new();
        std::mem::swap(&mut parts, &mut self.partitions);
        let mut p = parts.remove(index);
        assert(p == before[index as int]);
        apply_enrichment(&mut p, reading, wall, mono);
        parts.insert(index, p);
        assert forall|i: int| 0 <= i < before.len() && i != index implies parts@[i] == before[i] by {}
        self.partitions = parts;
    }

    /// Applies the freshness rule at `now` to every cell.
    pub fn evaluate(&mut self, now: u64)
        ensures
            final(self).hotspot == evaluated(old(self).hotspot, now),
            final(self).limit == evaluated(old(self).limit, now),
            final(self).power == evaluated(old(self).power, now),
            final(self).cap == evaluated(old(self).cap, now),
            final(self).kernel_health@ == old(self).kernel_health@,
            final(self).partitions@.len() == old(self).partitions@.len(),
            forall|i: int|
                0 <= i < old(self).partitions@.len() ==> {
                    let p = old(self).partitions@[i];
                    let q = #[trigger] final(self).partitions@[i];
                    &&& q.activity == evaluated(p.activity, now)
                    &&& q.mem_ctl == evaluated(p.mem_ctl, now)
                    &&& q.mem_used == evaluated(p.mem_used, now)
                    &&& q.mem_total == evaluated(p.mem_total, now)
                    &&& q.gfx_clock == evaluated(p.gfx_clock, now)
                    &&& q.is_primary == p.is_primary && q.session == p.session
                },
            old(self).wf() ==> final(self).wf(),
    {
        self.hotspot.evaluate(now);
        self.limit.evaluate(now);
        self.power.evaluate(now);
        self.cap.evaluate(now);
        let ghost before = self.partitions@;
        let mut rest: Vec<PartState> = Vec::new();
        std::mem::swap(&mut rest, &mut self.partitions);
        assert(before.len() == rest.len());
        let mut done: Vec<PartState> = Vec::new();
        let mut i: usize = 0;
        while rest.len() > 0
            invariant
                done@.len() == i,
                i + rest@.len() == before.len(),
                before.len() <= usize::MAX,
                rest@ == before.subrange(i as int, before.len() as int),
                forall|j: int|
                    0 <= j < i ==> {
                        let p = before[j];
                        let q = #[trigger] done@[j];
                        &&& q.activity == evaluated(p.activity, now)
                        &&& q.mem_ctl == evaluated(p.mem_ctl, now)
                        &&& q.mem_used == evaluated(p.mem_used, now)
                        &&& q.mem_total == evaluated(p.mem_total, now)
                        &&& q.gfx_clock == evaluated(p.gfx_clock, now)
                        &&& q.is_primary == p.is_primary && q.session == p.session
                    },
            decreases rest@.len(),
        {
            let mut p = rest.remove(0);
            assert(p == before[i as int]);
            p.activity.evaluate(now);
            p.mem_ctl.evaluate(now);
            p.mem_used.evaluate(now);
            p.mem_total.evaluate(now);
            p.gfx_clock.evaluate(now);
            done.push(p);
            i = i + 1;
            assert(rest@ =~= before.subrange(i as int, before.len() as int));
        }
        self.partitions = done;
    }

    /// Closes one production tick on every partition: each window gains its
    /// staged value or a gap, the peak rises to the staged activity, and
    /// nothing stays staged. Cells are untouched.
    pub fn end_tick(&mut self)
        requires
            old(self).wf(),
        ensures
            final(self).wf(),
            final(self).hotspot == old(self).hotspot && final(self).power == old(self).power
                && final(self).limit == old(self).limit && final(self).cap == old(self).cap,
            final(self).kernel_health@ == old(self).kernel_health@,
            final(self).partitions@.len() == old(self).partitions@.len(),
            forall|i: int|
                0 <= i < old(self).partitions@.len() ==> {
                    let p = old(self).partitions@[i];
                    let q = #[trigger] final(self).partitions@[i];
                    &&& same_cells(q, p)
                    &&& q.session.activity_history() == appended(
                        p.session.activity_history(),
                        p.session.staged_activity(),
                    )
                    &&& q.session.memory_history() == appended(
                        p.session.memory_history(),
                        p.session.staged_memory(),
                    )
                    &&& q.session.peak() == raised_peak(p.session.peak(), p.session.staged_activity())
                    &&& q.session.staged_activity() is None
                    &&& q.session.staged_memory() is None
                    &&& q.session.activity_history() == latest(
                        p.session.activity_history().push(p.session.staged_activity()),
                    )
                    &&& q.session.memory_history() == latest(
                        p.session.memory_history().push(p.session.staged_memory()),
                    )
                    &&& q.session.activity_history().len() <= HISTORY_CAPACITY
                    &&& q.session.memory_history().len() <= HISTORY_CAPACITY
                },
    {
        let ghost before = self.partitions@;
        let mut rest: Vec<PartState> = Vec::new();
        std::mem::swap(&mut rest, &mut self.partitions);
        assert(before.len() == rest.len());
        let mut done: Vec<PartState> = Vec::new();
        let mut i: usize = 0;
        while rest.len() > 0
            invariant
                done@.len() == i,
                i + rest@.len() == before.len(),
                before.len() <= usize::MAX,
                rest@ == before.subrange(i as int, before.len() as int),
                forall|j: int| 0 <= j < before.len() ==> (#[trigger] before[j]).session.wf(),
                forall|j: int|
                    0 <= j < i ==> {
                        let p = before[j];
                        let q = #[trigger] done@[j];
                        &&& q.session.wf()
                        &&& same_cells(q, p)
                        &&& q.session.activity_history() == appended(
                            p.session.activity_history(),
                            p.session.staged_activity(),
                        )
                        &&& q.session.memory_history() == appended(
                            p.session.memory_history(),
                            p.session.staged_memory(),
                        )
                        &&& q.session.peak() == raised_peak(p.session.peak(), p.session.staged_activity())
                        &&& q.session.staged_activity() is None
                        &&& q.session.staged_memory() is None
                    },
            decreases rest@.len(),
        {
            let mut p = rest.remove(0);
            assert(p == before[i as int]);
            p.session.end_tick();
            done.push(p);
            i = i + 1;
            assert(rest@ =~= before.subrange(i as int, before.len() as int));
        }
        proof {
            assert forall|j: int| 0 <= j < before.len() implies {
                let p = before[j];
                let q = #[trigger] done@[j];
                &&& q.session.activity_history() == latest(
                    p.session.activity_history().push(p.session.staged_activity()),
                )
                &&& q.session.memory_history() == latest(
                    p.session.memory_history().push(p.session.staged_memory()),
                )
                &&& q.session.activity_history().len() <= HISTORY_CAPACITY
                &&& q.session.memory_history().len() <= HISTORY_CAPACITY
            } by {
                let p = before[j];
                p.session.lemma_windows_bounded();
                lemma_appended_keeps_latest(p.session.activity_history(), p.session.staged_activity());
                lemma_appended_keeps_latest(p.session.memory_history(), p.session.staged_memory());
            }
        }
        self.partitions = done;
    }

    /// Clears every partition's session peak.
    pub fn reset_peaks(&mut self)
        ensures
            final(self).hotspot == old(self).hotspot && final(self).power == old(self).power
                && final(self).limit == old(self).limit && final(self).cap == old(self).cap,
            final(self).kernel_health@ == old(self).kernel_health@,
            final(self).partitions@.len() == old(self).partitions@.len(),
            forall|i: int|
                0 <= i < old(self).partitions@.len() ==> {
                    let p = old(self).partitions@[i];
                    let q = #[trigger] final(self).partitions@[i];
                    &&& same_cells(q, p)
                    &&& q.session.peak() is None
                    &&& q.session.staged_activity() == p.session.staged_activity()
                    &&& q.session.staged_memory() == p.session.staged_memory()
                    &&& q.session.activity_history() == p.session.activity_history()
                    &&& q.session.memory_history() == p.session.memory_history()
                    &&& q.session.wf() == p.session.wf()
                },
            old(self).wf() ==> final(self).wf(),
    {
        let ghost before = self.partitions@;
        let mut rest: Vec<PartState> = Vec::new();
        std::mem::swap(&mut rest, &mut self.partitions);
        assert(before.len() == rest.len());
        let mut done: Vec<PartState> = Vec::new();
        let mut i: usize = 0;
        while rest.len() > 0
            invariant
                done@.len() == i,
                i + rest@.len() == before.len(),
                before.len() <= usize::MAX,
                rest@ == before.subrange(i as int, before.len() as int),
                forall|j: int|
                    0 <= j < i ==> {
                        let p = before[j];
                        let q = #[trigger] done@[j];
                        &&& same_cells(q, p)
                        &&& q.session.peak() is None
                        &&& q.session.staged_activity() == p.session.staged_activity()
                        &&& q.session.staged_memory() == p.session.staged_memory()
                        &&& q.session.activity_history() == p.session.activity_history()
                        &&& q.session.memory_history() == p.session.memory_history()
                        &&& q.session.wf() == p.session.wf()
                    },
            decreases rest@.len(),
        {
            let mut p = rest.remove(0);
            assert(p == before[i as int]);
            p.session.reset_peak();
            done.push(p);
            i = i + 1;
            assert(rest@ =~= before.subrange(i as int, before.len() as int));
        }
        self.partitions = done;
    }
}


/// What a health candidate says: its category, sentence and source time.
pub open spec fn candidate_view(c: HealthCandidate) -> (HealthCategory, Seq<char>, Timestamp) {
    (c.category, c.message@, c.observed_at)
}

/// The candidates as category, sentence and time, in order.
pub open spec fn view_seq(s: Seq<HealthCandidate>) -> Seq<(HealthCategory, Seq<char>, Timestamp)> {
    s.map_values(|c: HealthCandidate| candidate_view(c))
}

/// The limit candidates of fresh values: the thermal one, then the power one.
pub open spec fn limit_views(
    hotspot: Option<(i64, Timestamp)>,
    limit: Option<(i64, Timestamp)>,
    power: Option<(u64, Timestamp)>,
    cap: Option<(u64, Timestamp)>,
) -> Seq<(HealthCategory, Seq<char>, Timestamp)> {
    (if thermal_limit_reached(hotspot, limit) {
        seq![
            (
                HealthCategory::Limit,
                thermal_limit_message((hotspot->0).0 as nat, (limit->0).0 as nat),
                (hotspot->0).1,
            ),
        ]
    } else {
        Seq::empty()
    }) + (if power_limit_reached(power, cap) {
        seq![
            (
                HealthCategory::Limit,
                power_limit_message((power->0).0 as nat, (cap->0).0 as nat),
                (power->0).1,
            ),
        ]
    } else {
        Seq::empty()
    })
}

/// One cell's telemetry trouble added to the candidates at `now`, unless a
/// telemetry candidate with the same sentence is already listed.
pub open spec fn with_trouble(
    c: Seq<(HealthCategory, Seq<char>, Timestamp)>,
    t: Option<(ObservationState, Option<Timestamp>)>,
    now: Timestamp,
) -> Seq<(HealthCategory, Seq<char>, Timestamp)> {
    match t {
        None => c,
        Some((state, last_good)) => {
            let m = trouble_message(state, last_good, now);
            if exists|i: int| 0 <= i < c.len() && (#[trigger] c[i]).0 == HealthCategory::Telemetry && c[i].1 == m {
                c
            } else {
                c.push((HealthCategory::Telemetry, m, now))
            }
        },
    }
}

/// Every trouble added in turn.
pub open spec fn with_troubles(
    c: Seq<(HealthCategory, Seq<char>, Timestamp)>,
    ts: Seq<Option<(ObservationState, Option<Timestamp>)>>,
    now: Timestamp,
) -> Seq<(HealthCategory, Seq<char>, Timestamp)>
    decreases ts.len(),
{
    if ts.len() == 0 {
        c
    } else {
        with_trouble(with_troubles(c, ts.drop_last(), now), ts.last(), now)
    }
}

/// The troubles of the partitions' contracted cells: activity, memory used
/// and memory total of each, in order.
pub open spec fn part_troubles(parts: Seq<PartState>) -> Seq<Option<(ObservationState, Option<Timestamp>)>>
    decreases parts.len(),
{
    if parts.len() == 0 {
        Seq::empty()
    } else {
        let p = parts.last();
        part_troubles(parts.drop_last()) + seq![
            trouble_of(p.activity),
            trouble_of(p.mem_used),
            trouble_of(p.mem_total),
        ]
    }
}

/// The candidates competing for a GPU's health sentence at `now`: the
/// kernel's, the reached limits, then the telemetry trouble of the hotspot,
/// the socket power and each partition's contracted cells.
pub open spec fn health_candidates(g: GpuCells, now: Timestamp) -> Seq<(HealthCategory, Seq<char>, Timestamp)> {
    with_troubles(
        view_seq(g.kernel_health@) + limit_views(
            fresh_of(g.hotspot),
            fresh_of(g.limit),
            fresh_of(g.power),
            fresh_of(g.cap),
        ),
        seq![trouble_of(g.hotspot), trouble_of(g.power)] + part_troubles(g.partitions@),
        now,
    )
}

/// `h` is what selection makes of the candidates `cs` at `now`.
pub open spec fn selected(cs: Seq<HealthCandidate>, now: Timestamp, h: Health) -> bool {
    &&& cs.len() == 0 ==> h.category == HealthCategory::Normal && h.message@ == normal_message()
        && h.observed_at == now
    &&& cs.len() > 0 ==> exists|i: int|
        is_winner(cs, i) && h.category == (#[trigger] cs[i]).category && h.message == cs[i].message
            && h.observed_at == cs[i].observed_at
}

/// Adding one more trouble adds it to what the earlier ones gave.
proof fn lemma_with_troubles_push(
    c: Seq<(HealthCategory, Seq<char>, Timestamp)>,
    ts: Seq<Option<(ObservationState, Option<Timestamp>)>>,
    t: Option<(ObservationState, Option<Timestamp>)>,
    now: Timestamp,
)
    ensures
        with_troubles(c, ts.push(t), now) == with_trouble(with_troubles(c, ts, now), t, now),
{
    assert(ts.push(t).drop_last() =~= ts);
}

/// Adds one cell's trouble to the candidates.
fn note_trouble(
    out: &mut Vec<HealthCandidate>,
    t: Option<(ObservationState, Option<Timestamp>)>,
    now: Timestamp,
)
    ensures
        view_seq(final(out)@) == with_trouble(view_seq(old(out)@), t, now),
{
    match t {
        None => {},
        Some((state, last_good)) => {
            let m = telemetry_message(&state, last_good, now);
            let ghost before = out@;
            add_telemetry_candidate(out, m, now);
            proof {
                let vs = view_seq(before);
                let msg = trouble_message(state, last_good, now);
                if exists|i: int|
                    0 <= i < vs.len() && (#[trigger] vs[i]).0 == HealthCategory::Telemetry && vs[i].1 == msg {
                    let i = choose|i: int|
                        0 <= i < vs.len() && (#[trigger] vs[i]).0 == HealthCategory::Telemetry && vs[i].1
                            == msg;
                    assert(vs[i] == candidate_view(before[i]));
                    assert(before[i].category == HealthCategory::Telemetry && before[i].message@ == m@);
                } else {
                    assert forall|i: int| 0 <= i < before.len() implies !((#[trigger] before[i]).category
                        == HealthCategory::Telemetry && before[i].message@ == m@) by {
                        assert(vs[i] == candidate_view(before[i]));
                    }
                    assert(view_seq(out@) =~= vs.push((HealthCategory::Telemetry, msg, now)));
                }
            }
        },
    }
}

/// Appends copies of `src` to `out`.
fn append_candidates(out: &mut Vec<HealthCandidate>, src: &Vec<HealthCandidate>)
    ensures
        final(out)@ == old(out)@ + src@,
{
    let ghost start = out@;
    let mut k: usize = 0;
    while k < src.len()
        invariant
            k <= src@.len(),
            out@ == start + src@.subrange(0, k as int),
        decreases src.len() - k,
    {
        out.push(src[k].clone());
        k = k + 1;
        assert(out@ =~= start + src@.subrange(0, k as int));
    }
    assert(src@.subrange(0, src@.len() as int) =~= src@);
}

impl GpuCells {
    /// The candidates competing for the health sentence at `now`.
    pub fn health_candidates(&self, now: Timestamp) -> (c: Vec<HealthCandidate>)
        ensures
            view_seq(c@) == health_candidates(*self, now),
    {
        let mut out: Vec<HealthCandidate> = Vec::new();
        append_candidates(&mut out, &self.kernel_health);
        let h = self.hotspot.fresh();
        let l = self.limit.fresh();
        let pw = self.power.fresh();
        let cp = self.cap.fresh();
        let limits = limit_candidates(h, l, pw, cp);
        append_candidates(&mut out, &limits);
        proof {
            assert(view_seq(limits@) =~= limit_views(h, l, pw, cp));
            assert(view_seq(out@) =~= view_seq(self.kernel_health@) + view_seq(limits@));
        }
        let ghost base = view_seq(out@);
        let ghost parts = self.partitions@;
        let ghost mut done: Seq<Option<(ObservationState, Option<Timestamp>)>> = Seq::empty();
        assert(with_troubles(base, done, now) == base);
        let t = self.hotspot.trouble();
        note_trouble(&mut out, t, now);
        proof {
            lemma_with_troubles_push(base, done, t, now);
            done = done.push(t);
        }
        let t = self.power.trouble();
        note_trouble(&mut out, t, now);
        proof {
            lemma_with_troubles_push(base, done, t, now);
            done = done.push(t);
            assert(done =~= seq![trouble_of(self.hotspot), trouble_of(self.power)] + part_troubles(
                parts.subrange(0, 0),
            ));
        }
        let mut j: usize = 0;
        while j < self.partitions.len()
            invariant
                j <= parts.len(),
                parts == self.partitions@,
                done == seq![trouble_of(self.hotspot), trouble_of(self.power)] + part_troubles(
                    parts.subrange(0, j as int),
                ),
                view_seq(out@) == with_troubles(base, done, now),
            decreases self.partitions.len() - j,
        {
            let p = &self.partitions[j];
            let ghost prefix = done;
            let t = p.activity.trouble();
            note_trouble(&mut out, t, now);
            proof {
                lemma_with_troubles_push(base, done, t, now);
                done = done.push(t);
            }
            let t = p.mem_used.trouble();
            note_trouble(&mut out, t, now);
            proof {
                lemma_with_troubles_push(base, done, t, now);
                done = done.push(t);
            }
            let t = p.mem_total.trouble();
            note_trouble(&mut out, t, now);
            proof {
                lemma_with_troubles_push(base, done, t, now);
                done = done.push(t);
                let next = parts.subrange(0, j + 1);
                assert(next.drop_last() =~= parts.subrange(0, j as int));
                assert(next.last() == parts[j as int]);
                assert(done =~= seq![trouble_of(self.hotspot), trouble_of(self.power)] + part_troubles(next));
            }
            j = j + 1;
        }
        proof {
            assert(parts.subrange(0, parts.len() as int) =~= parts);
            assert(base =~= view_seq(self.kernel_health@) + limit_views(h, l, pw, cp));
        }
        out
    }

    /// The GPU's health sentence at `now`: the winner among its candidates,
    /// or the normal sentence when there is none.
    pub fn health(&self, now: Timestamp) -> (h: Health)
        ensures
            exists|cs: Seq<HealthCandidate>|
                view_seq(cs) == health_candidates(*self, now) && #[trigger] selected(cs, now, h),
    {
        let c = self.health_candidates(now);
        let h = select(&c, now);
        assert(selected(c@, now, h));
        h
    }
}


/// What one partition publishes: its cells' observations, its windows and
/// its session peak.
#[derive(Debug)]
pub struct PartitionObservations {
    pub is_primary: bool,
    pub activity_centipercent: Observation<u64>,
    pub mem_ctl_centipercent: Observation<u64>,
    pub gfx_clock_hz: Observation<u64>,
    pub mem_used_bytes: Observation<u64>,
    pub mem_total_bytes: Observation<u64>,
    pub activity_window: Vec<Option<u64>>,
    pub memory_window: Vec<Option<(u64, u64)>>,
    pub peak_activity: Option<u64>,
}

/// What one physical GPU publishes at a snapshot.
#[derive(Debug)]
pub struct GpuObservations {
    pub hotspot_millic: Observation<i64>,
    pub hotspot_limit_millic: Observation<i64>,
    pub socket_microwatts: Observation<u64>,
    pub power_cap_microwatts: Observation<u64>,
    pub health: Health,
    pub partitions: Vec<PartitionObservations>,
}

/// A partition's observations are those of its cells and session.
pub open spec fn observes(p: PartState, o: PartitionObservations) -> bool {
    &&& o.is_primary == p.is_primary
    &&& o.activity_centipercent == observation_of(p.activity.state)
    &&& o.mem_ctl_centipercent == observation_of(p.mem_ctl.state)
    &&& o.gfx_clock_hz == observation_of(p.gfx_clock.state)
    &&& o.mem_used_bytes == observation_of(p.mem_used.state)
    &&& o.mem_total_bytes == observation_of(p.mem_total.state)
    &&& o.activity_window@ == p.session.activity_history()
    &&& o.memory_window@ == p.session.memory_history()
    &&& o.peak_activity == p.session.peak()
}

impl GpuCells {
    /// Assembles what the GPU publishes at `now`: every cell's canonical
    /// observation, each partition's windows and peak, and the health
    /// sentence.
    pub fn assemble(&self, now: Timestamp) -> (o: GpuObservations)
        requires
            self.wf(),
        ensures
            o.hotspot_millic == observation_of(self.hotspot.state),
            o.hotspot_limit_millic == observation_of(self.limit.state),
            o.socket_microwatts == observation_of(self.power.state),
            o.power_cap_microwatts == observation_of(self.cap.state),
            exists|cs: Seq<HealthCandidate>|
                view_seq(cs) == health_candidates(*self, now) && #[trigger] selected(cs, now, o.health),
            o.partitions@.len() == self.partitions@.len(),
            forall|i: int|
                0 <= i < self.partitions@.len() ==> observes(
                    self.partitions@[i],
                    #[trigger] o.partitions@[i],
                ),
    {
        let mut partitions: Vec<PartitionObservations> = Vec::new();
        let mut i: usize = 0;
        while i < self.partitions.len()
            invariant
                i <= self.partitions@.len(),
                self.wf(),
                partitions@.len() == i,
                forall|k: int| 0 <= k < i ==> observes(self.partitions@[k], #[trigger] partitions@[k]),
            decreases self.partitions.len() - i,
        {
            let p = &self.partitions[i];
            assert(p.session.wf());
            partitions.push(
                PartitionObservations {
                    is_primary: p.is_primary,
                    activity_centipercent: p.activity.observation(),
                    mem_ctl_centipercent: p.mem_ctl.observation(),
                    gfx_clock_hz: p.gfx_clock.observation(),
                    mem_used_bytes: p.mem_used.observation(),
                    mem_total_bytes: p.mem_total.observation(),
                    activity_window: p.session.activity_window(),
                    memory_window: p.session.memory_window(),
                    peak_activity: p.session.peak_activity(),
                },
            );
            i = i + 1;
        }
        GpuObservations {
            hotspot_millic: self.hotspot.observation(),
            hotspot_limit_millic: self.limit.observation(),
            socket_microwatts: self.power.observation(),
            power_cap_microwatts: self.cap.observation(),
            health: self.health(now),
            partitions,
        }
    }
}

/// Every value a partition publishes was read within its lane's threshold
/// before `now`.
pub open spec fn partition_recent(p: PartState, o: PartitionObservations, now: u64) -> bool {
    &&& o.activity_centipercent is Value ==> read_within(p.activity, now)
    &&& o.mem_ctl_centipercent is Value ==> read_within(p.mem_ctl, now)
    &&& o.gfx_clock_hz is Value ==> read_within(p.gfx_clock, now)
    &&& o.mem_used_bytes is Value ==> read_within(p.mem_used, now)
    &&& o.mem_total_bytes is Value ==> read_within(p.mem_total, now)
}

impl GpuCells {
    /// Applies the freshness rule at monotonic `now` and assembles what the
    /// GPU publishes at wall time `now_wall`: a published value was always
    /// read within its lane's threshold before `now`, so no stale number is
    /// ever published.
    pub fn publish(&mut self, now: u64, now_wall: Timestamp) -> (o: GpuObservations)
        requires
            old(self).wf(),
        ensures
            final(self).wf(),
            final(self).hotspot == evaluated(old(self).hotspot, now),
            final(self).limit == evaluated(old(self).limit, now),
            final(self).power == evaluated(old(self).power, now),
            final(self).cap == evaluated(old(self).cap, now),
            final(self).kernel_health@ == old(self).kernel_health@,
            final(self).partitions@.len() == old(self).partitions@.len(),
            forall|i: int|
                0 <= i < old(self).partitions@.len() ==> {
                    let p = old(self).partitions@[i];
                    let q = #[trigger] final(self).partitions@[i];
                    &&& q.activity == evaluated(p.activity, now)
                    &&& q.mem_ctl == evaluated(p.mem_ctl, now)
                    &&& q.mem_used == evaluated(p.mem_used, now)
                    &&& q.mem_total == evaluated(p.mem_total, now)
                    &&& q.gfx_clock == evaluated(p.gfx_clock, now)
                    &&& q.is_primary == p.is_primary && q.session == p.session
                },
            o.hotspot_millic == observation_of(final(self).hotspot.state),
            o.hotspot_limit_millic == observation_of(final(self).limit.state),
            o.socket_microwatts == observation_of(final(self).power.state),
            o.power_cap_microwatts == observation_of(final(self).cap.state),
            exists|cs: Seq<HealthCandidate>|
                view_seq(cs) == health_candidates(*final(self), now_wall) && #[trigger] selected(
                    cs,
                    now_wall,
                    o.health,
                ),
            o.partitions@.len() == old(self).partitions@.len(),
            forall|i: int|
                0 <= i < old(self).partitions@.len() ==> observes(
                    final(self).partitions@[i],
                    #[trigger] o.partitions@[i],
                ),
            o.hotspot_millic is Value ==> read_within(old(self).hotspot, now),
            o.hotspot_limit_millic is Value ==> read_within(old(self).limit, now),
            o.socket_microwatts is Value ==> read_within(old(self).power, now),
            o.power_cap_microwatts is Value ==> read_within(old(self).cap, now),
            forall|i: int|
                0 <= i < old(self).partitions@.len() ==> partition_recent(
                    old(self).partitions@[i],
                    #[trigger] o.partitions@[i],
                    now,
                ),
    {
        self.evaluate(now);
        let o = self.assemble(now_wall);
        proof {
            lemma_evaluated_value_is_recent(old(self).hotspot, now);
            lemma_evaluated_value_is_recent(old(self).limit, now);
            lemma_evaluated_value_is_recent(old(self).power, now);
            lemma_evaluated_value_is_recent(old(self).cap, now);
            assert forall|i: int| 0 <= i < old(self).partitions@.len() implies partition_recent(
                old(self).partitions@[i],
                #[trigger] o.partitions@[i],
                now,
            ) by {
                let p = old(self).partitions@[i];
                assert(observes(self.partitions@[i], o.partitions@[i]));
                lemma_evaluated_value_is_recent(p.activity, now);
                lemma_evaluated_value_is_recent(p.mem_ctl, now);
                lemma_evaluated_value_is_recent(p.gfx_clock, now);
                lemma_evaluated_value_is_recent(p.mem_used, now);
                lemma_evaluated_value_is_recent(p.mem_total, now);
            }
        }
        o
    }
}

/// The position of a GPU's primary partition: the first marked primary,
/// else the first partition.
pub open spec fn primary_position(parts: Seq<PartState>) -> int {
    if exists|j: int| 0 <= j < parts.len() && (#[trigger] parts[j]).is_primary {
        choose|j: int|
            0 <= j < parts.len() && (#[trigger] parts[j]).is_primary && forall|k: int|
                0 <= k < j ==> !(#[trigger] parts[k]).is_primary
    } else {
        0
    }
}

impl GpuCells {
    /// The position of the primary partition (`None` without partitions).
    pub fn primary_index(&self) -> (r: Option<usize>)
        ensures
            r is None <==> self.partitions@.len() == 0,
            r matches Some(i) ==> i == primary_position(self.partitions@),
            r matches Some(i) ==> i < self.partitions@.len(),
    {
        let mut i: usize = 0;
        while i < self.partitions.len()
            invariant
                i <= self.partitions@.len(),
                forall|k: int| 0 <= k < i ==> !(#[trigger] self.partitions@[k]).is_primary,
            decreases self.partitions.len() - i,
        {
            if self.partitions[i].is_primary {
                proof {
                    let parts = self.partitions@;
                    assert(0 <= i < parts.len() && parts[i as int].is_primary);
                    let j = choose|j: int|
                        0 <= j < parts.len() && (#[trigger] parts[j]).is_primary && forall|k: int|
                            0 <= k < j ==> !(#[trigger] parts[k]).is_primary;
                    if j < i {
                        assert(!parts[j].is_primary);
                    } else if j > i {
                        assert(!parts[i as int].is_primary);
                    }
                }
                return Some(i);
            }
            i = i + 1;
        }
        if self.partitions.len() == 0 {
            None
        } else {
            Some(0)
        }
    }

    /// Records the tick about to close in the day's summary of GPU `gpu`:
    /// the primary partition's staged activity and memory, as the day's
    /// peaks see them. Call before [`GpuCells::end_tick`].
    pub fn observe_day(&self, daily: &mut DailyAccumulator, gpu: &str)
        requires
            self.wf(),
        ensures
            final(daily).date() == old(daily).date(),
            final(daily).baselines() == old(daily).baselines(),
            self.partitions@.len() == 0 ==> final(daily).days() == old(daily).days(),
            self.partitions@.len() == 0 ==> final(daily).is_dirty() == old(daily).is_dirty(),
            self.partitions@.len() > 0 ==> {
                let p = self.partitions@[primary_position(self.partitions@)];
                final(daily).days() == day_observed(
                    old(daily).days(),
                    gpu@,
                    p.session.staged_activity(),
                    p.session.staged_memory(),
                )
            },
            old(daily).is_dirty() ==> final(daily).is_dirty(),
            final(daily).days() != old(daily).days() ==> final(daily).is_dirty(),
    {
        let index = match self.primary_index() {
            Some(i) => i,
            None => return ,
        };
        let (activity, memory) = self.partitions[index].session.staged();
        if let Some(centi) = activity {
            daily.observe_activity(gpu, centi);
        }
        if let Some((used, total)) = memory {
            if total > 0 {
                daily.observe_memory(gpu, used, total);
            }
        }
    }
}

} // verus!
