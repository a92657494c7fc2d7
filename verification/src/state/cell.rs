//! One metric cell: the current canonical observation plus the freshness
//! bookkeeping that decides when a retained value turns into its failure
//! evidence or `stale`.
//!
//! Kernel observations are authoritative: optional enrichment never
//! overwrites a fresh kernel value, whichever is newer. A failed read keeps
//! a fresh value until its deadline; then the failure (or `stale`, with the
//! last good source time and no value) becomes visible.
use vstd::prelude::*;
use crate::model::{Observation, ObservationState, Timestamp};
use crate::state::{Lane, Origin};

verus! {

/// Freshness threshold of a lane in nanoseconds.
pub open spec fn stale_after_nanos(lane: Lane) -> int {
    match lane {
        Lane::Fast => 1_000_000_000,
        Lane::Slow => 3_000_000_000,
    }
}

/// Monotonic nanoseconds from `earlier` to `later`, zero when `later` is
/// not later (`Instant::duration_since` saturates).
pub open spec fn since(later: u64, earlier: u64) -> int {
    if later > earlier {
        later - earlier
    } else {
        0
    }
}

fn stale_after_nanos_exec(lane: Lane) -> (r: u64)
    ensures
        r == stale_after_nanos(lane),
{
    let ms = lane.stale_after();
    ms * 1_000_000
}

/// The state of one metric cell.
#[derive(Debug)]
pub enum CellState<V> {
    /// Nothing observed yet.
    Empty,
    /// A current value within its freshness window.
    Fresh { value: V, wall: Timestamp, mono: u64, origin: Origin, lane: Lane },
    /// No current value; `last_good` is retained only for `stale`.
    Unavailable { state: ObservationState, last_good: Option<Timestamp> },
}

/// One metric cell.
#[derive(Debug)]
pub struct Cell<V> {
    pub state: CellState<V>,
    /// Most recent explicit read failure while a fresh value was retained.
    pub last_failure: Option<ObservationState>,
}

/// Whether an enrichment value is shadowed by the cell's kernel value: the
/// cell holds a kernel observation still fresh at the enrichment's read.
pub open spec fn kernel_shadows<V>(state: CellState<V>, origin: Origin, mono: u64) -> bool {
    origin == Origin::AmdSmi && match state {
        CellState::Fresh { origin: Origin::Kernel, mono: k_mono, lane: k_lane, .. } => since(
            mono,
            k_mono,
        ) <= stale_after_nanos(k_lane),
        _ => false,
    }
}

/// The observation a cell publishes.
pub open spec fn observation_of<V>(state: CellState<V>) -> Observation<V> {
    match state {
        CellState::Empty => Observation::Unavailable {
            state: ObservationState::SourceError,
            observed_at: None,
        },
        CellState::Fresh { value, wall, .. } => Observation::Value { value, observed_at: wall },
        CellState::Unavailable { state, last_good } => Observation::Unavailable {
            state,
            observed_at: last_good,
        },
    }
}

/// The cell after applying one outcome: a value becomes fresh unless a
/// fresh kernel value shadows it; a failure is remembered beside a fresh
/// value, or becomes the cell's state.
pub open spec fn applied<V>(
    before: Cell<V>,
    outcome: Result<V, ObservationState>,
    origin: Origin,
    lane: Lane,
    wall: Timestamp,
    mono: u64,
) -> Cell<V> {
    match outcome {
        Ok(v) => if kernel_shadows(before.state, origin, mono) {
            before
        } else {
            Cell { state: CellState::Fresh { value: v, wall, mono, origin, lane }, last_failure: None }
        },
        Err(s) => if before.state is Fresh {
            Cell { state: before.state, last_failure: Some(s) }
        } else {
            Cell { state: CellState::Unavailable { state: s, last_good: None }, last_failure: None }
        },
    }
}

/// The value an outcome makes fresh, if any.
pub open spec fn accepted_value<V>(
    before: Cell<V>,
    outcome: Result<V, ObservationState>,
    origin: Origin,
    mono: u64,
) -> Option<V> {
    match outcome {
        Ok(v) => if kernel_shadows(before.state, origin, mono) {
            None
        } else {
            Some(v)
        },
        Err(_) => None,
    }
}

/// The cell after the freshness rule at `now`.
pub open spec fn evaluated<V>(before: Cell<V>, now: u64) -> Cell<V> {
    match before.state {
        CellState::Fresh { mono, lane, wall, .. } => if since(now, mono) > stale_after_nanos(lane) {
            Cell {
                state: match before.last_failure {
                    Some(s) => CellState::Unavailable { state: s, last_good: None },
                    None => CellState::Unavailable {
                        state: ObservationState::Stale,
                        last_good: Some(wall),
                    },
                },
                last_failure: None,
            }
        } else {
            before
        },
        _ => before,
    }
}

/// The telemetry trouble a cell reports, if any.
pub open spec fn trouble_of<V>(c: Cell<V>) -> Option<(ObservationState, Option<Timestamp>)> {
    match c.state {
        CellState::Unavailable { state, last_good } => if state
            == ObservationState::UnsupportedHardware || state
            == ObservationState::ReportedByPrimaryPartition {
            None
        } else {
            Some((state, last_good))
        },
        _ => None,
    }
}

/// The fresh value of a cell and its source time, if any.
pub open spec fn fresh_of<V>(c: Cell<V>) -> Option<(V, Timestamp)> {
    match c.state {
        CellState::Fresh { value, wall, .. } => Some((value, wall)),
        _ => None,
    }
}

impl<V: Copy> Cell<V> {
    /// An empty cell.
    pub fn new() -> (c: Cell<V>)
        ensures
            c.state is Empty,
            c.last_failure is None,
    {
        Cell { state: CellState::Empty, last_failure: None }
    }

    /// Applies one normalized outcome read at `wall`/`mono`. Returns the
    /// value when it was accepted (to stage history and peaks).
    pub fn apply(
        &mut self,
        outcome: Result<V, ObservationState>,
        origin: Origin,
        lane: Lane,
        wall: Timestamp,
        mono: u64,
    ) -> (accepted: Option<V>)
        ensures
            *final(self) == applied(*old(self), outcome, origin, lane, wall, mono),
            accepted == accepted_value(*old(self), outcome, origin, mono),
            match outcome {
                Ok(v) => if kernel_shadows(old(self).state, origin, mono) {
                    &&& accepted is None
                    &&& final(self).state == old(self).state
                    &&& final(self).last_failure == old(self).last_failure
                } else {
                    &&& accepted == Some(v)
                    &&& final(self).state == (CellState::Fresh { value: v, wall, mono, origin, lane })
                    &&& final(self).last_failure is None
                },
                Err(s) => {
                    &&& accepted is None
                    &&& if old(self).state is Fresh {
                        &&& final(self).state == old(self).state
                        &&& final(self).last_failure == Some(s)
                    } else {
                        &&& final(self).state == (CellState::<V>::Unavailable {
                            state: s,
                            last_good: None,
                        })
                        &&& final(self).last_failure is None
                    }
                },
            },
    {
        match outcome {
            Ok(value) => {
                let shadowed = match &self.state {
                    CellState::Fresh { origin: Origin::Kernel, mono: k_mono, lane: k_lane, .. } => {
                        let elapsed = if mono > *k_mono {
                            mono - *k_mono
                        } else {
                            0
                        };
                        origin == Origin::AmdSmi && elapsed <= stale_after_nanos_exec(*k_lane)
                    },
                    _ => false,
                };
                if shadowed {
                    return None;
                }
                self.state = CellState::Fresh { value, wall, mono, origin, lane };
                self.last_failure = None;
                Some(value)
            },
            Err(state) => {
                let fresh = match &self.state {
                    CellState::Fresh { .. } => true,
                    _ => false,
                };
                if fresh {
                    self.last_failure = Some(state);
                } else {
                    self.state = CellState::Unavailable { state, last_good: None };
                    self.last_failure = None;
                }
                None
            },
        }
    }

    /// Applies the freshness rule at `now`: a value past its lane's
    /// threshold becomes its explicit failure state when one was observed,
    /// otherwise `stale` retaining the last good source time.
    pub fn evaluate(&mut self, now: u64)
        ensures
            *final(self) == evaluated(*old(self), now),
            match old(self).state {
                CellState::Fresh { mono, lane, wall, .. } => if since(now, mono) > stale_after_nanos(
                    lane,
                ) {
                    &&& final(self).last_failure is None
                    &&& final(self).state == match old(self).last_failure {
                        Some(s) => CellState::<V>::Unavailable { state: s, last_good: None },
                        None => CellState::<V>::Unavailable {
                            state: ObservationState::Stale,
                            last_good: Some(wall),
                        },
                    }
                } else {
                    &&& final(self).state == old(self).state
                    &&& final(self).last_failure == old(self).last_failure
                },
                _ => {
                    &&& final(self).state == old(self).state
                    &&& final(self).last_failure == old(self).last_failure
                },
            },
    {
        let expired = match &self.state {
            CellState::Fresh { mono, lane, .. } => {
                let elapsed = if now > *mono {
                    now - *mono
                } else {
                    0
                };
                elapsed > stale_after_nanos_exec(*lane)
            },
            _ => false,
        };
        if expired {
            let wall = match &self.state {
                CellState::Fresh { wall, .. } => *wall,
                _ => Timestamp { unix_nanos: 0 },
            };
            let failure = self.last_failure.take();
            self.state = match failure {
                Some(state) => CellState::Unavailable { state, last_good: None },
                None => CellState::Unavailable {
                    state: ObservationState::Stale,
                    last_good: Some(wall),
                },
            };
        }
    }

    /// The fresh value and its source time, if any.
    pub fn fresh(&self) -> (r: Option<(V, Timestamp)>)
        ensures
            r == fresh_of(*self),
            match self.state {
                CellState::Fresh { value, wall, .. } => r == Some((value, wall)),
                _ => r is None,
            },
    {
        match &self.state {
            CellState::Fresh { value, wall, .. } => Some((*value, *wall)),
            _ => None,
        }
    }

    /// The canonical observation: the fresh value with its source time, the
    /// unavailable state (a stale one with its last good time), or a source
    /// error when nothing was ever observed.
    pub fn observation(&self) -> (o: Observation<V>)
        ensures
            o == observation_of(self.state),
    {
        match &self.state {
            CellState::Empty => Observation::Unavailable {
                state: ObservationState::SourceError,
                observed_at: None,
            },
            CellState::Fresh { value, wall, .. } => Observation::Value {
                value: *value,
                observed_at: *wall,
            },
            CellState::Unavailable { state, last_good } => Observation::Unavailable {
                state: state.clone(),
                observed_at: *last_good,
            },
        }
    }

    /// The state feeding a telemetry health candidate: an unavailable state
    /// other than structural capability.
    pub fn trouble(&self) -> (r: Option<(ObservationState, Option<Timestamp>)>)
        ensures
            r == trouble_of(*self),
            match self.state {
                CellState::Unavailable { state, last_good } => if state
                    == ObservationState::UnsupportedHardware || state
                    == ObservationState::ReportedByPrimaryPartition {
                    r is None
                } else {
                    r == Some((state, last_good))
                },
                _ => r is None,
            },
    {
        match &self.state {
            CellState::Unavailable { state, last_good } => match state {
                ObservationState::UnsupportedHardware => None,
                ObservationState::ReportedByPrimaryPartition => None,
                _ => Some((state.clone(), *last_good)),
            },
            _ => None,
        }
    }
}

/// A published observation never carries a value unless the cell holds a
/// fresh one: unavailable, stale, and failed cells publish no number.
pub proof fn lemma_no_value_without_freshness<V>(state: CellState<V>)
    ensures
        !(state is Fresh) ==> observation_of(state) is Unavailable,
        observation_of(state) matches Observation::Unavailable { state: s, observed_at: Some(_) }
            ==> (state matches CellState::Unavailable { last_good: Some(_), .. }),
{
}

/// The cell holds a value read no longer than its lane's threshold before
/// `now`.
pub open spec fn read_within<V>(c: Cell<V>, now: u64) -> bool {
    match c.state {
        CellState::Fresh { mono, lane, .. } => since(now, mono) <= stale_after_nanos(lane),
        _ => false,
    }
}

/// After the freshness rule at `now`, a cell publishes a value only if it
/// held one read within its lane's threshold before `now`, and then the
/// same value with the same source time.
pub proof fn lemma_evaluated_value_is_recent<V>(c: Cell<V>, now: u64)
    ensures
        observation_of(evaluated(c, now).state) is Value ==> read_within(c, now)
            && observation_of(evaluated(c, now).state) == observation_of(c.state),
{
}

} // verus!
