//! Per-partition session state across production ticks: the fresh values
//! staged during a tick, the history windows they close into, and the
//! session peak of activity.
use vstd::prelude::*;
use crate::state::history::{HISTORY_CAPACITY, Ring, appended};

verus! {

/// The larger of a peak and a newly closed value; an absent value leaves
/// the peak as it was.
pub open spec fn raised_peak(peak: Option<u64>, value: Option<u64>) -> Option<u64> {
    match value {
        None => peak,
        Some(v) => match peak {
            Some(p) => if v > p {
                Some(v)
            } else {
                Some(p)
            },
            None => Some(v),
        },
    }
}

/// One partition's session state. Activity is in centi-percent; memory is
/// a `(used, total)` byte pair with a positive total.
pub struct PartitionSession {
    activity_ring: Ring<u64>,
    memory_ring: Ring<(u64, u64)>,
    staged_activity: Option<u64>,
    staged_memory: Option<(u64, u64)>,
    peak_activity: Option<u64>,
}

impl PartitionSession {
    pub closed spec fn wf(&self) -> bool {
        self.activity_ring.wf() && self.memory_ring.wf()
    }

    /// A well-formed session's windows hold at most `HISTORY_CAPACITY` ticks.
    pub proof fn lemma_windows_bounded(&self)
        requires
            self.wf(),
        ensures
            self.activity_history().len() <= HISTORY_CAPACITY,
            self.memory_history().len() <= HISTORY_CAPACITY,
    {
        self.activity_ring.lemma_bounded();
        self.memory_ring.lemma_bounded();
    }

    /// The activity window, oldest first.
    pub closed spec fn activity_history(&self) -> Seq<Option<u64>> {
        self.activity_ring@
    }

    /// The memory window, oldest first.
    pub closed spec fn memory_history(&self) -> Seq<Option<(u64, u64)>> {
        self.memory_ring@
    }

    /// The fresh activity accepted during the current tick, if any.
    pub closed spec fn staged_activity(&self) -> Option<u64> {
        self.staged_activity
    }

    /// The fresh memory pair accepted during the current tick, if any.
    pub closed spec fn staged_memory(&self) -> Option<(u64, u64)> {
        self.staged_memory
    }

    /// The highest activity closed into a tick this session.
    pub closed spec fn peak(&self) -> Option<u64> {
        self.peak_activity
    }

    /// A session with empty windows, nothing staged and no peak.
    pub fn new() -> (s: PartitionSession)
        ensures
            s.wf(),
            s.activity_history() == Seq::<Option<u64>>::empty(),
            s.memory_history() == Seq::<Option<(u64, u64)>>::empty(),
            s.staged_activity() is None,
            s.staged_memory() is None,
            s.peak() is None,
    {
        PartitionSession {
            activity_ring: Ring::new(),
            memory_ring: Ring::new(),
            staged_activity: None,
            staged_memory: None,
            peak_activity: None,
        }
    }

    /// Stages an activity value the freshness cell accepted; a reading it
    /// did not accept (`None`) stages nothing.
    pub fn stage_activity(&mut self, accepted: Option<u64>)
        ensures
            final(self).staged_activity() == (match accepted {
                Some(v) => Some(v),
                None => old(self).staged_activity(),
            }),
            final(self).staged_memory() == old(self).staged_memory(),
            final(self).activity_history() == old(self).activity_history(),
            final(self).memory_history() == old(self).memory_history(),
            final(self).peak() == old(self).peak(),
            final(self).wf() == old(self).wf(),
    {
        if let Some(v) = accepted {
            self.staged_activity = Some(v);
        }
    }

    /// Stages the memory pair when both halves were accepted fresh in one
    /// batch and the total is positive.
    pub fn stage_memory(&mut self, used: Option<u64>, total: Option<u64>)
        ensures
            final(self).staged_memory() == (match (used, total) {
                (Some(u), Some(t)) => if t > 0 {
                    Some((u, t))
                } else {
                    old(self).staged_memory()
                },
                _ => old(self).staged_memory(),
            }),
            final(self).staged_activity() == old(self).staged_activity(),
            final(self).activity_history() == old(self).activity_history(),
            final(self).memory_history() == old(self).memory_history(),
            final(self).peak() == old(self).peak(),
            final(self).wf() == old(self).wf(),
    {
        if let (Some(u), Some(t)) = (used, total) {
            if t > 0 {
                self.staged_memory = Some((u, t));
            }
        }
    }

    /// Closes one production tick: each window gains the staged value or an
    /// honest gap, the peak rises to the staged activity, and nothing stays
    /// staged.
    pub fn end_tick(&mut self)
        requires
            old(self).wf(),
        ensures
            final(self).wf(),
            final(self).activity_history() == appended(
                old(self).activity_history(),
                old(self).staged_activity(),
            ),
            final(self).memory_history() == appended(
                old(self).memory_history(),
                old(self).staged_memory(),
            ),
            final(self).peak() == raised_peak(old(self).peak(), old(self).staged_activity()),
            final(self).staged_activity() is None,
            final(self).staged_memory() is None,
    {
        let activity = self.staged_activity.take();
        let memory = self.staged_memory.take();
        self.activity_ring.push(activity);
        self.memory_ring.push(memory);
        if let Some(v) = activity {
            let raise = match self.peak_activity {
                Some(p) => v > p,
                None => true,
            };
            if raise {
                self.peak_activity = Some(v);
            }
        }
    }

    /// Clears the session peak (the reset-peaks command).
    pub fn reset_peak(&mut self)
        ensures
            final(self).peak() is None,
            final(self).staged_activity() == old(self).staged_activity(),
            final(self).staged_memory() == old(self).staged_memory(),
            final(self).activity_history() == old(self).activity_history(),
            final(self).memory_history() == old(self).memory_history(),
            final(self).wf() == old(self).wf(),
    {
        self.peak_activity = None;
    }

    /// The activity window, oldest first.
    pub fn activity_window(&self) -> (r: Vec<Option<u64>>)
        requires
            self.wf(),
        ensures
            r@ == self.activity_history(),
    {
        self.activity_ring.to_vec()
    }

    /// The memory window, oldest first.
    pub fn memory_window(&self) -> (r: Vec<Option<(u64, u64)>>)
        requires
            self.wf(),
        ensures
            r@ == self.memory_history(),
    {
        self.memory_ring.to_vec()
    }

    /// The values staged during the current tick: activity and memory.
    pub fn staged(&self) -> (r: (Option<u64>, Option<(u64, u64)>))
        ensures
            r.0 == self.staged_activity(),
            r.1 == self.staged_memory(),
    {
        (self.staged_activity, self.staged_memory)
    }

    /// The session peak of activity.
    pub fn peak_activity(&self) -> (r: Option<u64>)
        ensures
            r == self.peak(),
    {
        self.peak_activity
    }
}

/// The session peak is the largest activity closed since the last reset:
/// closing a tick never lowers it, and it is at least the value closed.
pub proof fn lemma_peak_is_running_max(peak: Option<u64>, value: Option<u64>)
    ensures
        peak matches Some(p) ==> (raised_peak(peak, value) matches Some(q) && q >= p),
        value matches Some(v) ==> (raised_peak(peak, value) matches Some(q) && q >= v),
        raised_peak(peak, value) is Some ==> raised_peak(peak, value) == peak
            || raised_peak(peak, value) == value,
{
}

} // verus!
