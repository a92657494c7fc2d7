//! Source-backed health candidates and their priority.
//!
//! Health is one highest-priority factual sentence per physical GPU, never a
//! score. Busy activity and high memory occupancy never produce a candidate.
use vstd::prelude::*;
use crate::model::{Health, HealthCategory, Timestamp};

verus! {

/// One active source-backed condition competing for the health sentence.
#[derive(Debug, PartialEq)]
pub struct HealthCandidate {
    pub category: HealthCategory,
    pub message: String,
    pub observed_at: Timestamp,
}

impl Clone for HealthCandidate {
    fn clone(&self) -> (r: Self)
        ensures
            r == *self,
    {
        HealthCandidate {
            category: self.category.clone(),
            message: self.message.clone(),
            observed_at: self.observed_at,
        }
    }
}

/// Canonical priority rank; lower wins. Unknown categories rank behind every
/// known active condition but ahead of `none`, so they are never mistaken
/// for normal health.
pub open spec fn category_rank(category: HealthCategory) -> nat {
    match category {
        HealthCategory::Fault => 0,
        HealthCategory::Throttle => 1,
        HealthCategory::Limit => 2,
        HealthCategory::Telemetry => 3,
        HealthCategory::MemoryPressure => 4,
        HealthCategory::Other(_) => 5,
        HealthCategory::Normal => 6,
    }
}

/// The priority rank of a category.
pub fn rank(category: &HealthCategory) -> (r: u8)
    ensures
        r == category_rank(*category),
{
    match category {
        HealthCategory::Fault => 0,
        HealthCategory::Throttle => 1,
        HealthCategory::Limit => 2,
        HealthCategory::Telemetry => 3,
        HealthCategory::MemoryPressure => 4,
        HealthCategory::Other(_) => 5,
        HealthCategory::Normal => 6,
    }
}

/// `a` strictly outranks `b`: a better category, or the same category
/// observed later.
pub open spec fn outranks(a: HealthCandidate, b: HealthCandidate) -> bool {
    category_rank(a.category) < category_rank(b.category) || (category_rank(a.category)
        == category_rank(b.category) && a.observed_at.unix_nanos > b.observed_at.unix_nanos)
}

/// `s[i]` is the winner: nothing outranks it, and it strictly outranks every
/// earlier candidate (the first of equally ranked winners).
pub open spec fn is_winner(s: Seq<HealthCandidate>, i: int) -> bool {
    &&& 0 <= i < s.len()
    &&& forall|j: int| 0 <= j < s.len() ==> !outranks(#[trigger] s[j], s[i])
    &&& forall|j: int| 0 <= j < i ==> outranks(s[i], #[trigger] s[j])
}

/// The sentence reported when no condition is active.
pub open spec fn normal_message() -> Seq<char> {
    "no active limits or faults"@
}

/// Selects the highest-priority candidate; ties resolve to the newest source
/// time, then to the earliest listed. With no candidates the factual normal
/// sentence is produced at `assembled_at`.
pub fn select(candidates: &Vec<HealthCandidate>, assembled_at: Timestamp) -> (h: Health)
    ensures
        candidates@.len() == 0 ==> h.category == HealthCategory::Normal && h.message@
            == normal_message() && h.observed_at == assembled_at,
        candidates@.len() > 0 ==> exists|i: int|
            is_winner(candidates@, i) && h.category == (#[trigger] candidates@[i]).category
                && h.message == candidates@[i].message && h.observed_at
                == candidates@[i].observed_at,
{
    if candidates.len() == 0 {
        return Health {
            category: HealthCategory::Normal,
            message: "no active limits or faults".to_owned(),
            observed_at: assembled_at,
        };
    }
    let mut best: usize = 0;
    let mut i: usize = 1;
    while i < candidates.len()
        invariant
            1 <= i <= candidates@.len(),
            best < i,
            forall|j: int| 0 <= j < i ==> !outranks(#[trigger] candidates@[j], candidates@[best as int]),
            forall|j: int| 0 <= j < best ==> outranks(candidates@[best as int], #[trigger] candidates@[j]),
        decreases candidates.len() - i,
    {
        let a = rank(&candidates[i].category);
        let b = rank(&candidates[best].category);
        if a < b || (a == b && candidates[i].observed_at.unix_nanos
            > candidates[best].observed_at.unix_nanos) {
            proof {
                let old_best = best as int;
                assert forall|j: int| 0 <= j < i implies outranks(
                    candidates@[i as int],
                    #[trigger] candidates@[j],
                ) by {
                    assert(!outranks(candidates@[j], candidates@[old_best]));
                }
            }
            best = i;
        }
        i = i + 1;
    }
    let c = &candidates[best];
    Health { category: c.category.clone(), message: c.message.clone(), observed_at: c.observed_at }
}

/// Priority is total: whatever the candidates, a winner outranks or ties
/// every other candidate, and a higher-priority category always beats a
/// lower one regardless of time.
pub proof fn lemma_priority_beats_time(a: HealthCandidate, b: HealthCandidate)
    requires
        category_rank(a.category) < category_rank(b.category),
    ensures
        outranks(a, b),
        !outranks(b, a),
{
}

} // verus!
