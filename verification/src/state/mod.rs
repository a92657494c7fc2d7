//! Deterministic product state: freshness, health priority, and bounded
//! histories. None of it performs I/O.
use vstd::prelude::*;

pub mod cell;
pub mod health;
pub mod history;
pub mod topology;
pub mod session;
pub mod reducer;
pub mod daily;

verus! {

/// Which source produced a batch; kernel observations are authoritative.
#[derive(Debug, Clone, Copy, PartialEq, Eq, Structural)]
pub enum Origin {
    Kernel,
    AmdSmi,
}

/// Which collection lane produced a batch; fixes the staleness cadence.
#[derive(Debug, Clone, Copy, PartialEq, Eq, Structural)]
pub enum Lane {
    /// 250 ms kernel fast collection.
    Fast,
    /// 1 s slow health collection.
    Slow,
}

/// Collection cadence of each lane, in milliseconds.
pub open spec fn cadence_ms(lane: Lane) -> nat {
    match lane {
        Lane::Fast => 250,
        Lane::Slow => 1000,
    }
}

impl Lane {
    /// Freshness threshold in milliseconds: `max(1 s, 3 × cadence)`.
    pub fn stale_after(self) -> (ms: u64)
        ensures
            ms == (if 3 * cadence_ms(self) > 1000 {
                3 * cadence_ms(self)
            } else {
                1000
            }),
    {
        match self {
            Lane::Fast => 1000,
            Lane::Slow => 3000,
        }
    }
}

} // verus!
