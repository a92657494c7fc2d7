//! Platform classification: what kind of AMD GPU is this?
//!
//! Every physical GPU is classified once, at discovery, from its PCI device
//! ID plus whatever KFD heap-type evidence the source gathered. Recognized
//! devices win over heap evidence; everything else falls back to it.
use vstd::prelude::*;
use crate::model::{MemoryPool, Platform, PlatformId};
use crate::text::same_text;

verus! {

/// Physical-memory evidence a source can offer about a GPU's memory model.
#[derive(Debug, Clone, Copy, PartialEq, Eq, Structural)]
pub enum MemoryEvidence {
    /// KFD-reported heap types indicate unified, GTT-backed memory.
    Unified,
    /// KFD-reported heap types indicate dedicated VRAM.
    Dedicated,
    /// No conclusive heap-type evidence.
    Unknown,
}

/// Devices whose heap-type evidence alone would misclassify them, by
/// lowercase hex PCI device ID (no `0x` prefix).
pub open spec fn known_device(device_key: Seq<char>) -> Option<Platform> {
    if device_key == "1586"@ {
        Some(Platform { id: PlatformId::StrixHalo, memory_pool: MemoryPool::Gtt })
    } else {
        None
    }
}

/// The classification of a device from its ID and heap evidence.
pub open spec fn classification(device_key: Seq<char>, evidence: MemoryEvidence) -> Platform {
    match known_device(device_key) {
        Some(p) => p,
        None => match evidence {
            MemoryEvidence::Unified => Platform {
                id: PlatformId::GenericApu,
                memory_pool: MemoryPool::Gtt,
            },
            MemoryEvidence::Dedicated => Platform {
                id: PlatformId::GenericDiscrete,
                memory_pool: MemoryPool::Vram,
            },
            MemoryEvidence::Unknown => Platform {
                id: PlatformId::Unknown,
                memory_pool: MemoryPool::Vram,
            },
        },
    }
}

/// Classifies one physical GPU; it always resolves to a platform.
pub fn classify(device_key: &str, evidence: MemoryEvidence) -> (p: Platform)
    ensures
        p == classification(device_key@, evidence),
{
    if same_text(device_key, "1586") {
        return Platform { id: PlatformId::StrixHalo, memory_pool: MemoryPool::Gtt };
    }
    match evidence {
        MemoryEvidence::Unified => Platform {
            id: PlatformId::GenericApu,
            memory_pool: MemoryPool::Gtt,
        },
        MemoryEvidence::Dedicated => Platform {
            id: PlatformId::GenericDiscrete,
            memory_pool: MemoryPool::Vram,
        },
        MemoryEvidence::Unknown => Platform::default(),
    }
}

/// A recognized device's classification does not depend on heap evidence.
pub proof fn lemma_known_device_wins(device_key: Seq<char>, a: MemoryEvidence, b: MemoryEvidence)
    requires
        known_device(device_key) is Some,
    ensures
        classification(device_key, a) == classification(device_key, b),
{
}

} // verus!
