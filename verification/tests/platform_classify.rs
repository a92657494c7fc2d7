use gpuflo::model::{MemoryPool, Platform, PlatformId};
use gpuflo::platform::{classify, MemoryEvidence};

#[test]
fn known_device_wins_over_conflicting_heap_evidence() {
    // Strix Halo reports discrete-looking heap evidence but must still
    // classify as unified/GTT via the recognition table.
    let platform = classify("1586", MemoryEvidence::Dedicated);
    assert_eq!(platform.id, PlatformId::STRIX_HALO);
    assert_eq!(platform.memory_pool, MemoryPool::GTT);
}

#[test]
fn unrecognized_device_falls_back_to_heap_evidence() {
    assert_eq!(
        classify("15bf", MemoryEvidence::Unified),
        Platform {
            id: PlatformId::GENERIC_APU,
            memory_pool: MemoryPool::GTT,
        }
    );
    assert_eq!(
        classify("740f", MemoryEvidence::Dedicated),
        Platform {
            id: PlatformId::GENERIC_DISCRETE,
            memory_pool: MemoryPool::VRAM,
        }
    );
}

#[test]
fn inconclusive_evidence_classifies_unknown() {
    assert_eq!(
        classify("0000", MemoryEvidence::Unknown),
        Platform::default()
    );
}

#[test]
fn no_platform_reports_npu_yet() {
    assert!(!classify("1586", MemoryEvidence::Unified).has_npu());
    assert!(!Platform::default().has_npu());
}

#[test]
fn known_device_ignores_every_kind_of_evidence() {
    for evidence in [MemoryEvidence::Unified, MemoryEvidence::Dedicated, MemoryEvidence::Unknown] {
        assert_eq!(classify("1586", evidence).id, PlatformId::STRIX_HALO);
    }
    assert_eq!(Platform::default().id, PlatformId::UNKNOWN);
    assert_eq!(Platform::default().memory_pool, MemoryPool::VRAM);
}
