use gpuflo::model::{
    state_phrase, HealthCategory, MemoryPool, Observation, ObservationState, PartitionId, PciBdf,
    PhysicalGpuId, Timestamp,
};

#[test]
fn pci_bdf_validates_and_lowercases() {
    assert_eq!(
        PciBdf::parse("0000:41:00.0").unwrap().as_str(),
        "0000:41:00.0"
    );
    assert_eq!(
        PciBdf::parse("0000:C1:00.0").unwrap().as_str(),
        "0000:c1:00.0"
    );
    assert!(PciBdf::parse("41:00.0").is_err());
    assert!(PciBdf::parse("0000:zz:00.0").is_err());
    assert!(PciBdf::parse("0000:41:00:0").is_err());
}

#[test]
fn canonical_phrases_match_contract() {
    assert_eq!(
        state_phrase(&ObservationState::UNSUPPORTED_HARDWARE),
        "unsupported hardware"
    );
    assert_eq!(
        state_phrase(&ObservationState::REPORTED_BY_PRIMARY_PARTITION),
        "reported by primary partition"
    );
    assert_eq!(state_phrase(&ObservationState::new("mystery")), "mystery");
}

#[test]
fn every_canonical_state_has_its_phrase() {
    assert_eq!(state_phrase(&ObservationState::UNSUPPORTED_DRIVER_VERSION), "unsupported driver version");
    assert_eq!(state_phrase(&ObservationState::PERMISSION_DENIED), "permission denied");
    assert_eq!(state_phrase(&ObservationState::ASLEEP), "asleep");
    assert_eq!(state_phrase(&ObservationState::STALE), "stale");
    assert_eq!(state_phrase(&ObservationState::SOURCE_ERROR), "source error");
}

#[test]
fn open_strings_round_trip_through_their_enums() {
    assert_eq!(ObservationState::new("asleep"), ObservationState::ASLEEP);
    assert_eq!(ObservationState::new("asleep").as_str(), "asleep");
    assert_eq!(ObservationState::new("later_state").as_str(), "later_state");
    assert_eq!(HealthCategory::new("fault"), HealthCategory::FAULT);
    assert_eq!(HealthCategory::new("none"), HealthCategory::NONE);
    assert_eq!(HealthCategory::new("future").as_str(), "future");
    assert_eq!(MemoryPool::new("gtt"), MemoryPool::GTT);
    assert_eq!(MemoryPool::new("hbm3").as_str(), "hbm3");
}

#[test]
fn bdf_rejects_wrong_lengths_and_separators() {
    assert!(PciBdf::parse("").is_err());
    assert!(PciBdf::parse("0000:41:00.00").is_err());
    assert!(PciBdf::parse("0000-41:00.0").is_err());
    assert!(PciBdf::parse("0000:41:00.g").is_err());
    let error = PciBdf::parse("bogus").unwrap_err();
    assert_eq!(error.text(), "bogus");
}

#[test]
fn bdf_from_parts_formats_fixed_width_lower_hex() {
    assert_eq!(PciBdf::from_parts(2, 0xC1, 3, 1).unwrap().as_str(), "0002:c1:03.1");
    assert!(PciBdf::from_parts(0x1_0000, 0, 0, 0).is_err());
    assert!(PciBdf::from_parts(0, 0x100, 0, 0).is_err());
    assert!(PciBdf::from_parts(0, 0, 0x100, 0).is_err());
    assert!(PciBdf::from_parts(0, 0, 0, 0x10).is_err());
}

#[test]
fn identities_keep_their_text() {
    assert_eq!(PhysicalGpuId::new("gpu-73fbc1").as_str(), "gpu-73fbc1");
    assert_eq!(PartitionId::new("gpu-a-xcp-1").as_str(), "gpu-a-xcp-1");
    assert!(PhysicalGpuId::new("a").same(&PhysicalGpuId::new("a")));
    assert!(!PhysicalGpuId::new("a").same(&PhysicalGpuId::new("b")));
}

#[test]
fn observations_expose_exactly_their_form() {
    let t = Timestamp::from_unix_nanos(1_000);
    let value = Observation::value(5u64, t);
    assert_eq!(value.current(), Some(&5));
    assert_eq!(value.state(), None);
    assert_eq!(value.observed_at(), Some(t));
    let stale: Observation<u64> = Observation::stale(t);
    assert_eq!(stale.current(), None);
    assert_eq!(stale.state(), Some(&ObservationState::STALE));
    assert_eq!(stale.observed_at(), Some(t));
    let asleep: Observation<u64> = Observation::unavailable(ObservationState::ASLEEP);
    assert_eq!(asleep.current(), None);
    assert_eq!(asleep.state(), Some(&ObservationState::ASLEEP));
    assert_eq!(asleep.observed_at(), None);
}
