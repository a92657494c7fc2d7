use gpuflo::model::{PartitionId, PhysicalGpuId, Timestamp};
use gpuflo::monitor::{topology_notices, MonitorError};
use gpuflo::state::topology::{plan_topology, StateEffect, TopologyEntry};

fn entry(id: &str, partitions: &[&str]) -> TopologyEntry {
    TopologyEntry {
        id: PhysicalGpuId::new(id),
        partitions: partitions.iter().map(|p| PartitionId::new(p)).collect(),
    }
}

fn describe(effects: &[StateEffect]) -> Vec<String> {
    effects
        .iter()
        .map(|e| match e {
            StateEffect::GpuAdded(id) => format!("added {}", id.as_str()),
            StateEffect::GpuRemoved(id) => format!("removed {}", id.as_str()),
            StateEffect::PartitionConfigurationChanged(id) => format!("changed {}", id.as_str()),
        })
        .collect()
}

#[test]
fn first_discovery_adds_every_gpu() {
    let plan = plan_topology(&Vec::new(), &vec![entry("gpu-a", &["gpu-a-xcp-0"]), entry("gpu-b", &[])]);
    assert_eq!(plan.carried, vec![None, None]);
    assert_eq!(describe(&plan.effects), vec!["added gpu-a", "added gpu-b"]);
}

#[test]
fn removal_and_return_produce_notices() {
    let both = vec![entry("gpu-a", &["gpu-a-xcp-0"]), entry("gpu-b", &["gpu-b-xcp-0"])];
    let only_a = vec![entry("gpu-a", &["gpu-a-xcp-0"])];
    let plan = plan_topology(&both, &only_a);
    assert_eq!(plan.carried, vec![Some(0)]);
    assert_eq!(describe(&plan.effects), vec!["removed gpu-b"]);
    let plan = plan_topology(&only_a, &both);
    assert_eq!(plan.carried, vec![Some(0), None]);
    assert_eq!(describe(&plan.effects), vec!["added gpu-b"]);
}

#[test]
fn partition_identity_change_is_fatal() {
    let before = vec![entry("gpu-a", &["gpu-a-xcp-0"])];
    let after = vec![entry("gpu-a", &["gpu-a-xcp-0", "gpu-a-xcp-1"])];
    let plan = plan_topology(&before, &after);
    assert_eq!(plan.carried, vec![Some(0)]);
    assert_eq!(describe(&plan.effects), vec!["changed gpu-a"]);
}

#[test]
fn unchanged_topology_announces_nothing() {
    let gpus = vec![entry("gpu-a", &["x"]), entry("gpu-b", &["y"])];
    let again = vec![entry("gpu-a", &["x"]), entry("gpu-b", &["y"])];
    let plan = plan_topology(&gpus, &again);
    assert_eq!(plan.carried, vec![Some(0), Some(1)]);
    assert!(plan.effects.is_empty());
}

#[test]
fn reordered_discovery_keeps_each_gpus_state() {
    let gpus = vec![entry("gpu-a", &[]), entry("gpu-b", &[])];
    let swapped = vec![entry("gpu-b", &[]), entry("gpu-a", &[])];
    let plan = plan_topology(&gpus, &swapped);
    assert_eq!(plan.carried, vec![Some(1), Some(0)]);
    assert!(plan.effects.is_empty());
}

#[test]
fn effects_are_exactly_the_set_differences() {
    let before = vec![entry("gpu-a", &["a0"]), entry("gpu-b", &["b0"])];
    let after = vec![entry("gpu-b", &["b0", "b1"]), entry("gpu-c", &["c0"])];
    let plan = plan_topology(&before, &after);
    assert_eq!(plan.carried, vec![Some(1), None]);
    assert_eq!(describe(&plan.effects), vec!["changed gpu-b", "added gpu-c", "removed gpu-a"]);
}

#[test]
fn notices_follow_effects_and_a_partition_change_is_fatal() {
    let now = Timestamp { unix_nanos: 5 };
    let before = vec![entry("gpu-a", &["a0"]), entry("gpu-b", &["b0"])];
    let after = vec![entry("gpu-a", &["a0"]), entry("gpu-c", &["c0"])];
    let plan = plan_topology(&before, &after);
    let notices = topology_notices(&plan.effects, true, now).unwrap();
    let texts: Vec<&str> = notices.iter().map(|n| n.message.as_str()).collect();
    assert_eq!(texts, vec!["GPU connected: gpu-c", "GPU disconnected: gpu-b"]);
    assert!(notices.iter().all(|n| n.occurred_at == now));
    let quiet = topology_notices(&plan.effects, false, now).unwrap();
    assert_eq!(quiet.len(), 1);
    let changed = plan_topology(&before, &vec![entry("gpu-a", &["a0", "a1"])]);
    assert_eq!(topology_notices(&changed.effects, true, now).unwrap_err(), MonitorError::PartitionConfigurationChanged);
}
