use vector_segment::buffer_telemetry::{
    buffer_telemetry_snapshot, BufferDeviceTelemetry, BufferFreeOutcome, BufferLabelTelemetry,
    BufferTelemetryLedger, BufferTelemetrySnapshot, BufferType, Device,
};

fn device_entry(snapshot: &BufferTelemetrySnapshot, device_id: u64) -> &BufferDeviceTelemetry {
    snapshot
        .devices
        .iter()
        .find(|device| device.device_id == device_id)
        .unwrap()
}

fn label_entry<'a>(device: &'a BufferDeviceTelemetry, label: &str) -> &'a BufferLabelTelemetry {
    device
        .by_label
        .iter()
        .find(|entry| entry.label == label && entry.buffer_type == BufferType::Storage)
        .unwrap()
}

#[test]
fn tracks_current_peak_type_and_label_bytes() {
    let mut ledger = BufferTelemetryLedger::new();
    let device_id = u64::MAX - 17;
    ledger.record_allocation(
        device_id,
        "test-device",
        3,
        "vectors",
        BufferType::Storage,
        100,
        128,
    );
    ledger.record_allocation(
        device_id,
        "test-device",
        3,
        "vectors",
        BufferType::Storage,
        50,
        64,
    );
    ledger.record_buffer_free(device_id, "vectors", BufferType::Storage, 100, 128);

    let snapshot = buffer_telemetry_snapshot(&ledger);
    let device = device_entry(&snapshot, device_id);
    assert_eq!(device.device_name, "test-device");
    assert_eq!(device.queue_index, 3);
    assert_eq!(device.total.current_logical_bytes, 50);
    assert_eq!(device.total.current_allocation_bytes, 64);
    assert_eq!(device.total.peak_logical_bytes, 150);
    assert_eq!(device.total.peak_allocation_bytes, 192);
    assert_eq!(device.total.live_buffers, 1);
    assert_eq!(device.total.peak_live_buffers, 2);
    assert_eq!(device.total.allocation_count, 2);
    assert_eq!(device.total.free_count, 1);
    assert_eq!(device.by_type.len(), 1);
    assert_eq!(device.by_label.len(), 1);

    ledger.record_buffer_free(device_id, "vectors", BufferType::Storage, 50, 64);
    let snapshot = buffer_telemetry_snapshot(&ledger);
    let device = device_entry(&snapshot, device_id);
    assert_eq!(device.total.current_logical_bytes, 0);
    assert_eq!(device.total.current_allocation_bytes, 0);
    assert_eq!(device.total.live_buffers, 0);
    assert_eq!(device.total.free_count, 2);
    assert_eq!(device.total.peak_allocation_bytes, 192);
}

#[test]
fn real_buffer_lifecycle_updates_ledger() {
    let mut ledger = BufferTelemetryLedger::new();
    let device = Device {
        telemetry_id: 5,
        name: "device".to_owned(),
        telemetry_queue_index: 0,
    };
    let device_id = device.telemetry_id;
    let label = "buffer-telemetry-real-lifecycle";

    let allocation_size: u64 = 4352;
    assert!(allocation_size >= 4096);
    ledger.record_buffer_allocation(
        &device,
        label,
        BufferType::Storage,
        4096,
        allocation_size as usize,
    );

    let snapshot = buffer_telemetry_snapshot(&ledger);
    let label_stats = &label_entry(device_entry(&snapshot, device_id), label).stats;
    assert_eq!(label_stats.current_logical_bytes, 4096);
    assert_eq!(label_stats.current_allocation_bytes, allocation_size);
    assert_eq!(label_stats.live_buffers, 1);
    assert_eq!(label_stats.allocation_count, 1);
    assert_eq!(label_stats.free_count, 0);

    ledger.record_buffer_free(
        device_id,
        label,
        BufferType::Storage,
        4096,
        allocation_size as usize,
    );
    let snapshot = buffer_telemetry_snapshot(&ledger);
    let label_stats = &label_entry(device_entry(&snapshot, device_id), label).stats;
    assert_eq!(label_stats.current_logical_bytes, 0);
    assert_eq!(label_stats.current_allocation_bytes, 0);
    assert_eq!(label_stats.live_buffers, 0);
    assert_eq!(label_stats.allocation_count, 1);
    assert_eq!(label_stats.free_count, 1);
    assert_eq!(label_stats.peak_logical_bytes, 4096);
    assert_eq!(label_stats.peak_allocation_bytes, allocation_size);
}

#[test]
fn devices_and_labels_are_listed_in_order() {
    let mut ledger = BufferTelemetryLedger::new();
    for (id, label) in [(9, "b"), (2, "z"), (2, "a")] {
        ledger.record_allocation(id, "device", 0, label, BufferType::Uniform, 1, 1);
    }
    let snapshot = buffer_telemetry_snapshot(&ledger);
    let ids: Vec<u64> = snapshot.devices.iter().map(|d| d.device_id).collect();
    assert_eq!(ids, vec![2, 9]);
    let labels: Vec<String> = snapshot.devices[0]
        .by_label
        .iter()
        .map(|entry| entry.label.clone())
        .collect();
    assert_eq!(labels, vec!["a".to_owned(), "z".to_owned()]);
}

#[test]
fn releases_of_unknown_buffers_are_told_apart() {
    let mut ledger = BufferTelemetryLedger::new();
    assert_eq!(
        ledger.record_buffer_free(1, "a", BufferType::Storage, 1, 1),
        BufferFreeOutcome::MissingDevice
    );
    assert!(!ledger.record_allocation(1, "device", 0, "a", BufferType::Storage, 10, 16));
    assert!(ledger.record_allocation(1, "other", 0, "a", BufferType::Storage, 10, 16));
    assert!(ledger.record_allocation(1, "device", 3, "a", BufferType::Storage, 10, 16));
    assert_eq!(
        ledger.record_buffer_free(1, "a", BufferType::Uniform, 1, 1),
        BufferFreeOutcome::MissingType {
            total_underflow: false
        }
    );
    assert_eq!(
        ledger.record_buffer_free(1, "b", BufferType::Storage, 1, 1),
        BufferFreeOutcome::MissingLabel {
            total_underflow: false,
            type_underflow: false
        }
    );
    assert_eq!(
        ledger.record_buffer_free(1, "a", BufferType::Storage, 29, 1),
        BufferFreeOutcome::Recorded {
            total_underflow: true,
            type_underflow: false,
            label_underflow: false
        }
    );
    let snapshot = buffer_telemetry_snapshot(&ledger);
    let device = device_entry(&snapshot, 1);
    assert_eq!(device.device_name, "device");
    assert_eq!(device.total.current_logical_bytes, 0);
    assert_eq!(device.total.live_buffers, 0);
    assert_eq!(label_entry(device, "a").stats.current_logical_bytes, 1);
    assert_eq!(label_entry(device, "a").stats.live_buffers, 2);
}

#[test]
fn counters_do_not_overflow() {
    let mut ledger = BufferTelemetryLedger::new();
    assert!(ledger.can_record_allocation(1, "a", BufferType::Storage, u64::MAX, 1));
    ledger.record_allocation(1, "device", 0, "a", BufferType::Storage, u64::MAX, 1);
    assert!(!ledger.can_record_allocation(1, "b", BufferType::Uniform, 1, 1));
    assert!(ledger.can_record_allocation(1, "b", BufferType::Uniform, 0, 1));
    assert!(ledger.can_record_free(1, "a", BufferType::Storage));
    assert!(ledger.can_record_free(2, "a", BufferType::Storage));
}
