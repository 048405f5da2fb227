use inputlagscope::capture::{
    capture_source, init_packets, is_new_xinput_packet, needs_descriptor_parser,
    report_buffer_len, CaptureSetupError, CaptureSource, CaptureStats,
};
use inputlagscope::clock::{saturate_u64, timestamp_ns};
use inputlagscope::models::{DeviceInfo, ProtocolKind};

fn device(protocol: ProtocolKind, slot: Option<u32>, path: Option<&str>) -> DeviceInfo {
    DeviceInfo {
        id: "d".to_string(),
        name: "d".to_string(),
        protocol,
        vendor_id: None,
        product_id: None,
        usage_page: None,
        usage: None,
        interface_number: None,
        manufacturer: None,
        serial_number: None,
        path: path.map(ToOwned::to_owned),
        xinput_user_index: slot,
        input_report_bytes: None,
        parsed_button_count: None,
        parsed_axis_count: None,
        report_ids: Vec::new(),
    }
}

#[test]
fn capture_stats_count_drops() {
    let stats = CaptureStats::new();
    assert_eq!(stats.dropped_samples(), 0);
    stats.record_drop();
    stats.record_drop();
    assert_eq!(stats.dropped_samples(), 2);
}

#[test]
fn capture_sources() {
    assert!(matches!(
        capture_source(&device(ProtocolKind::XInput, Some(2), None)),
        Ok(CaptureSource::XInput { user_index: 2 })
    ));
    assert!(matches!(
        capture_source(&device(ProtocolKind::XInput, None, Some("p"))),
        Err(CaptureSetupError::MissingXInputIndex)
    ));
    match capture_source(&device(ProtocolKind::Switch, None, Some("/dev/hidraw3"))) {
        Ok(CaptureSource::Hid { path }) => assert_eq!(path, "/dev/hidraw3"),
        _ => panic!("expected a HID source"),
    }
    assert!(matches!(
        capture_source(&device(ProtocolKind::GenericHid, Some(1), None)),
        Err(CaptureSetupError::Unusable)
    ));
}

#[test]
fn report_buffer_is_clamped() {
    assert_eq!(report_buffer_len(None), 64);
    assert_eq!(report_buffer_len(Some(0)), 1);
    assert_eq!(report_buffer_len(Some(78)), 78);
    assert_eq!(report_buffer_len(Some(5000)), 1024);
}

#[test]
fn descriptor_parser_and_init_sequence() {
    assert!(needs_descriptor_parser(&ProtocolKind::GenericHid));
    assert!(needs_descriptor_parser(&ProtocolKind::Unknown));
    assert!(!needs_descriptor_parser(&ProtocolKind::Ds4));
    let packets = init_packets(&ProtocolKind::Switch);
    assert_eq!(packets.len(), 5);
    assert_eq!(packets[0], vec![0x80, 0x02]);
    assert_eq!(packets[3], vec![0x80, 0x04]);
    assert_eq!(packets[4], vec![0x01, 0, 0, 0, 0, 0, 0, 0, 0, 0, 0x03, 0x30]);
    assert!(init_packets(&ProtocolKind::Ds4).is_empty());
}

#[test]
fn xinput_packets_change() {
    assert!(is_new_xinput_packet(None, 0));
    assert!(!is_new_xinput_packet(Some(7), 7));
    assert!(is_new_xinput_packet(Some(7), 8));
}

#[test]
fn clock_saturates() {
    assert_eq!(saturate_u64(5), 5);
    assert_eq!(saturate_u64(u128::from(u64::MAX) + 1), u64::MAX);
    let start = std::time::Instant::now();
    let a = timestamp_ns(&start);
    let b = timestamp_ns(&start);
    assert!(b >= a);
}
