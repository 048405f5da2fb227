use inputlagscope::models::{DeviceInfo, ProtocolKind};
use inputlagscope::polling::{
    intervals_of, is_capture_error, push_sample_timestamp, split_stalls, stall_threshold,
    summarize_poll_intervals, vid_pid, PollStallNs,
};

fn device(vendor_id: Option<u16>, product_id: Option<u16>) -> DeviceInfo {
    DeviceInfo {
        id: "hid:1".to_string(),
        name: "Pad".to_string(),
        protocol: ProtocolKind::GenericHid,
        vendor_id,
        product_id,
        usage_page: None,
        usage: None,
        interface_number: None,
        manufacturer: None,
        serial_number: None,
        path: None,
        xinput_user_index: None,
        input_report_bytes: None,
        parsed_button_count: None,
        parsed_axis_count: None,
        report_ids: Vec::new(),
    }
}

#[test]
fn capture_error_reports_are_recognised() {
    assert!(is_capture_error(ProtocolKind::Unknown, b"capture error: device gone"));
    assert!(!is_capture_error(ProtocolKind::GenericHid, b"capture error: device gone"));
    assert!(!is_capture_error(ProtocolKind::Unknown, b"capture erro"));
    assert!(!is_capture_error(ProtocolKind::Unknown, &[1, 2, 3]));
}

#[test]
fn timestamps_skip_repeats_and_stop_on_errors() {
    let mut ts = Vec::new();
    assert!(push_sample_timestamp(ProtocolKind::XInput, &[1], 100, &mut ts).is_ok());
    assert!(push_sample_timestamp(ProtocolKind::XInput, &[2], 100, &mut ts).is_ok());
    assert!(push_sample_timestamp(ProtocolKind::XInput, &[3], 250, &mut ts).is_ok());
    assert_eq!(ts, vec![100, 250]);
    let err = push_sample_timestamp(ProtocolKind::Unknown, b"capture error: x", 300, &mut ts).unwrap_err();
    assert_eq!(err.report, b"capture error: x".to_vec());
    assert_eq!(ts, vec![100, 250]);
}

#[test]
fn intervals_leave_out_long_gaps() {
    let ts = vec![0, 1_000_000, 2_000_000, 60_000_000, 61_000_000];
    assert_eq!(intervals_of(&ts), vec![1_000_000, 1_000_000, 1_000_000]);
    assert!(intervals_of(&[5]).is_empty());
    assert_eq!(intervals_of(&[10, 4]), vec![0]);
}

#[test]
fn stall_threshold_is_four_medians_at_least_one_millisecond() {
    assert_eq!(stall_threshold(0), None);
    assert_eq!(stall_threshold(125_000), Some(1_000_000));
    assert_eq!(stall_threshold(1_000_000), Some(4_000_000));
}

#[test]
fn summary_splits_stalls_from_steady_polling() {
    // 1 ms polling with one 10 ms stall and one gap of 60 ms.
    let ts = vec![0, 1_000_000, 2_000_000, 3_000_000, 13_000_000, 14_000_000, 74_000_000];
    let s = summarize_poll_intervals(&ts);
    assert_eq!(s.intervals_ns, vec![1_000_000, 1_000_000, 1_000_000, 10_000_000, 1_000_000]);
    assert_eq!(s.sorted_ns, vec![1_000_000, 1_000_000, 1_000_000, 1_000_000, 10_000_000]);
    assert_eq!(s.median_ns, Some(1_000_000));
    assert_eq!(s.p95_ns, Some(10_000_000));
    assert_eq!(s.max_ns, Some(10_000_000));
    assert_eq!(s.stall_threshold_ns, Some(4_000_000));
    assert_eq!(s.stalls, vec![PollStallNs { interval_ns: 10_000_000, at_ns: 13_000_000 }]);
    assert_eq!(s.steady_ns, vec![1_000_000, 1_000_000, 1_000_000, 1_000_000]);
    assert_eq!(s.stalls.len() + s.steady_ns.len(), s.intervals_ns.len());
}

#[test]
fn summary_without_intervals() {
    let s = summarize_poll_intervals(&[42]);
    assert!(s.intervals_ns.is_empty());
    assert_eq!(s.median_ns, None);
    assert_eq!(s.stall_threshold_ns, None);
    assert!(s.stalls.is_empty() && s.steady_ns.is_empty());
}

#[test]
fn repeated_times_give_no_threshold() {
    let s = summarize_poll_intervals(&[5, 5, 5]);
    assert_eq!(s.intervals_ns, vec![0, 0]);
    assert_eq!(s.median_ns, Some(0));
    assert_eq!(s.stall_threshold_ns, None);
}

#[test]
fn split_keeps_order() {
    let ts = vec![0, 5_000_000, 6_000_000, 20_000_000];
    let (stalls, steady) = split_stalls(&ts, 2_000_000);
    assert_eq!(stalls, vec![
        PollStallNs { interval_ns: 5_000_000, at_ns: 5_000_000 },
        PollStallNs { interval_ns: 14_000_000, at_ns: 20_000_000 },
    ]);
    assert_eq!(steady, vec![1_000_000]);
}

#[test]
fn vid_pid_text() {
    assert_eq!(vid_pid(&device(Some(0x054C), Some(0x0ce6))), Some("054C:0CE6".to_string()));
    assert_eq!(vid_pid(&device(Some(1), None)), None);
}
