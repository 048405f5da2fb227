use inputlagscope::hid_descriptor::{decode_usage, is_axis_usage, DescriptorError, HidReportParser};
use inputlagscope::models::AxisValue;

/// The scaling the application applies to a descriptor-defined axis.
fn normalize_logical(value: i32, logical_min: i32, logical_max: i32) -> f32 {
    if logical_max <= logical_min {
        return 0.0;
    }
    if logical_min < 0 && logical_max > 0 {
        if value >= 0 {
            (value as f32 / logical_max as f32).clamp(-1.0, 1.0)
        } else {
            (value as f32 / logical_min.unsigned_abs() as f32).clamp(-1.0, 1.0)
        }
    } else {
        (((value - logical_min) as f32 / (logical_max - logical_min) as f32) * 2.0 - 1.0)
            .clamp(-1.0, 1.0)
    }
}

fn axis(value: &AxisValue) -> f32 {
    match *value {
        AxisValue::Logical { value, logical_min, logical_max } => {
            normalize_logical(value, logical_min, logical_max)
        }
        _ => panic!("descriptor axes are logical values"),
    }
}

#[test]
fn parses_report_id_buttons_and_axes() {
    let descriptor = [
        0x05, 0x01, 0x09, 0x05, 0xA1, 0x01, 0x85, 0x01, 0x05, 0x09, 0x19, 0x01, 0x29, 0x10,
        0x15, 0x00, 0x25, 0x01, 0x75, 0x01, 0x95, 0x10, 0x81, 0x02, 0x05, 0x01, 0x09, 0x30,
        0x09, 0x31, 0x09, 0x32, 0x09, 0x35, 0x15, 0x81, 0x25, 0x7F, 0x75, 0x08, 0x95, 0x04,
        0x81, 0x02, 0xC0,
    ];
    let parser = HidReportParser::from_descriptor(&descriptor).unwrap();
    let shape = parser.shape();
    assert_eq!(shape.input_report_bytes, 7);
    assert_eq!(shape.report_ids, vec![1]);
    assert_eq!(shape.button_count, 16);
    assert_eq!(shape.axis_count, 4);

    let state = parser
        .parse_input_report(&[0x01, 0x01, 0x80, 0x7F, 0x81, 0x00, 0x40])
        .unwrap();
    assert!(state.buttons[0]);
    assert!(state.buttons[15]);
    assert!((axis(&state.axes[0]) - 1.0).abs() < 0.001);
    assert!((axis(&state.axes[1]) + 1.0).abs() < 0.001);
    assert!(axis(&state.axes[2]).abs() < 0.001);
    assert!((axis(&state.axes[3]) - 0.503).abs() < 0.01);
}

#[test]
fn parses_without_report_id() {
    let descriptor = [
        0x05, 0x01, 0x09, 0x04, 0xA1, 0x01, 0x05, 0x09, 0x19, 0x01, 0x29, 0x08, 0x15, 0x00,
        0x25, 0x01, 0x75, 0x01, 0x95, 0x08, 0x81, 0x02, 0x05, 0x01, 0x09, 0x30, 0x09, 0x31,
        0x15, 0x00, 0x26, 0xFF, 0x00, 0x75, 0x08, 0x95, 0x02, 0x81, 0x02, 0xC0,
    ];
    let parser = HidReportParser::from_descriptor(&descriptor).unwrap();
    let shape = parser.shape();
    assert_eq!(shape.input_report_bytes, 3);
    assert!(shape.report_ids.is_empty());
    assert_eq!(shape.button_count, 8);
    assert_eq!(shape.axis_count, 2);

    let state = parser
        .parse_input_report(&[0b0000_0011, 0x00, 0xFF])
        .unwrap();
    assert!(state.buttons[0]);
    assert!(state.buttons[1]);
    assert!((axis(&state.axes[0]) + 1.0).abs() < 0.001);
    assert!((axis(&state.axes[1]) - 1.0).abs() < 0.001);
}

#[test]
fn descriptor_axes_keep_raw_logical_values() {
    let descriptor = [
        0x05, 0x01, 0x09, 0x04, 0xA1, 0x01, 0x05, 0x09, 0x19, 0x01, 0x29, 0x08, 0x15, 0x00,
        0x25, 0x01, 0x75, 0x01, 0x95, 0x08, 0x81, 0x02, 0x05, 0x01, 0x09, 0x30, 0x09, 0x31,
        0x15, 0x00, 0x26, 0xFF, 0x00, 0x75, 0x08, 0x95, 0x02, 0x81, 0x02, 0xC0,
    ];
    let parser = HidReportParser::from_descriptor(&descriptor).unwrap();
    let state = parser.parse_input_report(&[0x00, 0x10, 0x20]).unwrap();
    assert_eq!(
        state.axes,
        vec![
            AxisValue::Logical { value: 0x10, logical_min: 0, logical_max: 255 },
            AxisValue::Logical { value: 0x20, logical_min: 0, logical_max: 255 },
        ]
    );
    assert!(parser.parse_input_report(&[0x00, 0x10]).is_none());
}

#[test]
fn report_with_unknown_id_is_refused() {
    let descriptor = [
        0x05, 0x01, 0x09, 0x05, 0xA1, 0x01, 0x85, 0x01, 0x05, 0x09, 0x19, 0x01, 0x29, 0x08,
        0x15, 0x00, 0x25, 0x01, 0x75, 0x01, 0x95, 0x08, 0x81, 0x02, 0xC0,
    ];
    let parser = HidReportParser::from_descriptor(&descriptor).unwrap();
    assert!(parser.parse_input_report(&[0x02, 0xFF]).is_none());
    let state = parser.parse_input_report(&[0x01, 0x80]).unwrap();
    assert!(state.buttons[7]);
    assert!(!state.buttons[0]);
}

#[test]
fn truncated_long_item_is_an_error() {
    assert_eq!(
        HidReportParser::from_descriptor(&[0xFE, 0x01]).err(),
        Some(DescriptorError::TruncatedLongItem)
    );
}

#[test]
fn truncated_short_item_is_an_error() {
    assert_eq!(
        HidReportParser::from_descriptor(&[0x05, 0x01, 0x26, 0xFF]).err(),
        Some(DescriptorError::TruncatedItem)
    );
}

#[test]
fn pop_without_push_is_an_error() {
    assert_eq!(
        HidReportParser::from_descriptor(&[0xB4]).err(),
        Some(DescriptorError::PopWithoutPush)
    );
}

#[test]
fn usages_and_axis_pages() {
    let usage = decode_usage(&[0x30, 0x00, 0x01, 0x00]);
    assert_eq!(usage.page, Some(0x0001));
    assert_eq!(usage.id, 0x30);
    let short = decode_usage(&[0x31]);
    assert_eq!(short.page, None);
    assert_eq!(short.id, 0x31);
    assert!(is_axis_usage(0x01, 0x30));
    assert!(is_axis_usage(0x01, 0x35));
    assert!(is_axis_usage(0x01, 0x39));
    assert!(!is_axis_usage(0x01, 0x3A));
    assert!(is_axis_usage(0x02, 0xC4));
    assert!(!is_axis_usage(0x09, 0x30));
}

#[test]
fn report_ids_are_listed_in_ascending_order() {
    let descriptor = [
        0x05, 0x01, 0x09, 0x05, 0xA1, 0x01, 0x85, 0x03, 0x05, 0x09, 0x19, 0x01, 0x29, 0x08,
        0x15, 0x00, 0x25, 0x01, 0x75, 0x01, 0x95, 0x08, 0x81, 0x02, 0x85, 0x01, 0x19, 0x01,
        0x29, 0x08, 0x81, 0x02, 0x85, 0x03, 0x19, 0x01, 0x29, 0x08, 0x81, 0x02, 0xC0,
    ];
    let parser = HidReportParser::from_descriptor(&descriptor).unwrap();
    let shape = parser.shape();
    assert_eq!(shape.report_ids, vec![1, 3]);
    assert_eq!(shape.button_count, 24);
    assert_eq!(shape.input_report_bytes, 3);
    let state = parser.parse_input_report(&[0x03, 0x01, 0x80]).unwrap();
    assert_eq!(state.buttons.len(), 16);
    assert!(state.buttons[0]);
    assert!(state.buttons[15]);
    let other = parser.parse_input_report(&[0x01, 0xFF, 0x00]).unwrap();
    assert_eq!(other.buttons, vec![true; 8]);
}
