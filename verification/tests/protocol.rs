use inputlagscope::models::{AxisValue, ProtocolKind};
use inputlagscope::protocol::{
    classify_vid_pid, parse_ds4, parse_dualsense, parse_generic, parse_report_with_descriptor,
    parse_switch,
};

fn bits(byte: u8) -> Vec<bool> {
    (0..8).map(|b| byte & (1 << b) != 0).collect()
}

#[test]
fn vid_pid_classification() {
    assert_eq!(classify_vid_pid(0x054C, 0x05C4), ProtocolKind::Ds4);
    assert_eq!(classify_vid_pid(0x054C, 0x09CC), ProtocolKind::Ds4);
    assert_eq!(classify_vid_pid(0x054C, 0x0CE6), ProtocolKind::DualSense);
    assert_eq!(classify_vid_pid(0x057E, 0x2009), ProtocolKind::Switch);
    assert_eq!(classify_vid_pid(0x045E, 0x028E), ProtocolKind::GenericHid);
}

#[test]
fn ds4_report() {
    let raw = [0x01, 0, 64, 128, 255, 0x23, 0xA5, 0x03, 0, 0];
    let d = parse_ds4(&raw).unwrap();
    let mut expected = vec![false, true, true, false];
    expected.extend([false, true, false, false]);
    expected.extend(bits(0xA5));
    expected.extend([true, true]);
    assert_eq!(d.buttons, expected);
    assert_eq!(
        d.axes,
        vec![
            AxisValue::Centered8(0),
            AxisValue::Centered8(64),
            AxisValue::Centered8(128),
            AxisValue::Centered8(255)
        ]
    );
    assert!(parse_ds4(&raw[..9]).is_none());
    assert!(parse_ds4(&[0x11, 0, 0, 0, 0, 0, 0, 0, 0, 0]).is_none());
}

#[test]
fn dualsense_report() {
    let raw = [0x01, 1, 2, 3, 4, 0, 0, 0, 0x08, 0xFF, 0x01, 0];
    let d = parse_dualsense(&raw).unwrap();
    assert_eq!(d.buttons.len(), 24);
    assert_eq!(&d.buttons[..4], &[false, false, false, false]);
    assert_eq!(&d.buttons[4..8], &[false, false, false, false]);
    assert!(d.buttons[8..16].iter().all(|b| *b));
    assert!(d.buttons[16]);
    assert_eq!(d.axes[3], AxisValue::Centered8(4));
}

#[test]
fn switch_report_unpacks_twelve_bit_sticks() {
    let raw = [0x30, 0, 0, 0x01, 0x00, 0x80, 0x34, 0x12, 0xAB, 0xFF, 0x0F, 0x00, 0];
    let d = parse_switch(&raw).unwrap();
    assert_eq!(d.buttons.len(), 24);
    assert!(d.buttons[0]);
    assert!(d.buttons[23]);
    assert_eq!(
        d.axes,
        vec![
            AxisValue::Centered12(0x234),
            AxisValue::Centered12(0xAB1),
            AxisValue::Centered12(0xFFF),
            AxisValue::Centered12(0x000),
        ]
    );
}

#[test]
fn generic_reports_skip_a_report_id() {
    let d = parse_generic(&[0x05, 0x81]);
    assert_eq!(d.buttons, bits(0x81));
    assert_eq!(d.axes, vec![AxisValue::Centered8(0x81)]);
    let z = parse_generic(&[0x00, 0x02]);
    assert_eq!(z.buttons.len(), 16);
    assert_eq!(z.axes, vec![AxisValue::Centered8(0), AxisValue::Centered8(2)]);
    assert!(parse_generic(&[]).buttons.is_empty());
}

#[test]
fn protocol_dispatch_falls_back() {
    let d = parse_report_with_descriptor(&ProtocolKind::Ds4, &[0x02, 0x01], None);
    assert_eq!(d.axes, vec![AxisValue::Centered8(1)]);
    let x = parse_report_with_descriptor(&ProtocolKind::XInput, &[1, 2, 3], None);
    assert!(x.buttons.is_empty() && x.axes.is_empty());
}
