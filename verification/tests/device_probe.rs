use inputlagscope::device_probe::{
    classify_hid_device, clean_serial_display_name, filter_trigger_ports,
    is_rp2040_trigger_serial_port, is_xinput_hid_interface, matches_text_identifier,
    normalized_non_standard_string, normalized_string, parse_interface_number, protocol_rank,
    serial_device_info, serial_display_name, single_string, SerialPortKind,
    INPUT_LAG_SCOPE_TRIGGER_PRODUCT, INPUT_LAG_SCOPE_TRIGGER_SERIAL, RP2040_TRIGGER_PID,
    RP2040_TRIGGER_VID,
};
use inputlagscope::models::{ProtocolKind, SerialDeviceInfo};

fn serial_port_info(
    vid: Option<u16>,
    pid: Option<u16>,
    display_name: Option<&str>,
    product: Option<&str>,
    serial_number: Option<&str>,
) -> SerialDeviceInfo {
    SerialDeviceInfo {
        port_name: "COM20".to_string(),
        port_type: "usb".to_string(),
        display_name: display_name.map(ToOwned::to_owned),
        vid,
        pid,
        manufacturer: None,
        product: product.map(ToOwned::to_owned),
        serial_number: serial_number.map(ToOwned::to_owned),
    }
}

#[test]
fn rp2040_trigger_port_matches_product_name() {
    let port = serial_port_info(
        Some(RP2040_TRIGGER_VID),
        Some(RP2040_TRIGGER_PID),
        Some(INPUT_LAG_SCOPE_TRIGGER_PRODUCT),
        None,
        None,
    );

    assert!(is_rp2040_trigger_serial_port(&port));
}

#[test]
fn rp2040_trigger_port_matches_serial_number() {
    let port = serial_port_info(
        Some(RP2040_TRIGGER_VID),
        Some(RP2040_TRIGGER_PID),
        None,
        None,
        Some(INPUT_LAG_SCOPE_TRIGGER_SERIAL),
    );

    assert!(is_rp2040_trigger_serial_port(&port));
}

#[test]
fn rp2040_trigger_port_rejects_other_vid_pid() {
    let port = serial_port_info(
        Some(0xCAFE),
        Some(0x4020),
        Some(INPUT_LAG_SCOPE_TRIGGER_PRODUCT),
        None,
        Some(INPUT_LAG_SCOPE_TRIGGER_SERIAL),
    );

    assert!(!is_rp2040_trigger_serial_port(&port));
}

#[test]
fn trigger_port_matches_trimmed_product_string() {
    let port = serial_port_info(
        Some(RP2040_TRIGGER_VID),
        Some(RP2040_TRIGGER_PID),
        None,
        Some("  InputLagScope \t"),
        None,
    );
    assert!(is_rp2040_trigger_serial_port(&port));
}

#[test]
fn trigger_port_needs_a_name_or_serial() {
    let port = serial_port_info(Some(RP2040_TRIGGER_VID), Some(RP2040_TRIGGER_PID), None, None, None);
    assert!(!is_rp2040_trigger_serial_port(&port));
}

#[test]
fn filter_keeps_trigger_ports_in_order() {
    let a = serial_port_info(Some(RP2040_TRIGGER_VID), Some(RP2040_TRIGGER_PID), None, None, Some("ILS001"));
    let b = serial_port_info(Some(1), Some(2), None, None, Some("ILS001"));
    let mut c = serial_port_info(Some(RP2040_TRIGGER_VID), Some(RP2040_TRIGGER_PID), Some("InputLagScope"), None, None);
    c.port_name = "COM7".to_string();
    let kept = filter_trigger_ports(vec![a, b, c]);
    assert_eq!(kept.len(), 2);
    assert_eq!(kept[0].port_name, "COM20");
    assert_eq!(kept[1].port_name, "COM7");
}

#[test]
fn text_identifier_is_trimmed_and_exact() {
    assert!(matches_text_identifier(Some(" ILS001 "), "ILS001"));
    assert!(!matches_text_identifier(Some("ils001"), "ILS001"));
    assert!(!matches_text_identifier(None, "ILS001"));
}

#[test]
fn display_name_drops_port_suffix() {
    assert_eq!(
        clean_serial_display_name("COM3", " USB Serial Device (COM3) "),
        Some("USB Serial Device".to_string())
    );
    assert_eq!(clean_serial_display_name("COM3", "com3"), None);
    assert_eq!(clean_serial_display_name("COM3", "   "), None);
    assert_eq!(clean_serial_display_name("COM3", "(COM3)"), None);
}

#[test]
fn registry_name_wins_over_usb_strings() {
    assert_eq!(
        serial_display_name(Some("Board".to_string()), "COM4", Some("Product"), None),
        Some("Board".to_string())
    );
    assert_eq!(
        serial_display_name(None, "COM4", None, Some("Maker (COM4)")),
        Some("Maker".to_string())
    );
    assert_eq!(serial_display_name(None, "COM4", None, None), None);
}

#[test]
fn usb_serial_port_listing() {
    let d = serial_device_info(
        "COM9".to_string(),
        SerialPortKind::Usb {
            vid: RP2040_TRIGGER_VID,
            pid: RP2040_TRIGGER_PID,
            manufacturer: Some("Raspberry".to_string()),
            product: Some("InputLagScope (COM9)".to_string()),
            serial_number: Some("ILS001".to_string()),
        },
        None,
    );
    assert_eq!(d.port_type, "usb");
    assert_eq!(d.display_name, Some("InputLagScope".to_string()));
    assert_eq!(d.vid, Some(RP2040_TRIGGER_VID));
    assert!(is_rp2040_trigger_serial_port(&d));
}

#[test]
fn other_serial_port_kinds_have_no_ids() {
    let d = serial_device_info("COM1".to_string(), SerialPortKind::Pci, Some("Port".to_string()));
    assert_eq!(d.port_type, "pci");
    assert_eq!(d.display_name, Some("Port".to_string()));
    assert_eq!(d.vid, None);
    let b = serial_device_info("COM2".to_string(), SerialPortKind::Bluetooth, None);
    assert_eq!(b.port_type, "bluetooth");
    let u = serial_device_info("COM5".to_string(), SerialPortKind::Unknown, None);
    assert_eq!(u.port_type, "unknown");
    assert_eq!(u.display_name, None);
}

#[test]
fn hid_device_classification() {
    assert_eq!(classify_hid_device(0x054C, 0x09CC), ProtocolKind::Ds4);
    assert_eq!(classify_hid_device(0x054C, 0x0CE6), ProtocolKind::DualSense);
    assert_eq!(classify_hid_device(0x057E, 0x2009), ProtocolKind::Switch);
    assert_eq!(classify_hid_device(0x1234, 0x5678), ProtocolKind::GenericHid);
}

#[test]
fn xinput_interface_and_interface_number() {
    assert!(is_xinput_hid_interface(r"\\?\hid#vid_045e&pid_028e&ig_00#7&1"));
    assert!(!is_xinput_hid_interface(r"\\?\hid#vid_045e&pid_028e#7&1"));
    assert_eq!(parse_interface_number(r"\\?\hid#vid_054c&pid_0ce6&mi_03#8&2"), 3);
    assert_eq!(parse_interface_number(r"\\?\hid#vid_054c&pid_0ce6&MI_0A"), 10);
    assert_eq!(parse_interface_number(r"\\?\hid#vid_054c&pid_0ce6"), -1);
}

#[test]
fn protocol_ranks() {
    assert_eq!(protocol_rank(&ProtocolKind::Ds4), 0);
    assert_eq!(protocol_rank(&ProtocolKind::Switch), 0);
    assert_eq!(protocol_rank(&ProtocolKind::XInput), 1);
    assert_eq!(protocol_rank(&ProtocolKind::GenericHid), 2);
    assert_eq!(protocol_rank(&ProtocolKind::Unknown), 3);
}

#[test]
fn normalized_strings() {
    assert_eq!(normalized_string(Some("  pad ")), Some("pad".to_string()));
    assert_eq!(normalized_string(Some("   ")), None);
    assert_eq!(normalized_non_standard_string(Some("Pad")), Some("Pad".to_string()));
    assert_eq!(single_string(vec!["a".to_string()]), Some("a".to_string()));
    assert_eq!(single_string(vec!["a".to_string(), "b".to_string()]), None);
}
