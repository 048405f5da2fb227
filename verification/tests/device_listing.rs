use inputlagscope::device_probe::{
    agreed_string, collect_raw_xinput_metadata, collect_xinput_hid_metadata,
    hidapi_input_devices, input_devices_from_raw, last_registry_field, registry_display_name,
    sort_devices, xinput_devices, RawHidDevice,
};
use inputlagscope::models::{DeviceInfo, ProtocolKind};

fn raw(vid: u16, pid: u16, usage: u16, path: &str, product: Option<&str>, manufacturer: Option<&str>, serial: Option<&str>) -> RawHidDevice {
    RawHidDevice {
        vendor_id: vid,
        product_id: pid,
        usage_page: 0x01,
        usage,
        interface_number: -1,
        product: product.map(ToOwned::to_owned),
        manufacturer: manufacturer.map(ToOwned::to_owned),
        serial_number: serial.map(ToOwned::to_owned),
        path: path.to_string(),
    }
}

#[test]
fn other_interfaces_agree_on_strings() {
    let devices = vec![
        raw(0x045E, 0x028E, 0x05, "p&IG_00", None, Some("(Standard system devices)"), None),
        raw(0x045E, 0x028E, 0x02, "kbd1", None, Some(" Microsoft "), Some("A1")),
        raw(0x045E, 0x028E, 0x02, "kbd2", None, Some("Microsoft"), Some("B2")),
        raw(0x1111, 0x2222, 0x02, "other", None, Some("Else"), None),
    ];
    assert_eq!(agreed_string(&devices, 0x045E, 0x028E, false), Some("Microsoft".to_string()));
    assert_eq!(agreed_string(&devices, 0x045E, 0x028E, true), None);
    assert_eq!(agreed_string(&devices, 0x9999, 0x028E, false), None);
}

#[test]
fn hidapi_xinput_metadata_uses_supplements() {
    let devices = vec![
        raw(0x045E, 0x028E, 0x05, "b&IG_00", Some("  "), Some("(Standard system devices)"), Some(" S1 ")),
        raw(0x045E, 0x028E, 0x02, "kbd", None, Some("Microsoft"), None),
        raw(0x054C, 0x0CE6, 0x05, "a&ig_01", Some(" Pad "), Some("(x)"), None),
    ];
    let m = collect_xinput_hid_metadata(&devices);
    assert_eq!(m.len(), 2);
    assert_eq!(m[0].path, "a&ig_01");
    assert_eq!(m[0].name, "Pad");
    assert_eq!(m[0].manufacturer, None);
    assert_eq!(m[1].path, "b&IG_00");
    assert_eq!(m[1].name, "XInput Controller 045E:028E");
    assert_eq!(m[1].manufacturer, Some("Microsoft".to_string()));
    assert_eq!(m[1].serial_number, Some("S1".to_string()));
}

#[test]
fn raw_input_xinput_metadata_keeps_strings() {
    let devices = vec![
        raw(0x045E, 0x028E, 0x05, "z&IG_00", None, Some("M"), None),
        raw(0x045E, 0x028F, 0x05, "y&IG_01", Some("Pad"), None, None),
    ];
    let m = collect_raw_xinput_metadata(&devices);
    assert_eq!(m.len(), 2);
    assert_eq!(m[0].path, "y&IG_01");
    assert_eq!(m[1].name, "XInput Controller 045E:028E");
    assert_eq!(m[1].manufacturer, Some("M".to_string()));
}

#[test]
fn hidapi_listing_has_gamepads_then_slots() {
    let devices = vec![
        raw(0x054C, 0x09CC, 0x05, "/dev/hidraw1", None, None, None),
        raw(0x1234, 0x0001, 0x02, "/dev/hidraw2", Some("Mouse"), None, None),
        raw(0x045E, 0x028E, 0x05, "x&IG_00", Some("XBox Pad"), None, None),
    ];
    let listed = hidapi_input_devices(&devices, &[2]);
    assert_eq!(listed.len(), 2);
    assert_eq!(listed[0].id, "hid:/dev/hidraw1");
    assert_eq!(listed[0].name, "HID 054C:09CC");
    assert_eq!(listed[0].protocol, ProtocolKind::Ds4);
    assert_eq!(listed[1].id, "xinput:2");
    assert_eq!(listed[1].name, "XBox Pad");
    assert_eq!(listed[1].xinput_user_index, Some(2));
    assert_eq!(listed[1].input_report_bytes, Some(14));
}

#[test]
fn raw_input_listing_names_unnamed_pads() {
    let devices = vec![raw(0x1234, 0x5678, 0x04, "pad", None, None, None)];
    let listed = input_devices_from_raw(&devices, &[0, 1]);
    assert_eq!(listed.len(), 3);
    assert_eq!(listed[0].name, "HID Gamepad 1234:5678");
    assert_eq!(listed[1].name, "XInput Controller 0");
    assert_eq!(listed[2].id, "xinput:1");
}

#[test]
fn slots_take_metadata_only_when_it_is_unambiguous() {
    let devices = vec![
        raw(0x045E, 0x028E, 0x05, "a&IG_00", Some("One"), None, None),
        raw(0x045E, 0x028E, 0x05, "b&IG_01", Some("Two"), None, None),
    ];
    let m = collect_raw_xinput_metadata(&devices);
    let two = xinput_devices(&m, &[0, 3]);
    assert_eq!(two[0].name, "One");
    assert_eq!(two[1].name, "Two");
    let three = xinput_devices(&m, &[0, 1, 2]);
    assert_eq!(three[0].name, "XInput Controller 0");
    let one = xinput_devices(&m, &[1]);
    assert_eq!(one[0].name, "One");
}

fn device(name: &str, protocol: ProtocolKind) -> DeviceInfo {
    DeviceInfo {
        id: name.to_string(),
        name: name.to_string(),
        protocol,
        vendor_id: None,
        product_id: None,
        usage_page: None,
        usage: None,
        interface_number: None,
        manufacturer: None,
        serial_number: None,
        path: None,
        xinput_user_index: None,
        input_report_bytes: None,
        parsed_button_count: None,
        parsed_axis_count: None,
        report_ids: Vec::new(),
    }
}

#[test]
fn devices_sort_by_rank_then_name() {
    let sorted = sort_devices(vec![
        device("b", ProtocolKind::Unknown),
        device("z", ProtocolKind::XInput),
        device("c", ProtocolKind::Ds4),
        device("a", ProtocolKind::Switch),
        device("m", ProtocolKind::GenericHid),
    ]);
    let names: Vec<&str> = sorted.iter().map(|d| d.name.as_str()).collect();
    assert_eq!(names, vec!["a", "c", "z", "m", "b"]);
}

#[test]
fn registry_fields_and_names() {
    assert_eq!(last_registry_field("@oem.inf,%desc%; USB Serial Device "), "USB Serial Device");
    assert_eq!(last_registry_field("Plain"), "Plain");
    assert_eq!(last_registry_field("a;"), "");
    assert_eq!(
        registry_display_name("COM5", None, Some("Board (COM5)".to_string()), Some("Friendly".to_string()), None),
        Some("Board".to_string())
    );
    assert_eq!(registry_display_name("COM5", None, None, None, Some("COM5".to_string())), None);
    assert_eq!(registry_display_name("COM5", None, None, None, None), None);
}

#[test]
fn devices_that_sort_equal_keep_their_order() {
    let mut first = device("Wireless Controller", ProtocolKind::Ds4);
    first.id = "hid:one".to_string();
    let mut second = device("Wireless Controller", ProtocolKind::Ds4);
    second.id = "hid:two".to_string();
    let sorted = sort_devices(vec![device("z", ProtocolKind::Unknown), first, second]);
    assert_eq!(sorted[0].id, "hid:one");
    assert_eq!(sorted[1].id, "hid:two");
    let mut third = device("Wireless Controller", ProtocolKind::DualSense);
    third.id = "hid:three".to_string();
    let mut fourth = device("Wireless Controller", ProtocolKind::Ds4);
    fourth.id = "hid:four".to_string();
    let again = sort_devices(vec![third, fourth]);
    assert_eq!(again[0].id, "hid:three");
    assert_eq!(again[1].id, "hid:four");
}
