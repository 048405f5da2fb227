use inputlagscope::headless::{
    protocol_label, select_device, select_serial_port, HeadlessCommand, HeadlessError,
    HeadlessOptions, SelectError,
};
use inputlagscope::models::{DeviceInfo, MeasurementInputType, ProtocolKind, SerialDeviceInfo};
use inputlagscope::number_text::{
    check_float_text, error_message, parse_i32_text, parse_u32_text, parse_u64_text, parse_usize_text,
    NumberErrorKind,
};

fn args(list: &[&str]) -> Vec<String> {
    list.iter().map(|s| s.to_string()).collect()
}

fn run(list: &[&str]) -> HeadlessOptions {
    match HeadlessOptions::parse(args(list)) {
        Ok(HeadlessCommand::Run(o)) => o,
        Ok(HeadlessCommand::Help) => panic!("help"),
        Err(e) => panic!("{e:?}"),
    }
}

#[test]
fn defaults_without_arguments() {
    let o = run(&[]);
    assert_eq!(o.baud_rate, 115200);
    assert_eq!(o.samples, 100);
    assert_eq!(o.timeout_ms, 1000);
    assert_eq!(o.input_type, MeasurementInputType::Button);
    assert_eq!(o.button_index, -1);
    assert_eq!(o.axis_index, -1);
    assert_eq!(o.axis_threshold, None);
    assert_eq!(o.neutral_sample_ms, 1000);
    assert_eq!(o.retry_delay_ms, 5);
    assert_eq!(o.output_dir, "results");
    assert!(o.device_id.is_none() && o.device_id_contains.is_none() && o.serial_port.is_none());
}

#[test]
fn every_option_is_read() {
    let o = run(&[
        "--device-id", "hid:abc", "--device-id-contains", "abc", "--serial-port", "COM5",
        "--baud-rate", "9600", "--samples", "+20", "--timeout-ms", "250", "--input-type", "axis",
        "--button-index", "3", "--axis-index", "-2", "--axis-threshold", "0.5",
        "--neutral-sample-ms", "300", "--retry-delay-ms", "7", "--output-dir", "out",
    ]);
    assert_eq!(o.device_id.as_deref(), Some("hid:abc"));
    assert_eq!(o.device_id_contains.as_deref(), Some("abc"));
    assert_eq!(o.serial_port.as_deref(), Some("COM5"));
    assert_eq!(o.baud_rate, 9600);
    assert_eq!(o.samples, 20);
    assert_eq!(o.timeout_ms, 250);
    assert_eq!(o.input_type, MeasurementInputType::Axis);
    assert_eq!(o.button_index, 3);
    assert_eq!(o.axis_index, -2);
    assert_eq!(o.axis_threshold.as_deref(), Some("0.5"));
    assert_eq!(o.neutral_sample_ms, 300);
    assert_eq!(o.retry_delay_ms, 7);
    assert_eq!(o.output_dir, "out");
}

#[test]
fn help_stops_reading() {
    assert!(matches!(HeadlessOptions::parse(args(&["-h", "--bogus"])), Ok(HeadlessCommand::Help)));
    assert!(matches!(HeadlessOptions::parse(args(&["--samples", "2", "--help"])), Ok(HeadlessCommand::Help)));
}

#[test]
fn argument_errors() {
    assert_eq!(HeadlessOptions::parse(args(&["--samples"])).err(), Some(HeadlessError::MissingValue { key_index: 0 }));
    assert_eq!(
        HeadlessOptions::parse(args(&["--samples", "1", "--baud-rate", "x9"])).err(),
        Some(HeadlessError::InvalidValue { key_index: 2, kind: NumberErrorKind::InvalidDigit })
    );
    assert_eq!(
        HeadlessOptions::parse(args(&["--input-type", "trigger"])).err(),
        Some(HeadlessError::UnsupportedInputType { value_index: 1 })
    );
    assert_eq!(HeadlessOptions::parse(args(&["extra"])).err(), Some(HeadlessError::UnknownOption { index: 0 }));
    assert_eq!(
        HeadlessOptions::parse(args(&["--axis-threshold", "abc"])).err(),
        Some(HeadlessError::InvalidValue { key_index: 0, kind: NumberErrorKind::InvalidFloat })
    );
    assert_eq!(
        HeadlessOptions::parse(args(&["--axis-threshold", ""])).err(),
        Some(HeadlessError::InvalidValue { key_index: 0, kind: NumberErrorKind::Empty })
    );
}

#[test]
fn integer_text_like_str_parse() {
    assert_eq!(parse_u32_text("4294967295"), Ok(u32::MAX));
    assert_eq!(parse_u32_text("4294967296"), Err(NumberErrorKind::PosOverflow));
    assert_eq!(parse_u32_text(""), Err(NumberErrorKind::Empty));
    assert_eq!(parse_u32_text("+"), Err(NumberErrorKind::InvalidDigit));
    assert_eq!(parse_u32_text("-1"), Err(NumberErrorKind::InvalidDigit));
    assert_eq!(parse_u32_text(" 1"), Err(NumberErrorKind::InvalidDigit));
    assert_eq!(parse_u32_text("99999999999x"), Err(NumberErrorKind::PosOverflow));
    assert_eq!(parse_u32_text("12x99999999999"), Err(NumberErrorKind::InvalidDigit));
    assert_eq!(parse_u64_text("18446744073709551615"), Ok(u64::MAX));
    assert_eq!(parse_usize_text("007"), Ok(7));
    assert_eq!(parse_i32_text("-2147483648"), Ok(i32::MIN));
    assert_eq!(parse_i32_text("-2147483649"), Err(NumberErrorKind::NegOverflow));
    assert_eq!(parse_i32_text("2147483648"), Err(NumberErrorKind::PosOverflow));
    assert_eq!(parse_i32_text("-"), Err(NumberErrorKind::InvalidDigit));
    for text in ["0", "+12", "-12", "2147483647", "x", "", "99999999999"] {
        assert_eq!(parse_i32_text(text).ok(), text.parse::<i32>().ok(), "{text}");
        assert_eq!(parse_u32_text(text).ok(), text.parse::<u32>().ok(), "{text}");
    }
}

#[test]
fn float_text_grammar() {
    for text in ["0.35", "1", "1.", ".5", "-2e3", "+1E-2", "inf", "-Infinity", "NaN", "1e999"] {
        assert_eq!(check_float_text(text), Ok(()), "{text}");
        assert!(text.parse::<f32>().is_ok(), "{text}");
    }
    for text in [".", "e5", "1e", "1e+", "abc", "+", "1.2.3", " 1", "infinit"] {
        assert_eq!(check_float_text(text), Err(NumberErrorKind::InvalidFloat), "{text}");
        assert!(text.parse::<f32>().is_err(), "{text}");
    }
    assert_eq!(check_float_text(""), Err(NumberErrorKind::Empty));
}

fn device(id: &str, protocol: ProtocolKind) -> DeviceInfo {
    DeviceInfo {
        id: id.to_string(),
        name: id.to_string(),
        protocol,
        vendor_id: None,
        product_id: None,
        usage_page: None,
        usage: None,
        interface_number: None,
        manufacturer: None,
        serial_number: None,
        path: None,
        xinput_user_index: None,
        input_report_bytes: None,
        parsed_button_count: None,
        parsed_axis_count: None,
        report_ids: Vec::new(),
    }
}

#[test]
fn device_choice() {
    let devices = vec![
        device("hid:a", ProtocolKind::Ds4),
        device("xinput:0", ProtocolKind::XInput),
        device("hid:ab", ProtocolKind::GenericHid),
    ];
    assert_eq!(select_device(&devices, Some("hid:ab"), None), Ok(2));
    assert_eq!(select_device(&devices, Some("nope"), None), Err(SelectError::SelectedDeviceNotFound));
    assert_eq!(select_device(&devices, None, Some("ab")), Ok(2));
    assert_eq!(select_device(&devices, None, Some("zz")), Err(SelectError::DeviceIdNotFound));
    assert_eq!(select_device(&devices, None, None), Ok(1));
    assert_eq!(select_device(&devices[..1], None, None), Ok(0));
    assert_eq!(select_device(&[], None, None), Err(SelectError::NoInputDevice));
}

#[test]
fn duplicate_ids_pick_the_first_device() {
    let devices = vec![device("same", ProtocolKind::Ds4), device("same", ProtocolKind::XInput)];
    assert_eq!(select_device(&devices, None, None), Ok(0));
}

#[test]
fn serial_port_choice() {
    let ports = vec![SerialDeviceInfo {
        port_name: "COM3".to_string(),
        port_type: "usb".to_string(),
        display_name: None,
        vid: None,
        pid: None,
        manufacturer: None,
        product: None,
        serial_number: None,
    }];
    assert_eq!(select_serial_port(Some("COM9"), &ports), Ok("COM9".to_string()));
    assert_eq!(select_serial_port(None, &ports), Ok("COM3".to_string()));
    assert_eq!(select_serial_port(None, &[]), Err(SelectError::NoSerialPort));
}

#[test]
fn protocol_labels() {
    assert_eq!(protocol_label(&ProtocolKind::Ds4), "ds4");
    assert_eq!(protocol_label(&ProtocolKind::DualSense), "dualsense");
    assert_eq!(protocol_label(&ProtocolKind::Switch), "switch");
    assert_eq!(protocol_label(&ProtocolKind::XInput), "xinput");
    assert_eq!(protocol_label(&ProtocolKind::GenericHid), "generic_hid");
    assert_eq!(protocol_label(&ProtocolKind::Unknown), "unknown");
}

#[test]
fn command_line_measurement_example() {
    let o = run(&["--samples", "100", "--input-type", "button"]);
    assert_eq!(o.samples, 100);
    assert_eq!(o.input_type, MeasurementInputType::Button);
    assert!(matches!(HeadlessOptions::parse(args(&["--help"])), Ok(HeadlessCommand::Help)));
}

#[test]
fn later_options_override_earlier_ones() {
    let o = run(&["--samples", "5", "--samples", "7", "--output-dir", "a", "--output-dir", "b"]);
    assert_eq!(o.samples, 7);
    assert_eq!(o.output_dir, "b");
}

#[test]
fn number_error_messages_match_the_standard_library() {
    assert_eq!(error_message(NumberErrorKind::Empty, false), "".parse::<u32>().unwrap_err().to_string());
    assert_eq!(error_message(NumberErrorKind::Empty, true), "".parse::<f32>().unwrap_err().to_string());
    assert_eq!(error_message(NumberErrorKind::InvalidDigit, false), "x".parse::<u32>().unwrap_err().to_string());
    assert_eq!(error_message(NumberErrorKind::PosOverflow, false), "99999999999".parse::<u32>().unwrap_err().to_string());
    assert_eq!(error_message(NumberErrorKind::NegOverflow, false), "-99999999999".parse::<i32>().unwrap_err().to_string());
    assert_eq!(error_message(NumberErrorKind::InvalidFloat, true), "x".parse::<f32>().unwrap_err().to_string());
}
