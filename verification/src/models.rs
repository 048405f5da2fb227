use vstd::prelude::*;

verus! {

/// Report protocol spoken by an input device.
#[derive(Clone, Copy, Debug, PartialEq, Eq, Structural)]
pub enum ProtocolKind {
    Ds4,
    DualSense,
    Switch,
    XInput,
    GenericHid,
    Unknown,
}

/// Kind of input whose latency is measured.
#[derive(Clone, Copy, Debug, PartialEq, Eq, Structural)]
pub enum MeasurementInputType {
    Button,
    Axis,
}

/// One axis as a report encodes it, before it is scaled to `-1.0..=1.0`.
#[derive(Clone, Copy, Debug, PartialEq, Eq, Structural)]
pub enum AxisValue {
    /// A descriptor-defined field with its logical range.
    Logical { value: i32, logical_min: i32, logical_max: i32 },
    /// An unsigned byte centred on 127.5.
    Centered8(u8),
    /// An unsigned 12-bit value centred on 2048.
    Centered12(u16),
    /// A signed 16-bit stick value.
    Signed16(i16),
    /// An unsigned trigger byte, 0 released and 255 fully pressed.
    Trigger8(u8),
}

/// Buttons and axes decoded from one input report.
#[derive(Clone, Debug)]
pub struct DecodedInput {
    pub buttons: Vec<bool>,
    pub axes: Vec<AxisValue>,
}

/// One enumerated input device.
#[derive(Clone, Debug)]
pub struct DeviceInfo {
    pub id: String,
    pub name: String,
    pub protocol: ProtocolKind,
    pub vendor_id: Option<u16>,
    pub product_id: Option<u16>,
    pub usage_page: Option<u16>,
    pub usage: Option<u16>,
    pub interface_number: Option<i32>,
    pub manufacturer: Option<String>,
    pub serial_number: Option<String>,
    pub path: Option<String>,
    pub xinput_user_index: Option<u32>,
    pub input_report_bytes: Option<usize>,
    pub parsed_button_count: Option<usize>,
    pub parsed_axis_count: Option<usize>,
    pub report_ids: Vec<u8>,
}

/// One enumerated serial port.
#[derive(Clone, Debug)]
pub struct SerialDeviceInfo {
    pub port_name: String,
    pub port_type: String,
    pub display_name: Option<String>,
    pub vid: Option<u16>,
    pub pid: Option<u16>,
    pub manufacturer: Option<String>,
    pub product: Option<String>,
    pub serial_number: Option<String>,
}

/// The devices and trigger ports found by one probe.
#[derive(Clone, Debug)]
pub struct ProbeResult {
    pub devices: Vec<DeviceInfo>,
    pub serial_ports: Vec<SerialDeviceInfo>,
}

/// Settings of a polling-rate test.
#[derive(Clone, Debug)]
pub struct PollTestConfig {
    pub device_id: String,
    pub duration_seconds: u64,
    pub output_dir: String,
}

/// Strings read from a HID device.
#[derive(Clone, Debug)]
pub struct HidDeviceStrings {
    pub product: Option<String>,
    pub manufacturer: Option<String>,
    pub serial_number: Option<String>,
}

/// One input report read from a HID device, with the time it arrived.
#[derive(Clone, Debug)]
pub struct WindowsHidReport {
    pub timestamp_ns: u64,
    pub raw: Vec<u8>,
}

} // verus!
