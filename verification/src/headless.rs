//! The command-line measurement: its options, and the choice of input
//! device and trigger port from what a probe found.
use vstd::prelude::*;
use crate::device_probe::opt_view;
use crate::models::DeviceInfo;
use crate::models::MeasurementInputType;
use crate::models::ProtocolKind;
use crate::models::SerialDeviceInfo;
use crate::number_text::NumberErrorKind;
use crate::number_text::check_float_text;
use crate::number_text::parse_i32_text;
use crate::number_text::parse_u32_text;
use crate::number_text::parse_u64_text;
use crate::number_text::parse_usize_text;
use crate::number_text::spec_check_float;
use crate::number_text::spec_parse_int;
use crate::text::contains_str;
use crate::text::occurs_at;
use crate::text::owned;
use crate::text::str_eq;

verus! {

/// Options of a command-line measurement.
pub struct HeadlessOptions {
    pub device_id: Option<String>,
    pub device_id_contains: Option<String>,
    pub serial_port: Option<String>,
    pub baud_rate: u32,
    pub samples: usize,
    pub timeout_ms: u64,
    pub input_type: MeasurementInputType,
    pub button_index: i32,
    pub axis_index: i32,
    /// The text given to `--axis-threshold`, known to be a floating-point
    /// literal; none keeps the default threshold of 0.35.
    pub axis_threshold: Option<String>,
    pub neutral_sample_ms: u64,
    pub retry_delay_ms: u64,
    pub output_dir: String,
}

/// The options with their texts as character sequences.
pub struct OptionsView {
    pub device_id: Option<Seq<char>>,
    pub device_id_contains: Option<Seq<char>>,
    pub serial_port: Option<Seq<char>>,
    pub baud_rate: u32,
    pub samples: usize,
    pub timeout_ms: u64,
    pub input_type: MeasurementInputType,
    pub button_index: i32,
    pub axis_index: i32,
    pub axis_threshold: Option<Seq<char>>,
    pub neutral_sample_ms: u64,
    pub retry_delay_ms: u64,
    pub output_dir: Seq<char>,
}

impl View for HeadlessOptions {
    type V = OptionsView;

    open spec fn view(&self) -> OptionsView {
        OptionsView {
            device_id: opt_view(self.device_id),
            device_id_contains: opt_view(self.device_id_contains),
            serial_port: opt_view(self.serial_port),
            baud_rate: self.baud_rate,
            samples: self.samples,
            timeout_ms: self.timeout_ms,
            input_type: self.input_type,
            button_index: self.button_index,
            axis_index: self.axis_index,
            axis_threshold: opt_view(self.axis_threshold),
            neutral_sample_ms: self.neutral_sample_ms,
            retry_delay_ms: self.retry_delay_ms,
            output_dir: self.output_dir@,
        }
    }
}

/// The options before any argument is read.
pub open spec fn default_options() -> OptionsView {
    OptionsView {
        device_id: None,
        device_id_contains: None,
        serial_port: None,
        baud_rate: 115200,
        samples: 100,
        timeout_ms: 1000,
        input_type: MeasurementInputType::Button,
        button_index: -1i32,
        axis_index: -1i32,
        axis_threshold: None,
        neutral_sample_ms: 1000,
        retry_delay_ms: 5,
        output_dir: "results"@,
    }
}

/// Why the arguments were refused; positions count from the first argument.
#[derive(Clone, Copy, Debug, PartialEq, Eq, Structural)]
pub enum HeadlessError {
    /// The option at `key_index` is the last argument but needs a value.
    MissingValue { key_index: usize },
    /// The value after the option at `key_index` is no number of its type.
    InvalidValue { key_index: usize, kind: NumberErrorKind },
    /// The value at `value_index` is neither `button` nor `axis`.
    UnsupportedInputType { value_index: usize },
    /// The argument at `index` is no option.
    UnknownOption { index: usize },
}

/// What the arguments ask for.
pub enum HeadlessCommand {
    /// Measure with these options.
    Run(HeadlessOptions),
    /// Print the usage text.
    Help,
}

/// The options that take a value.
pub open spec fn is_value_key(key: Seq<char>) -> bool {
    ||| key == "--device-id"@
    ||| key == "--device-id-contains"@
    ||| key == "--serial-port"@
    ||| key == "--baud-rate"@
    ||| key == "--samples"@
    ||| key == "--timeout-ms"@
    ||| key == "--input-type"@
    ||| key == "--button-index"@
    ||| key == "--axis-index"@
    ||| key == "--axis-threshold"@
    ||| key == "--neutral-sample-ms"@
    ||| key == "--retry-delay-ms"@
    ||| key == "--output-dir"@
}

/// The options that ask for the usage text.
pub open spec fn is_help_key(key: Seq<char>) -> bool {
    key == "--help"@ || key == "-h"@
}

/// An unsigned option value, or the error that refuses it.
pub open spec fn unsigned_value(value: Seq<char>, max: nat, key_index: int) -> Result<nat, HeadlessError> {
    match spec_parse_int(value, max, 0, false) {
        Ok(v) => Ok(v as nat),
        Err(k) => Err(HeadlessError::InvalidValue { key_index: key_index as usize, kind: k }),
    }
}

/// A signed option value, or the error that refuses it.
pub open spec fn i32_value(value: Seq<char>, key_index: int) -> Result<i32, HeadlessError> {
    match spec_parse_int(value, i32::MAX as nat, 0x8000_0000, true) {
        Ok(v) => Ok(v as i32),
        Err(k) => Err(HeadlessError::InvalidValue { key_index: key_index as usize, kind: k }),
    }
}

/// The options after one option (at `key_index`) and its value are read.
pub open spec fn apply_option(o: OptionsView, key: Seq<char>, value: Seq<char>, key_index: int) -> Result<OptionsView, HeadlessError> {
    if key == "--device-id"@ {
        Ok(OptionsView { device_id: Some(value), ..o })
    } else if key == "--device-id-contains"@ {
        Ok(OptionsView { device_id_contains: Some(value), ..o })
    } else if key == "--serial-port"@ {
        Ok(OptionsView { serial_port: Some(value), ..o })
    } else if key == "--baud-rate"@ {
        match unsigned_value(value, u32::MAX as nat, key_index) {
            Ok(v) => Ok(OptionsView { baud_rate: v as u32, ..o }),
            Err(e) => Err(e),
        }
    } else if key == "--samples"@ {
        match unsigned_value(value, usize::MAX as nat, key_index) {
            Ok(v) => Ok(OptionsView { samples: v as usize, ..o }),
            Err(e) => Err(e),
        }
    } else if key == "--timeout-ms"@ {
        match unsigned_value(value, u64::MAX as nat, key_index) {
            Ok(v) => Ok(OptionsView { timeout_ms: v as u64, ..o }),
            Err(e) => Err(e),
        }
    } else if key == "--input-type"@ {
        if value == "button"@ {
            Ok(OptionsView { input_type: MeasurementInputType::Button, ..o })
        } else if value == "axis"@ {
            Ok(OptionsView { input_type: MeasurementInputType::Axis, ..o })
        } else {
            Err(HeadlessError::UnsupportedInputType { value_index: (key_index + 1) as usize })
        }
    } else if key == "--button-index"@ {
        match i32_value(value, key_index) {
            Ok(v) => Ok(OptionsView { button_index: v, ..o }),
            Err(e) => Err(e),
        }
    } else if key == "--axis-index"@ {
        match i32_value(value, key_index) {
            Ok(v) => Ok(OptionsView { axis_index: v, ..o }),
            Err(e) => Err(e),
        }
    } else if key == "--axis-threshold"@ {
        match spec_check_float(value) {
            Ok(_) => Ok(OptionsView { axis_threshold: Some(value), ..o }),
            Err(k) => Err(HeadlessError::InvalidValue { key_index: key_index as usize, kind: k }),
        }
    } else if key == "--neutral-sample-ms"@ {
        match unsigned_value(value, u64::MAX as nat, key_index) {
            Ok(v) => Ok(OptionsView { neutral_sample_ms: v as u64, ..o }),
            Err(e) => Err(e),
        }
    } else if key == "--retry-delay-ms"@ {
        match unsigned_value(value, u64::MAX as nat, key_index) {
            Ok(v) => Ok(OptionsView { retry_delay_ms: v as u64, ..o }),
            Err(e) => Err(e),
        }
    } else {
        Ok(OptionsView { output_dir: value, ..o })
    }
}

/// Reads the arguments from position `i` on: `Ok(None)` asks for the usage
/// text, `Ok(Some(o))` gives the options; the first bad argument decides
/// the error.
pub open spec fn spec_parse_args(args: Seq<Seq<char>>, i: int, o: OptionsView) -> Result<Option<OptionsView>, HeadlessError>
    decreases args.len() - i,
{
    if i >= args.len() {
        Ok(Some(o))
    } else if is_help_key(args[i]) {
        Ok(None)
    } else if !is_value_key(args[i]) {
        Err(HeadlessError::UnknownOption { index: i as usize })
    } else if i + 1 >= args.len() {
        Err(HeadlessError::MissingValue { key_index: i as usize })
    } else {
        match apply_option(o, args[i], args[i + 1], i) {
            Ok(next) => spec_parse_args(args, i + 2, next),
            Err(e) => Err(e),
        }
    }
}

/// The arguments as character sequences.
pub open spec fn args_view(args: Seq<String>) -> Seq<Seq<char>> {
    args.map_values(|a: String| a@)
}

fn is_help_exec(key: &str) -> (r: bool)
    ensures
        r == is_help_key(key@),
{
    str_eq(key, "--help") || str_eq(key, "-h")
}

fn is_value_key_exec(key: &str) -> (r: bool)
    ensures
        r == is_value_key(key@),
{
    str_eq(key, "--device-id") || str_eq(key, "--device-id-contains") || str_eq(key, "--serial-port")
        || str_eq(key, "--baud-rate") || str_eq(key, "--samples") || str_eq(key, "--timeout-ms")
        || str_eq(key, "--input-type") || str_eq(key, "--button-index") || str_eq(key, "--axis-index")
        || str_eq(key, "--axis-threshold") || str_eq(key, "--neutral-sample-ms")
        || str_eq(key, "--retry-delay-ms") || str_eq(key, "--output-dir")
}

fn invalid_value(key_index: usize, kind: NumberErrorKind) -> (r: HeadlessError)
    ensures
        r == (HeadlessError::InvalidValue { key_index, kind }),
{
    HeadlessError::InvalidValue { key_index, kind }
}

impl HeadlessOptions {
    /// The options before any argument is read.
    pub fn defaults() -> (r: HeadlessOptions)
        ensures
            r@ == default_options(),
    {
        HeadlessOptions {
            device_id: None,
            device_id_contains: None,
            serial_port: None,
            baud_rate: 115200,
            samples: 100,
            timeout_ms: 1000,
            input_type: MeasurementInputType::Button,
            button_index: -1,
            axis_index: -1,
            axis_threshold: None,
            neutral_sample_ms: 1000,
            retry_delay_ms: 5,
            output_dir: owned("results"),
        }
    }

    /// Reads one option and its value into `self`.
    fn apply(&mut self, key: &str, value: &str, key_index: usize) -> (r: Result<(), HeadlessError>)
        requires
            is_value_key(key@),
            key_index < usize::MAX,
        ensures
            match apply_option(old(self)@, key@, value@, key_index as int) {
                Ok(o) => r is Ok && final(self)@ == o,
                Err(e) => r == Err::<(), HeadlessError>(e),
            },
    {
        if str_eq(key, "--device-id") {
            self.device_id = Some(owned(value));
        } else if str_eq(key, "--device-id-contains") {
            self.device_id_contains = Some(owned(value));
        } else if str_eq(key, "--serial-port") {
            self.serial_port = Some(owned(value));
        } else if str_eq(key, "--baud-rate") {
            match parse_u32_text(value) {
                Ok(v) => self.baud_rate = v,
                Err(k) => return Err(invalid_value(key_index, k)),
            }
        } else if str_eq(key, "--samples") {
            match parse_usize_text(value) {
                Ok(v) => self.samples = v,
                Err(k) => return Err(invalid_value(key_index, k)),
            }
        } else if str_eq(key, "--timeout-ms") {
            match parse_u64_text(value) {
                Ok(v) => self.timeout_ms = v,
                Err(k) => return Err(invalid_value(key_index, k)),
            }
        } else if str_eq(key, "--input-type") {
            if str_eq(value, "button") {
                self.input_type = MeasurementInputType::Button;
            } else if str_eq(value, "axis") {
                self.input_type = MeasurementInputType::Axis;
            } else {
                return Err(HeadlessError::UnsupportedInputType { value_index: key_index + 1 });
            }
        } else if str_eq(key, "--button-index") {
            match parse_i32_text(value) {
                Ok(v) => self.button_index = v,
                Err(k) => return Err(invalid_value(key_index, k)),
            }
        } else if str_eq(key, "--axis-index") {
            match parse_i32_text(value) {
                Ok(v) => self.axis_index = v,
                Err(k) => return Err(invalid_value(key_index, k)),
            }
        } else if str_eq(key, "--axis-threshold") {
            match check_float_text(value) {
                Ok(()) => self.axis_threshold = Some(owned(value)),
                Err(k) => return Err(invalid_value(key_index, k)),
            }
        } else if str_eq(key, "--neutral-sample-ms") {
            match parse_u64_text(value) {
                Ok(v) => self.neutral_sample_ms = v,
                Err(k) => return Err(invalid_value(key_index, k)),
            }
        } else if str_eq(key, "--retry-delay-ms") {
            match parse_u64_text(value) {
                Ok(v) => self.retry_delay_ms = v,
                Err(k) => return Err(invalid_value(key_index, k)),
            }
        } else {
            self.output_dir = owned(value);
        }
        Ok(())
    }

    /// Reads the command-line arguments of a measurement.
    pub fn parse(args: Vec<String>) -> (r: Result<HeadlessCommand, HeadlessError>)
        requires
            args@.len() < usize::MAX,
        ensures
            match r {
                Ok(HeadlessCommand::Run(o)) => spec_parse_args(args_view(args@), 0, default_options()) == Ok::<
                    Option<OptionsView>,
                    HeadlessError,
                >(Some(o@)),
                Ok(HeadlessCommand::Help) => spec_parse_args(args_view(args@), 0, default_options()) == Ok::<
                    Option<OptionsView>,
                    HeadlessError,
                >(None),
                Err(e) => spec_parse_args(args_view(args@), 0, default_options()) == Err::<
                    Option<OptionsView>,
                    HeadlessError,
                >(e),
            },
    {
        let ghost av = args_view(args@);
        let mut options = Self::defaults();
        let mut index: usize = 0;
        while index < args.len()
            invariant
                av == args_view(args@),
                args@.len() < usize::MAX,
                index <= args@.len(),
                spec_parse_args(av, index as int, options@) == spec_parse_args(av, 0, default_options()),
            decreases args@.len() - index,
        {
            let key = args[index].as_str();
            assert(av[index as int] == key@);
            if is_help_exec(key) {
                return Ok(HeadlessCommand::Help);
            }
            if !is_value_key_exec(key) {
                return Err(HeadlessError::UnknownOption { index });
            }
            if index + 1 >= args.len() {
                return Err(HeadlessError::MissingValue { key_index: index });
            }
            let value = args[index + 1].as_str();
            assert(av[index + 1] == value@);
            match options.apply(key, value, index) {
                Ok(()) => {},
                Err(e) => return Err(e),
            }
            index = index + 2;
        }
        Ok(HeadlessCommand::Run(options))
    }
}

/// Why no device or trigger port could be chosen.
#[derive(Clone, Copy, Debug, PartialEq, Eq, Structural)]
pub enum SelectError {
    /// No device id contains the requested text.
    DeviceIdNotFound,
    /// The probe found no input device.
    NoInputDevice,
    /// No device has the requested id.
    SelectedDeviceNotFound,
    /// No port was given and the probe found none.
    NoSerialPort,
}

/// `j` is the first device with id `id`.
pub open spec fn is_first_with_id(devices: Seq<DeviceInfo>, id: Seq<char>, j: int) -> bool {
    &&& 0 <= j < devices.len()
    &&& devices[j].id@ == id
    &&& forall|q: int| 0 <= q < j ==> (#[trigger] devices[q]).id@ != id
}

/// Some device has id `id`.
pub open spec fn has_id(devices: Seq<DeviceInfo>, id: Seq<char>) -> bool {
    exists|j: int| 0 <= j < devices.len() && (#[trigger] devices[j]).id@ == id
}

/// The device's id contains `needle`.
pub open spec fn id_contains(device: DeviceInfo, needle: Seq<char>) -> bool {
    exists|i: int| #[trigger] occurs_at(device.id@, needle, i)
}

/// `k` is the first device whose id contains `needle`.
pub open spec fn is_first_containing(devices: Seq<DeviceInfo>, needle: Seq<char>, k: int) -> bool {
    &&& 0 <= k < devices.len()
    &&& id_contains(devices[k], needle)
    &&& forall|q: int| 0 <= q < k ==> !id_contains(#[trigger] devices[q], needle)
}

/// `k` is the device chosen when none was named: the first XInput device,
/// or else the first device.
pub open spec fn is_default_choice(devices: Seq<DeviceInfo>, k: int) -> bool {
    &&& 0 <= k < devices.len()
    &&& forall|q: int| 0 <= q < k ==> (#[trigger] devices[q]).protocol != ProtocolKind::XInput
    &&& (devices[k].protocol == ProtocolKind::XInput || (k == 0 && forall|q: int|
        0 <= q < devices.len() ==> (#[trigger] devices[q]).protocol != ProtocolKind::XInput))
}

fn first_containing(devices: &[DeviceInfo], needle: &str) -> (r: Option<usize>)
    ensures
        r matches Some(k) ==> is_first_containing(devices@, needle@, k as int),
        r is None ==> forall|k: int| 0 <= k < devices@.len() ==> !id_contains(#[trigger] devices@[k], needle@),
{
    let mut k: usize = 0;
    while k < devices.len()
        invariant
            k <= devices@.len(),
            forall|q: int| 0 <= q < k ==> !id_contains(#[trigger] devices@[q], needle@),
        decreases devices@.len() - k,
    {
        if contains_str(devices[k].id.as_str(), needle) {
            return Some(k);
        }
        k = k + 1;
    }
    None
}

fn first_with_id(devices: &[DeviceInfo], id: &str) -> (r: Option<usize>)
    ensures
        r matches Some(j) ==> is_first_with_id(devices@, id@, j as int),
        r is None ==> !has_id(devices@, id@),
{
    let mut j: usize = 0;
    while j < devices.len()
        invariant
            j <= devices@.len(),
            forall|q: int| 0 <= q < j ==> (#[trigger] devices@[q]).id@ != id@,
        decreases devices@.len() - j,
    {
        if str_eq(devices[j].id.as_str(), id) {
            return Some(j);
        }
        j = j + 1;
    }
    None
}

/// Chooses the device to measure: the one with the given id; else the
/// first whose id contains the given text; else the first XInput device or
/// the first device. The result is the index of the first device with the
/// chosen id.
pub fn select_device(devices: &[DeviceInfo], device_id: Option<&str>, device_id_contains: Option<&str>) -> (r: Result<
    usize,
    SelectError,
>)
    ensures
        device_id matches Some(id) ==> {
            ||| r matches Ok(j) && is_first_with_id(devices@, id@, j as int)
            ||| r == Err::<usize, SelectError>(SelectError::SelectedDeviceNotFound) && !has_id(devices@, id@)
        },
        device_id is None && device_id_contains is Some ==> {
            let needle = device_id_contains.unwrap()@;
            ||| exists|k: int| #[trigger] is_first_containing(devices@, needle, k) && (r matches Ok(j) && is_first_with_id(devices@, devices@[k].id@, j as int))
            ||| r == Err::<usize, SelectError>(SelectError::DeviceIdNotFound) && forall|k: int|
                0 <= k < devices@.len() ==> !id_contains(#[trigger] devices@[k], needle)
        },
        device_id is None && device_id_contains is None ==> {
            ||| exists|k: int| #[trigger] is_default_choice(devices@, k) && (r matches Ok(j) && is_first_with_id(devices@, devices@[k].id@, j as int))
            ||| r == Err::<usize, SelectError>(SelectError::NoInputDevice) && devices@.len() == 0
        },
{
    match device_id {
        Some(id) => match first_with_id(devices, id) {
            Some(j) => Ok(j),
            None => Err(SelectError::SelectedDeviceNotFound),
        },
        None => {
            let mut chosen: usize = 0;
            match device_id_contains {
                Some(needle) => {
                    match first_containing(devices, needle) {
                        Some(k) => chosen = k,
                        None => return Err(SelectError::DeviceIdNotFound),
                    }
                    let j = first_with_id(devices, devices[chosen].id.as_str());
                    match j {
                        Some(j) => Ok(j),
                        None => {
                            assert(false);
                            Err(SelectError::SelectedDeviceNotFound)
                        },
                    }
                },
                None => {
                    if devices.len() == 0 {
                        return Err(SelectError::NoInputDevice);
                    }
                    let mut k: usize = 0;
                    while k < devices.len() && devices[k].protocol != ProtocolKind::XInput
                        invariant
                            k <= devices@.len(),
                            forall|q: int| 0 <= q < k ==> (#[trigger] devices@[q]).protocol != ProtocolKind::XInput,
                        decreases devices@.len() - k,
                    {
                        k = k + 1;
                    }
                    if k < devices.len() {
                        chosen = k;
                    }
                    assert(is_default_choice(devices@, chosen as int));
                    let j = first_with_id(devices, devices[chosen].id.as_str());
                    match j {
                        Some(j) => Ok(j),
                        None => {
                            assert(false);
                            Err(SelectError::SelectedDeviceNotFound)
                        },
                    }
                },
            }
        },
    }
}

/// Chooses the trigger port: the one given, or else the first port found.
pub fn select_serial_port(serial_port: Option<&str>, ports: &[SerialDeviceInfo]) -> (r: Result<String, SelectError>)
    ensures
        serial_port matches Some(p) ==> r matches Ok(s) && s@ == p@,
        serial_port is None && ports@.len() > 0 ==> (r matches Ok(s) && s@ == ports@[0].port_name@),
        serial_port is None && ports@.len() == 0 ==> r == Err::<String, SelectError>(SelectError::NoSerialPort),
{
    match serial_port {
        Some(p) => Ok(owned(p)),
        None => {
            if ports.len() > 0 {
                Ok(owned(ports[0].port_name.as_str()))
            } else {
                Err(SelectError::NoSerialPort)
            }
        },
    }
}

/// The protocol's name in reports.
pub open spec fn spec_protocol_label(protocol: ProtocolKind) -> Seq<char> {
    match protocol {
        ProtocolKind::Ds4 => "ds4"@,
        ProtocolKind::DualSense => "dualsense"@,
        ProtocolKind::Switch => "switch"@,
        ProtocolKind::XInput => "xinput"@,
        ProtocolKind::GenericHid => "generic_hid"@,
        ProtocolKind::Unknown => "unknown"@,
    }
}

/// Names a protocol in reports.
pub fn protocol_label(protocol: &ProtocolKind) -> (r: &'static str)
    ensures
        r@ == spec_protocol_label(*protocol),
{
    match protocol {
        ProtocolKind::Ds4 => "ds4",
        ProtocolKind::DualSense => "dualsense",
        ProtocolKind::Switch => "switch",
        ProtocolKind::XInput => "xinput",
        ProtocolKind::GenericHid => "generic_hid",
        ProtocolKind::Unknown => "unknown",
    }
}

} // verus!
