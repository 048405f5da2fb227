//! Device enumeration rules: which serial port is the trigger, how HID and
//! XInput devices are named, described and matched to each other.
use vstd::prelude::*;

use crate::models::DeviceInfo;
use crate::models::ProtocolKind;
use crate::models::SerialDeviceInfo;
use crate::protocol::classify_vid_pid;
use crate::protocol::spec_classify_vid_pid;
use crate::text::append_decimal;
use crate::text::append_vid_pid;
use crate::text::decimal;
use crate::text::ends_with;
use crate::text::ends_with_parenthesized;
use crate::text::eq_ignore_ascii_case;
use crate::text::contains_in_upper;
use crate::text::occurs_at;
use crate::text::owned;
use crate::text::parse_hex_after_marker;
use crate::text::spec_hex_after_marker;
use crate::text::str_eq;
use crate::text::str_eq_ignore_ascii_case;
use crate::text::trim;
use crate::text::trim_end;
use crate::text::trim_end_str;
use crate::text::trim_str;
use crate::text::upper;
use crate::text::vid_pid_text;
use crate::collation::compare_str;
use crate::collation::compare_u16;
use crate::collation::lemma_lex_order_antisym;
use crate::collation::lemma_lex_order_eq;
use crate::collation::lemma_lex_order_trans;
use crate::collation::lex_order;
use crate::collation::num_order;
use crate::stable;

verus! {

/// USB vendor id of the trigger board.
pub const RP2040_TRIGGER_VID: u16 = 0x16C0;
/// USB product id of the trigger board.
pub const RP2040_TRIGGER_PID: u16 = 0x05E1;
/// Product name that the trigger firmware reports.
pub const INPUT_LAG_SCOPE_TRIGGER_PRODUCT: &'static str = "InputLagScope";
/// Serial number that the trigger firmware reports.
pub const INPUT_LAG_SCOPE_TRIGGER_SERIAL: &'static str = "ILS001";

/// The characters of an optional string.
pub open spec fn opt_view(o: Option<String>) -> Option<Seq<char>> {
    match o {
        Some(s) => Some(s@),
        None => None,
    }
}

/// An optional text that, trimmed, equals `expected`.
pub open spec fn text_matches(value: Option<Seq<char>>, expected: Seq<char>) -> bool {
    match value {
        Some(v) => trim(v) == expected,
        None => false,
    }
}

/// Whether an optional text, trimmed, equals `expected`.
pub fn matches_text_identifier(value: Option<&str>, expected: &str) -> (r: bool)
    ensures
        r == text_matches(
            match value {
                Some(v) => Some(v@),
                None => None,
            },
            expected@,
        ),
{
    match value {
        Some(v) => str_eq(trim_str(v), expected),
        None => false,
    }
}

fn opt_str(o: &Option<String>) -> (r: Option<&str>)
    ensures
        match r {
            Some(v) => opt_view(*o) == Some(v@),
            None => opt_view(*o) is None,
        },
{
    match o {
        Some(s) => Some(s.as_str()),
        None => None,
    }
}

/// A serial port is the trigger board when it has the board's USB ids and
/// names itself InputLagScope (display name or product) or has its serial.
pub open spec fn spec_is_trigger_port(port: SerialDeviceInfo) -> bool {
    &&& port.vid == Some(RP2040_TRIGGER_VID)
    &&& port.pid == Some(RP2040_TRIGGER_PID)
    &&& (text_matches(opt_view(port.display_name), INPUT_LAG_SCOPE_TRIGGER_PRODUCT@)
        || text_matches(opt_view(port.product), INPUT_LAG_SCOPE_TRIGGER_PRODUCT@)
        || text_matches(opt_view(port.serial_number), INPUT_LAG_SCOPE_TRIGGER_SERIAL@))
}

/// Whether a serial port is the trigger board.
pub fn is_rp2040_trigger_serial_port(port: &SerialDeviceInfo) -> (r: bool)
    ensures
        r == spec_is_trigger_port(*port),
{
    if port.vid != Some(RP2040_TRIGGER_VID) || port.pid != Some(RP2040_TRIGGER_PID) {
        return false;
    }
    let name_matches = matches_text_identifier(
        opt_str(&port.display_name),
        INPUT_LAG_SCOPE_TRIGGER_PRODUCT,
    ) || matches_text_identifier(opt_str(&port.product), INPUT_LAG_SCOPE_TRIGGER_PRODUCT);
    let serial_matches = matches_text_identifier(
        opt_str(&port.serial_number),
        INPUT_LAG_SCOPE_TRIGGER_SERIAL,
    );
    name_matches || serial_matches
}

/// The trigger boards among the serial ports, in their order.
pub fn filter_trigger_ports(ports: Vec<SerialDeviceInfo>) -> (r: Vec<SerialDeviceInfo>)
    ensures
        r@ == ports@.filter(|p: SerialDeviceInfo| spec_is_trigger_port(p)),
{
    let ghost pred = |p: SerialDeviceInfo| spec_is_trigger_port(p);
    let ghost all = ports@;
    let total = ports.len();
    let mut rest = ports;
    let mut out: Vec<SerialDeviceInfo> = Vec::new();
    let mut k: usize = 0;
    assert(all.take(0) =~= Seq::<SerialDeviceInfo>::empty());
    assert(all.skip(0) =~= all);
    while rest.len() > 0
        invariant
            k <= all.len(),
            all.len() == total,
            k + rest@.len() == all.len(),
            pred == (|p: SerialDeviceInfo| spec_is_trigger_port(p)),
            rest@ == all.skip(k as int),
            out@ == all.take(k as int).filter(pred),
        decreases rest@.len(),
    {
        let port = rest.remove(0);
        proof {
            reveal_with_fuel(Seq::filter, 1);
            assert(all.take(k + 1).drop_last() =~= all.take(k as int));
            assert(all.take(k + 1).last() == port);
            assert(all.skip(k + 1) =~= all.skip(k as int).subrange(1, all.skip(k as int).len() as int));
        }
        let keep = is_rp2040_trigger_serial_port(&port);
        assert(pred(port) == keep);
        if keep {
            out.push(port);
        }
        k = k + 1;
        assert(out@ =~= all.take(k as int).filter(pred));
    }
    assert(all.take(k as int) =~= all);
    out
}

/// A display name with white space and a trailing `(port)` removed; nothing
/// when it is empty or is the port name itself (ASCII case ignored).
pub open spec fn spec_clean_display_name(port_name: Seq<char>, value: Seq<char>) -> Option<Seq<char>> {
    let display = trim(value);
    let suffix = seq!['('] + port_name + seq![')'];
    let cleaned = if ends_with(display, suffix) {
        trim_end(display.take(display.len() - suffix.len()))
    } else {
        display
    };
    if cleaned.len() > 0 && !eq_ignore_ascii_case(cleaned, port_name) {
        Some(cleaned)
    } else {
        None
    }
}

/// Cleans a serial port's display name.
pub fn clean_serial_display_name(port_name: &str, value: &str) -> (r: Option<String>)
    ensures
        opt_view(r) == spec_clean_display_name(port_name@, value@),
{
    let display = trim_str(value);
    let cleaned = if ends_with_parenthesized(display, port_name) {
        let keep = display.unicode_len() - port_name.unicode_len() - 2;
        let cut = display.substring_char(0, keep);
        assert(cut@ =~= display@.take(keep as int));
        trim_end_str(cut)
    } else {
        display
    };
    if cleaned.unicode_len() > 0 && !str_eq_ignore_ascii_case(cleaned, port_name) {
        Some(owned(cleaned))
    } else {
        None
    }
}

/// Order of protocols in the device list: native pads, XInput, generic, unknown.
pub open spec fn spec_protocol_rank(protocol: ProtocolKind) -> u8 {
    match protocol {
        ProtocolKind::Ds4 | ProtocolKind::DualSense | ProtocolKind::Switch => 0,
        ProtocolKind::XInput => 1,
        ProtocolKind::GenericHid => 2,
        ProtocolKind::Unknown => 3,
    }
}

/// Rank of a protocol in the device list.
pub fn protocol_rank(protocol: &ProtocolKind) -> (r: u8)
    ensures
        r == spec_protocol_rank(*protocol),
{
    match protocol {
        ProtocolKind::Ds4 | ProtocolKind::DualSense | ProtocolKind::Switch => 0,
        ProtocolKind::XInput => 1,
        ProtocolKind::GenericHid => 2,
        ProtocolKind::Unknown => 3,
    }
}

/// Protocol of a HID device, by its USB ids.
pub fn classify_hid_device(vid: u16, pid: u16) -> (r: ProtocolKind)
    ensures
        r == spec_classify_vid_pid(vid, pid),
{
    classify_vid_pid(vid, pid)
}

/// A device path names the XInput HID interface when it holds `&IG_`
/// (ASCII case ignored).
pub open spec fn spec_is_xinput_path(path: Seq<char>) -> bool {
    exists|i: int| #[trigger] occurs_at(upper(path), "&IG_"@, i)
}

/// Whether a device path is an XInput controller's HID interface.
pub fn is_xinput_hid_interface(path: &str) -> (r: bool)
    ensures
        r == spec_is_xinput_path(path@),
{
    contains_in_upper(path, "&IG_")
}

/// The USB interface number in a device path (`MI_xx`), or -1.
pub open spec fn spec_interface_number(path: Seq<char>) -> i32 {
    match spec_hex_after_marker(path, "MI_"@) {
        Some(n) => n,
        None => -1i32,
    }
}

/// Reads the USB interface number from a device path.
pub fn parse_interface_number(path: &str) -> (r: i32)
    ensures
        r == spec_interface_number(path@),
{
    match parse_hex_after_marker(path, "MI_") {
        Some(n) => n,
        None => -1,
    }
}

/// A string trimmed of white space, when anything is left.
pub open spec fn spec_normalized(value: Option<Seq<char>>) -> Option<Seq<char>> {
    match value {
        Some(v) => if trim(v).len() > 0 {
            Some(trim(v))
        } else {
            None
        },
        None => None,
    }
}

/// Trims a string; an empty result is no string.
pub fn normalized_string(value: Option<&str>) -> (r: Option<String>)
    ensures
        opt_view(r) == spec_normalized(
            match value {
                Some(v) => Some(v@),
                None => None,
            },
        ),
{
    match value {
        Some(v) => {
            let t = trim_str(v);
            if t.unicode_len() > 0 {
                Some(owned(t))
            } else {
                None
            }
        },
        None => None,
    }
}

/// A normalized string that is not a placeholder in parentheses.
pub open spec fn spec_normalized_non_standard(value: Option<Seq<char>>) -> Option<Seq<char>> {
    match spec_normalized(value) {
        Some(v) => if v[0] == '(' {
            None
        } else {
            Some(v)
        },
        None => None,
    }
}

/// Trims a string and drops it when empty or a `(...)` placeholder.
pub fn normalized_non_standard_string(value: Option<&str>) -> (r: Option<String>)
    ensures
        opt_view(r) == spec_normalized_non_standard(
            match value {
                Some(v) => Some(v@),
                None => None,
            },
        ),
{
    match normalized_string(value) {
        Some(v) => {
            if v.as_str().get_char(0) == '(' {
                None
            } else {
                Some(v)
            }
        },
        None => None,
    }
}

/// The only value of a set, when it has exactly one.
pub fn single_string(values: Vec<String>) -> (r: Option<String>)
    ensures
        values@.len() == 1 ==> r == Some(values@[0]),
        values@.len() != 1 ==> r is None,
{
    let mut values = values;
    if values.len() == 1 {
        values.pop()
    } else {
        None
    }
}


/// A HID top-level collection as the system lists it.
#[derive(Clone, Debug)]
pub struct RawHidDevice {
    pub vendor_id: u16,
    pub product_id: u16,
    pub usage_page: u16,
    pub usage: u16,
    pub interface_number: i32,
    pub product: Option<String>,
    pub manufacturer: Option<String>,
    pub serial_number: Option<String>,
    pub path: String,
}

/// The HID interface of an XInput controller, used to describe its slot.
#[derive(Clone, Debug)]
pub struct XInputHidMetadata {
    pub name: String,
    pub vendor_id: u16,
    pub product_id: u16,
    pub usage_page: u16,
    pub usage: u16,
    pub interface_number: i32,
    pub manufacturer: Option<String>,
    pub serial_number: Option<String>,
    pub path: String,
}

/// A copy of an optional string.
pub fn clone_opt(o: &Option<String>) -> (r: Option<String>)
    ensures
        r == *o,
{
    match o {
        Some(s) => Some(s.clone()),
        None => None,
    }
}

/// Text followed by a USB id pair, as in `HID Gamepad 054C:09CC`.
fn text_with_vid_pid(prefix: &str, vid: u16, pid: u16) -> (r: String)
    ensures
        r@ == prefix@ + vid_pid_text(vid, pid),
{
    let mut out = owned(prefix);
    append_vid_pid(&mut out, vid, pid);
    out
}

/// Text followed by a decimal number, as in `xinput:0`.
fn text_with_number(prefix: &str, n: u32) -> (r: String)
    ensures
        r@ == prefix@ + decimal(n as nat),
{
    let mut out = owned(prefix);
    append_decimal(&mut out, n);
    out
}

/// Text followed by another text, as in `hid:` and a path.
fn text_with_text(prefix: &str, rest: &str) -> (r: String)
    ensures
        r@ == prefix@ + rest@,
{
    let mut out = owned(prefix);
    out.append(rest);
    out
}

/// A gamepad's name: its product string, else `HID Gamepad vvvv:pppp`.
pub open spec fn spec_raw_hid_name(device: RawHidDevice) -> Seq<char> {
    match device.product {
        Some(p) => p@,
        None => "HID Gamepad "@ + vid_pid_text(device.vendor_id, device.product_id),
    }
}

/// Names a raw HID gamepad.
pub fn raw_hid_name(device: &RawHidDevice) -> (r: String)
    ensures
        r@ == spec_raw_hid_name(*device),
{
    match &device.product {
        Some(p) => p.clone(),
        None => text_with_vid_pid("HID Gamepad ", device.vendor_id, device.product_id),
    }
}

/// How a raw HID gamepad is listed: `hid:` and its path as id, its USB ids
/// and usages, its strings, and no parsed report layout yet.
pub open spec fn spec_raw_hid_device_info(device: RawHidDevice, d: DeviceInfo) -> bool {
    spec_described_hid(device, spec_raw_hid_name(device), d)
}

/// A HID gamepad listed under `name`.
pub open spec fn spec_described_hid(device: RawHidDevice, name: Seq<char>, d: DeviceInfo) -> bool {
    &&& d.id@ == "hid:"@ + device.path@
    &&& d.name@ == name
    &&& d.protocol == spec_classify_vid_pid(device.vendor_id, device.product_id)
    &&& d.vendor_id == Some(device.vendor_id)
    &&& d.product_id == Some(device.product_id)
    &&& d.usage_page == Some(device.usage_page)
    &&& d.usage == Some(device.usage)
    &&& d.interface_number == Some(device.interface_number)
    &&& d.manufacturer == device.manufacturer
    &&& d.serial_number == device.serial_number
    &&& d.path == Some(device.path)
    &&& d.xinput_user_index is None
    &&& d.input_report_bytes is None
    &&& d.parsed_button_count is None
    &&& d.parsed_axis_count is None
    &&& d.report_ids@.len() == 0
}

/// Describes a raw HID gamepad.
pub fn raw_hid_device_info(device: &RawHidDevice) -> (d: DeviceInfo)
    ensures
        spec_raw_hid_device_info(*device, d),
{
    DeviceInfo {
        id: text_with_text("hid:", device.path.as_str()),
        name: raw_hid_name(device),
        protocol: classify_hid_device(device.vendor_id, device.product_id),
        vendor_id: Some(device.vendor_id),
        product_id: Some(device.product_id),
        usage_page: Some(device.usage_page),
        usage: Some(device.usage),
        interface_number: Some(device.interface_number),
        manufacturer: clone_opt(&device.manufacturer),
        serial_number: clone_opt(&device.serial_number),
        path: Some(device.path.clone()),
        xinput_user_index: None,
        input_report_bytes: None,
        parsed_button_count: None,
        parsed_axis_count: None,
        report_ids: Vec::new(),
    }
}

/// A HID entry is listed as a gamepad when it is a Generic Desktop joystick
/// or game pad that is not an XInput interface.
pub open spec fn spec_is_listed_gamepad(device: RawHidDevice) -> bool {
    !spec_is_xinput_path(device.path@) && device.usage_page == 0x01 && (device.usage == 0x04
        || device.usage == 0x05)
}

/// Whether a HID entry is listed as a gamepad.
pub fn is_listed_gamepad(device: &RawHidDevice) -> (r: bool)
    ensures
        r == spec_is_listed_gamepad(*device),
{
    !is_xinput_hid_interface(device.path.as_str()) && device.usage_page == 0x01 && (device.usage
        == 0x04 || device.usage == 0x05)
}

/// The XInput metadata of a raw HID interface: its product string or
/// `XInput Controller vvvv:pppp` as name, and its ids, usages and strings.
pub open spec fn spec_raw_metadata(device: RawHidDevice, m: XInputHidMetadata) -> bool {
    &&& m.name@ == match device.product {
        Some(p) => p@,
        None => "XInput Controller "@ + vid_pid_text(device.vendor_id, device.product_id),
    }
    &&& m.vendor_id == device.vendor_id
    &&& m.product_id == device.product_id
    &&& m.usage_page == device.usage_page
    &&& m.usage == device.usage
    &&& m.interface_number == device.interface_number
    &&& m.manufacturer == device.manufacturer
    &&& m.serial_number == device.serial_number
    &&& m.path == device.path
}

fn raw_metadata(device: &RawHidDevice) -> (m: XInputHidMetadata)
    ensures
        spec_raw_metadata(*device, m),
{
    XInputHidMetadata {
        name: match &device.product {
            Some(p) => p.clone(),
            None => text_with_vid_pid("XInput Controller ", device.vendor_id, device.product_id),
        },
        vendor_id: device.vendor_id,
        product_id: device.product_id,
        usage_page: device.usage_page,
        usage: device.usage,
        interface_number: device.interface_number,
        manufacturer: clone_opt(&device.manufacturer),
        serial_number: clone_opt(&device.serial_number),
        path: device.path.clone(),
    }
}

/// Order of XInput metadata: by path, then (when asked) name, then vendor
/// and product id.
pub open spec fn metadata_order(a: XInputHidMetadata, b: XInputHidMetadata, by_name: bool) -> int {
    let p = lex_order(a.path@, b.path@);
    let n = if by_name { lex_order(a.name@, b.name@) } else { 0 };
    let v = num_order(a.vendor_id as int, b.vendor_id as int);
    let q = num_order(a.product_id as int, b.product_id as int);
    if p != 0 { p } else if n != 0 { n } else if v != 0 { v } else { q }
}

pub open spec fn sorted_metadata(s: Seq<XInputHidMetadata>, by_name: bool) -> bool {
    forall|i: int, j: int| 0 <= i < j < s.len() ==> metadata_order(#[trigger] s[i], #[trigger] s[j], by_name) <= 0
}

proof fn lemma_metadata_order(a: XInputHidMetadata, b: XInputHidMetadata, c: XInputHidMetadata, by_name: bool)
    ensures
        metadata_order(a, b, by_name) == -metadata_order(b, a, by_name),
        metadata_order(a, b, by_name) <= 0 && metadata_order(b, c, by_name) <= 0 ==> metadata_order(a, c, by_name) <= 0,
        metadata_order(a, b, by_name) <= 0 && metadata_order(b, c, by_name) < 0 ==> metadata_order(a, c, by_name) < 0,
{
    lemma_lex_order_antisym(a.path@, b.path@);
    lemma_lex_order_antisym(b.path@, c.path@);
    lemma_lex_order_antisym(a.path@, c.path@);
    lemma_lex_order_antisym(a.name@, b.name@);
    lemma_lex_order_antisym(b.name@, c.name@);
    lemma_lex_order_antisym(a.name@, c.name@);
    lemma_lex_order_eq(a.path@, b.path@);
    lemma_lex_order_eq(b.path@, c.path@);
    lemma_lex_order_eq(a.name@, b.name@);
    lemma_lex_order_eq(b.name@, c.name@);
    if lex_order(a.path@, b.path@) <= 0 && lex_order(b.path@, c.path@) <= 0 {
        lemma_lex_order_trans(a.path@, b.path@, c.path@);
    }
    if lex_order(a.name@, b.name@) <= 0 && lex_order(b.name@, c.name@) <= 0 {
        lemma_lex_order_trans(a.name@, b.name@, c.name@);
    }
}

fn compare_metadata(a: &XInputHidMetadata, b: &XInputHidMetadata, by_name: bool) -> (r: i8)
    ensures
        r as int == metadata_order(*a, *b, by_name),
{
    let p = compare_str(a.path.as_str(), b.path.as_str());
    if p != 0 {
        return p;
    }
    if by_name {
        let n = compare_str(a.name.as_str(), b.name.as_str());
        if n != 0 {
            return n;
        }
    }
    let v = compare_u16(a.vendor_id, b.vendor_id);
    if v != 0 {
        return v;
    }
    compare_u16(a.product_id, b.product_id)
}

/// The metadata that sort equal to `k`.
pub open spec fn same_metadata_key(k: XInputHidMetadata, by_name: bool) -> spec_fn(XInputHidMetadata) -> bool {
    |x: XInputHidMetadata| metadata_order(x, k, by_name) == 0
}

proof fn lemma_metadata_key_class(x: XInputHidMetadata, y: XInputHidMetadata, k: XInputHidMetadata, by_name: bool)
    requires
        metadata_order(x, k, by_name) == 0,
        metadata_order(y, k, by_name) == 0,
    ensures
        metadata_order(x, y, by_name) == 0,
{
    lemma_metadata_order(x, k, y, by_name);
    lemma_metadata_order(k, y, x, by_name);
    lemma_metadata_order(y, k, x, by_name);
    lemma_metadata_order(x, y, k, by_name);
}

/// Sorts XInput metadata; entries that sort equal keep their order (stable
/// insertion sort).
pub fn sort_metadata(items: Vec<XInputHidMetadata>, by_name: bool) -> (r: Vec<XInputHidMetadata>)
    ensures
        r@.to_multiset() == items@.to_multiset(),
        sorted_metadata(r@, by_name),
        forall|k: XInputHidMetadata| #[trigger] r@.filter(same_metadata_key(k, by_name)) == items@.filter(same_metadata_key(k, by_name)),
{
    broadcast use vstd::seq_lib::group_to_multiset_ensures;
    let ghost all = items@;
    let total = items.len();
    let mut rest = items;
    let mut out: Vec<XInputHidMetadata> = Vec::new();
    let mut k: usize = 0;
    assert(all.take(0) =~= Seq::<XInputHidMetadata>::empty());
    assert(all.skip(0) =~= all);
    while rest.len() > 0
        invariant
            all.len() == total,
            k + rest@.len() == total,
            rest@ == all.skip(k as int),
            out@.to_multiset() == all.take(k as int).to_multiset(),
            sorted_metadata(out@, by_name),
            forall|c: XInputHidMetadata| #[trigger] out@.filter(same_metadata_key(c, by_name)) == all.take(k as int).filter(same_metadata_key(c, by_name)),
        decreases rest@.len(),
    {
        let item = rest.remove(0);
        assert(all.skip(k + 1) =~= all.skip(k as int).subrange(1, all.skip(k as int).len() as int));
        assert(all.take(k + 1) =~= all.take(k as int).push(item));
        let mut j: usize = 0;
        loop
            invariant
                j <= out@.len(),
                forall|q: int| 0 <= q < j ==> metadata_order(item, #[trigger] out@[q], by_name) >= 0,
            ensures
                j <= out@.len(),
                forall|q: int| 0 <= q < j ==> metadata_order(item, #[trigger] out@[q], by_name) >= 0,
                j == out@.len() || metadata_order(item, out@[j as int], by_name) < 0,
            decreases out@.len() - j,
        {
            if j == out.len() {
                break;
            }
            if compare_metadata(&item, &out[j], by_name) < 0 {
                break;
            }
            j = j + 1;
        }
        let ghost before = out@;
        out.insert(j, item);
        proof {
            vstd::seq_lib::to_multiset_insert(before, j as int, item);
            vstd::seq_lib::to_multiset_build(all.take(k as int), item);
            assert(out@ == before.insert(j as int, item));
            assert forall|a: int, b: int| 0 <= a < b < out@.len() implies metadata_order(
                #[trigger] out@[a],
                #[trigger] out@[b],
                by_name,
            ) <= 0 by {
                if b < j {
                    assert(out@[a] == before[a] && out@[b] == before[b]);
                } else if b == j {
                    assert(out@[a] == before[a]);
                    lemma_metadata_order(item, before[a], item, by_name);
                } else if a == j {
                    assert(out@[b] == before[b - 1]);
                    lemma_metadata_order(item, before[j as int], before[b - 1], by_name);
                    lemma_metadata_order(before[j as int], item, before[b - 1], by_name);
                    if b - 1 > j {
                        assert(metadata_order(before[j as int], before[b - 1], by_name) <= 0);
                    }
                    lemma_metadata_order(item, before[j as int], before[b - 1], by_name);
                } else if a < j {
                    assert(out@[a] == before[a] && out@[b] == before[b - 1]);
                    if a < b - 1 {
                        assert(metadata_order(before[a], before[b - 1], by_name) <= 0);
                    }
                } else {
                    assert(out@[a] == before[a - 1] && out@[b] == before[b - 1]);
                    assert(metadata_order(before[a - 1], before[b - 1], by_name) <= 0);
                }
            }
            assert forall|q: int| j <= q < before.len() implies metadata_order(item, #[trigger] before[q], by_name) < 0 by {
                lemma_metadata_order(item, before[j as int], before[q], by_name);
                lemma_metadata_order(before[j as int], before[q], item, by_name);
                lemma_metadata_order(before[q], item, before[j as int], by_name);
                if q > j {
                    assert(metadata_order(before[j as int], before[q], by_name) <= 0);
                }
            }
            assert forall|c: XInputHidMetadata| #[trigger] out@.filter(same_metadata_key(c, by_name)) == all.take(k + 1).filter(same_metadata_key(c, by_name)) by {
                let p = same_metadata_key(c, by_name);
                stable::lemma_filter_push(all.take(k as int), item, p);
                if p(item) {
                    assert forall|q: int| j <= q < before.len() implies !p(#[trigger] before[q]) by {
                        if p(before[q]) {
                            lemma_metadata_key_class(item, before[q], c, by_name);
                        }
                    }
                    stable::lemma_filter_insert_after(before, j as int, item, p);
                } else {
                    stable::lemma_filter_insert_rejected(before, j as int, item, p);
                }
            }
        }
        k = k + 1;
    }
    assert(all.take(k as int) =~= all);
    out
}


/// Order of listed devices: by protocol rank, then by name.
pub open spec fn device_order(a: DeviceInfo, b: DeviceInfo) -> int {
    let r = num_order(spec_protocol_rank(a.protocol) as int, spec_protocol_rank(b.protocol) as int);
    if r != 0 { r } else { lex_order(a.name@, b.name@) }
}

pub open spec fn sorted_devices(s: Seq<DeviceInfo>) -> bool {
    forall|i: int, j: int| 0 <= i < j < s.len() ==> device_order(#[trigger] s[i], #[trigger] s[j]) <= 0
}

proof fn lemma_device_order(a: DeviceInfo, b: DeviceInfo, c: DeviceInfo)
    ensures
        device_order(a, b) == -device_order(b, a),
        device_order(a, b) <= 0 && device_order(b, c) <= 0 ==> device_order(a, c) <= 0,
        device_order(a, b) <= 0 && device_order(b, c) < 0 ==> device_order(a, c) < 0,
{
    lemma_lex_order_antisym(a.name@, b.name@);
    lemma_lex_order_antisym(b.name@, c.name@);
    lemma_lex_order_antisym(a.name@, c.name@);
    if lex_order(a.name@, b.name@) <= 0 && lex_order(b.name@, c.name@) <= 0 {
        lemma_lex_order_trans(a.name@, b.name@, c.name@);
    }
}

fn compare_devices(a: &DeviceInfo, b: &DeviceInfo) -> (r: i8)
    ensures
        r as int == device_order(*a, *b),
{
    let ra = protocol_rank(&a.protocol);
    let rb = protocol_rank(&b.protocol);
    if ra < rb {
        return -1;
    }
    if ra > rb {
        return 1;
    }
    compare_str(a.name.as_str(), b.name.as_str())
}

/// The devices that sort equal to `k`.
pub open spec fn same_device_key(k: DeviceInfo) -> spec_fn(DeviceInfo) -> bool {
    |x: DeviceInfo| device_order(x, k) == 0
}

proof fn lemma_device_key_class(x: DeviceInfo, y: DeviceInfo, k: DeviceInfo)
    requires
        device_order(x, k) == 0,
        device_order(y, k) == 0,
    ensures
        device_order(x, y) == 0,
{
    lemma_device_order(x, k, y);
    lemma_device_order(k, y, x);
    lemma_device_order(y, k, x);
    lemma_device_order(x, y, k);
}

/// Orders devices by protocol rank, then name; devices that sort equal
/// keep their order (stable insertion sort).
pub fn sort_devices(items: Vec<DeviceInfo>) -> (r: Vec<DeviceInfo>)
    ensures
        r@.to_multiset() == items@.to_multiset(),
        sorted_devices(r@),
        forall|k: DeviceInfo| #[trigger] r@.filter(same_device_key(k)) == items@.filter(same_device_key(k)),
{
    broadcast use vstd::seq_lib::group_to_multiset_ensures;
    let ghost all = items@;
    let total = items.len();
    let mut rest = items;
    let mut out: Vec<DeviceInfo> = Vec::new();
    let mut k: usize = 0;
    assert(all.take(0) =~= Seq::<DeviceInfo>::empty());
    assert(all.skip(0) =~= all);
    while rest.len() > 0
        invariant
            all.len() == total,
            k + rest@.len() == total,
            rest@ == all.skip(k as int),
            out@.to_multiset() == all.take(k as int).to_multiset(),
            sorted_devices(out@),
            forall|c: DeviceInfo| #[trigger] out@.filter(same_device_key(c)) == all.take(k as int).filter(same_device_key(c)),
        decreases rest@.len(),
    {
        let item = rest.remove(0);
        assert(all.skip(k + 1) =~= all.skip(k as int).subrange(1, all.skip(k as int).len() as int));
        assert(all.take(k + 1) =~= all.take(k as int).push(item));
        let mut j: usize = 0;
        loop
            invariant
                j <= out@.len(),
                forall|q: int| 0 <= q < j ==> device_order(item, #[trigger] out@[q]) >= 0,
            ensures
                j <= out@.len(),
                forall|q: int| 0 <= q < j ==> device_order(item, #[trigger] out@[q]) >= 0,
                j == out@.len() || device_order(item, out@[j as int]) < 0,
            decreases out@.len() - j,
        {
            if j == out.len() {
                break;
            }
            if compare_devices(&item, &out[j]) < 0 {
                break;
            }
            j = j + 1;
        }
        let ghost before = out@;
        out.insert(j, item);
        proof {
            vstd::seq_lib::to_multiset_insert(before, j as int, item);
            vstd::seq_lib::to_multiset_build(all.take(k as int), item);
            assert(out@ == before.insert(j as int, item));
            assert forall|a: int, b: int| 0 <= a < b < out@.len() implies device_order(
                #[trigger] out@[a],
                #[trigger] out@[b],
            ) <= 0 by {
                if b < j {
                    assert(out@[a] == before[a] && out@[b] == before[b]);
                } else if b == j {
                    assert(out@[a] == before[a]);
                    lemma_device_order(item, before[a], item);
                } else if a == j {
                    assert(out@[b] == before[b - 1]);
                    lemma_device_order(item, before[j as int], before[b - 1]);
                    lemma_device_order(before[j as int], item, before[b - 1]);
                    if b - 1 > j {
                        assert(device_order(before[j as int], before[b - 1]) <= 0);
                    }
                    lemma_device_order(item, before[j as int], before[b - 1]);
                } else if a < j {
                    assert(out@[a] == before[a] && out@[b] == before[b - 1]);
                    if a < b - 1 {
                        assert(device_order(before[a], before[b - 1]) <= 0);
                    }
                } else {
                    assert(out@[a] == before[a - 1] && out@[b] == before[b - 1]);
                    assert(device_order(before[a - 1], before[b - 1]) <= 0);
                }
            }
            assert forall|q: int| j <= q < before.len() implies device_order(item, #[trigger] before[q]) < 0 by {
                lemma_device_order(item, before[j as int], before[q]);
                lemma_device_order(before[j as int], before[q], item);
                lemma_device_order(before[q], item, before[j as int]);
                if q > j {
                    assert(device_order(before[j as int], before[q]) <= 0);
                }
            }
            assert forall|c: DeviceInfo| #[trigger] out@.filter(same_device_key(c)) == all.take(k + 1).filter(same_device_key(c)) by {
                let p = same_device_key(c);
                stable::lemma_filter_push(all.take(k as int), item, p);
                if p(item) {
                    assert forall|q: int| j <= q < before.len() implies !p(#[trigger] before[q]) by {
                        if p(before[q]) {
                            lemma_device_key_class(item, before[q], c);
                        }
                    }
                    stable::lemma_filter_insert_after(before, j as int, item, p);
                } else {
                    stable::lemma_filter_insert_rejected(before, j as int, item, p);
                }
            }
        }
        k = k + 1;
    }
    assert(all.take(k as int) =~= all);
    out
}


/// The HID entries that are XInput interfaces, in their order.
pub open spec fn xinput_interfaces(devices: Seq<RawHidDevice>) -> Seq<RawHidDevice> {
    devices.filter(|d: RawHidDevice| spec_is_xinput_path(d.path@))
}

/// The XInput metadata of the raw HID interfaces, in path and id order.
pub fn collect_raw_xinput_metadata(devices: &[RawHidDevice]) -> (r: Vec<XInputHidMetadata>)
    ensures
        exists|mid: Seq<XInputHidMetadata>|
            #![trigger mid.to_multiset()]
            {
                &&& mid.len() == xinput_interfaces(devices@).len()
                &&& forall|i: int|
                    0 <= i < mid.len() ==> spec_raw_metadata(
                        xinput_interfaces(devices@)[i],
                        #[trigger] mid[i],
                    )
                &&& r@.to_multiset() == mid.to_multiset()
                &&& forall|k: XInputHidMetadata| #[trigger] r@.filter(same_metadata_key(k, false)) == mid.filter(same_metadata_key(k, false))
            },
        sorted_metadata(r@, false),
{
    let ghost pred = |d: RawHidDevice| spec_is_xinput_path(d.path@);
    let mut metadata: Vec<XInputHidMetadata> = Vec::new();
    let mut i: usize = 0;
    assert(devices@.take(0).filter(pred) =~= Seq::<RawHidDevice>::empty()) by {
        reveal_with_fuel(Seq::filter, 1);
    }
    while i < devices.len()
        invariant
            i <= devices@.len(),
            pred == (|d: RawHidDevice| spec_is_xinput_path(d.path@)),
            metadata@.len() == devices@.take(i as int).filter(pred).len(),
            forall|q: int|
                0 <= q < metadata@.len() ==> spec_raw_metadata(
                    #[trigger] devices@.take(i as int).filter(pred)[q],
                    metadata@[q],
                ),
        decreases devices@.len() - i,
    {
        let device = &devices[i];
        proof {
            reveal_with_fuel(Seq::filter, 1);
            assert(devices@.take(i + 1).drop_last() =~= devices@.take(i as int));
        }
        let ghost prev = devices@.take(i as int).filter(pred);
        if is_xinput_hid_interface(device.path.as_str()) {
            metadata.push(raw_metadata(device));
            assert(devices@.take(i + 1).filter(pred) == prev.push(*device));
        } else {
            assert(devices@.take(i + 1).filter(pred) == prev);
        }
        i = i + 1;
    }
    assert(devices@.take(i as int) =~= devices@);
    let ghost mid = metadata@;
    let sorted = sort_metadata(metadata, false);
    assert(mid.len() == xinput_interfaces(devices@).len());
    assert(forall|q: int| 0 <= q < mid.len() ==> spec_raw_metadata(xinput_interfaces(devices@)[q], #[trigger] mid[q]));
    assert(sorted@.to_multiset() == mid.to_multiset());
    assert(forall|k: XInputHidMetadata| #[trigger] sorted@.filter(same_metadata_key(k, false)) == mid.filter(same_metadata_key(k, false)));
    sorted
}

/// A HID entry that can tell about a product's strings: one of its
/// interfaces that is not the XInput interface.
pub open spec fn is_supplement_source(d: RawHidDevice, vid: u16, pid: u16) -> bool {
    !spec_is_xinput_path(d.path@) && d.vendor_id == vid && d.product_id == pid
}

/// The trimmed manufacturer string (or, with `serial`, serial number) of an entry.
pub open spec fn entry_string(d: RawHidDevice, serial: bool) -> Option<Seq<char>> {
    spec_normalized(opt_view(if serial { d.serial_number } else { d.manufacturer }))
}

/// `v` is the only string that the product's other interfaces give.
pub open spec fn is_agreed_value(devices: Seq<RawHidDevice>, vid: u16, pid: u16, serial: bool, v: Seq<char>) -> bool {
    &&& exists|i: int| 0 <= i < devices.len() && is_supplement_source(devices[i], vid, pid) && #[trigger] entry_string(devices[i], serial) == Some(v)
    &&& forall|i: int| 0 <= i < devices.len() && is_supplement_source(devices[i], vid, pid) && (#[trigger] entry_string(devices[i], serial)) is Some ==> entry_string(devices[i], serial) == Some(v)
}

/// The string the other interfaces of a product agree on, if they give one
/// and only one.
pub open spec fn agreed_value(devices: Seq<RawHidDevice>, vid: u16, pid: u16, serial: bool) -> Option<Seq<char>> {
    if exists|v: Seq<char>| #[trigger] is_agreed_value(devices, vid, pid, serial, v) {
        Some(choose|v: Seq<char>| #[trigger] is_agreed_value(devices, vid, pid, serial, v))
    } else {
        None
    }
}

fn entry_string_exec(d: &RawHidDevice, serial: bool) -> (r: Option<String>)
    ensures
        opt_view(r) == entry_string(*d, serial),
{
    if serial {
        normalized_string(opt_str(&d.serial_number))
    } else {
        normalized_string(opt_str(&d.manufacturer))
    }
}

/// Finds the manufacturer (or serial number) that all other interfaces of
/// a product agree on.
pub fn agreed_string(devices: &[RawHidDevice], vid: u16, pid: u16, serial: bool) -> (r: Option<String>)
    ensures
        opt_view(r) == agreed_value(devices@, vid, pid, serial),
{
    let mut found: Option<String> = None;
    let mut conflict = false;
    let mut k: usize = 0;
    let ghost mut witness: int = 0;
    let ghost mut clash: int = 0;
    while k < devices.len()
        invariant
            k <= devices@.len(),
            found is None ==> !conflict,
            found is None ==> forall|i: int| 0 <= i < k && is_supplement_source(devices@[i], vid, pid) ==> (#[trigger] entry_string(devices@[i], serial)) is None,
            found is Some ==> 0 <= witness < k && is_supplement_source(devices@[witness], vid, pid) && entry_string(devices@[witness], serial) == Some(found.unwrap()@),
            found is Some && !conflict ==> forall|i: int| 0 <= i < k && is_supplement_source(devices@[i], vid, pid) && (#[trigger] entry_string(devices@[i], serial)) is Some ==> entry_string(devices@[i], serial) == Some(found.unwrap()@),
            found is Some && conflict ==> 0 <= clash < k && is_supplement_source(devices@[clash], vid, pid) && entry_string(devices@[clash], serial) is Some && entry_string(devices@[clash], serial) != Some(found.unwrap()@),
        decreases devices@.len() - k,
    {
        let d = &devices[k];
        if !is_xinput_hid_interface(d.path.as_str()) && d.vendor_id == vid && d.product_id == pid {
            let value = entry_string_exec(d, serial);
            match value {
                Some(v) => {
                    match &found {
                        Some(f) => {
                            if !str_eq(f.as_str(), v.as_str()) && !conflict {
                                conflict = true;
                                proof { clash = k as int; }
                            }
                        },
                        None => {
                            found = Some(v);
                            proof { witness = k as int; }
                        },
                    }
                },
                None => {},
            }
        }
        k = k + 1;
    }
    let ghost ds = devices@;
    if conflict {
        proof {
            let f = found.unwrap()@;
            if exists|v: Seq<char>| #[trigger] is_agreed_value(ds, vid, pid, serial, v) {
                let v = choose|v: Seq<char>| #[trigger] is_agreed_value(ds, vid, pid, serial, v);
                assert(entry_string(ds[witness], serial) == Some(v));
                assert(entry_string(ds[clash], serial) == Some(v));
            }
        }
        None
    } else {
        proof {
            if found is Some {
                let f = found.unwrap()@;
                assert(is_agreed_value(ds, vid, pid, serial, f));
                let v = choose|v: Seq<char>| #[trigger] is_agreed_value(ds, vid, pid, serial, v);
                assert(entry_string(ds[witness], serial) == Some(v));
            } else {
                if exists|v: Seq<char>| #[trigger] is_agreed_value(ds, vid, pid, serial, v) {
                    let v = choose|v: Seq<char>| #[trigger] is_agreed_value(ds, vid, pid, serial, v);
                    let i = choose|i: int| 0 <= i < ds.len() && is_supplement_source(ds[i], vid, pid) && #[trigger] entry_string(ds[i], serial) == Some(v);
                    assert(entry_string(ds[i], serial) is None);
                }
            }
        }
        found
    }
}

/// The XInput metadata of an interface on a system where the HID library
/// lists it: its trimmed product string or `XInput Controller vvvv:pppp` as
/// name; the manufacturer and serial number the product's other interfaces
/// agree on, else its own (a manufacturer in parentheses counts as none).
pub open spec fn spec_supplemented_metadata(devices: Seq<RawHidDevice>, device: RawHidDevice, m: XInputHidMetadata) -> bool {
    &&& m.name@ == match spec_normalized(opt_view(device.product)) {
        Some(p) => p,
        None => "XInput Controller "@ + vid_pid_text(device.vendor_id, device.product_id),
    }
    &&& m.vendor_id == device.vendor_id
    &&& m.product_id == device.product_id
    &&& m.usage_page == device.usage_page
    &&& m.usage == device.usage
    &&& m.interface_number == device.interface_number
    &&& opt_view(m.manufacturer) == match agreed_value(devices, device.vendor_id, device.product_id, false) {
        Some(v) => Some(v),
        None => spec_normalized_non_standard(opt_view(device.manufacturer)),
    }
    &&& opt_view(m.serial_number) == match agreed_value(devices, device.vendor_id, device.product_id, true) {
        Some(v) => Some(v),
        None => spec_normalized(opt_view(device.serial_number)),
    }
    &&& m.path@ == device.path@
}

fn supplemented_metadata(devices: &[RawHidDevice], device: &RawHidDevice) -> (m: XInputHidMetadata)
    ensures
        spec_supplemented_metadata(devices@, *device, m),
{
    let name = match normalized_string(opt_str(&device.product)) {
        Some(p) => p,
        None => text_with_vid_pid("XInput Controller ", device.vendor_id, device.product_id),
    };
    let manufacturer = match agreed_string(devices, device.vendor_id, device.product_id, false) {
        Some(v) => Some(v),
        None => normalized_non_standard_string(opt_str(&device.manufacturer)),
    };
    let serial_number = match agreed_string(devices, device.vendor_id, device.product_id, true) {
        Some(v) => Some(v),
        None => normalized_string(opt_str(&device.serial_number)),
    };
    XInputHidMetadata {
        name,
        vendor_id: device.vendor_id,
        product_id: device.product_id,
        usage_page: device.usage_page,
        usage: device.usage,
        interface_number: device.interface_number,
        manufacturer,
        serial_number,
        path: owned(device.path.as_str()),
    }
}

/// The XInput metadata of the interfaces the HID library lists, with the
/// strings of the products' other interfaces, in path, name and id order.
pub fn collect_xinput_hid_metadata(devices: &[RawHidDevice]) -> (r: Vec<XInputHidMetadata>)
    ensures
        exists|mid: Seq<XInputHidMetadata>|
            #![trigger mid.to_multiset()]
            {
                &&& mid.len() == xinput_interfaces(devices@).len()
                &&& forall|i: int|
                    0 <= i < mid.len() ==> spec_supplemented_metadata(
                        devices@,
                        xinput_interfaces(devices@)[i],
                        #[trigger] mid[i],
                    )
                &&& r@.to_multiset() == mid.to_multiset()
                &&& forall|k: XInputHidMetadata| #[trigger] r@.filter(same_metadata_key(k, true)) == mid.filter(same_metadata_key(k, true))
            },
        sorted_metadata(r@, true),
{
    let ghost pred = |d: RawHidDevice| spec_is_xinput_path(d.path@);
    let mut metadata: Vec<XInputHidMetadata> = Vec::new();
    let mut i: usize = 0;
    assert(devices@.take(0).filter(pred) =~= Seq::<RawHidDevice>::empty()) by {
        reveal_with_fuel(Seq::filter, 1);
    }
    while i < devices.len()
        invariant
            i <= devices@.len(),
            pred == (|d: RawHidDevice| spec_is_xinput_path(d.path@)),
            metadata@.len() == devices@.take(i as int).filter(pred).len(),
            forall|q: int|
                0 <= q < metadata@.len() ==> spec_supplemented_metadata(
                    devices@,
                    #[trigger] devices@.take(i as int).filter(pred)[q],
                    metadata@[q],
                ),
        decreases devices@.len() - i,
    {
        let device = &devices[i];
        proof {
            reveal_with_fuel(Seq::filter, 1);
            assert(devices@.take(i + 1).drop_last() =~= devices@.take(i as int));
        }
        let ghost prev = devices@.take(i as int).filter(pred);
        if is_xinput_hid_interface(device.path.as_str()) {
            metadata.push(supplemented_metadata(devices, device));
            assert(devices@.take(i + 1).filter(pred) == prev.push(*device));
        } else {
            assert(devices@.take(i + 1).filter(pred) == prev);
        }
        i = i + 1;
    }
    assert(devices@.take(i as int) =~= devices@);
    let ghost mid = metadata@;
    let sorted = sort_metadata(metadata, true);
    assert(mid.len() == xinput_interfaces(devices@).len());
    assert(forall|q: int| 0 <= q < mid.len() ==> spec_supplemented_metadata(devices@, xinput_interfaces(devices@)[q], #[trigger] mid[q]));
    assert(sorted@.to_multiset() == mid.to_multiset());
    assert(forall|k: XInputHidMetadata| #[trigger] sorted@.filter(same_metadata_key(k, true)) == mid.filter(same_metadata_key(k, true)));
    sorted
}

/// The metadata that describes slot `index` of `slot_count` connected
/// slots: the only interface for a single slot, the interface of the same
/// rank when there are as many interfaces as slots, else none.
pub open spec fn slot_metadata(metadata: Seq<XInputHidMetadata>, slot_count: nat, index: int) -> Option<
    XInputHidMetadata,
> {
    if slot_count == 1 {
        if metadata.len() > 0 {
            Some(metadata[0])
        } else {
            None
        }
    } else if metadata.len() == slot_count {
        Some(metadata[index])
    } else {
        None
    }
}

/// How a connected XInput slot is listed: `xinput:` and the slot as id, the
/// matched interface's name, ids and strings when there is one, and the
/// fixed 14-byte, 16-button, 6-axis layout.
pub open spec fn spec_xinput_device(slot: u32, hid: Option<XInputHidMetadata>, d: DeviceInfo) -> bool {
    &&& d.id@ == "xinput:"@ + decimal(slot as nat)
    &&& d.name@ == match hid {
        Some(h) => h.name@,
        None => "XInput Controller "@ + decimal(slot as nat),
    }
    &&& d.protocol == ProtocolKind::XInput
    &&& d.vendor_id == match hid {
        Some(h) => Some(h.vendor_id),
        None => None,
    }
    &&& d.product_id == match hid {
        Some(h) => Some(h.product_id),
        None => None,
    }
    &&& d.usage_page == match hid {
        Some(h) => Some(h.usage_page),
        None => None,
    }
    &&& d.usage == match hid {
        Some(h) => Some(h.usage),
        None => None,
    }
    &&& d.interface_number == match hid {
        Some(h) => Some(h.interface_number),
        None => None,
    }
    &&& d.manufacturer == match hid {
        Some(h) => h.manufacturer,
        None => None,
    }
    &&& d.serial_number == match hid {
        Some(h) => h.serial_number,
        None => None,
    }
    &&& d.path == match hid {
        Some(h) => Some(h.path),
        None => None,
    }
    &&& d.xinput_user_index == Some(slot)
    &&& d.input_report_bytes == Some(14usize)
    &&& d.parsed_button_count == Some(16usize)
    &&& d.parsed_axis_count == Some(6usize)
    &&& d.report_ids@.len() == 0
}

fn xinput_device(slot: u32, hid: Option<&XInputHidMetadata>) -> (d: DeviceInfo)
    ensures
        spec_xinput_device(
            slot,
            match hid {
                Some(h) => Some(*h),
                None => None,
            },
            d,
        ),
{
    match hid {
        Some(h) => DeviceInfo {
            id: text_with_number("xinput:", slot),
            name: h.name.clone(),
            protocol: ProtocolKind::XInput,
            vendor_id: Some(h.vendor_id),
            product_id: Some(h.product_id),
            usage_page: Some(h.usage_page),
            usage: Some(h.usage),
            interface_number: Some(h.interface_number),
            manufacturer: clone_opt(&h.manufacturer),
            serial_number: clone_opt(&h.serial_number),
            path: Some(h.path.clone()),
            xinput_user_index: Some(slot),
            input_report_bytes: Some(14),
            parsed_button_count: Some(16),
            parsed_axis_count: Some(6),
            report_ids: Vec::new(),
        },
        None => DeviceInfo {
            id: text_with_number("xinput:", slot),
            name: text_with_number("XInput Controller ", slot),
            protocol: ProtocolKind::XInput,
            vendor_id: None,
            product_id: None,
            usage_page: None,
            usage: None,
            interface_number: None,
            manufacturer: None,
            serial_number: None,
            path: None,
            xinput_user_index: Some(slot),
            input_report_bytes: Some(14),
            parsed_button_count: Some(16),
            parsed_axis_count: Some(6),
            report_ids: Vec::new(),
        },
    }
}

/// Lists the connected XInput slots, each described by its matching HID
/// interface when the match is unambiguous.
pub fn xinput_devices(metadata: &[XInputHidMetadata], connected_slots: &[u32]) -> (r: Vec<DeviceInfo>)
    ensures
        r@.len() == connected_slots@.len(),
        forall|i: int|
            0 <= i < r@.len() ==> spec_xinput_device(
                connected_slots@[i],
                slot_metadata(metadata@, connected_slots@.len(), i),
                #[trigger] r@[i],
            ),
{
    let slot_count = connected_slots.len();
    let mut out: Vec<DeviceInfo> = Vec::new();
    let mut index: usize = 0;
    while index < slot_count
        invariant
            slot_count == connected_slots@.len(),
            index <= slot_count,
            out@.len() == index,
            forall|i: int|
                0 <= i < index ==> spec_xinput_device(
                    connected_slots@[i],
                    slot_metadata(metadata@, slot_count as nat, i),
                    #[trigger] out@[i],
                ),
        decreases slot_count - index,
    {
        let slot = connected_slots[index];
        let hid = if slot_count == 1 {
            if metadata.len() > 0 {
                Some(&metadata[0])
            } else {
                None
            }
        } else if metadata.len() == slot_count {
            Some(&metadata[index])
        } else {
            None
        };
        out.push(xinput_device(slot, hid));
        index = index + 1;
    }
    out
}


/// The gamepads among raw HID entries (described), then the connected
/// XInput slots described by the XInput interfaces among the entries.
pub fn input_devices_from_raw(raw: &[RawHidDevice], xinput_slots: &[u32]) -> (r: Vec<DeviceInfo>)
    ensures
        ({
            let gamepads = raw@.filter(|d: RawHidDevice| spec_is_listed_gamepad(d));
            &&& r@.len() == gamepads.len() + xinput_slots@.len()
            &&& forall|i: int| 0 <= i < gamepads.len() ==> spec_raw_hid_device_info(gamepads[i], #[trigger] r@[i])
            &&& exists|metadata: Seq<XInputHidMetadata>|
                #![trigger sorted_metadata(metadata, false)]
                {
                    &&& sorted_metadata(metadata, false)
                    &&& metadata.len() == xinput_interfaces(raw@).len()
                    &&& exists|mid: Seq<XInputHidMetadata>|
                        #![trigger mid.to_multiset()]
                        {
                            &&& mid.len() == xinput_interfaces(raw@).len()
                            &&& forall|k: int|
                                0 <= k < mid.len() ==> spec_raw_metadata(
                                    xinput_interfaces(raw@)[k],
                                    #[trigger] mid[k],
                                )
                            &&& metadata.to_multiset() == mid.to_multiset()
                            &&& forall|c: XInputHidMetadata| #[trigger] metadata.filter(same_metadata_key(c, false)) == mid.filter(same_metadata_key(c, false))
                        }
                    &&& forall|i: int|
                        gamepads.len() <= i < r@.len() ==> spec_xinput_device(
                            xinput_slots@[i - gamepads.len()],
                            slot_metadata(metadata, xinput_slots@.len(), i - gamepads.len()),
                            #[trigger] r@[i],
                        )
                }
        }),
{
    let ghost pred = |d: RawHidDevice| spec_is_listed_gamepad(d);
    let metadata = collect_raw_xinput_metadata(raw);
    proof {
        let mid = choose|mid: Seq<XInputHidMetadata>|
            #![trigger mid.to_multiset()]
            {
                &&& mid.len() == xinput_interfaces(raw@).len()
                &&& forall|i: int|
                    0 <= i < mid.len() ==> spec_raw_metadata(
                        xinput_interfaces(raw@)[i],
                        #[trigger] mid[i],
                    )
                &&& metadata@.to_multiset() == mid.to_multiset()
                &&& forall|c: XInputHidMetadata| #[trigger] metadata@.filter(same_metadata_key(c, false)) == mid.filter(same_metadata_key(c, false))
            };
        vstd::seq_lib::to_multiset_len(metadata@);
        vstd::seq_lib::to_multiset_len(mid);
    }
    let mut devices: Vec<DeviceInfo> = Vec::new();
    let mut i: usize = 0;
    assert(raw@.take(0).filter(pred) =~= Seq::<RawHidDevice>::empty()) by {
        reveal_with_fuel(Seq::filter, 1);
    }
    while i < raw.len()
        invariant
            i <= raw@.len(),
            pred == (|d: RawHidDevice| spec_is_listed_gamepad(d)),
            devices@.len() == raw@.take(i as int).filter(pred).len(),
            forall|q: int|
                0 <= q < devices@.len() ==> spec_raw_hid_device_info(
                    raw@.take(i as int).filter(pred)[q],
                    #[trigger] devices@[q],
                ),
        decreases raw@.len() - i,
    {
        let device = &raw[i];
        proof {
            reveal_with_fuel(Seq::filter, 1);
            assert(raw@.take(i + 1).drop_last() =~= raw@.take(i as int));
        }
        let ghost prev = raw@.take(i as int).filter(pred);
        if is_listed_gamepad(device) {
            devices.push(raw_hid_device_info(device));
            assert(raw@.take(i + 1).filter(pred) == prev.push(*device));
        } else {
            assert(raw@.take(i + 1).filter(pred) == prev);
        }
        i = i + 1;
    }
    assert(raw@.take(i as int) =~= raw@);
    let ghost n = devices@.len();
    let mut xinput = xinput_devices(metadata.as_slice(), xinput_slots);
    devices.append(&mut xinput);
    assert(sorted_metadata(metadata@, false));
    devices
}


/// The input devices of a system where the HID library lists the HID
/// entries: its gamepads, then one device per connected XInput slot,
/// described with the XInput interfaces' metadata.
pub fn hidapi_input_devices(listed: &[RawHidDevice], xinput_slots: &[u32]) -> (r: Vec<DeviceInfo>)
    ensures
        ({
            let gamepads = listed@.filter(|d: RawHidDevice| spec_is_listed_gamepad(d));
            &&& r@.len() == gamepads.len() + xinput_slots@.len()
            &&& forall|i: int| 0 <= i < gamepads.len() ==> spec_described_hid(gamepads[i], spec_hidapi_name(gamepads[i]), #[trigger] r@[i])
            &&& exists|metadata: Seq<XInputHidMetadata>|
                #![trigger sorted_metadata(metadata, true)]
                {
                    &&& sorted_metadata(metadata, true)
                    &&& metadata.len() == xinput_interfaces(listed@).len()
                    &&& exists|mid: Seq<XInputHidMetadata>|
                        #![trigger mid.to_multiset()]
                        {
                            &&& mid.len() == xinput_interfaces(listed@).len()
                            &&& forall|k: int|
                                0 <= k < mid.len() ==> spec_supplemented_metadata(
                                    listed@,
                                    xinput_interfaces(listed@)[k],
                                    #[trigger] mid[k],
                                )
                            &&& metadata.to_multiset() == mid.to_multiset()
                            &&& forall|c: XInputHidMetadata| #[trigger] metadata.filter(same_metadata_key(c, true)) == mid.filter(same_metadata_key(c, true))
                        }
                    &&& forall|i: int|
                        gamepads.len() <= i < r@.len() ==> spec_xinput_device(
                            xinput_slots@[i - gamepads.len()],
                            slot_metadata(metadata, xinput_slots@.len(), i - gamepads.len()),
                            #[trigger] r@[i],
                        )
                }
        }),
{
    let ghost pred = |d: RawHidDevice| spec_is_listed_gamepad(d);
    let metadata = collect_xinput_hid_metadata(listed);
    proof {
        let mid = choose|mid: Seq<XInputHidMetadata>|
            #![trigger mid.to_multiset()]
            {
                &&& mid.len() == xinput_interfaces(listed@).len()
                &&& forall|i: int|
                    0 <= i < mid.len() ==> spec_supplemented_metadata(
                        listed@,
                        xinput_interfaces(listed@)[i],
                        #[trigger] mid[i],
                    )
                &&& metadata@.to_multiset() == mid.to_multiset()
                &&& forall|c: XInputHidMetadata| #[trigger] metadata@.filter(same_metadata_key(c, true)) == mid.filter(same_metadata_key(c, true))
            };
        vstd::seq_lib::to_multiset_len(metadata@);
        vstd::seq_lib::to_multiset_len(mid);
    }
    let mut devices: Vec<DeviceInfo> = Vec::new();
    let mut i: usize = 0;
    assert(listed@.take(0).filter(pred) =~= Seq::<RawHidDevice>::empty()) by {
        reveal_with_fuel(Seq::filter, 1);
    }
    while i < listed.len()
        invariant
            i <= listed@.len(),
            pred == (|d: RawHidDevice| spec_is_listed_gamepad(d)),
            devices@.len() == listed@.take(i as int).filter(pred).len(),
            forall|q: int|
                0 <= q < devices@.len() ==> spec_described_hid(
                    listed@.take(i as int).filter(pred)[q],
                    spec_hidapi_name(listed@.take(i as int).filter(pred)[q]),
                    #[trigger] devices@[q],
                ),
        decreases listed@.len() - i,
    {
        let device = &listed[i];
        proof {
            reveal_with_fuel(Seq::filter, 1);
            assert(listed@.take(i + 1).drop_last() =~= listed@.take(i as int));
        }
        let ghost prev = listed@.take(i as int).filter(pred);
        if is_listed_gamepad(device) {
            devices.push(hidapi_device_info(device));
            assert(listed@.take(i + 1).filter(pred) == prev.push(*device));
        } else {
            assert(listed@.take(i + 1).filter(pred) == prev);
        }
        i = i + 1;
    }
    assert(listed@.take(i as int) =~= listed@);
    let mut xinput = xinput_devices(metadata.as_slice(), xinput_slots);
    devices.append(&mut xinput);
    assert(sorted_metadata(metadata@, true));
    devices
}

/// A USB serial port's own name: its product string, else its
/// manufacturer, cleaned; other ports have none.
pub open spec fn spec_usb_display_name(
    port_name: Seq<char>,
    product: Option<Seq<char>>,
    manufacturer: Option<Seq<char>>,
) -> Option<Seq<char>> {
    match product {
        Some(p) => spec_clean_display_name(port_name, p),
        None => match manufacturer {
            Some(m) => spec_clean_display_name(port_name, m),
            None => None,
        },
    }
}

/// Names a USB serial port by its product or manufacturer string.
pub fn serial_port_type_display_name(
    port_name: &str,
    product: Option<&str>,
    manufacturer: Option<&str>,
) -> (r: Option<String>)
    ensures
        opt_view(r) == spec_usb_display_name(
            port_name@,
            match product {
                Some(p) => Some(p@),
                None => None,
            },
            match manufacturer {
                Some(m) => Some(m@),
                None => None,
            },
        ),
{
    match product {
        Some(p) => clean_serial_display_name(port_name, p),
        None => match manufacturer {
            Some(m) => clean_serial_display_name(port_name, m),
            None => None,
        },
    }
}

/// A serial port's display name: the one the system registry gives, else
/// the USB port's own name.
pub fn serial_display_name(
    registry_name: Option<String>,
    port_name: &str,
    product: Option<&str>,
    manufacturer: Option<&str>,
) -> (r: Option<String>)
    ensures
        registry_name is Some ==> r == registry_name,
        registry_name is None ==> opt_view(r) == spec_usb_display_name(
            port_name@,
            match product {
                Some(p) => Some(p@),
                None => None,
            },
            match manufacturer {
                Some(m) => Some(m@),
                None => None,
            },
        ),
{
    match registry_name {
        Some(name) => Some(name),
        None => serial_port_type_display_name(port_name, product, manufacturer),
    }
}

/// The text after the last `;` of `s` (all of `s` when it has none).
pub open spec fn after_last_semicolon(s: Seq<char>) -> Seq<char>
    decreases s.len(),
{
    if s.len() == 0 {
        s
    } else if s.last() == ';' {
        Seq::empty()
    } else {
        after_last_semicolon(s.drop_last()).push(s.last())
    }
}

/// The last `;`-separated field of a registry string, trimmed: what names
/// a device in entries such as `@oem.inf,%desc%;USB Serial Device`.
pub fn last_registry_field(value: &str) -> (r: String)
    ensures
        r@ == trim(after_last_semicolon(value@)),
{
    let n = value.unicode_len();
    let mut start: usize = 0;
    let mut i: usize = 0;
    assert(value@.subrange(0, 0) =~= Seq::<char>::empty());
    while i < n
        invariant
            n == value@.len(),
            start <= i <= n,
            after_last_semicolon(value@.subrange(0, i as int)) == value@.subrange(start as int, i as int),
        decreases n - i,
    {
        let ghost next = value@.subrange(0, i + 1);
        assert(next.drop_last() =~= value@.subrange(0, i as int));
        if value.get_char(i) == ';' {
            start = i + 1;
            assert(value@.subrange(start as int, i + 1) =~= Seq::<char>::empty());
        } else {
            assert(value@.subrange(start as int, i + 1) =~= value@.subrange(start as int, i as int).push(value@[i as int]));
        }
        i = i + 1;
    }
    assert(value@.subrange(0, n as int) =~= value@);
    let field = value.substring_char(start, n);
    owned(trim_str(field))
}

/// The display name the system registry gives a serial port: the first of
/// the parent's bus-reported name, the port's bus-reported name, its
/// friendly name and its description that is present, cleaned.
pub fn registry_display_name(
    port_name: &str,
    parent_bus_name: Option<String>,
    bus_reported_name: Option<String>,
    friendly_name: Option<String>,
    description: Option<String>,
) -> (r: Option<String>)
    ensures
        ({
            let first = if parent_bus_name is Some {
                opt_view(parent_bus_name)
            } else if bus_reported_name is Some {
                opt_view(bus_reported_name)
            } else if friendly_name is Some {
                opt_view(friendly_name)
            } else {
                opt_view(description)
            };
            opt_view(r) == match first {
                Some(v) => spec_clean_display_name(port_name@, v),
                None => None,
            }
        }),
{
    let first = if parent_bus_name.is_some() {
        parent_bus_name
    } else if bus_reported_name.is_some() {
        bus_reported_name
    } else if friendly_name.is_some() {
        friendly_name
    } else {
        description
    };
    match first {
        Some(v) => clean_serial_display_name(port_name, v.as_str()),
        None => None,
    }
}

/// What kind of port a serial port is, with a USB port's identity.
#[derive(Clone, Debug)]
pub enum SerialPortKind {
    Usb {
        vid: u16,
        pid: u16,
        manufacturer: Option<String>,
        product: Option<String>,
        serial_number: Option<String>,
    },
    Pci,
    Bluetooth,
    Unknown,
}

/// The port-type word listed for each kind of port.
pub open spec fn spec_port_type_name(kind: SerialPortKind) -> Seq<char> {
    match kind {
        SerialPortKind::Usb { .. } => "usb"@,
        SerialPortKind::Pci => "pci"@,
        SerialPortKind::Bluetooth => "bluetooth"@,
        SerialPortKind::Unknown => "unknown"@,
    }
}

/// The listing of one serial port: its name, kind and display name, and for
/// a USB port its ids and strings (other ports have none of those).
pub open spec fn spec_serial_device_info(
    port_name: Seq<char>,
    kind: SerialPortKind,
    registry_name: Option<Seq<char>>,
    d: SerialDeviceInfo,
) -> bool {
    &&& d.port_name@ == port_name
    &&& d.port_type@ == spec_port_type_name(kind)
    &&& match kind {
        SerialPortKind::Usb { vid, pid, manufacturer, product, serial_number } => {
            &&& d.vid == Some(vid)
            &&& d.pid == Some(pid)
            &&& opt_view(d.manufacturer) == opt_view(manufacturer)
            &&& opt_view(d.product) == opt_view(product)
            &&& opt_view(d.serial_number) == opt_view(serial_number)
            &&& opt_view(d.display_name) == match registry_name {
                Some(n) => Some(n),
                None => spec_usb_display_name(port_name, opt_view(product), opt_view(manufacturer)),
            }
        },
        _ => {
            &&& d.vid is None && d.pid is None
            &&& d.manufacturer is None && d.product is None && d.serial_number is None
            &&& opt_view(d.display_name) == registry_name
        },
    }
}

/// Lists one serial port; `registry_name` is the display name the system
/// registry gives for it, if any.
pub fn serial_device_info(port_name: String, kind: SerialPortKind, registry_name: Option<String>) -> (d: SerialDeviceInfo)
    ensures
        spec_serial_device_info(port_name@, kind, opt_view(registry_name), d),
{
    match kind {
        SerialPortKind::Usb { vid, pid, manufacturer, product, serial_number } => {
            let display_name = serial_display_name(
                registry_name,
                port_name.as_str(),
                opt_str(&product),
                opt_str(&manufacturer),
            );
            SerialDeviceInfo {
                port_name,
                port_type: owned("usb"),
                display_name,
                vid: Some(vid),
                pid: Some(pid),
                manufacturer,
                product,
                serial_number,
            }
        },
        SerialPortKind::Pci => SerialDeviceInfo {
            port_name,
            port_type: owned("pci"),
            display_name: registry_name,
            vid: None,
            pid: None,
            manufacturer: None,
            product: None,
            serial_number: None,
        },
        SerialPortKind::Bluetooth => SerialDeviceInfo {
            port_name,
            port_type: owned("bluetooth"),
            display_name: registry_name,
            vid: None,
            pid: None,
            manufacturer: None,
            product: None,
            serial_number: None,
        },
        SerialPortKind::Unknown => SerialDeviceInfo {
            port_name,
            port_type: owned("unknown"),
            display_name: registry_name,
            vid: None,
            pid: None,
            manufacturer: None,
            product: None,
            serial_number: None,
        },
    }
}

/// A gamepad's name as the HID library lists it: its product string, else
/// `HID vvvv:pppp`.
pub open spec fn spec_hidapi_name(device: RawHidDevice) -> Seq<char> {
    match device.product {
        Some(p) => p@,
        None => "HID "@ + vid_pid_text(device.vendor_id, device.product_id),
    }
}

/// Describes a gamepad that the HID library lists.
pub fn hidapi_device_info(device: &RawHidDevice) -> (d: DeviceInfo)
    ensures
        spec_described_hid(*device, spec_hidapi_name(*device), d),
{
    let mut d = raw_hid_device_info(device);
    if device.product.is_none() {
        d.name = text_with_vid_pid("HID ", device.vendor_id, device.product_id);
    }
    d
}

} // verus!
