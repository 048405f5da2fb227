use vstd::prelude::*;

use vstd::arithmetic::power2::pow2;

use crate::hid_descriptor::spec_parse_input_report;
use crate::hid_descriptor::HidReportParser;
use crate::hid_descriptor::ParserModel;
use crate::models::AxisValue;
use crate::models::DecodedInput;
use crate::models::ProtocolKind;

verus! {

/// The protocol that a USB vendor/product id pair is known to speak.
pub open spec fn spec_classify_vid_pid(vid: u16, pid: u16) -> ProtocolKind {
    if vid == 0x054C && (pid == 0x05C4 || pid == 0x09CC) {
        ProtocolKind::Ds4
    } else if vid == 0x054C && pid == 0x0CE6 {
        ProtocolKind::DualSense
    } else if vid == 0x057E && pid == 0x2009 {
        ProtocolKind::Switch
    } else {
        ProtocolKind::GenericHid
    }
}

/// Classifies a HID device by its USB vendor and product id.
pub fn classify_vid_pid(vid: u16, pid: u16) -> (kind: ProtocolKind)
    ensures
        kind == spec_classify_vid_pid(vid, pid),
{
    if vid == 0x054C && (pid == 0x05C4 || pid == 0x09CC) {
        ProtocolKind::Ds4
    } else if vid == 0x054C && pid == 0x0CE6 {
        ProtocolKind::DualSense
    } else if vid == 0x057E && pid == 0x2009 {
        ProtocolKind::Switch
    } else {
        ProtocolKind::GenericHid
    }
}


/// Buttons and axes as sequences.
pub type Decoded = (Seq<bool>, Seq<AxisValue>);

/// Bit `k` of a byte.
pub open spec fn spec_byte_bit(byte: u8, k: nat) -> bool {
    (byte as nat / pow2(k)) % 2 == 1
}

/// Bits `from..to` of a byte, lowest first.
pub open spec fn byte_bits(byte: u8, from: nat, to: nat) -> Seq<bool> {
    Seq::new((to - from) as nat, |i: int| spec_byte_bit(byte, (from + i) as nat))
}

/// Up, right, down, left of an eight-way hat switch (0 = up, clockwise;
/// other values are centred).
pub open spec fn spec_dpad(hat: u8) -> Seq<bool> {
    seq![hat == 0 || hat == 1 || hat == 7, 1 <= hat <= 3, 3 <= hat <= 5, 5 <= hat <= 7]
}

/// The four stick bytes `raw[1..5]` centred on 127.5.
pub open spec fn sticks_u8(raw: Seq<u8>) -> Seq<AxisValue> {
    seq![
        AxisValue::Centered8(raw[1]),
        AxisValue::Centered8(raw[2]),
        AxisValue::Centered8(raw[3]),
        AxisValue::Centered8(raw[4]),
    ]
}

/// A DualShock 4 USB report (id 0x01): sticks, hat, 14 buttons.
pub open spec fn spec_parse_ds4(raw: Seq<u8>) -> Option<Decoded> {
    if raw.len() < 10 || raw[0] != 0x01 {
        None
    } else {
        Some(
            (
                spec_dpad(raw[5] % 16) + byte_bits(raw[5], 4, 8) + byte_bits(raw[6], 0, 8)
                    + byte_bits(raw[7], 0, 2),
                sticks_u8(raw),
            ),
        )
    }
}

/// A DualSense USB report (id 0x01): sticks, hat, 20 buttons.
pub open spec fn spec_parse_dualsense(raw: Seq<u8>) -> Option<Decoded> {
    if raw.len() < 12 || raw[0] != 0x01 {
        None
    } else {
        Some(
            (
                spec_dpad(raw[8] % 16) + byte_bits(raw[8], 4, 8) + byte_bits(raw[9], 0, 8)
                    + byte_bits(raw[10], 0, 8),
                sticks_u8(raw),
            ),
        )
    }
}

/// A Switch Pro full report (id 0x30): 24 buttons, four packed 12-bit sticks.
pub open spec fn spec_parse_switch(raw: Seq<u8>) -> Option<Decoded> {
    if raw.len() < 13 || raw[0] != 0x30 {
        None
    } else {
        Some(
            (
                byte_bits(raw[3], 0, 8) + byte_bits(raw[4], 0, 8) + byte_bits(raw[5], 0, 8),
                seq![
                    AxisValue::Centered12((raw[6] + (raw[7] % 16) * 256) as u16),
                    AxisValue::Centered12((raw[7] / 16 + raw[8] * 16) as u16),
                    AxisValue::Centered12((raw[9] + (raw[10] % 16) * 256) as u16),
                    AxisValue::Centered12((raw[10] / 16 + raw[11] * 16) as u16),
                ],
            ),
        )
    }
}

/// Little-endian signed 16-bit value of two bytes.
pub open spec fn le_i16(lo: u8, hi: u8) -> i16 {
    let v = lo + hi * 256;
    if v >= 0x8000 { (v - 0x1_0000) as i16 } else { v as i16 }
}

/// The 14-byte XInput state layout: 16 button bits, two triggers, four sticks.
pub open spec fn spec_parse_xinput_raw(raw: Seq<u8>) -> Option<Decoded> {
    if raw.len() < 14 {
        None
    } else {
        Some(
            (
                byte_bits(raw[0], 0, 8) + byte_bits(raw[1], 0, 8),
                seq![
                    AxisValue::Signed16(le_i16(raw[4], raw[5])),
                    AxisValue::Signed16(le_i16(raw[6], raw[7])),
                    AxisValue::Signed16(le_i16(raw[8], raw[9])),
                    AxisValue::Signed16(le_i16(raw[10], raw[11])),
                    AxisValue::Trigger8(raw[2]),
                    AxisValue::Trigger8(raw[3]),
                ],
            ),
        )
    }
}

/// Eight buttons per byte, lowest bit first.
pub open spec fn all_bits(bytes: Seq<u8>) -> Seq<bool>
    decreases bytes.len(),
{
    if bytes.len() == 0 {
        Seq::empty()
    } else {
        all_bits(bytes.drop_last()) + byte_bits(bytes.last(), 0, 8)
    }
}

/// One centred axis per byte.
pub open spec fn all_u8_axes(bytes: Seq<u8>) -> Seq<AxisValue> {
    Seq::new(bytes.len(), |i: int| AxisValue::Centered8(bytes[i]))
}

/// Any report read byte by byte, after a non-zero report id byte.
pub open spec fn spec_parse_generic(raw: Seq<u8>) -> Decoded {
    let start = if raw.len() > 0 && raw[0] != 0 { 1int } else { 0int };
    let body = raw.skip(start);
    (all_bits(body), all_u8_axes(body))
}

/// What a report of a protocol decodes to, with the descriptor's fields for
/// generic devices; reports that do not match their protocol fall back to the
/// byte-by-byte reading (XInput to nothing).
pub open spec fn spec_parse_report(protocol: ProtocolKind, raw: Seq<u8>, descriptor: Option<ParserModel>) -> Decoded {
    match protocol {
        ProtocolKind::Ds4 => match spec_parse_ds4(raw) {
            Some(d) => d,
            None => spec_parse_generic(raw),
        },
        ProtocolKind::DualSense => match spec_parse_dualsense(raw) {
            Some(d) => d,
            None => spec_parse_generic(raw),
        },
        ProtocolKind::Switch => match spec_parse_switch(raw) {
            Some(d) => d,
            None => spec_parse_generic(raw),
        },
        ProtocolKind::XInput => match spec_parse_xinput_raw(raw) {
            Some(d) => d,
            None => (Seq::empty(), Seq::empty()),
        },
        ProtocolKind::GenericHid | ProtocolKind::Unknown => match descriptor {
            Some(p) => match spec_parse_input_report(p, raw) {
                Some(d) => d,
                None => spec_parse_generic(raw),
            },
            None => spec_parse_generic(raw),
        },
    }
}

/// Whether bit `bit` of `byte` is set.
fn byte_bit(byte: u8, bit: u8) -> (r: bool)
    requires
        bit < 8,
    ensures
        r == spec_byte_bit(byte, bit as nat),
{
    proof {
        vstd::bits::lemma_u8_shr_is_div(byte, bit);
        let q = byte >> bit;
        assert(q & 1 == q % 2) by (bit_vector);
        assert(((byte & (1u8 << bit)) != 0) == ((byte >> bit) & 1 == 1)) by (bit_vector)
            requires
                bit < 8,
        ;
    }
    (byte & (1u8 << bit)) != 0
}

/// Appends bits `from..to` of `byte`.
fn push_bits(out: &mut Vec<bool>, byte: u8, from: u8, to: u8)
    requires
        from <= to <= 8,
    ensures
        final(out)@ == old(out)@ + byte_bits(byte, from as nat, to as nat),
{
    let ghost start = out@;
    let mut bit = from;
    while bit < to
        invariant
            from <= bit <= to <= 8,
            out@ =~= start + byte_bits(byte, from as nat, bit as nat),
        decreases to - bit,
    {
        let b = byte_bit(byte, bit);
        out.push(b);
        bit = bit + 1;
    }
}

/// Up, right, down, left of a hat switch value.
fn dpad_buttons(hat: u8) -> (r: [bool; 4])
    ensures
        r@ == spec_dpad(hat),
{
    let up = hat == 0 || hat == 1 || hat == 7;
    let right = 1 <= hat && hat <= 3;
    let down = 3 <= hat && hat <= 5;
    let left = 5 <= hat && hat <= 7;
    let r = [up, right, down, left];
    assert(r@ =~= spec_dpad(hat));
    r
}

fn push_dpad(out: &mut Vec<bool>, hat: u8)
    ensures
        final(out)@ == old(out)@ + spec_dpad(hat),
{
    let d = dpad_buttons(hat);
    out.push(d[0]);
    out.push(d[1]);
    out.push(d[2]);
    out.push(d[3]);
    assert(out@ =~= old(out)@ + spec_dpad(hat));
}

fn sticks(raw: &[u8]) -> (axes: Vec<AxisValue>)
    requires
        raw@.len() >= 5,
    ensures
        axes@ == sticks_u8(raw@),
{
    let mut axes: Vec<AxisValue> = Vec::new();
    axes.push(AxisValue::Centered8(raw[1]));
    axes.push(AxisValue::Centered8(raw[2]));
    axes.push(AxisValue::Centered8(raw[3]));
    axes.push(AxisValue::Centered8(raw[4]));
    assert(axes@ =~= sticks_u8(raw@));
    axes
}

/// Decodes a DualShock 4 USB input report.
pub fn parse_ds4(raw: &[u8]) -> (r: Option<DecodedInput>)
    ensures
        match spec_parse_ds4(raw@) {
            Some(d) => r is Some && r.unwrap().buttons@ == d.0 && r.unwrap().axes@ == d.1,
            None => r is None,
        },
{
    if raw.len() < 10 || raw[0] != 0x01 {
        return None;
    }
    let axes = sticks(raw);
    let mut buttons: Vec<bool> = Vec::new();
    push_dpad(&mut buttons, raw[5] % 16);
    push_bits(&mut buttons, raw[5], 4, 8);
    push_bits(&mut buttons, raw[6], 0, 8);
    push_bits(&mut buttons, raw[7], 0, 2);
    assert(buttons@ =~= spec_dpad(raw@[5] % 16) + byte_bits(raw@[5], 4, 8) + byte_bits(raw@[6], 0, 8)
        + byte_bits(raw@[7], 0, 2));
    Some(DecodedInput { buttons, axes })
}

/// Decodes a DualSense USB input report.
pub fn parse_dualsense(raw: &[u8]) -> (r: Option<DecodedInput>)
    ensures
        match spec_parse_dualsense(raw@) {
            Some(d) => r is Some && r.unwrap().buttons@ == d.0 && r.unwrap().axes@ == d.1,
            None => r is None,
        },
{
    if raw.len() < 12 || raw[0] != 0x01 {
        return None;
    }
    let axes = sticks(raw);
    let mut buttons: Vec<bool> = Vec::new();
    push_dpad(&mut buttons, raw[8] % 16);
    push_bits(&mut buttons, raw[8], 4, 8);
    push_bits(&mut buttons, raw[9], 0, 8);
    push_bits(&mut buttons, raw[10], 0, 8);
    assert(buttons@ =~= spec_dpad(raw@[8] % 16) + byte_bits(raw@[8], 4, 8) + byte_bits(raw@[9], 0, 8)
        + byte_bits(raw@[10], 0, 8));
    Some(DecodedInput { buttons, axes })
}

/// Decodes a Switch Pro Controller full input report.
pub fn parse_switch(raw: &[u8]) -> (r: Option<DecodedInput>)
    ensures
        match spec_parse_switch(raw@) {
            Some(d) => r is Some && r.unwrap().buttons@ == d.0 && r.unwrap().axes@ == d.1,
            None => r is None,
        },
{
    if raw.len() < 13 || raw[0] != 0x30 {
        return None;
    }
    let mut buttons: Vec<bool> = Vec::new();
    push_bits(&mut buttons, raw[3], 0, 8);
    push_bits(&mut buttons, raw[4], 0, 8);
    push_bits(&mut buttons, raw[5], 0, 8);
    let lx = (raw[6] as u16) + ((raw[7] % 16) as u16) * 256;
    let ly = ((raw[7] / 16) as u16) + (raw[8] as u16) * 16;
    let rx = (raw[9] as u16) + ((raw[10] % 16) as u16) * 256;
    let ry = ((raw[10] / 16) as u16) + (raw[11] as u16) * 16;
    let mut axes: Vec<AxisValue> = Vec::new();
    axes.push(AxisValue::Centered12(lx));
    axes.push(AxisValue::Centered12(ly));
    axes.push(AxisValue::Centered12(rx));
    axes.push(AxisValue::Centered12(ry));
    assert(buttons@ =~= byte_bits(raw@[3], 0, 8) + byte_bits(raw@[4], 0, 8) + byte_bits(raw@[5], 0, 8));
    assert(axes@ =~= spec_parse_switch(raw@).unwrap().1);
    Some(DecodedInput { buttons, axes })
}

/// Little-endian signed 16-bit value of two bytes.
fn i16_from_le(lo: u8, hi: u8) -> (v: i16)
    ensures
        v == le_i16(lo, hi),
{
    let u = (lo as u32) + (hi as u32) * 256;
    if u >= 0x8000 {
        ((u as i32) - 0x1_0000) as i16
    } else {
        u as i16
    }
}

/// Decodes the 14-byte XInput state layout.
pub fn parse_xinput_raw(raw: &[u8]) -> (r: Option<DecodedInput>)
    ensures
        match spec_parse_xinput_raw(raw@) {
            Some(d) => r is Some && r.unwrap().buttons@ == d.0 && r.unwrap().axes@ == d.1,
            None => r is None,
        },
{
    if raw.len() < 14 {
        return None;
    }
    let mut buttons: Vec<bool> = Vec::new();
    push_bits(&mut buttons, raw[0], 0, 8);
    push_bits(&mut buttons, raw[1], 0, 8);
    let mut axes: Vec<AxisValue> = Vec::new();
    axes.push(AxisValue::Signed16(i16_from_le(raw[4], raw[5])));
    axes.push(AxisValue::Signed16(i16_from_le(raw[6], raw[7])));
    axes.push(AxisValue::Signed16(i16_from_le(raw[8], raw[9])));
    axes.push(AxisValue::Signed16(i16_from_le(raw[10], raw[11])));
    axes.push(AxisValue::Trigger8(raw[2]));
    axes.push(AxisValue::Trigger8(raw[3]));
    assert(buttons@ =~= byte_bits(raw@[0], 0, 8) + byte_bits(raw@[1], 0, 8));
    assert(axes@ =~= spec_parse_xinput_raw(raw@).unwrap().1);
    Some(DecodedInput { buttons, axes })
}

/// Reads a report byte by byte, skipping a non-zero first (report id) byte.
pub fn parse_generic(raw: &[u8]) -> (r: DecodedInput)
    ensures
        r.buttons@ == spec_parse_generic(raw@).0,
        r.axes@ == spec_parse_generic(raw@).1,
{
    let start: usize = if raw.len() > 0 && raw[0] != 0 { 1 } else { 0 };
    let ghost body = raw@.skip(start as int);
    let mut buttons: Vec<bool> = Vec::new();
    let mut axes: Vec<AxisValue> = Vec::new();
    let mut i: usize = start;
    assert(body.take(0) =~= Seq::<u8>::empty());
    while i < raw.len()
        invariant
            start <= i <= raw@.len(),
            body == raw@.skip(start as int),
            buttons@ == all_bits(body.take(i - start)),
            axes@ =~= all_u8_axes(body.take(i - start)),
        decreases raw@.len() - i,
    {
        let byte = raw[i];
        assert(body.take(i + 1 - start).drop_last() =~= body.take(i - start));
        assert(body.take(i + 1 - start).last() == byte);
        push_bits(&mut buttons, byte, 0, 8);
        axes.push(AxisValue::Centered8(byte));
        i = i + 1;
    }
    assert(body.take(i - start) =~= body);
    DecodedInput { buttons, axes }
}

/// Decodes a report of a device, by its protocol and, for generic devices,
/// by the fields of its report descriptor.
pub fn parse_report_with_descriptor(
    protocol: &ProtocolKind,
    raw: &[u8],
    descriptor: Option<&HidReportParser>,
) -> (r: DecodedInput)
    ensures
        ({
            let expected = spec_parse_report(
                *protocol,
                raw@,
                match descriptor {
                    Some(p) => Some(p@),
                    None => None,
                },
            );
            r.buttons@ == expected.0 && r.axes@ == expected.1
        }),
{
    match protocol {
        ProtocolKind::Ds4 => match parse_ds4(raw) {
            Some(d) => d,
            None => parse_generic(raw),
        },
        ProtocolKind::DualSense => match parse_dualsense(raw) {
            Some(d) => d,
            None => parse_generic(raw),
        },
        ProtocolKind::Switch => match parse_switch(raw) {
            Some(d) => d,
            None => parse_generic(raw),
        },
        ProtocolKind::XInput => match parse_xinput_raw(raw) {
            Some(d) => d,
            None => DecodedInput { buttons: Vec::new(), axes: Vec::new() },
        },
        ProtocolKind::GenericHid | ProtocolKind::Unknown => {
            let decoded = match descriptor {
                Some(parser) => parser.parse_input_report(raw),
                None => None,
            };
            match decoded {
                Some(d) => d,
                None => parse_generic(raw),
            }
        },
    }
}


/// Whether the d-pad button for direction `k` (0 up, 1 right, 2 down, 3
/// left; the hat position `2k`, counted clockwise from up) is pressed at hat
/// value `hat`: the hat points at that direction or at one of its two
/// diagonal neighbours.
pub open spec fn hat_presses(hat: int, k: int) -> bool {
    0 <= hat < 8 && ((hat - 2 * k) % 8 == 7 || (hat - 2 * k) % 8 == 0 || (hat - 2 * k) % 8 == 1)
}

/// The four d-pad buttons are up, right, down and left, in that order: each
/// is pressed exactly when the hat points at its direction or a neighbouring
/// diagonal, and a centred hat (8 and above) presses none. So a hat of 0, 2,
/// 4 or 6 presses only the button at index hat / 2.
pub proof fn lemma_dpad_directions(hat: u8)
    ensures
        spec_dpad(hat).len() == 4,
        forall|k: int| 0 <= k < 4 ==> #[trigger] spec_dpad(hat)[k] == hat_presses(hat as int, k),
        hat < 8 && hat % 2 == 0 ==> forall|k: int| 0 <= k < 4 ==> #[trigger] spec_dpad(hat)[k] == (k == hat / 2),
{
}

/// A DualShock 4 report's first four buttons are the d-pad of the low
/// nibble of byte 5, and a DualSense report's those of byte 8, in the order
/// up, right, down, left.
pub proof fn lemma_report_dpad(raw: Seq<u8>)
    ensures
        spec_parse_ds4(raw) matches Some(d) ==> d.0.len() == 18 && forall|k: int|
            0 <= k < 4 ==> #[trigger] d.0[k] == hat_presses((raw[5] % 16) as int, k),
        spec_parse_dualsense(raw) matches Some(d) ==> d.0.len() == 24 && forall|k: int|
            0 <= k < 4 ==> #[trigger] d.0[k] == hat_presses((raw[8] % 16) as int, k),
{
    if raw.len() >= 10 && raw[0] == 0x01 {
        lemma_dpad_directions(raw[5] % 16);
        let d = spec_parse_ds4(raw).unwrap();
        assert forall|k: int| 0 <= k < 4 implies #[trigger] d.0[k] == hat_presses((raw[5] % 16) as int, k) by {
            assert(d.0[k] == spec_dpad(raw[5] % 16)[k]);
        }
    }
    if raw.len() >= 12 && raw[0] == 0x01 {
        lemma_dpad_directions(raw[8] % 16);
        let d = spec_parse_dualsense(raw).unwrap();
        assert forall|k: int| 0 <= k < 4 implies #[trigger] d.0[k] == hat_presses((raw[8] % 16) as int, k) by {
            assert(d.0[k] == spec_dpad(raw[8] % 16)[k]);
        }
    }
}

/// Bit `k` (of value 2^k) of a byte.
pub open spec fn bit_of(byte: u8, k: int) -> bool {
    (byte as nat / pow2(k as nat)) % 2 == 1
}

proof fn lemma_all_bits_layout(bytes: Seq<u8>)
    ensures
        all_bits(bytes).len() == 8 * bytes.len(),
        forall|j: int, k: int|
            0 <= j < bytes.len() && 0 <= k < 8 ==> #[trigger] all_bits(bytes)[8 * j + k] == bit_of(#[trigger] bytes[j], k),
    decreases bytes.len(),
{
    if bytes.len() > 0 {
        let prefix = bytes.drop_last();
        lemma_all_bits_layout(prefix);
        let n = bytes.len() - 1;
        assert forall|j: int, k: int| 0 <= j < bytes.len() && 0 <= k < 8 implies #[trigger] all_bits(bytes)[8 * j + k] == bit_of(#[trigger] bytes[j], k) by {
            if j < n {
                assert(8 * j + k < 8 * n);
                assert(all_bits(bytes)[8 * j + k] == all_bits(prefix)[8 * j + k]);
                assert(prefix[j] == bytes[j]);
            } else {
                assert(8 * j + k - 8 * n == k);
                assert(all_bits(bytes)[8 * j + k] == byte_bits(bytes.last(), 0, 8)[k]);
            }
        }
    }
}

/// Read byte by byte, a report (after a non-zero report id byte) gives
/// eight buttons per byte, least significant bit first: button 8j + k is bit
/// k of body byte j; and one centred axis per body byte.
pub proof fn lemma_generic_layout(raw: Seq<u8>)
    ensures
        ({
            let body = if raw.len() > 0 && raw[0] != 0 { raw.skip(1) } else { raw };
            let d = spec_parse_generic(raw);
            &&& d.0.len() == 8 * body.len()
            &&& forall|j: int, k: int| 0 <= j < body.len() && 0 <= k < 8 ==> #[trigger] d.0[8 * j + k] == bit_of(#[trigger] body[j], k)
            &&& d.1.len() == body.len()
            &&& forall|j: int| 0 <= j < body.len() ==> #[trigger] d.1[j] == AxisValue::Centered8(body[j])
        }),
{
    let body = if raw.len() > 0 && raw[0] != 0 { raw.skip(1) } else { raw };
    assert(raw.skip(0) =~= raw);
    lemma_all_bits_layout(body);
}

} // verus!
