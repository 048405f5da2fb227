//! The XInput controller state and its 14-byte report layout, which the
//! XInput decoder reads back.
use vstd::prelude::*;
use vstd::arithmetic::power2::pow2;
use vstd::arithmetic::power2::lemma2_to64;
use crate::models::AxisValue;
use crate::protocol::Decoded;
use crate::protocol::byte_bits;
use crate::protocol::le_i16;
use crate::protocol::spec_byte_bit;
use crate::protocol::spec_parse_xinput_raw;

verus! {

/// Buttons, triggers and sticks of an XInput pad.
#[derive(Clone, Copy, Debug, PartialEq, Eq, Structural)]
pub struct XInputGamepad {
    pub w_buttons: u16,
    pub b_left_trigger: u8,
    pub b_right_trigger: u8,
    pub s_thumb_lx: i16,
    pub s_thumb_ly: i16,
    pub s_thumb_rx: i16,
    pub s_thumb_ry: i16,
}

/// An XInput state: a packet number that changes with the pad's state, and the pad.
#[derive(Clone, Copy, Debug, PartialEq, Eq, Structural)]
pub struct XInputState {
    pub dw_packet_number: u32,
    pub gamepad: XInputGamepad,
}

/// The two little-endian bytes of an unsigned 16-bit value.
pub open spec fn le16(u: int) -> Seq<u8> {
    seq![(u % 256) as u8, (u / 256) as u8]
}

/// The two's-complement bits of a signed 16-bit value, as an unsigned value.
pub open spec fn u16_of_i16(v: i16) -> int {
    if v < 0 { v + 0x1_0000 } else { v as int }
}

/// The report of a state: buttons, left and right trigger, the four stick
/// axes, each 16-bit value little-endian, then the low two bytes of the
/// packet number.
pub open spec fn spec_state_to_raw(state: XInputState) -> Seq<u8> {
    let g = state.gamepad;
    le16(g.w_buttons as int) + seq![g.b_left_trigger, g.b_right_trigger] + le16(u16_of_i16(g.s_thumb_lx))
        + le16(u16_of_i16(g.s_thumb_ly)) + le16(u16_of_i16(g.s_thumb_rx)) + le16(u16_of_i16(g.s_thumb_ry))
        + le16((state.dw_packet_number % 0x1_0000) as int)
}

fn push_le16(out: &mut Vec<u8>, u: u16)
    ensures
        final(out)@ == old(out)@ + le16(u as int),
{
    out.push((u % 256) as u8);
    out.push((u / 256) as u8);
    assert(out@ =~= old(out)@ + le16(u as int));
}

fn i16_bits(v: i16) -> (r: u16)
    ensures
        r as int == u16_of_i16(v),
{
    if v < 0 {
        ((v as i32) + 0x1_0000) as u16
    } else {
        v as u16
    }
}

/// Writes a state in the 14-byte report layout.
pub fn state_to_raw(state: &XInputState) -> (raw: Vec<u8>)
    ensures
        raw@ == spec_state_to_raw(*state),
        raw@.len() == 14,
{
    let g = state.gamepad;
    let mut raw: Vec<u8> = Vec::new();
    push_le16(&mut raw, g.w_buttons);
    raw.push(g.b_left_trigger);
    raw.push(g.b_right_trigger);
    push_le16(&mut raw, i16_bits(g.s_thumb_lx));
    push_le16(&mut raw, i16_bits(g.s_thumb_ly));
    push_le16(&mut raw, i16_bits(g.s_thumb_rx));
    push_le16(&mut raw, i16_bits(g.s_thumb_ry));
    push_le16(&mut raw, (state.dw_packet_number % 0x1_0000) as u16);
    assert(raw@ =~= spec_state_to_raw(*state));
    raw
}

/// Bit `k` of a 16-bit value.
pub open spec fn spec_u16_bit(w: u16, k: nat) -> bool {
    (w as nat / pow2(k)) % 2 == 1
}

/// What a state's report decodes to: the sixteen button bits, lowest first,
/// the four sticks, then the two triggers.
pub open spec fn spec_decoded_state(state: XInputState) -> Decoded {
    let g = state.gamepad;
    (
        Seq::new(16, |k: int| spec_u16_bit(g.w_buttons, k as nat)),
        seq![
            AxisValue::Signed16(g.s_thumb_lx),
            AxisValue::Signed16(g.s_thumb_ly),
            AxisValue::Signed16(g.s_thumb_rx),
            AxisValue::Signed16(g.s_thumb_ry),
            AxisValue::Trigger8(g.b_left_trigger),
            AxisValue::Trigger8(g.b_right_trigger),
        ],
    )
}

proof fn lemma_le_i16_round_trip(v: i16)
    ensures
        le_i16(le16(u16_of_i16(v))[0], le16(u16_of_i16(v))[1]) == v,
{
}

proof fn lemma_byte_bits_of_u16(w: u16, k: nat)
    requires
        k < 16,
    ensures
        (if k < 8 {
            spec_byte_bit((w % 256) as u8, k)
        } else {
            spec_byte_bit((w / 256) as u8, (k - 8) as nat)
        }) == spec_u16_bit(w, k),
{
    lemma2_to64();
    let x = w as nat;
    if k == 0 { assert((x % 256) / 1 % 2 == x / 1 % 2) by (nonlinear_arith) requires x < 0x1_0000; }
    else if k == 1 { assert((x % 256) / 2 % 2 == x / 2 % 2) by (nonlinear_arith) requires x < 0x1_0000; }
    else if k == 2 { assert((x % 256) / 4 % 2 == x / 4 % 2) by (nonlinear_arith) requires x < 0x1_0000; }
    else if k == 3 { assert((x % 256) / 8 % 2 == x / 8 % 2) by (nonlinear_arith) requires x < 0x1_0000; }
    else if k == 4 { assert((x % 256) / 16 % 2 == x / 16 % 2) by (nonlinear_arith) requires x < 0x1_0000; }
    else if k == 5 { assert((x % 256) / 32 % 2 == x / 32 % 2) by (nonlinear_arith) requires x < 0x1_0000; }
    else if k == 6 { assert((x % 256) / 64 % 2 == x / 64 % 2) by (nonlinear_arith) requires x < 0x1_0000; }
    else if k == 7 { assert((x % 256) / 128 % 2 == x / 128 % 2) by (nonlinear_arith) requires x < 0x1_0000; }
    else if k == 8 { assert((x / 256) / 1 % 2 == x / 256 % 2) by (nonlinear_arith) requires x < 0x1_0000; }
    else if k == 9 { assert((x / 256) / 2 % 2 == x / 512 % 2) by (nonlinear_arith) requires x < 0x1_0000; }
    else if k == 10 { assert((x / 256) / 4 % 2 == x / 1024 % 2) by (nonlinear_arith) requires x < 0x1_0000; }
    else if k == 11 { assert((x / 256) / 8 % 2 == x / 2048 % 2) by (nonlinear_arith) requires x < 0x1_0000; }
    else if k == 12 { assert((x / 256) / 16 % 2 == x / 4096 % 2) by (nonlinear_arith) requires x < 0x1_0000; }
    else if k == 13 { assert((x / 256) / 32 % 2 == x / 8192 % 2) by (nonlinear_arith) requires x < 0x1_0000; }
    else if k == 14 { assert((x / 256) / 64 % 2 == x / 16384 % 2) by (nonlinear_arith) requires x < 0x1_0000; }
    else { assert((x / 256) / 128 % 2 == x / 32768 % 2) by (nonlinear_arith) requires x < 0x1_0000; }
}

/// Decoding the report written for a state gives back that state's stick
/// and trigger values unchanged, and its sixteen button bits in order.
pub proof fn lemma_xinput_round_trip(state: XInputState)
    ensures
        spec_parse_xinput_raw(spec_state_to_raw(state)) == Some(spec_decoded_state(state)),
{
    let raw = spec_state_to_raw(state);
    let g = state.gamepad;
    assert(raw.len() == 14);
    lemma_le_i16_round_trip(g.s_thumb_lx);
    lemma_le_i16_round_trip(g.s_thumb_ly);
    lemma_le_i16_round_trip(g.s_thumb_rx);
    lemma_le_i16_round_trip(g.s_thumb_ry);
    assert(raw[0] == (g.w_buttons % 256) as u8);
    assert(raw[1] == (g.w_buttons / 256) as u8);
    let bits = byte_bits(raw[0], 0, 8) + byte_bits(raw[1], 0, 8);
    assert forall|k: int| 0 <= k < 16 implies bits[k] == spec_u16_bit(g.w_buttons, k as nat) by {
        lemma_byte_bits_of_u16(g.w_buttons, k as nat);
    }
    assert(bits =~= spec_decoded_state(state).0);
    let d = spec_parse_xinput_raw(raw).unwrap();
    assert(d.1 =~= spec_decoded_state(state).1);
}

} // verus!
