use inputlagscope::models::AxisValue;
use inputlagscope::protocol::parse_xinput_raw;
use inputlagscope::xinput::{state_to_raw, XInputGamepad, XInputState};

fn state() -> XInputState {
    XInputState {
        dw_packet_number: 0x0102_0304,
        gamepad: XInputGamepad {
            w_buttons: 0x8001,
            b_left_trigger: 12,
            b_right_trigger: 255,
            s_thumb_lx: -32768,
            s_thumb_ly: 32767,
            s_thumb_rx: -1,
            s_thumb_ry: 256,
        },
    }
}

#[test]
fn state_layout_is_little_endian() {
    assert_eq!(
        state_to_raw(&state()),
        vec![0x01, 0x80, 12, 255, 0x00, 0x80, 0xFF, 0x7F, 0xFF, 0xFF, 0x00, 0x01, 0x04, 0x03]
    );
}

#[test]
fn decoding_the_layout_gives_the_state_back() {
    let decoded = parse_xinput_raw(&state_to_raw(&state())).unwrap();
    let mut buttons = vec![false; 16];
    buttons[0] = true;
    buttons[15] = true;
    assert_eq!(decoded.buttons, buttons);
    assert_eq!(
        decoded.axes,
        vec![
            AxisValue::Signed16(-32768),
            AxisValue::Signed16(32767),
            AxisValue::Signed16(-1),
            AxisValue::Signed16(256),
            AxisValue::Trigger8(12),
            AxisValue::Trigger8(255),
        ]
    );
}

#[test]
fn short_xinput_reports_are_refused() {
    assert!(parse_xinput_raw(&[0u8; 13]).is_none());
}
