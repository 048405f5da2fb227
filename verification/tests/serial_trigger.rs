use inputlagscope::serial_trigger::{
    clock_sample, decode_fast_ack, le_u64, record_clock_sample, select_clock_samples, AckError,
    ClockSyncSample, CLOCK_SYNC_KEEP_SAMPLES, FAST_CMD_GPIO_ASSERT, FAST_CMD_TIME_SYNC,
};

#[test]
fn ack_body_carries_little_endian_microseconds() {
    let body = [FAST_CMD_GPIO_ASSERT, 0x10, 0x27, 0, 0, 0, 0, 0, 0];
    assert_eq!(decode_fast_ack(&body, FAST_CMD_GPIO_ASSERT), Ok(10_000));
    let big = [FAST_CMD_TIME_SYNC, 0xFF, 0xFF, 0xFF, 0xFF, 0xFF, 0xFF, 0xFF, 0xFF];
    assert_eq!(decode_fast_ack(&big, FAST_CMD_TIME_SYNC), Ok(u64::MAX));
}

#[test]
fn ack_for_another_command_is_refused() {
    let body = [0x03, 1, 0, 0, 0, 0, 0, 0, 0];
    assert_eq!(
        decode_fast_ack(&body, FAST_CMD_GPIO_ASSERT),
        Err(AckError::UnexpectedKind { expected: 0x02, got: 0x03 })
    );
}

#[test]
fn le_u64_reads_low_byte_first() {
    assert_eq!(le_u64(&[0x01, 0x02]), 0x0201);
    assert_eq!(le_u64(&[]), 0);
    assert_eq!(le_u64(&[1, 2, 3, 4, 5, 6, 7, 8]), 0x0807_0605_0403_0201);
}

#[test]
fn clock_sample_takes_midpoint_and_nanoseconds() {
    let s = clock_sample(1_000, 1_501, 7).unwrap();
    assert_eq!(s, ClockSyncSample { rtt_ns: 501, device_ns: 7_000, pc_mid_ns: 1_250 });
    assert_eq!(clock_sample(10, 9, 1), None);
    assert_eq!(clock_sample(0, 0, u64::MAX).unwrap().device_ns, u64::MAX);
}

#[test]
fn kept_clock_samples_are_bounded() {
    let mut samples = Vec::new();
    for i in 0..(CLOCK_SYNC_KEEP_SAMPLES as u64 + 10) {
        record_clock_sample(&mut samples, i * 100, i * 100 + 10, i);
    }
    record_clock_sample(&mut samples, 50, 40, 1);
    assert_eq!(samples.len(), CLOCK_SYNC_KEEP_SAMPLES);
    assert_eq!(samples[0].device_ns, 10_000);
    assert_eq!(samples.last().unwrap().device_ns, (CLOCK_SYNC_KEEP_SAMPLES as u64 + 9) * 1000);
}

fn sample(rtt_ns: u64, device_ns: u64) -> ClockSyncSample {
    ClockSyncSample { rtt_ns, device_ns, pc_mid_ns: device_ns + 5 }
}

#[test]
fn clock_selection_uses_three_quarter_round_trip() {
    let samples = vec![sample(40, 1), sample(10, 2), sample(30, 3), sample(10, 4), sample(90, 5)];
    let sel = select_clock_samples(&samples).unwrap();
    // sorted round trips: 10 10 30 40 90; index (5 - 1) * 3 / 4 = 3
    assert_eq!(sel.rtt_threshold_ns, 40);
    assert_eq!(sel.selected, vec![sample(40, 1), sample(10, 2), sample(30, 3), sample(10, 4)]);
    assert_eq!(sel.fastest, sample(10, 2));
}

#[test]
fn clock_selection_of_one_and_none() {
    assert!(select_clock_samples(&[]).is_none());
    let sel = select_clock_samples(&[sample(7, 9)]).unwrap();
    assert_eq!(sel.rtt_threshold_ns, 7);
    assert_eq!(sel.selected.len(), 1);
    assert_eq!(sel.fastest, sample(7, 9));
}
