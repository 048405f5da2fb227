use std::collections::VecDeque;

use inputlagscope::measurement::{
    button_hit_after_trigger, button_state_matches, button_target, detect_button_hit,
    fixed_button_target, latest_sample, push_ring, raw_changed, waits_before_release, ButtonHit,
    RandomWait, TrialOutcome, TrialTally, RANDOM_WAIT_MAX_US, RING_CAPACITY,
};

#[test]
fn button_state_rules() {
    assert!(button_state_matches(true, false, Some(true)));
    assert!(!button_state_matches(true, true, Some(true)));
    assert!(button_state_matches(false, true, None));
    assert!(!button_state_matches(false, false, None));
}

#[test]
fn hits_by_index_and_by_first_change() {
    let base = [false, false, true];
    let now = [false, true, false];
    assert_eq!(
        detect_button_hit(&now, &[], &base, &[], None, None),
        Some(ButtonHit { index: 1, button_state: Some(true) })
    );
    assert_eq!(
        detect_button_hit(&now, &[], &base, &[], None, Some(false)),
        Some(ButtonHit { index: 2, button_state: Some(false) })
    );
    assert_eq!(detect_button_hit(&now, &[], &base, &[], Some(0), None), None);
    assert_eq!(detect_button_hit(&now, &[], &base, &[], Some(9), None), None);
}

#[test]
fn raw_reports_stand_in_for_missing_buttons() {
    assert!(raw_changed(&[1, 2], &[1, 3]));
    assert!(!raw_changed(&[1, 2], &[1, 2]));
    assert_eq!(
        detect_button_hit(&[], &[1, 2], &[true], &[1, 3], None, None),
        Some(ButtonHit { index: 0, button_state: None })
    );
    assert_eq!(detect_button_hit(&[], &[1, 2], &[], &[1, 2], None, None), None);
}

#[test]
fn samples_before_the_trigger_do_not_count() {
    assert_eq!(button_hit_after_trigger(99, 100, &[true], &[], &[false], &[], None, None), None);
    assert_eq!(
        button_hit_after_trigger(100, 100, &[true], &[], &[false], &[], None, None),
        Some(ButtonHit { index: 0, button_state: Some(true) })
    );
}

#[test]
fn targets() {
    assert_eq!(fixed_button_target(3), Some(3));
    assert_eq!(fixed_button_target(-1), None);
    assert_eq!(button_target(ButtonHit { index: 4, button_state: None }), (4, true));
    assert_eq!(button_target(ButtonHit { index: 2, button_state: Some(false) }), (2, false));
}

#[test]
fn tally_counts_every_trial_once() {
    let mut tally = TrialTally::new();
    tally.record(TrialOutcome::Detected { t0_ns: 1_000, t1_ns: 4_500 });
    tally.record(TrialOutcome::TimedOut);
    tally.record(TrialOutcome::NoBaseline);
    tally.record(TrialOutcome::Detected { t0_ns: 10, t1_ns: 5 });
    assert_eq!(tally.completed, 4);
    assert_eq!(tally.failures, 2);
    assert_eq!(tally.latencies_ns, vec![3_500, 0]);
    assert_eq!(tally.completed, tally.failures + tally.latencies_ns.len());
    assert!(waits_before_release(TrialOutcome::Detected { t0_ns: 0, t1_ns: 1 }));
    assert!(!waits_before_release(TrialOutcome::TimedOut));
}

#[test]
fn ring_keeps_newest_samples() {
    let mut ring = VecDeque::new();
    for i in 0..(RING_CAPACITY + 3) {
        push_ring(&mut ring, i);
    }
    assert_eq!(ring.len(), RING_CAPACITY);
    assert_eq!(ring.front().copied(), Some(3));
    assert_eq!(latest_sample(&ring).copied(), Some(RING_CAPACITY + 2));
    let empty: VecDeque<u8> = VecDeque::new();
    assert!(latest_sample(&empty).is_none());
}

#[test]
fn random_wait_is_xorshift_below_a_millisecond() {
    let mut wait = RandomWait::new(0);
    let mut state = 0x9E37_79B9_7F4A_7C15_u64;
    for _ in 0..100 {
        state ^= state << 13;
        state ^= state >> 7;
        state ^= state << 17;
        let w = wait.next_wait_us();
        assert_eq!(w, state % (RANDOM_WAIT_MAX_US + 1));
        assert!(w <= RANDOM_WAIT_MAX_US);
    }
}
