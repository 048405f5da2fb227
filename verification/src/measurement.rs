//! Decisions of the latency measurement: when a report shows the target
//! button change, how recent samples are kept, and the random pre-trigger wait.
use vstd::prelude::*;
use std::collections::VecDeque;

verus! {

/// How many recent samples are kept.
pub const RING_CAPACITY: usize = 8192;
/// Longest random wait before a trigger, in microseconds.
pub const RANDOM_WAIT_MAX_US: u64 = 999;

/// A button that changed: its index and, when buttons were decoded, its new state.
#[derive(Clone, Copy, Debug, PartialEq, Eq, Structural)]
pub struct ButtonHit {
    pub index: usize,
    pub button_state: Option<bool>,
}

/// A button reached the expected state from another one; with no expected
/// state, it changed.
pub open spec fn spec_button_state_matches(current: bool, previous: bool, expected_state: Option<bool>) -> bool {
    match expected_state {
        Some(expected) => current == expected && previous != expected,
        None => current != previous,
    }
}

/// Whether a button moved as the measurement expects.
pub fn button_state_matches(current: bool, previous: bool, expected_state: Option<bool>) -> (r: bool)
    ensures
        r == spec_button_state_matches(current, previous, expected_state),
{
    match expected_state {
        Some(expected) => current == expected && previous != expected,
        None => current != previous,
    }
}

/// Whether two raw reports differ.
pub fn raw_changed(sample_raw: &[u8], baseline_raw: &[u8]) -> (r: bool)
    ensures
        r == (sample_raw@ != baseline_raw@),
{
    if sample_raw.len() != baseline_raw.len() {
        return true;
    }
    let mut i: usize = 0;
    while i < sample_raw.len()
        invariant
            sample_raw@.len() == baseline_raw@.len(),
            i <= sample_raw@.len(),
            forall|k: int| 0 <= k < i ==> sample_raw@[k] == baseline_raw@[k],
        decreases sample_raw@.len() - i,
    {
        if sample_raw[i] != baseline_raw[i] {
            return true;
        }
        i = i + 1;
    }
    assert(sample_raw@ =~= baseline_raw@);
    false
}

/// What the button change of a sample against the baseline is. Without
/// decoded buttons any change of the raw report counts (as index 0); with a
/// target index only that button counts; else the first matching button.
pub open spec fn is_button_hit_result(
    sample_buttons: Seq<bool>,
    sample_raw: Seq<u8>,
    baseline_buttons: Seq<bool>,
    baseline_raw: Seq<u8>,
    button_index: Option<usize>,
    expected_state: Option<bool>,
    r: Option<ButtonHit>,
) -> bool {
    &&& (sample_buttons.len() == 0 || baseline_buttons.len() == 0 ==> r == if sample_raw
            != baseline_raw {
            Some(ButtonHit { index: 0, button_state: None })
        } else {
            None
        })
    &&& (sample_buttons.len() > 0 && baseline_buttons.len() > 0 && button_index is Some ==> {
            let i = button_index.unwrap() as int;
            r == if i < sample_buttons.len() && i < baseline_buttons.len()
                && spec_button_state_matches(sample_buttons[i], baseline_buttons[i], expected_state) {
                Some(ButtonHit { index: i as usize, button_state: Some(sample_buttons[i]) })
            } else {
                None
            }
        })
    &&& (sample_buttons.len() > 0 && baseline_buttons.len() > 0 && button_index is None ==> {
            &&& r matches Some(h) ==> {
                &&& h.index < sample_buttons.len()
                &&& h.index < baseline_buttons.len()
                &&& spec_button_state_matches(sample_buttons[h.index as int], baseline_buttons[h.index as int], expected_state)
                &&& h.button_state == Some(sample_buttons[h.index as int])
                &&& forall|j: int| 0 <= j < h.index ==> !spec_button_state_matches(#[trigger] sample_buttons[j], baseline_buttons[j], expected_state)
            }
            &&& r is None ==> forall|j: int|
                0 <= j < sample_buttons.len() && j < baseline_buttons.len() ==> !spec_button_state_matches(#[trigger] sample_buttons[j], baseline_buttons[j], expected_state)
        })
}

/// Finds the button change of a sample against the baseline.
pub fn detect_button_hit(
    sample_buttons: &[bool],
    sample_raw: &[u8],
    baseline_buttons: &[bool],
    baseline_raw: &[u8],
    button_index: Option<usize>,
    expected_state: Option<bool>,
) -> (r: Option<ButtonHit>)
    ensures
        is_button_hit_result(sample_buttons@, sample_raw@, baseline_buttons@, baseline_raw@, button_index, expected_state, r),
{
    if sample_buttons.len() == 0 || baseline_buttons.len() == 0 {
        if raw_changed(sample_raw, baseline_raw) {
            return Some(ButtonHit { index: 0, button_state: None });
        }
        return None;
    }
    match button_index {
        Some(index) => {
            if index < sample_buttons.len() && index < baseline_buttons.len() {
                let current = sample_buttons[index];
                let previous = baseline_buttons[index];
                if button_state_matches(current, previous, expected_state) {
                    return Some(ButtonHit { index, button_state: Some(current) });
                }
            }
            None
        },
        None => {
            let n = if sample_buttons.len() < baseline_buttons.len() {
                sample_buttons.len()
            } else {
                baseline_buttons.len()
            };
            let mut i: usize = 0;
            while i < n
                invariant
                    button_index is None,
                    sample_buttons@.len() > 0,
                    baseline_buttons@.len() > 0,
                    n <= sample_buttons@.len(),
                    n <= baseline_buttons@.len(),
                    n == sample_buttons@.len() || n == baseline_buttons@.len(),
                    i <= n,
                    forall|j: int| 0 <= j < i ==> !spec_button_state_matches(#[trigger] sample_buttons@[j], baseline_buttons@[j], expected_state),
                decreases n - i,
            {
                let current = sample_buttons[i];
                if button_state_matches(current, baseline_buttons[i], expected_state) {
                    return Some(ButtonHit { index: i, button_state: Some(current) });
                }
                i = i + 1;
            }
            None
        },
    }
}

/// A sample counts for a trial only when it arrived at or after the
/// trigger; then its button change against the baseline is the hit.
pub fn button_hit_after_trigger(
    timestamp_ns: u64,
    t0_ns: u64,
    sample_buttons: &[bool],
    sample_raw: &[u8],
    baseline_buttons: &[bool],
    baseline_raw: &[u8],
    button_index: Option<usize>,
    expected_state: Option<bool>,
) -> (r: Option<ButtonHit>)
    ensures
        timestamp_ns < t0_ns ==> r is None,
        timestamp_ns >= t0_ns ==> is_button_hit_result(
            sample_buttons@,
            sample_raw@,
            baseline_buttons@,
            baseline_raw@,
            button_index,
            expected_state,
            r,
        ),
{
    if timestamp_ns < t0_ns {
        return None;
    }
    detect_button_hit(sample_buttons, sample_raw, baseline_buttons, baseline_raw, button_index, expected_state)
}

/// The target given on the command line or in the settings: a button index
/// of zero or more names the button; a negative one asks for detection.
pub fn fixed_button_target(button_index: i32) -> (r: Option<usize>)
    ensures
        button_index >= 0 ==> r == Some(button_index as usize),
        button_index < 0 ==> r is None,
{
    if button_index >= 0 {
        Some(button_index as usize)
    } else {
        None
    }
}

/// The target a detected button change gives: its index, and the state the
/// button takes when the trigger is asserted (pressed when not decoded).
pub fn button_target(hit: ButtonHit) -> (r: (usize, bool))
    ensures
        r.0 == hit.index,
        r.1 == match hit.button_state {
            Some(s) => s,
            None => true,
        },
{
    let state = match hit.button_state {
        Some(s) => s,
        None => true,
    };
    (hit.index, state)
}

/// How a trial ended.
#[derive(Clone, Copy, Debug, PartialEq, Eq, Structural)]
pub enum TrialOutcome {
    /// No sample was there to compare against.
    NoBaseline,
    /// The target changed in a sample at `t1_ns` after the trigger at `t0_ns`.
    Detected { t0_ns: u64, t1_ns: u64 },
    /// Nothing changed before the timeout.
    TimedOut,
}

/// Latency of a detection, in nanoseconds (zero when the sample is older
/// than the trigger).
pub open spec fn spec_latency_ns(t0_ns: u64, t1_ns: u64) -> u64 {
    if t1_ns >= t0_ns { (t1_ns - t0_ns) as u64 } else { 0 }
}

/// The counts of a measurement run: trials done, failed trials, and the
/// latency of each detected trial in order.
pub struct TrialTally {
    pub completed: usize,
    pub failures: usize,
    pub latencies_ns: Vec<u64>,
}

impl TrialTally {
    /// Every trial done is either a failure or has a latency.
    pub open spec fn wf(&self) -> bool {
        self.completed == self.failures + self.latencies_ns@.len()
    }

    /// No trial yet.
    pub fn new() -> (r: TrialTally)
        ensures
            r.wf(),
            r.completed == 0,
            r.failures == 0,
            r.latencies_ns@.len() == 0,
    {
        TrialTally { completed: 0, failures: 0, latencies_ns: Vec::new() }
    }

    /// Counts one trial: a detection adds its latency, anything else a failure.
    pub fn record(&mut self, outcome: TrialOutcome)
        requires
            old(self).wf(),
            old(self).completed < usize::MAX,
        ensures
            final(self).wf(),
            final(self).completed == old(self).completed + 1,
            match outcome {
                TrialOutcome::Detected { t0_ns, t1_ns } => final(self).failures == old(self).failures
                    && final(self).latencies_ns@ == old(self).latencies_ns@.push(spec_latency_ns(t0_ns, t1_ns)),
                _ => final(self).failures == old(self).failures + 1 && final(self).latencies_ns@
                    == old(self).latencies_ns@,
            },
    {
        match outcome {
            TrialOutcome::Detected { t0_ns, t1_ns } => {
                self.latencies_ns.push(t1_ns.saturating_sub(t0_ns));
            },
            _ => {
                self.failures = self.failures + 1;
            },
        }
        self.completed = self.completed + 1;
    }
}

/// Whether another random wait follows a trial before the trigger is
/// released: only after a detection.
pub fn waits_before_release(outcome: TrialOutcome) -> (r: bool)
    ensures
        r == (outcome is Detected),
{
    match outcome {
        TrialOutcome::Detected { .. } => true,
        _ => false,
    }
}

/// Adds a sample to the ring of recent samples, dropping the oldest when the
/// ring is full.
pub fn push_ring<T>(ring: &mut VecDeque<T>, sample: T)
    ensures
        old(ring)@.len() < RING_CAPACITY ==> final(ring)@ == old(ring)@.push(sample),
        old(ring)@.len() >= RING_CAPACITY ==> final(ring)@ == old(ring)@.subrange(1, old(ring)@.len() as int).push(sample),
        old(ring)@.len() <= RING_CAPACITY ==> final(ring)@.len() <= RING_CAPACITY,
{
    if ring.len() >= RING_CAPACITY {
        ring.pop_front();
    }
    ring.push_back(sample);
}

/// The newest sample of the ring.
pub fn latest_sample<T>(ring: &VecDeque<T>) -> (r: Option<&T>)
    ensures
        ring@.len() == 0 ==> r is None,
        ring@.len() > 0 ==> r == Some(&ring@[ring@.len() - 1]),
{
    let n = ring.len();
    if n == 0 {
        None
    } else {
        Some(&ring[n - 1])
    }
}

/// One xorshift64 step (shifts 13, 7, 17).
pub open spec fn xorshift(state: u64) -> u64 {
    let a = state ^ (state << 13u64);
    let b = a ^ (a >> 7u64);
    b ^ (b << 17u64)
}

/// The random wait before each trigger, so that triggers do not lock to the
/// device's polling phase.
pub struct RandomWait {
    pub state: u64,
}

impl RandomWait {
    /// A generator seeded with `seed` (mixed with a fixed odd constant).
    pub fn new(seed: u64) -> (r: RandomWait)
        ensures
            r.state == seed ^ 0x9E37_79B9_7F4A_7C15u64,
    {
        RandomWait { state: seed ^ 0x9E37_79B9_7F4A_7C15u64 }
    }

    /// Advances the generator and gives the next wait in microseconds.
    pub fn next_wait_us(&mut self) -> (r: u64)
        ensures
            final(self).state == xorshift(old(self).state),
            r as int == final(self).state as int % (RANDOM_WAIT_MAX_US as int + 1),
            r <= RANDOM_WAIT_MAX_US,
    {
        self.state = self.state ^ (self.state << 13u64);
        self.state = self.state ^ (self.state >> 7u64);
        self.state = self.state ^ (self.state << 17u64);
        self.state % (RANDOM_WAIT_MAX_US + 1)
    }
}

} // verus!
