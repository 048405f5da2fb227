//! The polling-rate test on integer nanoseconds: which report times are
//! kept, the intervals between them, the stall threshold and the split of
//! intervals into stalls and steady polling.
use vstd::prelude::*;
use crate::models::DeviceInfo;
use crate::models::ProtocolKind;
use crate::ranking::is_sorted_permutation;
use crate::ranking::percentile_sorted;
use crate::ranking::sort_u64;
use crate::ranking::spec_percentile_index;
use crate::text::append_vid_pid;
use crate::text::vid_pid_text;

verus! {

/// Intervals this long or longer are gaps in the capture, not polls.
pub const MAX_INTERVAL_NS: u64 = 50_000_000;
/// The stall threshold is never below one millisecond.
pub const MIN_STALL_THRESHOLD_NS: u64 = 1_000_000;
/// A stall is at least this many medians long.
pub const STALL_MEDIAN_FACTOR: u64 = 4;

/// The bytes `capture error:` that open a capture thread's failure report.
pub open spec fn capture_error_prefix() -> Seq<u8> {
    seq![0x63u8, 0x61, 0x70, 0x74, 0x75, 0x72, 0x65, 0x20, 0x65, 0x72, 0x72, 0x6f, 0x72, 0x3a]
}

/// Whether a sample is a capture thread's failure report rather than input.
pub open spec fn spec_is_capture_error(protocol: ProtocolKind, raw: Seq<u8>) -> bool {
    protocol == ProtocolKind::Unknown && raw.len() >= 14 && raw.subrange(0, 14) == capture_error_prefix()
}

/// Tells a capture failure report from an input sample.
pub fn is_capture_error(protocol: ProtocolKind, raw: &[u8]) -> (r: bool)
    ensures
        r == spec_is_capture_error(protocol, raw@),
{
    let prefix: [u8; 14] = [0x63, 0x61, 0x70, 0x74, 0x75, 0x72, 0x65, 0x20, 0x65, 0x72, 0x72, 0x6f, 0x72, 0x3a];
    assert(prefix@ =~= capture_error_prefix());
    if protocol != ProtocolKind::Unknown || raw.len() < 14 {
        return false;
    }
    let mut i: usize = 0;
    while i < 14
        invariant
            raw@.len() >= 14,
            prefix@ == capture_error_prefix(),
            i <= 14,
            forall|k: int| 0 <= k < i ==> raw@[k] == prefix@[k],
        decreases 14 - i,
    {
        if raw[i] != prefix[i] {
            assert(raw@.subrange(0, 14)[i as int] != capture_error_prefix()[i as int]);
            return false;
        }
        i = i + 1;
    }
    assert(raw@.subrange(0, 14) =~= capture_error_prefix());
    true
}

/// No report time follows an equal one.
pub open spec fn no_adjacent_repeats(s: Seq<u64>) -> bool {
    forall|i: int, j: int| 0 <= i && j == i + 1 && j < s.len() ==> #[trigger] s[i] != #[trigger] s[j]
}

/// A capture thread reported a failure; its report is the error text.
#[derive(Clone, Debug)]
pub struct CaptureFailure {
    pub report: Vec<u8>,
}

/// Adds a report time to the test's list, skipping a time equal to the last
/// one; a capture failure report ends the test instead.
pub fn push_sample_timestamp(protocol: ProtocolKind, raw: &[u8], timestamp_ns: u64, timestamps: &mut Vec<u64>) -> (r: Result<(), CaptureFailure>)
    ensures
        spec_is_capture_error(protocol, raw@) ==> r is Err && final(timestamps)@ == old(timestamps)@,
        r matches Err(e) ==> e.report@ == raw@,
        !spec_is_capture_error(protocol, raw@) ==> r is Ok && final(timestamps)@ == if old(timestamps)@.len() > 0
            && old(timestamps)@.last() == timestamp_ns {
            old(timestamps)@
        } else {
            old(timestamps)@.push(timestamp_ns)
        },
        no_adjacent_repeats(old(timestamps)@) ==> no_adjacent_repeats(final(timestamps)@),
{
    if is_capture_error(protocol, raw) {
        let mut report: Vec<u8> = Vec::new();
        let mut i: usize = 0;
        while i < raw.len()
            invariant
                i <= raw@.len(),
                report@ == raw@.subrange(0, i as int),
            decreases raw@.len() - i,
        {
            report.push(raw[i]);
            assert(report@ =~= raw@.subrange(0, i + 1));
            i = i + 1;
        }
        assert(raw@.subrange(0, raw@.len() as int) =~= raw@);
        return Err(CaptureFailure { report });
    }
    let n = timestamps.len();
    if n == 0 || timestamps[n - 1] != timestamp_ns {
        timestamps.push(timestamp_ns);
    }
    Ok(())
}

/// `b - a`, or 0 when `b` is earlier.
pub open spec fn elapsed(a: u64, b: u64) -> u64 {
    if b >= a { (b - a) as u64 } else { 0 }
}

/// Interval between the last two report times.
pub open spec fn last_gap(ts: Seq<u64>) -> u64 {
    elapsed(ts[ts.len() - 2], ts[ts.len() - 1])
}

/// The intervals between consecutive report times, in order, without the
/// gaps of `MAX_INTERVAL_NS` or more.
pub open spec fn poll_intervals(ts: Seq<u64>) -> Seq<u64>
    decreases ts.len(),
{
    if ts.len() < 2 {
        Seq::empty()
    } else {
        let prefix = poll_intervals(ts.drop_last());
        if last_gap(ts) < MAX_INTERVAL_NS { prefix.push(last_gap(ts)) } else { prefix }
    }
}

/// One stall: how long the interval was and when it ended, counted from
/// the first report time.
#[derive(Clone, Copy, Debug, PartialEq, Eq, Structural)]
pub struct PollStallNs {
    pub interval_ns: u64,
    pub at_ns: u64,
}

/// The intervals at or above the threshold, as stalls, in order.
pub open spec fn poll_stalls(ts: Seq<u64>, threshold: u64) -> Seq<PollStallNs>
    decreases ts.len(),
{
    if ts.len() < 2 {
        Seq::empty()
    } else {
        let prefix = poll_stalls(ts.drop_last(), threshold);
        let g = last_gap(ts);
        if g < MAX_INTERVAL_NS && g >= threshold {
            prefix.push(PollStallNs { interval_ns: g, at_ns: elapsed(ts[0], ts.last()) })
        } else {
            prefix
        }
    }
}

/// The intervals below both the threshold and `MAX_INTERVAL_NS`, in order.
pub open spec fn steady_intervals(ts: Seq<u64>, threshold: u64) -> Seq<u64>
    decreases ts.len(),
{
    if ts.len() < 2 {
        Seq::empty()
    } else {
        let prefix = steady_intervals(ts.drop_last(), threshold);
        let g = last_gap(ts);
        if g < MAX_INTERVAL_NS && g < threshold { prefix.push(g) } else { prefix }
    }
}

/// Every interval of the test is either a stall or steady polling, never
/// both: the stalls and the steady intervals together are as many as the
/// intervals, each stall is at or above the threshold and each steady
/// interval below it.
pub proof fn lemma_stalls_partition_intervals(ts: Seq<u64>, threshold: u64)
    ensures
        poll_stalls(ts, threshold).len() + steady_intervals(ts, threshold).len() == poll_intervals(ts).len(),
        forall|i: int| 0 <= i < poll_stalls(ts, threshold).len() ==> #[trigger] poll_stalls(ts, threshold)[i].interval_ns >= threshold,
        forall|i: int| 0 <= i < steady_intervals(ts, threshold).len() ==> #[trigger] steady_intervals(ts, threshold)[i] < threshold,
    decreases ts.len(),
{
    if ts.len() >= 2 {
        lemma_stalls_partition_intervals(ts.drop_last(), threshold);
    }
}

/// Report times all moved by the same amount `c`.
pub open spec fn shifted(ts: Seq<u64>, c: u64) -> Seq<u64> {
    Seq::new(ts.len(), |i: int| (ts[i] + c) as u64)
}

/// Stalls are timed from the first report time, and intervals are
/// differences: moving every report time by the same amount changes
/// neither the intervals, nor the stalls (their lengths and when they end),
/// nor the steady intervals.
pub proof fn lemma_poll_summary_shift_invariant(ts: Seq<u64>, c: u64, threshold: u64)
    requires
        forall|i: int| 0 <= i < ts.len() ==> #[trigger] ts[i] + c <= u64::MAX,
    ensures
        poll_intervals(shifted(ts, c)) == poll_intervals(ts),
        poll_stalls(shifted(ts, c), threshold) == poll_stalls(ts, threshold),
        steady_intervals(shifted(ts, c), threshold) == steady_intervals(ts, threshold),
    decreases ts.len(),
{
    let t = shifted(ts, c);
    if ts.len() >= 2 {
        assert(t.drop_last() =~= shifted(ts.drop_last(), c));
        lemma_poll_summary_shift_invariant(ts.drop_last(), c, threshold);
        assert(t[t.len() - 2] == ts[ts.len() - 2] + c);
        assert(t[t.len() - 1] == ts[ts.len() - 1] + c);
        assert(t[0] == ts[0] + c);
        assert(last_gap(t) == last_gap(ts));
        assert(elapsed(t[0], t.last()) == elapsed(ts[0], ts.last()));
    }
}

/// When report times do not go backwards, each stall is the interval
/// between two consecutive report times `ts[k - 1]` and `ts[k]`, and it is
/// placed at `ts[k] - ts[0]`, the time from the first report to its end.
pub proof fn lemma_stall_positions(ts: Seq<u64>, threshold: u64)
    requires
        forall|i: int, j: int| 0 <= i <= j < ts.len() ==> ts[i] <= ts[j],
    ensures
        forall|s: int|
            #![trigger poll_stalls(ts, threshold)[s]]
            0 <= s < poll_stalls(ts, threshold).len() ==> exists|k: int|
                #![trigger ts[k]]
                1 <= k < ts.len() && poll_stalls(ts, threshold)[s].interval_ns == ts[k] - ts[k - 1]
                    && poll_stalls(ts, threshold)[s].at_ns == ts[k] - ts[0],
    decreases ts.len(),
{
    if ts.len() >= 2 {
        let p = ts.drop_last();
        lemma_stall_positions(p, threshold);
        let st = poll_stalls(ts, threshold);
        let sp = poll_stalls(p, threshold);
        let n = ts.len() - 1;
        assert forall|s: int| #![trigger st[s]] 0 <= s < st.len() implies exists|k: int|
            #![trigger ts[k]]
            1 <= k < ts.len() && st[s].interval_ns == ts[k] - ts[k - 1] && st[s].at_ns == ts[k] - ts[0] by {
            if s < sp.len() {
                assert(st[s] == sp[s]);
                let k = choose|k: int| #![trigger p[k]] 1 <= k < p.len() && sp[s].interval_ns == p[k] - p[k - 1] && sp[s].at_ns == p[k] - p[0];
                assert(p[k] == ts[k] && p[k - 1] == ts[k - 1] && p[0] == ts[0]);
            } else {
                assert(ts[n - 1] <= ts[n]);
                assert(ts[0] <= ts[n]);
                assert(st[s].interval_ns == ts[n] - ts[n - 1]);
                assert(st[s].at_ns == ts[n] - ts[0]);
            }
        }
    }
}

/// The stall threshold for a median interval: four medians, at least one
/// millisecond; none when the median is zero.
pub open spec fn spec_stall_threshold(median_ns: u64) -> Option<u64> {
    if median_ns == 0 {
        None
    } else if STALL_MEDIAN_FACTOR * median_ns > MIN_STALL_THRESHOLD_NS {
        Some((STALL_MEDIAN_FACTOR * median_ns) as u64)
    } else {
        Some(MIN_STALL_THRESHOLD_NS)
    }
}

/// Computes the stall threshold of a median interval.
pub fn stall_threshold(median_ns: u64) -> (r: Option<u64>)
    requires
        median_ns <= u64::MAX / 4,
    ensures
        r == spec_stall_threshold(median_ns),
{
    if median_ns == 0 {
        None
    } else if STALL_MEDIAN_FACTOR * median_ns > MIN_STALL_THRESHOLD_NS {
        Some(STALL_MEDIAN_FACTOR * median_ns)
    } else {
        Some(MIN_STALL_THRESHOLD_NS)
    }
}

/// What the polling-rate test computes from its report times, in nanoseconds.
pub struct PollIntervalSummary {
    /// Intervals below `MAX_INTERVAL_NS`, in order.
    pub intervals_ns: Vec<u64>,
    /// The same intervals, sorted.
    pub sorted_ns: Vec<u64>,
    pub median_ns: Option<u64>,
    pub p95_ns: Option<u64>,
    pub max_ns: Option<u64>,
    pub stall_threshold_ns: Option<u64>,
    pub stalls: Vec<PollStallNs>,
    pub steady_ns: Vec<u64>,
}

/// The kept intervals between consecutive report times.
pub fn intervals_of(timestamps: &[u64]) -> (r: Vec<u64>)
    ensures
        r@ == poll_intervals(timestamps@),
        forall|i: int| 0 <= i < r@.len() ==> #[trigger] r@[i] < MAX_INTERVAL_NS,
{
    let mut out: Vec<u64> = Vec::new();
    let mut i: usize = 1;
    proof {
        lemma_intervals_bound(timestamps@);
    }
    if timestamps.len() < 2 {
        return out;
    }
    while i < timestamps.len()
        invariant
            1 <= i <= timestamps@.len(),
            out@ == poll_intervals(timestamps@.subrange(0, i as int)),
        decreases timestamps@.len() - i,
    {
        let ghost prefix = timestamps@.subrange(0, i + 1);
        assert(prefix.drop_last() =~= timestamps@.subrange(0, i as int));
        let gap = timestamps[i].saturating_sub(timestamps[i - 1]);
        assert(gap == last_gap(prefix));
        if gap < MAX_INTERVAL_NS {
            out.push(gap);
        }
        i = i + 1;
    }
    assert(timestamps@.subrange(0, i as int) =~= timestamps@);
    out
}

proof fn lemma_intervals_bound(ts: Seq<u64>)
    ensures
        forall|i: int| 0 <= i < poll_intervals(ts).len() ==> #[trigger] poll_intervals(ts)[i] < MAX_INTERVAL_NS,
    decreases ts.len(),
{
    if ts.len() >= 2 {
        lemma_intervals_bound(ts.drop_last());
        let prefix = poll_intervals(ts.drop_last());
        assert forall|i: int| 0 <= i < poll_intervals(ts).len() implies #[trigger] poll_intervals(ts)[i] < MAX_INTERVAL_NS by {
            if i < prefix.len() {
                assert(poll_intervals(ts)[i] == prefix[i]);
            }
        }
    }
}

/// Splits the intervals into stalls and steady polling.
pub fn split_stalls(timestamps: &[u64], threshold: u64) -> (r: (Vec<PollStallNs>, Vec<u64>))
    ensures
        r.0@ == poll_stalls(timestamps@, threshold),
        r.1@ == steady_intervals(timestamps@, threshold),
{
    let mut stalls: Vec<PollStallNs> = Vec::new();
    let mut steady: Vec<u64> = Vec::new();
    if timestamps.len() < 2 {
        return (stalls, steady);
    }
    let first = timestamps[0];
    let mut i: usize = 1;
    while i < timestamps.len()
        invariant
            1 <= i <= timestamps@.len(),
            first == timestamps@[0],
            stalls@ == poll_stalls(timestamps@.subrange(0, i as int), threshold),
            steady@ == steady_intervals(timestamps@.subrange(0, i as int), threshold),
        decreases timestamps@.len() - i,
    {
        let ghost prefix = timestamps@.subrange(0, i + 1);
        assert(prefix.drop_last() =~= timestamps@.subrange(0, i as int));
        let gap = timestamps[i].saturating_sub(timestamps[i - 1]);
        assert(gap == last_gap(prefix));
        if gap < MAX_INTERVAL_NS {
            if gap >= threshold {
                stalls.push(PollStallNs { interval_ns: gap, at_ns: timestamps[i].saturating_sub(first) });
            } else {
                steady.push(gap);
            }
        }
        i = i + 1;
    }
    assert(timestamps@.subrange(0, i as int) =~= timestamps@);
    (stalls, steady)
}

/// Summarises the report times of a polling-rate test.
pub fn summarize_poll_intervals(timestamps: &[u64]) -> (r: PollIntervalSummary)
    ensures
        r.intervals_ns@ == poll_intervals(timestamps@),
        is_sorted_permutation(r.sorted_ns@, r.intervals_ns@),
        r.intervals_ns@.len() == 0 ==> r.median_ns is None && r.p95_ns is None && r.max_ns is None,
        r.intervals_ns@.len() > 0 ==> {
            let s = r.sorted_ns@;
            &&& r.median_ns == Some(s[spec_percentile_index(s.len(), 50) as int])
            &&& r.p95_ns == Some(s[spec_percentile_index(s.len(), 95) as int])
            &&& r.max_ns == Some(s.last())
        },
        r.stall_threshold_ns == spec_stall_threshold(
            if r.intervals_ns@.len() == 0 { 0 } else { r.sorted_ns@[spec_percentile_index(r.sorted_ns@.len(), 50) as int] },
        ),
        r.stall_threshold_ns is None ==> r.stalls@.len() == 0 && r.steady_ns@.len() == 0,
        r.stall_threshold_ns matches Some(t) ==> r.stalls@ == poll_stalls(timestamps@, t) && r.steady_ns@
            == steady_intervals(timestamps@, t),
{
    broadcast use vstd::seq_lib::group_to_multiset_ensures;
    let intervals = intervals_of(timestamps);
    let mut copy: Vec<u64> = Vec::new();
    let mut i: usize = 0;
    while i < intervals.len()
        invariant
            i <= intervals@.len(),
            copy@ == intervals@.subrange(0, i as int),
        decreases intervals@.len() - i,
    {
        copy.push(intervals[i]);
        assert(copy@ =~= intervals@.subrange(0, i + 1));
        i = i + 1;
    }
    assert(intervals@.subrange(0, intervals@.len() as int) =~= intervals@);
    let sorted = sort_u64(copy);
    proof {
        assert(sorted@.len() == sorted@.to_multiset().len());
        assert(intervals@.len() == intervals@.to_multiset().len());
        assert forall|k: int| 0 <= k < sorted@.len() implies #[trigger] sorted@[k] < MAX_INTERVAL_NS by {
            assert(sorted@.to_multiset().count(sorted@[k]) > 0);
            assert(intervals@.to_multiset().count(sorted@[k]) > 0);
            assert(intervals@.contains(sorted@[k]));
        }
    }
    let n = sorted.len();
    let median = percentile_sorted(sorted.as_slice(), 50);
    let threshold = stall_threshold(median);
    let (stalls, steady) = match threshold {
        Some(t) => {
            split_stalls(timestamps, t)
        },
        None => (Vec::new(), Vec::new()),
    };
    let (median_ns, p95_ns, max_ns) = if n == 0 {
        (None, None, None)
    } else {
        (Some(median), Some(percentile_sorted(sorted.as_slice(), 95)), Some(sorted[n - 1]))
    };
    PollIntervalSummary {
        intervals_ns: intervals,
        sorted_ns: sorted,
        median_ns,
        p95_ns,
        max_ns,
        stall_threshold_ns: threshold,
        stalls,
        steady_ns: steady,
    }
}

/// `VVVV:PPPP` of a device that has both ids.
pub fn vid_pid(device: &DeviceInfo) -> (r: Option<String>)
    ensures
        (device.vendor_id, device.product_id) matches (Some(v), Some(p)) ==> r matches Some(s) && s@ == vid_pid_text(v, p),
        device.vendor_id is None || device.product_id is None ==> r is None,
{
    match (device.vendor_id, device.product_id) {
        (Some(v), Some(p)) => {
            let mut out = String::new();
            append_vid_pid(&mut out, v, p);
            assert(out@ =~= vid_pid_text(v, p));
            Some(out)
        },
        _ => None,
    }
}

} // verus!
