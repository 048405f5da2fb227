//! The trigger board's serial protocol: one-byte commands, acknowledgement
//! frames that carry the board's microsecond clock, and the bookkeeping of
//! the round trips used to map that clock onto the host's.
use vstd::prelude::*;
use crate::hid_bits::le_value;
use crate::hid_bits::pow256;
use crate::hid_bits::lemma_le_value_bound;
use crate::history::last_n;
use crate::history::push_bounded;
use crate::ranking::is_sorted;
use crate::ranking::is_sorted_permutation;
use crate::ranking::sort_u64;

verus! {

/// Command: drive the trigger output.
pub const FAST_CMD_GPIO_ASSERT: u8 = 0x02;
/// Command: release the trigger output.
pub const FAST_CMD_GPIO_RELEASE: u8 = 0x03;
/// Command: answer with the board clock only.
pub const FAST_CMD_TIME_SYNC: u8 = 0x10;
/// First byte of every acknowledgement frame.
pub const FAST_ACK_MAGIC: u8 = 0xA5;
/// Length of an acknowledgement after its first byte: kind and eight clock bytes.
pub const FAST_ACK_BODY_LEN: usize = 9;
/// Round trips made when a port is opened.
pub const CLOCK_SYNC_SAMPLES: usize = 128;
/// Round trips made before each trial.
pub const CLOCK_SYNC_REFRESH_SAMPLES: usize = 1;
/// Round trips kept for the clock fit.
pub const CLOCK_SYNC_KEEP_SAMPLES: usize = 512;

/// When a trigger edge happened, on the host clock and on the board clock.
#[derive(Clone, Copy, Debug, PartialEq, Eq, Structural)]
pub struct TriggerTimestamp {
    pub pc_ns: u64,
    pub device_us: u64,
}

/// One clock round trip: how long it took, the board time it reported (in
/// nanoseconds) and the host time halfway through it.
#[derive(Clone, Copy, Debug, PartialEq, Eq, Structural)]
pub struct ClockSyncSample {
    pub rtt_ns: u64,
    pub device_ns: u64,
    pub pc_mid_ns: u64,
}

/// Why an acknowledgement frame was refused.
#[derive(Clone, Copy, Debug, PartialEq, Eq, Structural)]
pub enum AckError {
    /// The frame answers another command.
    UnexpectedKind { expected: u8, got: u8 },
}

/// Reads eight little-endian bytes as a `u64`.
pub fn le_u64(data: &[u8]) -> (value: u64)
    requires
        data@.len() <= 8,
    ensures
        value as nat == le_value(data@),
{
    proof {
        lemma_le_value_bound(data@);
        lemma_pow256_le_u64(data@.len());
    }
    let mut acc: u64 = 0;
    let mut index: usize = data.len();
    while index > 0
        invariant
            data@.len() <= 8,
            index <= data@.len(),
            acc as nat == le_value(data@.skip(index as int)),
        decreases index,
    {
        let ghost rest = data@.skip(index as int);
        let ghost longer = data@.skip(index - 1);
        assert(longer.drop_first() =~= rest);
        proof {
            lemma_le_value_bound(longer);
            lemma_pow256_le_u64(longer.len());
        }
        assert(le_value(longer) == data@[index - 1] as nat + 256 * le_value(rest));
        acc = (data[index - 1] as u64) + 256 * acc;
        index = index - 1;
    }
    assert(data@.skip(0) =~= data@);
    acc
}

proof fn lemma_pow256_le_u64(n: nat)
    requires
        n <= 8,
    ensures
        pow256(n) <= 0x1_0000_0000_0000_0000,
{
    reveal_with_fuel(pow256, 9);
}

/// The board time carried by an acknowledgement body (kind byte, then the
/// clock in microseconds, little-endian), when it answers `expected_kind`.
pub open spec fn spec_decode_fast_ack(body: Seq<u8>, expected_kind: u8) -> Result<u64, AckError> {
    if body[0] == expected_kind {
        Ok(le_value(body.subrange(1, 9)) as u64)
    } else {
        Err(AckError::UnexpectedKind { expected: expected_kind, got: body[0] })
    }
}

/// Decodes the body of an acknowledgement frame (what follows its magic byte).
pub fn decode_fast_ack(body: &[u8], expected_kind: u8) -> (r: Result<u64, AckError>)
    requires
        body@.len() == FAST_ACK_BODY_LEN,
    ensures
        r == spec_decode_fast_ack(body@, expected_kind),
        r is Ok ==> r->Ok_0 as nat == le_value(body@.subrange(1, 9)),
{
    let kind = body[0];
    if kind != expected_kind {
        return Err(AckError::UnexpectedKind { expected: expected_kind, got: kind });
    }
    let slice = slice_from(body, 1);
    assert(slice@ =~= body@.subrange(1, 9));
    Ok(le_u64(slice))
}

fn slice_from(data: &[u8], start: usize) -> (r: &[u8])
    requires
        start <= data@.len(),
    ensures
        r@ == data@.subrange(start as int, data@.len() as int),
{
    vstd::slice::slice_subrange(data, start, data.len())
}

/// `a * b`, or `u64::MAX` when that overflows.
pub open spec fn saturating_mul(a: u64, b: u64) -> u64 {
    if a * b > u64::MAX { u64::MAX } else { (a * b) as u64 }
}

/// The round trip measured between `pc_start_ns` and `pc_end_ns` around a
/// time request that the board answered with `device_us`; none when the host
/// clock ran backwards.
pub open spec fn spec_clock_sample(pc_start_ns: u64, pc_end_ns: u64, device_us: u64) -> Option<ClockSyncSample> {
    if pc_end_ns >= pc_start_ns {
        let rtt = (pc_end_ns - pc_start_ns) as u64;
        Some(ClockSyncSample {
            rtt_ns: rtt,
            device_ns: saturating_mul(device_us, 1000),
            pc_mid_ns: (pc_start_ns + rtt / 2) as u64,
        })
    } else {
        None
    }
}

/// Builds the round-trip record of one time request.
pub fn clock_sample(pc_start_ns: u64, pc_end_ns: u64, device_us: u64) -> (r: Option<ClockSyncSample>)
    ensures
        r == spec_clock_sample(pc_start_ns, pc_end_ns, device_us),
{
    if pc_end_ns >= pc_start_ns {
        let rtt_ns = pc_end_ns - pc_start_ns;
        let device_ns = match device_us.checked_mul(1000) {
            Some(v) => v,
            None => u64::MAX,
        };
        Some(ClockSyncSample { rtt_ns, device_ns, pc_mid_ns: pc_start_ns + rtt_ns / 2 })
    } else {
        None
    }
}

/// Records one time request in the kept round trips: a usable one is
/// appended, and only the newest `CLOCK_SYNC_KEEP_SAMPLES` stay.
pub fn record_clock_sample(samples: &mut Vec<ClockSyncSample>, pc_start_ns: u64, pc_end_ns: u64, device_us: u64)
    ensures
        spec_clock_sample(pc_start_ns, pc_end_ns, device_us) matches Some(s) ==> final(samples)@ == last_n(
            old(samples)@.push(s),
            CLOCK_SYNC_KEEP_SAMPLES as nat,
        ),
        spec_clock_sample(pc_start_ns, pc_end_ns, device_us) is None ==> final(samples)@ == old(samples)@,
{
    if let Some(sample) = clock_sample(pc_start_ns, pc_end_ns, device_us) {
        push_bounded(samples, sample, CLOCK_SYNC_KEEP_SAMPLES);
    }
}

/// The round trips of `s` no slower than `threshold`, in their order.
pub open spec fn samples_within(s: Seq<ClockSyncSample>, threshold: u64) -> Seq<ClockSyncSample>
    decreases s.len(),
{
    if s.len() == 0 {
        Seq::empty()
    } else {
        let prefix = samples_within(s.drop_last(), threshold);
        if s.last().rtt_ns <= threshold {
            prefix.push(s.last())
        } else {
            prefix
        }
    }
}

/// The round-trip times of a list of samples.
pub open spec fn rtts(s: Seq<ClockSyncSample>) -> Seq<u64> {
    s.map_values(|x: ClockSyncSample| x.rtt_ns)
}

/// Index of the first fastest round trip.
pub open spec fn is_first_fastest(s: Seq<ClockSyncSample>, k: int) -> bool {
    &&& 0 <= k < s.len()
    &&& forall|i: int| 0 <= i < s.len() ==> s[k].rtt_ns <= #[trigger] s[i].rtt_ns
    &&& forall|i: int| 0 <= i < k ==> #[trigger] s[i].rtt_ns > s[k].rtt_ns
}

/// The round trips the clock fit uses: those no slower than the round trip at
/// three quarters of the way through them sorted by round-trip time, plus the
/// first fastest one, which stands alone when fewer than two were selected.
pub struct ClockSelection {
    pub rtt_threshold_ns: u64,
    pub selected: Vec<ClockSyncSample>,
    pub fastest: ClockSyncSample,
}

/// Where the round trips sorted by time are cut: `(n - 1) * 3 / 4`.
pub open spec fn threshold_index(n: nat) -> int {
    ((n - 1) * 3 / 4) as int
}

/// Picks the round trips for the clock fit; none when there are none.
pub fn select_clock_samples(samples: &[ClockSyncSample]) -> (r: Option<ClockSelection>)
    ensures
        samples@.len() == 0 <==> r is None,
        r matches Some(sel) ==> {
            &&& exists|sorted: Seq<u64>| #![trigger is_sorted_permutation(sorted, rtts(samples@))]
                is_sorted_permutation(sorted, rtts(samples@)) && sel.rtt_threshold_ns == sorted[threshold_index(samples@.len())]
            &&& sel.selected@ == samples_within(samples@, sel.rtt_threshold_ns)
            &&& exists|k: int| is_first_fastest(samples@, k) && sel.fastest == samples@[k]
        },
{
    let n = samples.len();
    if n == 0 {
        return None;
    }
    let mut times: Vec<u64> = Vec::new();
    let mut i: usize = 0;
    while i < n
        invariant
            n == samples@.len(),
            i <= n,
            times@ == rtts(samples@.subrange(0, i as int)),
        decreases n - i,
    {
        times.push(samples[i].rtt_ns);
        assert(times@ =~= rtts(samples@.subrange(0, i + 1)));
        i = i + 1;
    }
    assert(samples@.subrange(0, n as int) =~= samples@);
    let ghost all_times = times@;
    let sorted = sort_u64(times);
    proof {
        broadcast use vstd::seq_lib::group_to_multiset_ensures;
        assert(sorted@.len() == sorted@.to_multiset().len());
        assert(all_times.len() == all_times.to_multiset().len());
    }
    let idx = ((((n - 1) as u128) * 3) / 4) as usize;
    let threshold = sorted[idx];

    let mut selected: Vec<ClockSyncSample> = Vec::new();
    let mut best: usize = 0;
    let mut j: usize = 0;
    while j < n
        invariant
            n == samples@.len(),
            n > 0,
            j <= n,
            selected@ == samples_within(samples@.subrange(0, j as int), threshold),
            best < n,
            j > 0 ==> best < j,
            j > 0 ==> forall|q: int| 0 <= q < j ==> samples@[best as int].rtt_ns <= #[trigger] samples@[q].rtt_ns,
            forall|q: int| 0 <= q < best ==> #[trigger] samples@[q].rtt_ns > samples@[best as int].rtt_ns,
            j == 0 ==> best == 0,
        decreases n - j,
    {
        let s = samples[j];
        assert(samples@.subrange(0, j + 1).drop_last() =~= samples@.subrange(0, j as int));
        if s.rtt_ns <= threshold {
            selected.push(s);
        }
        if j > 0 && s.rtt_ns < samples[best].rtt_ns {
            best = j;
        }
        j = j + 1;
    }
    assert(samples@.subrange(0, n as int) =~= samples@);
    let sel = ClockSelection { rtt_threshold_ns: threshold, selected, fastest: samples[best] };
    assert(is_first_fastest(samples@, best as int));
    assert(is_sorted_permutation(sorted@, rtts(samples@)));
    Some(sel)
}

} // verus!
