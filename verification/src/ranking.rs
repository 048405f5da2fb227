//! Sorting integer measurements and picking percentiles from them.
use vstd::prelude::*;

verus! {

/// Whether a sequence is in non-decreasing order.
pub open spec fn is_sorted(s: Seq<u64>) -> bool {
    forall|i: int, j: int| 0 <= i <= j < s.len() ==> #[trigger] s[i] <= #[trigger] s[j]
}

/// A non-decreasing arrangement of the same values.
pub open spec fn is_sorted_permutation(sorted: Seq<u64>, values: Seq<u64>) -> bool {
    is_sorted(sorted) && sorted.to_multiset() == values.to_multiset()
}

/// Sorts values in non-decreasing order (insertion sort).
pub fn sort_u64(values: Vec<u64>) -> (r: Vec<u64>)
    ensures
        is_sorted_permutation(r@, values@),
{
    broadcast use vstd::seq_lib::group_to_multiset_ensures;
    let ghost all = values@;
    let total = values.len();
    let mut out: Vec<u64> = Vec::new();
    let mut k: usize = 0;
    assert(all.take(0) =~= Seq::<u64>::empty());
    while k < total
        invariant
            all == values@,
            all.len() == total,
            k <= total,
            out@.to_multiset() == all.take(k as int).to_multiset(),
            is_sorted(out@),
        decreases total - k,
    {
        let item = values[k];
        assert(all.take(k + 1) =~= all.take(k as int).push(item));
        let mut j: usize = 0;
        while j < out.len() && out[j] <= item
            invariant
                j <= out@.len(),
                is_sorted(out@),
                forall|q: int| 0 <= q < j ==> #[trigger] out@[q] <= item,
            decreases out@.len() - j,
        {
            j = j + 1;
        }
        let ghost before = out@;
        out.insert(j, item);
        proof {
            vstd::seq_lib::to_multiset_insert(before, j as int, item);
            vstd::seq_lib::to_multiset_build(all.take(k as int), item);
            assert(out@ == before.insert(j as int, item));
            assert forall|a: int, b: int| 0 <= a <= b < out@.len() implies #[trigger] out@[a] <= #[trigger] out@[b] by {
                if b < j {
                    assert(out@[a] == before[a] && out@[b] == before[b]);
                } else if b == j {
                    if a < j {
                        assert(out@[a] == before[a]);
                    }
                } else if a == j {
                    assert(out@[b] == before[b - 1]);
                    assert(before[j as int] > item);
                } else if a < j {
                    assert(out@[a] == before[a] && out@[b] == before[b - 1]);
                } else {
                    assert(out@[a] == before[a - 1] && out@[b] == before[b - 1]);
                }
            }
        }
        k = k + 1;
    }
    assert(all.take(k as int) =~= all);
    out
}

/// Index of the `percent`-th percentile in a sorted list of `len` values:
/// `(len - 1) * percent / 100`, rounded to the nearest index (halves up).
pub open spec fn spec_percentile_index(len: nat, percent: nat) -> nat {
    (((len - 1) * percent + 50) / 100) as nat
}

/// The index of a percentile in a sorted list of `len > 0` values.
pub fn percentile_index(len: usize, percent: u64) -> (r: usize)
    requires
        len > 0,
        percent <= 100,
    ensures
        r as nat == spec_percentile_index(len as nat, percent as nat),
        r < len,
{
    let n = (len - 1) as u128;
    assert(n * (percent as u128) <= n * 100) by (nonlinear_arith)
        requires
            percent <= 100,
    ;
    assert(n * 100 < 0x1_0000_0000_0000_0000_0000) by (nonlinear_arith)
        requires
            n < 0x1_0000_0000_0000_0000,
    ;
    let idx = (n * (percent as u128) + 50) / 100;
    assert(idx <= n) by (nonlinear_arith)
        requires
            idx == (n * (percent as u128) + 50) / 100,
            percent <= 100,
    {
        assert(n * (percent as u128) <= n * 100);
    }
    idx as usize
}

/// The `percent`-th percentile of sorted values, or 0 when there are none.
pub fn percentile_sorted(sorted: &[u64], percent: u64) -> (r: u64)
    requires
        percent <= 100,
    ensures
        sorted@.len() == 0 ==> r == 0,
        sorted@.len() > 0 ==> r == sorted@[spec_percentile_index(sorted@.len(), percent as nat) as int],
{
    if sorted.len() == 0 {
        0
    } else {
        sorted[percentile_index(sorted.len(), percent)]
    }
}

} // verus!
