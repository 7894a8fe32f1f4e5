//! Nearest-peak assignment for identity phase locking: every frequency bin
//! is assigned the spectral peak it is locked to.
use vstd::prelude::*;

verus! {

/// The last peak at or before bin `k`; bin 0 when there is none.
pub open spec fn left_peak(flags: Seq<bool>, k: int) -> int
    decreases k + 1,
{
    if k < 0 {
        0
    } else if flags[k] {
        k
    } else {
        left_peak(flags, k - 1)
    }
}

/// The first peak at or after bin `k`; the last bin when there is none.
pub open spec fn right_peak(flags: Seq<bool>, k: int) -> int
    decreases flags.len() - k,
{
    if k >= flags.len() {
        flags.len() - 1
    } else if flags[k] {
        k
    } else {
        right_peak(flags, k + 1)
    }
}

/// The bin that bin `k` is locked to: the nearer of `left_peak` and
/// `right_peak`, the left one on a tie.
pub open spec fn nearest_peak(flags: Seq<bool>, k: int) -> int {
    let l = left_peak(flags, k);
    let r = right_peak(flags, k);
    if r - k < k - l {
        r
    } else {
        l
    }
}

proof fn lemma_left_peak(flags: Seq<bool>, k: int)
    requires
        0 <= k < flags.len(),
    ensures
        0 <= left_peak(flags, k) <= k,
        flags[left_peak(flags, k)] || left_peak(flags, k) == 0,
        forall|j: int| left_peak(flags, k) < j <= k ==> !#[trigger] flags[j],
    decreases k,
{
    if !flags[k] {
        if k > 0 {
            lemma_left_peak(flags, k - 1);
        } else {
            assert(left_peak(flags, -1) == 0);
        }
    }
}

proof fn lemma_right_peak(flags: Seq<bool>, k: int)
    requires
        0 <= k < flags.len(),
    ensures
        k <= right_peak(flags, k) < flags.len(),
        flags[right_peak(flags, k)] || right_peak(flags, k) == flags.len() - 1,
        forall|j: int| k <= j < right_peak(flags, k) ==> !#[trigger] flags[j],
    decreases flags.len() - k,
{
    if !flags[k] {
        if k + 1 < flags.len() {
            lemma_right_peak(flags, k + 1);
        } else {
            assert(right_peak(flags, k + 1) == flags.len() - 1);
        }
    }
}

/// Distance between bins `a` and `b`.
pub open spec fn bin_distance(a: int, b: int) -> int {
    if a <= b {
        b - a
    } else {
        a - b
    }
}

/// A bin a bin may be locked to: a flagged peak, or one of the two edge bins
/// (which stand in where a side has no peak).
pub open spec fn lock_candidate(flags: Seq<bool>, j: int) -> bool {
    flags[j] || j == 0 || j == flags.len() - 1
}

/// What locking bin `k` to bin `t` must satisfy: `t` is a peak, or the first
/// bin with no peak at or before `k`, or the last bin with no peak at or
/// after `k`; no candidate is nearer; and of two equally near candidates the
/// lower one is taken.
pub open spec fn locks_to_nearest(flags: Seq<bool>, k: int, t: int) -> bool {
    &&& 0 <= t < flags.len()
    &&& (flags[t] || (t == 0 && forall|j: int| 0 <= j <= k ==> !#[trigger] flags[j]) || (t
        == flags.len() - 1 && forall|j: int| k <= j < flags.len() ==> !#[trigger] flags[j]))
    &&& forall|j: int|
        0 <= j < flags.len() && lock_candidate(flags, j) ==> bin_distance(t, k) <= bin_distance(
            j,
            k,
        ) && (bin_distance(j, k) == bin_distance(t, k) ==> t <= j)
}

/// For every bin, the bin it is locked to: the nearest bin flagged as a
/// peak, with bin 0 standing in on the left and the last bin on the right
/// when no peak lies on that side, and the left candidate winning ties.
pub fn nearest_peaks(flags: &[bool]) -> (r: Vec<usize>)
    requires
        flags@.len() > 0,
    ensures
        r@.len() == flags@.len(),
        forall|k: int| 0 <= k < flags@.len() ==> #[trigger] r@[k] == nearest_peak(flags@, k),
        forall|k: int| 0 <= k < flags@.len() ==> locks_to_nearest(flags@, k, #[trigger] r@[k] as int),
{
    let half = flags.len();
    // Forward pass: last peak at or before each bin.
    let mut left: Vec<usize> = Vec::new();
    let mut last_peak: usize = 0;
    let mut k: usize = 0;
    while k < half
        invariant
            half == flags@.len(),
            k <= half,
            left@.len() == k,
            last_peak == left_peak(flags@, k - 1),
            last_peak < half,
            forall|q: int| 0 <= q < k ==> #[trigger] left@[q] == left_peak(flags@, q),
        decreases half - k,
    {
        if flags[k] {
            last_peak = k;
        }
        left.push(last_peak);
        k += 1;
    }
    // Backward pass: pick the nearer of the left and right candidates.
    let mut result = left;
    let mut next_peak: usize = half - 1;
    let mut i: usize = half;
    while i > 0
        invariant
            half == flags@.len(),
            half > 0,
            i <= half,
            result@.len() == half,
            next_peak == right_peak(flags@, i as int),
            i <= next_peak + 1,
            next_peak < half,
            forall|q: int| 0 <= q < i ==> #[trigger] result@[q] == left_peak(flags@, q),
            forall|q: int| i <= q < half ==> #[trigger] result@[q] == nearest_peak(flags@, q),
        decreases i,
    {
        i -= 1;
        if flags[i] {
            next_peak = i;
        }
        proof {
            lemma_left_peak(flags@, i as int);
        }
        let l = result[i];
        let dist_left = i - l;
        let dist_right = next_peak - i;
        if dist_right < dist_left {
            result.set(i, next_peak);
        }
    }
    proof {
        assert forall|k: int| 0 <= k < flags@.len() implies locks_to_nearest(
            flags@,
            k,
            #[trigger] result@[k] as int,
        ) by {
            lemma_nearest_peak_characterized(flags@, k);
        }
    }
    result
}

/// Identity phase locking locks every bin to its nearest candidate: the
/// bin it is locked to is a peak (or an edge bin standing in for a side with
/// no peak), no peak or edge bin is nearer, and ties go to the lower bin.
pub proof fn lemma_nearest_peak_characterized(flags: Seq<bool>, k: int)
    requires
        0 <= k < flags.len(),
    ensures
        locks_to_nearest(flags, k, nearest_peak(flags, k)),
{
    lemma_left_peak(flags, k);
    lemma_right_peak(flags, k);
    let l = left_peak(flags, k);
    let r = right_peak(flags, k);
    let t = nearest_peak(flags, k);
    if !flags[l] {
        assert forall|j: int| 0 <= j <= k implies !#[trigger] flags[j] by {
            if j > l {
            } else {
                assert(l == 0);
            }
        }
    }
    if !flags[r] {
        assert forall|j: int| k <= j < flags.len() implies !#[trigger] flags[j] by {
            if j < r {
            } else {
                assert(r == flags.len() - 1);
            }
        }
    }
    assert forall|j: int|
        0 <= j < flags.len() && lock_candidate(flags, j) implies bin_distance(t, k) <= bin_distance(
            j,
            k,
        ) && (bin_distance(j, k) == bin_distance(t, k) ==> t <= j) by {
        if j <= k {
            if j > l {
                assert(!flags[j]);
                assert(j == flags.len() - 1);
            }
        } else {
            if j < r {
                assert(!flags[j]);
            }
        }
    }
}

/// Phase locking never locks a bin to something farther away than a peak:
/// a peak is locked to itself, and every bin's assigned bin is at least as
/// close as every peak.
pub proof fn lemma_nearest_peak_is_nearest(flags: Seq<bool>, k: int, j: int)
    requires
        0 <= k < flags.len(),
        0 <= j < flags.len(),
        flags[j],
    ensures
        flags[k] ==> nearest_peak(flags, k) == k,
        0 <= nearest_peak(flags, k) < flags.len(),
        (if nearest_peak(flags, k) <= k {
            k - nearest_peak(flags, k)
        } else {
            nearest_peak(flags, k) - k
        }) <= (if j <= k {
            k - j
        } else {
            j - k
        }),
{
    lemma_left_peak(flags, k);
    lemma_right_peak(flags, k);
    if j <= k {
        assert(left_peak(flags, k) >= j);
    } else {
        assert(right_peak(flags, k) <= j);
    }
}

} // verus!
