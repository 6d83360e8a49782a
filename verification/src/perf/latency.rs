//! Summary statistics over a series of measured intervals.
use crate::perf::clock::MAX_DURATION_NANOS;
use vstd::prelude::*;

verus! {

/// Sum of a series of intervals, in nanoseconds.
pub open spec fn nanos_sum(s: Seq<u128>) -> int
    decreases s.len(),
{
    if s.len() == 0 {
        0
    } else {
        nanos_sum(s.drop_last()) + s.last()
    }
}

/// `m` is the least element of `s`.
pub open spec fn is_min_of(m: u128, s: Seq<u128>) -> bool {
    &&& s.contains(m)
    &&& forall|i: int| 0 <= i < s.len() ==> m <= #[trigger] s[i]
}

/// `m` is the greatest element of `s`.
pub open spec fn is_max_of(m: u128, s: Seq<u128>) -> bool {
    &&& s.contains(m)
    &&& forall|i: int| 0 <= i < s.len() ==> #[trigger] s[i] <= m
}

/// Count, total, mean, least and greatest of a non-empty series of intervals.
pub struct LatencyStats {
    pub count: usize,
    pub total_nanos: u128,
    pub avg_nanos: u128,
    pub min_nanos: u128,
    pub max_nanos: u128,
}

/// What [`latency_stats`] reports for the series `s`.
pub open spec fn stats_of(r: LatencyStats, s: Seq<u128>) -> bool {
    &&& r.count == s.len()
    &&& r.total_nanos == nanos_sum(s)
    &&& r.avg_nanos == r.total_nanos / ((s.len() as u32) as u128)
    &&& is_min_of(r.min_nanos, s)
    &&& is_max_of(r.max_nanos, s)
}

/// A prefix of a series never sums to more than the whole series.
pub proof fn lemma_prefix_sum_le(s: Seq<u128>, i: int)
    requires
        0 <= i <= s.len(),
    ensures
        0 <= nanos_sum(s.take(i)) <= nanos_sum(s),
    decreases s.len(),
{
    if s.len() == 0 {
        assert(s.take(i) =~= s);
    } else if i == s.len() {
        assert(s.take(i) =~= s);
        lemma_prefix_sum_le(s.drop_last(), i - 1);
    } else {
        lemma_prefix_sum_le(s.drop_last(), i);
        assert(s.drop_last().take(i) =~= s.take(i));
    }
}

/// Statistics of the intervals `latencies`, in nanoseconds; `None` when there
/// is none. The mean divides the total by the count taken as a `u32`, as
/// `Duration / u32` does with `len() as u32`.
pub fn latency_stats(latencies: &Vec<u128>) -> (r: Option<LatencyStats>)
    requires
        nanos_sum(latencies@) <= MAX_DURATION_NANOS,
        latencies.len() == 0 || latencies.len() as u32 != 0,
    ensures
        r is None <==> latencies.len() == 0,
        r matches Some(st) ==> stats_of(st, latencies@),
{
    let n = latencies.len();
    if n == 0 {
        return None;
    }
    let mut total: u128 = 0;
    let mut min: u128 = latencies[0];
    let mut max: u128 = latencies[0];
    let mut i: usize = 0;
    while i < n
        invariant
            n == latencies.len(),
            0 <= i <= n,
            n > 0,
            nanos_sum(latencies@) <= MAX_DURATION_NANOS,
            total == nanos_sum(latencies@.take(i as int)),
            latencies@.contains(min),
            latencies@.contains(max),
            forall|k: int| 0 <= k < i ==> min <= #[trigger] latencies@[k],
            forall|k: int| 0 <= k < i ==> #[trigger] latencies@[k] <= max,
        decreases n - i,
    {
        proof {
            lemma_prefix_sum_le(latencies@, i + 1);
            assert(latencies@.take(i + 1).drop_last() =~= latencies@.take(i as int));
        }
        total = total + latencies[i];
        if latencies[i] < min {
            min = latencies[i];
        }
        if latencies[i] > max {
            max = latencies[i];
        }
        i = i + 1;
    }
    assert(latencies@.take(n as int) =~= latencies@);
    let divisor = n as u32;
    let avg = total / (divisor as u128);
    Some(LatencyStats { count: n, total_nanos: total, avg_nanos: avg, min_nanos: min, max_nanos: max })
}

/// The sum of `latencies`, or `None` when it exceeds the nanoseconds of
/// `Duration::MAX` (where summing the intervals as `Duration`s panics).
pub fn checked_total_nanos(latencies: &Vec<u128>) -> (r: Option<u128>)
    ensures
        r is Some <==> nanos_sum(latencies@) <= MAX_DURATION_NANOS,
        r matches Some(t) ==> t == nanos_sum(latencies@),
{
    let mut total: u128 = 0;
    let mut i: usize = 0;
    while i < latencies.len()
        invariant
            i <= latencies@.len(),
            total == nanos_sum(latencies@.take(i as int)),
            total <= MAX_DURATION_NANOS,
        decreases latencies@.len() - i,
    {
        assert(latencies@.take(i + 1).drop_last() =~= latencies@.take(i as int));
        if latencies[i] > MAX_DURATION_NANOS - total {
            proof {
                lemma_prefix_sum_le(latencies@, i + 1);
            }
            return None;
        }
        total = total + latencies[i];
        i = i + 1;
    }
    assert(latencies@.take(latencies@.len() as int) =~= latencies@);
    Some(total)
}

proof fn lemma_sum_bounds(s: Seq<u128>, lo: int, hi: int)
    requires
        forall|i: int| 0 <= i < s.len() ==> lo <= #[trigger] s[i] <= hi,
    ensures
        s.len() * lo <= nanos_sum(s) <= s.len() * hi,
    decreases s.len(),
{
    if s.len() > 0 {
        let t = s.drop_last();
        assert forall|i: int| 0 <= i < t.len() implies lo <= #[trigger] t[i] <= hi by {
            assert(t[i] == s[i]);
        }
        lemma_sum_bounds(t, lo, hi);
        assert(s.len() * lo == t.len() * lo + lo) by (nonlinear_arith)
            requires
                s.len() == t.len() + 1,
        ;
        assert(s.len() * hi == t.len() * hi + hi) by (nonlinear_arith)
            requires
                s.len() == t.len() + 1,
        ;
    }
}

/// The reported mean lies between the least and the greatest interval, for
/// every series of fewer than 2^32 intervals (beyond that the count is cut to
/// a `u32` before dividing).
pub proof fn lemma_mean_between_min_and_max(st: LatencyStats, s: Seq<u128>)
    requires
        stats_of(st, s),
        0 < s.len() < 0x1_0000_0000,
    ensures
        st.min_nanos <= st.avg_nanos <= st.max_nanos,
{
    lemma_sum_bounds(s, st.min_nanos as int, st.max_nanos as int);
    let n = s.len() as int;
    assert((s.len() as u32) as int == n);
    let total = st.total_nanos as int;
    assert(st.min_nanos <= total / n) by (nonlinear_arith)
        requires
            n * st.min_nanos <= total,
            n > 0,
    {
        vstd::arithmetic::div_mod::lemma_div_is_ordered(n * st.min_nanos, total, n);
        vstd::arithmetic::div_mod::lemma_div_multiples_vanish(st.min_nanos as int, n);
    }
    assert(total / n <= st.max_nanos) by (nonlinear_arith)
        requires
            total <= n * st.max_nanos,
            n > 0,
    {
        vstd::arithmetic::div_mod::lemma_div_is_ordered(total, n * st.max_nanos, n);
        vstd::arithmetic::div_mod::lemma_div_multiples_vanish(st.max_nanos as int, n);
    }
}

} // verus!
