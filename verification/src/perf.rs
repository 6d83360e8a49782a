//! Frame metrics: the intervals between frames and the totals of a transfer.
pub mod clock;
pub mod frame_latency_metrics;
pub mod latency;
pub mod tcp_client_metrics;
pub mod tcp_server_metrics;
pub mod transfer;

use crate::perf::clock::{
    clock_reading, elapsed_between, elapsed_nanos, gaps, instant_now, lemma_gaps_push, MAX_DURATION_NANOS,
};
use crate::perf::latency::{latency_stats, nanos_sum, stats_of, LatencyStats};
use std::time::Instant;
use vstd::prelude::*;

verus! {

/// The intervals between successive recorded moments of the frame pipeline.
///
/// Moments are readings of the monotonic clock in nanoseconds since an
/// origin fixed when the metrics are made.
pub struct FrameLatencyMetrics {
    latencies: Vec<u128>,
    prev_instant: Option<u128>,
    origin: Instant,
    marks: Ghost<Seq<u128>>,
}

impl FrameLatencyMetrics {
    /// The intervals recorded so far, in nanoseconds, oldest first.
    pub closed spec fn latencies(&self) -> Seq<u128> {
        self.latencies@
    }

    /// The reading that the next recorded interval starts from, if any.
    pub closed spec fn period_start(&self) -> Option<u128> {
        self.prev_instant
    }

    /// The moments marked so far, oldest first.
    pub closed spec fn marks(&self) -> Seq<u128> {
        self.marks@
    }

    /// The intervals are the gaps between the marked moments, and the next
    /// interval starts from the last of them.
    #[verifier::type_invariant]
    spec fn wf(&self) -> bool {
        &&& self.latencies@ == gaps(self.marks@)
        &&& self.marks@.len() == 0 ==> self.prev_instant is None
        &&& self.marks@.len() > 0 ==> self.prev_instant == Some(self.marks@.last())
    }

    /// Marks the present moment, read from the clock: when an earlier moment
    /// was marked, the time elapsed since then is appended to the intervals.
    pub fn record_period_latency(&mut self)
        ensures
            final(self).latencies() == gaps(final(self).marks()),
            final(self).period_start() is Some,
            final(self).marks() == old(self).marks().push(final(self).period_start()->0),
            old(self).period_start() is None ==> final(self).latencies() == old(self).latencies(),
            old(self).period_start() matches Some(prev) ==> final(self).latencies()
                == old(self).latencies().push(elapsed_nanos(prev, final(self).period_start()->0)),
    {
        proof {
            use_type_invariant(&*self);
        }
        let now = clock_reading(&self.origin);
        self.record_period_latency_at(now);
    }

    /// Marks the moment `now` (a clock reading in nanoseconds); when an
    /// earlier moment `prev` was marked, the time from `prev` to `now` is
    /// appended to the intervals. So the intervals stay the gaps between
    /// consecutive marked moments.
    pub fn record_period_latency_at(&mut self, now: u128)
        ensures
            final(self).latencies() == gaps(final(self).marks()),
            final(self).period_start() == Some(now),
            final(self).marks() == old(self).marks().push(now),
            old(self).period_start() is None ==> final(self).latencies() == old(self).latencies(),
            old(self).period_start() matches Some(prev) ==> final(self).latencies()
                == old(self).latencies().push(elapsed_nanos(prev, now)),
    {
        proof {
            use_type_invariant(&*self);
            lemma_gaps_push(self.marks@, now);
        }
        let mut taken = FrameLatencyMetrics::empty_at(self.origin);
        std::mem::swap(&mut taken, self);
        let FrameLatencyMetrics { mut latencies, prev_instant, origin, marks } = taken;
        if let Some(prev) = prev_instant {
            let latency = elapsed_between(prev, now);
            latencies.push(latency);
        }
        let marks = Ghost(marks@.push(now));
        assert(latencies@ =~= gaps(marks@));
        *self = FrameLatencyMetrics { latencies, prev_instant: Some(now), origin, marks };
    }

    /// No interval recorded and no moment marked, with the clock's origin
    /// `origin`.
    fn empty_at(origin: Instant) -> (m: Self)
        ensures
            m.latencies() == Seq::<u128>::empty(),
            m.period_start() is None,
            m.marks() == Seq::<u128>::empty(),
    {
        assert(gaps(Seq::<u128>::empty()) =~= Seq::<u128>::empty());
        FrameLatencyMetrics { latencies: Vec::new(), prev_instant: None, origin, marks: Ghost(Seq::empty()) }
    }

    /// The intervals recorded so far, in nanoseconds, oldest first.
    ///
    /// These are exactly the gaps between consecutive marked moments: n
    /// marked moments give n - 1 intervals, the i-th being the time from
    /// moment i to moment i + 1.
    pub fn latencies_nanos(&self) -> (v: &Vec<u128>)
        ensures
            v@ == self.latencies(),
            v@ == gaps(self.marks()),
    {
        proof {
            use_type_invariant(self);
        }
        &self.latencies
    }

    /// Statistics of the recorded intervals; `None` when none was recorded.
    pub fn stats(&self) -> (r: Option<LatencyStats>)
        requires
            nanos_sum(self.latencies()) <= MAX_DURATION_NANOS,
            self.latencies().len() == 0 || self.latencies().len() as u32 != 0,
        ensures
            r is None <==> self.latencies().len() == 0,
            r matches Some(st) ==> stats_of(st, self.latencies()),
    {
        latency_stats(&self.latencies)
    }
}

impl Default for FrameLatencyMetrics {
    /// No interval recorded and no moment marked; the clock's origin is now.
    fn default() -> (m: Self)
        ensures
            m.latencies() == Seq::<u128>::empty(),
            m.period_start() is None,
            m.marks() == Seq::<u128>::empty(),
    {
        FrameLatencyMetrics::empty_at(instant_now())
    }
}

} // verus!
