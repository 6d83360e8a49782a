//! Totals kept by the receiving end of a TCP frame stream.
use crate::perf::clock::{
    clock_reading, elapsed_between, elapsed_nanos, instant_now, MAX_DURATION_NANOS,
};
use crate::perf::latency::{latency_stats, nanos_sum, LatencyStats};
use crate::perf::transfer::{transfer_stats_of, TransferStats};
use std::time::Instant;
use vstd::prelude::*;

verus! {

/// Frames and bytes received, and the intervals between successive receptions.
pub struct TcpServerMetrics {
    total_frames_received: u64,
    total_bytes_received: u64,
    receive_durations: Vec<u128>,
    last_instant: Option<u128>,
    origin: Instant,
}

impl TcpServerMetrics {
    /// Number of frames recorded.
    pub closed spec fn frames_received(&self) -> u64 {
        self.total_frames_received
    }

    /// Number of bytes recorded, over all frames.
    pub closed spec fn bytes_received(&self) -> u64 {
        self.total_bytes_received
    }

    /// Intervals between successive recorded frames, in nanoseconds, oldest first.
    pub closed spec fn receive_durations(&self) -> Seq<u128> {
        self.receive_durations@
    }

    /// The clock reading (nanoseconds since the metrics' origin) of the last
    /// recorded frame, if any.
    pub closed spec fn last_receive(&self) -> Option<u128> {
        self.last_instant
    }

    /// Every frame but the first adds one interval, and a moment is kept once
    /// a frame was recorded.
    #[verifier::type_invariant]
    spec fn wf(&self) -> bool {
        &&& (self.last_instant is Some <==> self.total_frames_received > 0)
        &&& self.receive_durations@.len() == if self.total_frames_received == 0 {
            0
        } else {
            self.total_frames_received - 1
        }
    }

    /// Records one frame of `frame_size` bytes received now.
    pub fn record_full_frame(&mut self, frame_size: usize)
        requires
            old(self).frames_received() < u64::MAX,
            old(self).bytes_received() + frame_size <= u64::MAX,
        ensures
            final(self).receive_durations().len() == final(self).frames_received() - 1,
            final(self).frames_received() == old(self).frames_received() + 1,
            final(self).bytes_received() == old(self).bytes_received() + frame_size,
            final(self).last_receive() is Some,
            old(self).last_receive() is None ==> final(self).receive_durations() == old(self).receive_durations(),
            old(self).last_receive() matches Some(prev) ==> final(self).receive_durations() == old(self).receive_durations().push(
                elapsed_nanos(prev, final(self).last_receive()->0),
            ),
    {
        proof {
            use_type_invariant(&*self);
        }
        let start = clock_reading(&self.origin);
        self.record_full_frame_at(frame_size, start);
    }

    /// Records one frame of `frame_size` bytes received at the moment `start`.
    pub fn record_full_frame_at(&mut self, frame_size: usize, start: u128)
        requires
            old(self).frames_received() < u64::MAX,
            old(self).bytes_received() + frame_size <= u64::MAX,
        ensures
            final(self).receive_durations().len() == final(self).frames_received() - 1,
            final(self).frames_received() == old(self).frames_received() + 1,
            final(self).bytes_received() == old(self).bytes_received() + frame_size,
            final(self).last_receive() == Some(start),
            old(self).last_receive() is None ==> final(self).receive_durations() == old(self).receive_durations(),
            old(self).last_receive() matches Some(prev) ==> final(self).receive_durations() == old(self).receive_durations().push(
                elapsed_nanos(prev, start),
            ),
    {
        proof {
            use_type_invariant(&*self);
        }
        let mut taken = TcpServerMetrics::empty_at(self.origin);
        std::mem::swap(&mut taken, self);
        let TcpServerMetrics { total_frames_received, total_bytes_received, mut receive_durations, last_instant, origin } = taken;
        if let Some(last) = last_instant {
            let duration = elapsed_between(last, start);
            receive_durations.push(duration);
        }
        *self = TcpServerMetrics {
            total_frames_received: total_frames_received + 1,
            total_bytes_received: total_bytes_received + frame_size as u64,
            receive_durations,
            last_instant: Some(start),
            origin,
        };
    }

    /// Nothing recorded, with the clock's origin `origin`.
    fn empty_at(origin: Instant) -> (m: Self)
        ensures
            m.frames_received() == 0,
            m.bytes_received() == 0,
            m.receive_durations() == Seq::<u128>::empty(),
            m.last_receive() is None,
    {
        TcpServerMetrics {
            total_frames_received: 0,
            total_bytes_received: 0,
            receive_durations: Vec::new(),
            last_instant: None,
            origin,
        }
    }

    /// Number of frames recorded.
    pub fn total_frames_received(&self) -> (n: u64)
        ensures
            n == self.frames_received(),
    {
        self.total_frames_received
    }

    /// Number of bytes recorded, over all frames.
    pub fn total_bytes_received(&self) -> (n: u64)
        ensures
            n == self.bytes_received(),
    {
        self.total_bytes_received
    }

    /// Intervals between successive recorded frames, in nanoseconds.
    ///
    /// Every recorded frame but the first adds one interval: after `n` frames
    /// there are `n - 1` intervals (none for no frame), and a last moment is
    /// kept exactly when a frame was recorded.
    pub fn receive_durations_nanos(&self) -> (v: &Vec<u128>)
        ensures
            v@ == self.receive_durations(),
            v@.len() == if self.frames_received() == 0 {
                0
            } else {
                self.frames_received() - 1
            },
            self.last_receive() is Some <==> self.frames_received() > 0,
    {
        proof {
            use_type_invariant(self);
        }
        &self.receive_durations
    }

    /// The totals and the interval statistics; `None` when no byte was recorded.
    pub fn stats(&self) -> (r: Option<TransferStats>)
        requires
            self.bytes_received() > 0 ==> nanos_sum(self.receive_durations()) <= MAX_DURATION_NANOS,
            self.bytes_received() > 0 ==> (self.receive_durations().len() == 0 || self.receive_durations().len() as u32 != 0),
        ensures
            r is None <==> self.bytes_received() == 0,
            r matches Some(st) ==> transfer_stats_of(
                st,
                self.frames_received(),
                self.bytes_received(),
                self.receive_durations(),
            ),
    {
        if self.total_bytes_received == 0 {
            return None;
        }
        let durations = latency_stats(&self.receive_durations);
        Some(
            TransferStats {
                total_frames: self.total_frames_received,
                total_bytes: self.total_bytes_received,
                durations,
            },
        )
    }
}

impl Default for TcpServerMetrics {
    /// Nothing recorded; the clock's origin is now.
    fn default() -> (m: Self)
        ensures
            m.frames_received() == 0,
            m.bytes_received() == 0,
            m.receive_durations() == Seq::<u128>::empty(),
            m.last_receive() is None,
    {
        TcpServerMetrics::empty_at(instant_now())
    }
}

} // verus!
