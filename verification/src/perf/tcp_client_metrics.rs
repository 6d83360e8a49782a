//! Totals kept by the sending end of a TCP frame stream.
use crate::perf::clock::{
    clock_reading, elapsed_between, elapsed_nanos, instant_now, MAX_DURATION_NANOS,
};
use crate::perf::latency::{latency_stats, nanos_sum, LatencyStats};
use crate::perf::transfer::{transfer_stats_of, TransferStats};
use std::time::Instant;
use vstd::prelude::*;

verus! {

/// Frames and bytes sent, and the intervals between successive sends.
pub struct TcpClientMetrics {
    total_frames_sent: u64,
    total_bytes_sent: u64,
    send_durations: Vec<u128>,
    last_instant: Option<u128>,
    origin: Instant,
}

impl TcpClientMetrics {
    /// Number of frames recorded.
    pub closed spec fn frames_sent(&self) -> u64 {
        self.total_frames_sent
    }

    /// Number of bytes recorded, over all frames.
    pub closed spec fn bytes_sent(&self) -> u64 {
        self.total_bytes_sent
    }

    /// Intervals between successive recorded frames, in nanoseconds, oldest first.
    pub closed spec fn send_durations(&self) -> Seq<u128> {
        self.send_durations@
    }

    /// The clock reading (nanoseconds since the metrics' origin) of the last
    /// recorded frame, if any.
    pub closed spec fn last_send(&self) -> Option<u128> {
        self.last_instant
    }

    /// Every frame but the first adds one interval, and a moment is kept once
    /// a frame was recorded.
    #[verifier::type_invariant]
    spec fn wf(&self) -> bool {
        &&& (self.last_instant is Some <==> self.total_frames_sent > 0)
        &&& self.send_durations@.len() == if self.total_frames_sent == 0 {
            0
        } else {
            self.total_frames_sent - 1
        }
    }

    /// Records one frame of `frame_size` bytes sent now.
    pub fn record_full_frame(&mut self, frame_size: usize)
        requires
            old(self).frames_sent() < u64::MAX,
            old(self).bytes_sent() + frame_size <= u64::MAX,
        ensures
            final(self).send_durations().len() == final(self).frames_sent() - 1,
            final(self).frames_sent() == old(self).frames_sent() + 1,
            final(self).bytes_sent() == old(self).bytes_sent() + frame_size,
            final(self).last_send() is Some,
            old(self).last_send() is None ==> final(self).send_durations() == old(self).send_durations(),
            old(self).last_send() matches Some(prev) ==> final(self).send_durations() == old(self).send_durations().push(
                elapsed_nanos(prev, final(self).last_send()->0),
            ),
    {
        proof {
            use_type_invariant(&*self);
        }
        let start = clock_reading(&self.origin);
        self.record_full_frame_at(frame_size, start);
    }

    /// Records one frame of `frame_size` bytes sent at the moment `start`.
    pub fn record_full_frame_at(&mut self, frame_size: usize, start: u128)
        requires
            old(self).frames_sent() < u64::MAX,
            old(self).bytes_sent() + frame_size <= u64::MAX,
        ensures
            final(self).send_durations().len() == final(self).frames_sent() - 1,
            final(self).frames_sent() == old(self).frames_sent() + 1,
            final(self).bytes_sent() == old(self).bytes_sent() + frame_size,
            final(self).last_send() == Some(start),
            old(self).last_send() is None ==> final(self).send_durations() == old(self).send_durations(),
            old(self).last_send() matches Some(prev) ==> final(self).send_durations() == old(self).send_durations().push(
                elapsed_nanos(prev, start),
            ),
    {
        proof {
            use_type_invariant(&*self);
        }
        let mut taken = TcpClientMetrics::empty_at(self.origin);
        std::mem::swap(&mut taken, self);
        let TcpClientMetrics { total_frames_sent, total_bytes_sent, mut send_durations, last_instant, origin } = taken;
        if let Some(last) = last_instant {
            let duration = elapsed_between(last, start);
            send_durations.push(duration);
        }
        *self = TcpClientMetrics {
            total_frames_sent: total_frames_sent + 1,
            total_bytes_sent: total_bytes_sent + frame_size as u64,
            send_durations,
            last_instant: Some(start),
            origin,
        };
    }

    /// Nothing recorded, with the clock's origin `origin`.
    fn empty_at(origin: Instant) -> (m: Self)
        ensures
            m.frames_sent() == 0,
            m.bytes_sent() == 0,
            m.send_durations() == Seq::<u128>::empty(),
            m.last_send() is None,
    {
        TcpClientMetrics {
            total_frames_sent: 0,
            total_bytes_sent: 0,
            send_durations: Vec::new(),
            last_instant: None,
            origin,
        }
    }

    /// Number of frames recorded.
    pub fn total_frames_sent(&self) -> (n: u64)
        ensures
            n == self.frames_sent(),
    {
        self.total_frames_sent
    }

    /// Number of bytes recorded, over all frames.
    pub fn total_bytes_sent(&self) -> (n: u64)
        ensures
            n == self.bytes_sent(),
    {
        self.total_bytes_sent
    }

    /// Intervals between successive recorded frames, in nanoseconds.
    ///
    /// Every recorded frame but the first adds one interval: after `n` frames
    /// there are `n - 1` intervals (none for no frame), and a last moment is
    /// kept exactly when a frame was recorded.
    pub fn send_durations_nanos(&self) -> (v: &Vec<u128>)
        ensures
            v@ == self.send_durations(),
            v@.len() == if self.frames_sent() == 0 {
                0
            } else {
                self.frames_sent() - 1
            },
            self.last_send() is Some <==> self.frames_sent() > 0,
    {
        proof {
            use_type_invariant(self);
        }
        &self.send_durations
    }

    /// The totals and the interval statistics; `None` when no byte was recorded.
    pub fn stats(&self) -> (r: Option<TransferStats>)
        requires
            self.bytes_sent() > 0 ==> nanos_sum(self.send_durations()) <= MAX_DURATION_NANOS,
            self.bytes_sent() > 0 ==> (self.send_durations().len() == 0 || self.send_durations().len() as u32 != 0),
        ensures
            r is None <==> self.bytes_sent() == 0,
            r matches Some(st) ==> transfer_stats_of(
                st,
                self.frames_sent(),
                self.bytes_sent(),
                self.send_durations(),
            ),
    {
        if self.total_bytes_sent == 0 {
            return None;
        }
        let durations = latency_stats(&self.send_durations);
        Some(
            TransferStats {
                total_frames: self.total_frames_sent,
                total_bytes: self.total_bytes_sent,
                durations,
            },
        )
    }
}

impl Default for TcpClientMetrics {
    /// Nothing recorded; the clock's origin is now.
    fn default() -> (m: Self)
        ensures
            m.frames_sent() == 0,
            m.bytes_sent() == 0,
            m.send_durations() == Seq::<u128>::empty(),
            m.last_send() is None,
    {
        TcpClientMetrics::empty_at(instant_now())
    }
}

} // verus!
