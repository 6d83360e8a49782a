//! What the two ends of a TCP frame stream report about a transfer.
use crate::perf::latency::{stats_of, LatencyStats};
use vstd::prelude::*;

verus! {

/// Frames and bytes moved, with the statistics of the intervals between
/// frames (`None` when fewer than two frames were recorded).
pub struct TransferStats {
    pub total_frames: u64,
    pub total_bytes: u64,
    pub durations: Option<LatencyStats>,
}

/// `st` reports `frames` frames, `bytes` bytes and the interval series `s`.
pub open spec fn transfer_stats_of(st: TransferStats, frames: u64, bytes: u64, s: Seq<u128>) -> bool {
    &&& st.total_frames == frames
    &&& st.total_bytes == bytes
    &&& (st.durations is None <==> s.len() == 0)
    &&& (st.durations matches Some(d) ==> stats_of(d, s))
}

} // verus!
