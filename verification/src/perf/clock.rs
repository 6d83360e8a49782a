//! Readings of the monotonic clock, turned into whole nanoseconds.
use crate::perf::latency::nanos_sum;
use std::time::{Duration, Instant};
use vstd::prelude::*;

verus! {

#[verifier::external_type_specification]
#[verifier::external_body]
pub struct ExInstant(std::time::Instant);

/// Nanoseconds in `Duration::MAX`: `u64::MAX` seconds and 999 999 999 nanoseconds.
pub const MAX_DURATION_NANOS: u128 = 18446744073709551615999999999;

/// Calls `std::time::Instant::now`. Nothing is claimed of the reading: it
/// depends on the clock of the machine.
#[verifier::external_body]
pub(crate) fn instant_now() -> Instant {
    Instant::now()
}

/// Calls `Instant::duration_since`, which gives the time elapsed from `earlier`
/// to `later` (zero when `earlier` is the later one). The readings are opaque,
/// so nothing is claimed of the result.
#[verifier::external_body]
pub(crate) fn duration_since(later: &Instant, earlier: &Instant) -> Duration {
    later.duration_since(*earlier)
}

/// Calls `Duration::as_nanos`, the total number of nanoseconds of `d`; it is at
/// most the nanoseconds of `Duration::MAX`.
#[verifier::external_body]
pub(crate) fn duration_as_nanos(d: &Duration) -> (nanos: u128)
    ensures
        nanos <= MAX_DURATION_NANOS,
{
    d.as_nanos()
}

/// Nanoseconds elapsed from `earlier` to `later`.
pub(crate) fn nanos_between(later: &Instant, earlier: &Instant) -> (nanos: u128)
    ensures
        nanos <= MAX_DURATION_NANOS,
{
    let d = duration_since(later, earlier);
    duration_as_nanos(&d)
}

/// Time from the reading `earlier` to the reading `later`, in nanoseconds;
/// zero when `later` is not after `earlier` (as `Instant::duration_since`).
pub open spec fn elapsed_nanos(earlier: u128, later: u128) -> u128 {
    if later >= earlier {
        (later - earlier) as u128
    } else {
        0
    }
}

/// Time from the reading `earlier` to the reading `later`, in nanoseconds.
pub fn elapsed_between(earlier: u128, later: u128) -> (nanos: u128)
    ensures
        nanos == elapsed_nanos(earlier, later),
{
    if later >= earlier {
        later - earlier
    } else {
        0
    }
}

/// A reading of the monotonic clock: the nanoseconds elapsed since `origin`.
pub(crate) fn clock_reading(origin: &Instant) -> (now: u128)
    ensures
        now <= MAX_DURATION_NANOS,
{
    let now = instant_now();
    nanos_between(&now, origin)
}

/// The times between consecutive readings of `marks`, oldest first: one
/// fewer than there are readings (none for fewer than two).
pub open spec fn gaps(marks: Seq<u128>) -> Seq<u128> {
    Seq::new(
        (if marks.len() == 0 {
            0
        } else {
            marks.len() - 1
        }) as nat,
        |i: int| elapsed_nanos(marks[i], marks[i + 1]),
    )
}

/// No reading of `marks` is earlier than the one before it.
pub open spec fn is_nondecreasing(marks: Seq<u128>) -> bool {
    forall|i: int, j: int| 0 <= i <= j < marks.len() ==> marks[i] <= marks[j]
}

/// Marking one more reading adds the gap from the last reading to it.
pub proof fn lemma_gaps_push(marks: Seq<u128>, now: u128)
    ensures
        marks.len() == 0 ==> gaps(marks.push(now)) == Seq::<u128>::empty(),
        marks.len() > 0 ==> gaps(marks.push(now)) == gaps(marks).push(
            elapsed_nanos(marks.last(), now),
        ),
{
    if marks.len() == 0 {
        assert(gaps(marks.push(now)) =~= Seq::<u128>::empty());
    } else {
        assert(gaps(marks.push(now)) =~= gaps(marks).push(elapsed_nanos(marks.last(), now)));
    }
}

/// The gaps between readings that never go backwards add up to the time from
/// the first reading to the last.
pub proof fn lemma_gaps_sum(marks: Seq<u128>)
    requires
        marks.len() > 0,
        is_nondecreasing(marks),
    ensures
        nanos_sum(gaps(marks)) == marks.last() - marks[0],
    decreases marks.len(),
{
    if marks.len() == 1 {
        assert(gaps(marks) =~= Seq::<u128>::empty());
    } else {
        let shorter = marks.drop_last();
        lemma_gaps_sum(shorter);
        lemma_gaps_push(shorter, marks.last());
        assert(shorter.push(marks.last()) =~= marks);
        assert(marks[marks.len() - 2] <= marks.last());
        let g = gaps(marks);
        assert(g.drop_last() =~= gaps(shorter));
        assert(g.last() == marks.last() - shorter.last());
    }
}

} // verus!
