//! Progress accounting: the per-segment and global byte counters that are
//! the source of truth for progress, and the arithmetic behind progress
//! snapshots.

use vstd::prelude::*;
use crate::types::{SegmentState, SegmentStatus};

verus! {

/// Sum of a sequence of byte counters.
pub open spec fn sum_counts(s: Seq<u64>) -> int
    decreases s.len(),
{
    if s.len() == 0 {
        0
    } else {
        sum_counts(s.drop_last()) + s.last()
    }
}

proof fn lemma_sum_counts_update(s: Seq<u64>, i: int, v: u64)
    requires
        0 <= i < s.len(),
    ensures
        sum_counts(s.update(i, v)) == sum_counts(s) - s[i] + v,
    decreases s.len(),
{
    if i == s.len() - 1 {
        assert(s.update(i, v).drop_last() =~= s.drop_last());
    } else {
        assert(s.update(i, v).drop_last() =~= s.drop_last().update(i, v));
        lemma_sum_counts_update(s.drop_last(), i, v);
    }
}

/// The byte counters of one transfer: one per segment and a running total.
/// While a transfer downloads, the per-segment counts always sum to the
/// total — the invariant `wf` that every operation preserves.
pub struct ProgressCounters {
    per_segment: Vec<u64>,
    total: u64,
}

impl ProgressCounters {
    pub closed spec fn segments(self) -> Seq<u64> {
        self.per_segment@
    }

    pub closed spec fn spec_total(self) -> u64 {
        self.total
    }

    /// The per-segment counts sum to the running total.
    pub open spec fn wf(self) -> bool {
        sum_counts(self.segments()) == self.spec_total()
    }

    /// Counters for `n` segments, all at zero.
    pub fn new(n: usize) -> (c: ProgressCounters)
        ensures
            c.wf(),
            c.segments().len() == n,
            c.spec_total() == 0,
            forall|i: int| 0 <= i < n ==> #[trigger] c.segments()[i] == 0,
    {
        let mut per_segment: Vec<u64> = Vec::new();
        for i in 0..n
            invariant
                per_segment@.len() == i,
                forall|j: int| 0 <= j < i ==> #[trigger] per_segment@[j] == 0,
                sum_counts(per_segment@) == 0,
        {
            proof {
                assert(per_segment@.push(0u64).drop_last() =~= per_segment@);
            }
            per_segment.push(0);
        }
        ProgressCounters { per_segment, total: 0 }
    }

    /// One more segment slot (a split happened), starting at zero.
    pub fn add_segment(&mut self)
        requires
            old(self).wf(),
        ensures
            final(self).wf(),
            final(self).segments() == old(self).segments().push(0u64),
            final(self).spec_total() == old(self).spec_total(),
    {
        proof {
            assert(self.per_segment@.push(0u64).drop_last() =~= self.per_segment@);
        }
        self.per_segment.push(0);
    }

    /// Counts `bytes` against segment `idx` and the total at once, so the
    /// two stay in step.
    pub fn record(&mut self, idx: usize, bytes: u64)
        requires
            old(self).wf(),
            idx < old(self).segments().len(),
            old(self).segments()[idx as int] + bytes <= u64::MAX,
            old(self).spec_total() + bytes <= u64::MAX,
        ensures
            final(self).wf(),
            final(self).segments() == old(self).segments().update(
                idx as int,
                (old(self).segments()[idx as int] + bytes) as u64,
            ),
            final(self).spec_total() == old(self).spec_total() + bytes,
    {
        let v = self.per_segment[idx] + bytes;
        proof {
            lemma_sum_counts_update(self.per_segment@, idx as int, v);
        }
        self.per_segment.set(idx, v);
        self.total = self.total + bytes;
    }

    pub fn total(&self) -> (t: u64)
        ensures
            t == self.spec_total(),
    {
        self.total
    }

    pub fn segment(&self, idx: usize) -> (v: u64)
        requires
            idx < self.segments().len(),
        ensures
            v == self.segments()[idx as int],
    {
        self.per_segment[idx]
    }

    pub fn len(&self) -> (n: usize)
        ensures
            n == self.segments().len(),
    {
        self.per_segment.len()
    }
}

/// One progress snapshot, all integer: share in thousandths, speeds in
/// bytes per second, remaining time in seconds.
#[derive(Debug, Clone, Copy, PartialEq, Eq, Structural)]
pub struct ProgressStats {
    pub permille: u32,
    pub speed: u64,
    pub avg_speed: u64,
    pub eta_secs: Option<u64>,
}

/// Rate over an interval, in bytes per second, zero for empty or backwards
/// intervals, saturating.
pub open spec fn spec_rate(bytes: int, interval_ms: int) -> int {
    if interval_ms <= 0 || bytes < 0 {
        0
    } else {
        let raw = bytes * 1000 / interval_ms;
        if raw <= u64::MAX as int {
            raw
        } else {
            u64::MAX as int
        }
    }
}

fn rate(bytes: u64, interval_ms: u64) -> (v: u64)
    ensures
        v == spec_rate(bytes as int, interval_ms as int),
{
    if interval_ms == 0 {
        return 0;
    }
    let raw: u128 = (bytes as u128) * 1000 / (interval_ms as u128);
    if raw > u64::MAX as u128 {
        u64::MAX
    } else {
        raw as u64
    }
}

/// Derives a progress snapshot: instantaneous speed over the sampling
/// interval, average speed over the whole run, completed share of the
/// total in thousandths, and — while the average speed is positive — the
/// seconds the remainder will still take at that pace.  An interval under
/// a tenth of a second yields no instantaneous speed.
pub fn progress_snapshot(
    total: u64,
    current: u64,
    last_bytes: u64,
    interval_ms: u64,
    elapsed_ms: u64,
) -> (r: ProgressStats)
    ensures
        r.speed == if interval_ms > 100 {
            spec_rate(current - last_bytes, interval_ms as int)
        } else {
            0int
        },
        r.avg_speed == spec_rate(current as int, elapsed_ms as int),
        r.permille == if total == 0 {
            0int
        } else if current >= total {
            1000int
        } else {
            current * 1000 / total as int
        },
        r.eta_secs == (if r.avg_speed > 0 && total > current {
            Some(((total - current) / (r.avg_speed as int)) as u64)
        } else {
            None
        }),
{
    let speed = if interval_ms > 100 {
        if current >= last_bytes {
            rate(current - last_bytes, interval_ms)
        } else {
            0
        }
    } else {
        0
    };
    let avg_speed = rate(current, elapsed_ms);
    let permille: u32 = if total == 0 {
        0
    } else if current >= total {
        1000
    } else {
        proof {
            assert(current as int * 1000 / total as int <= 1000) by (nonlinear_arith)
                requires
                    0 < total as int,
                    0 <= current as int <= total as int,
            ;
        }
        ((current as u128) * 1000 / (total as u128)) as u32
    };
    let eta_secs = if avg_speed > 0 && total > current {
        Some((total - current) / avg_speed)
    } else {
        None
    };
    ProgressStats { permille, speed, avg_speed, eta_secs }
}

/// A full segment-state snapshot from the byte counters, as the progress
/// task publishes it: a segment with every byte is complete, one with any
/// byte is active, the rest are pending.
pub fn synthesize_segments(base: &Vec<SegmentState>, counts: &ProgressCounters) -> (r: Vec<
    SegmentState,
>)
    requires
        counts.segments().len() == base@.len(),
    ensures
        r@.len() == base@.len(),
        forall|i: int|
            0 <= i < base@.len() ==> #[trigger] r@[i] == (SegmentState {
                id: base@[i].id,
                range: base@[i].range,
                downloaded: counts.segments()[i],
                status: if counts.segments()[i] >= base@[i].range.spec_len() {
                    SegmentStatus::Complete
                } else if counts.segments()[i] > 0 {
                    SegmentStatus::Active
                } else {
                    SegmentStatus::Pending
                },
                speed: 0u64,
            }),
{
    let n = base.len();
    let mut r: Vec<SegmentState> = Vec::new();
    for i in 0..n
        invariant
            n == base@.len(),
            counts.segments().len() == n,
            r@.len() == i,
            forall|j: int|
                0 <= j < i ==> #[trigger] r@[j] == (SegmentState {
                    id: base@[j].id,
                    range: base@[j].range,
                    downloaded: counts.segments()[j],
                    status: if counts.segments()[j] >= base@[j].range.spec_len() {
                        SegmentStatus::Complete
                    } else if counts.segments()[j] > 0 {
                        SegmentStatus::Active
                    } else {
                        SegmentStatus::Pending
                    },
                    speed: 0u64,
                }),
    {
        let seg = &base[i];
        let dl = counts.segment(i);
        let status = if dl >= seg.range.len() {
            SegmentStatus::Complete
        } else if dl > 0 {
            SegmentStatus::Active
        } else {
            SegmentStatus::Pending
        };
        r.push(SegmentState { id: seg.id, range: seg.range, downloaded: dl, status, speed: 0 });
    }
    r
}

} // verus!
