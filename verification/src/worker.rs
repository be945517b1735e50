//! Worker-side bookkeeping: per-segment trackers, the work queue workers
//! pull ranges from, the work-stealing split of a slow segment's remaining
//! range, and the bounded retry policy for failed fetches.

use vstd::prelude::*;
use crate::error::StormError;
use crate::range::ByteRange;

verus! {

/// A worker never steals the near half: at least this many bytes stay with
/// the slow worker.
pub const STEAL_MARGIN: u64 = 262144;

/// Retries a segment gets before its failure fails the transfer.
pub const MAX_SEGMENT_RETRIES: u32 = 3;

/// Base back-off after a recoverable failure, in milliseconds.
pub const BACKOFF_BASE_MS: u64 = 500;

/// Back-off never exceeds this, in milliseconds.
pub const BACKOFF_CAP_MS: u64 = 10000;

/// The unit a worker pulls: a byte range and the segment it belongs to.
#[derive(Debug, Clone, Copy, PartialEq, Eq, Structural)]
pub struct WorkItem {
    pub range: ByteRange,
    pub segment_idx: usize,
}

/// A FIFO of work items.  The wake-up signalling around it lives with the
/// scheduler outside the library.
pub struct WorkQueue {
    items: Vec<WorkItem>,
}

impl WorkQueue {
    pub closed spec fn spec_items(self) -> Seq<WorkItem> {
        self.items@
    }

    pub fn new() -> (q: WorkQueue)
        ensures
            q.spec_items().len() == 0,
    {
        WorkQueue { items: Vec::new() }
    }

    /// Enqueues at the back.
    pub fn push(&mut self, range: ByteRange, segment_idx: usize)
        ensures
            final(self).spec_items() == old(self).spec_items().push(
                (WorkItem { range, segment_idx }),
            ),
    {
        self.items.push(WorkItem { range, segment_idx });
    }

    /// Dequeues from the front; empty queues yield nothing.
    pub fn pop(&mut self) -> (r: Option<WorkItem>)
        ensures
            old(self).spec_items().len() == 0 ==> r is None && final(self).spec_items() == old(self).spec_items(),
            old(self).spec_items().len() > 0 ==> r == Some(old(self).spec_items()[0]) && final(self).spec_items() == old(self).spec_items().drop_first(),
    {
        if self.items.len() == 0 {
            return None;
        }
        let item = self.items.remove(0);
        proof {
            assert(self.items@ =~= old(self).spec_items().drop_first());
        }
        Some(item)
    }

    pub fn is_empty(&self) -> (b: bool)
        ensures
            b == (self.spec_items().len() == 0),
    {
        self.items.is_empty()
    }

    pub fn len(&self) -> (n: usize)
        ensures
            n == self.spec_items().len(),
    {
        self.items.len()
    }
}

/// Live accounting of one in-flight segment, updated by its worker and
/// read by the rebalancer.  Times are caller-clock milliseconds.
pub struct SegmentTracker {
    pub downloaded: u64,
    pub total: u64,
    pub remaining_start: u64,
    pub last_bytes: u64,
    pub last_time_ms: u64,
    pub active: bool,
}

impl SegmentTracker {
    pub fn new(total: u64, start: u64, now_ms: u64) -> (t: SegmentTracker)
        ensures
            t.downloaded == 0,
            t.total == total,
            t.remaining_start == start,
            t.last_bytes == 0,
            t.last_time_ms == now_ms,
            t.active,
    {
        SegmentTracker {
            downloaded: 0,
            total,
            remaining_start: start,
            last_bytes: 0,
            last_time_ms: now_ms,
            active: true,
        }
    }

    /// Counts received bytes, saturating.
    pub fn add_downloaded(&mut self, bytes: u64)
        ensures
            final(self).downloaded == if old(self).downloaded + bytes <= u64::MAX {
                old(self).downloaded + bytes
            } else {
                u64::MAX as int
            },
            final(self).total == old(self).total,
            final(self).remaining_start == old(self).remaining_start,
            final(self).last_bytes == old(self).last_bytes,
            final(self).last_time_ms == old(self).last_time_ms,
            final(self).active == old(self).active,
    {
        self.downloaded = self.downloaded.saturating_add(bytes);
    }

    /// Speed since the last sample, in bytes per second; zero until half a
    /// second has passed, and zero when the clock or counter went
    /// backwards.
    pub fn speed(&self, now_ms: u64) -> (v: u64)
        ensures
            v == ({
                let elapsed = now_ms - self.last_time_ms;
                let gained = self.downloaded - self.last_bytes;
                if elapsed <= 500 || gained < 0 {
                    0int
                } else {
                    let raw = gained * 1000 / elapsed;
                    if raw <= u64::MAX as int {
                        raw
                    } else {
                        u64::MAX as int
                    }
                }
            }),
    {
        if now_ms <= self.last_time_ms {
            return 0;
        }
        let elapsed = now_ms - self.last_time_ms;
        if elapsed <= 500 {
            return 0;
        }
        if self.downloaded < self.last_bytes {
            return 0;
        }
        let gained = self.downloaded - self.last_bytes;
        let raw: u128 = (gained as u128) * 1000 / (elapsed as u128);
        if raw > u64::MAX as u128 {
            u64::MAX
        } else {
            raw as u64
        }
    }

    /// Takes a fresh speed sample baseline.
    pub fn update_speed_sample(&mut self, now_ms: u64)
        ensures
            final(self).last_bytes == old(self).downloaded,
            final(self).last_time_ms == now_ms,
            final(self).downloaded == old(self).downloaded,
            final(self).total == old(self).total,
            final(self).remaining_start == old(self).remaining_start,
            final(self).active == old(self).active,
    {
        self.last_bytes = self.downloaded;
        self.last_time_ms = now_ms;
    }

    pub fn remaining(&self) -> (n: u64)
        ensures
            n == if self.downloaded <= self.total {
                self.total - self.downloaded
            } else {
                0int
            },
    {
        self.total.saturating_sub(self.downloaded)
    }

    pub fn is_complete(&self) -> (b: bool)
        ensures
            b == (self.downloaded >= self.total),
    {
        self.downloaded >= self.total
    }
}

/// Where the in-flight work-stealing split cuts a slow worker's range:
/// the midpoint of what is still ahead of it.
pub open spec fn spec_steal_point(current_pos: u64, seg_end: u64) -> int {
    current_pos + (seg_end - current_pos) / 2
}

/// Plans a steal from a slow worker whose in-flight read currently stands
/// at `current_pos` of a range ending at `seg_end`: when more than the
/// margin is left, the far half `[midpoint, seg_end)` goes to a peer and
/// the slow worker is told to stop at the midpoint.  Returns the new stop
/// position and the stolen range.
pub fn plan_steal(current_pos: u64, seg_end: u64) -> (r: Option<(u64, ByteRange)>)
    ensures
        seg_end <= current_pos + STEAL_MARGIN ==> r is None,
        seg_end > current_pos + STEAL_MARGIN ==> (r matches Some((stop, stolen)) && stop
            == spec_steal_point(current_pos, seg_end) && stolen == (ByteRange {
            start: stop,
            end: seg_end,
        })),
{
    if seg_end <= current_pos || seg_end - current_pos <= STEAL_MARGIN {
        return None;
    }
    let split = current_pos + (seg_end - current_pos) / 2;
    Some((split, ByteRange { start: split, end: seg_end }))
}

/// What a worker does after a fetch attempt fails.
#[derive(Debug, Clone, Copy, PartialEq, Eq, Structural)]
pub enum RecoveryAction {
    /// Back off for the given milliseconds, reassign the segment to another
    /// source and requeue the remaining sub-range.
    Requeue { backoff_ms: u64 },
    /// Give up: the failure is fatal to the transfer.
    FailTransfer,
}

/// Exponential back-off: the base doubled per attempt already made, capped.
pub open spec fn spec_backoff_ms(attempts: u32) -> int {
    let raw = BACKOFF_BASE_MS * vstd::arithmetic::power2::pow2(attempts as nat);
    if raw > BACKOFF_CAP_MS {
        BACKOFF_CAP_MS as int
    } else {
        raw
    }
}

/// The bounded recovery policy: network-class failures (including 429
/// rate limiting and timeouts) are retried with exponential back-off until
/// the per-segment budget of three attempts is spent; every other failure
/// — and an exhausted budget — fails the transfer.
pub fn worker_recovery(err: &StormError, attempts: u32) -> (r: RecoveryAction)
    ensures
        !err.spec_is_recoverable() ==> r == RecoveryAction::FailTransfer,
        err.spec_is_recoverable() && attempts >= MAX_SEGMENT_RETRIES ==> r
            == RecoveryAction::FailTransfer,
        err.spec_is_recoverable() && attempts < MAX_SEGMENT_RETRIES ==> r
            == (RecoveryAction::Requeue { backoff_ms: spec_backoff_ms(attempts) as u64 }),
{
    if !err.is_recoverable() {
        return RecoveryAction::FailTransfer;
    }
    if attempts >= MAX_SEGMENT_RETRIES {
        return RecoveryAction::FailTransfer;
    }
    let factor: u64 = if attempts == 0 {
        1
    } else if attempts == 1 {
        2
    } else {
        4
    };
    proof {
        vstd::arithmetic::power2::lemma2_to64();
        assert(factor == vstd::arithmetic::power2::pow2(attempts as nat));
    }
    let raw = BACKOFF_BASE_MS * factor;
    let backoff_ms = if raw > BACKOFF_CAP_MS {
        BACKOFF_CAP_MS
    } else {
        raw
    };
    RecoveryAction::Requeue { backoff_ms }
}

} // verus!
