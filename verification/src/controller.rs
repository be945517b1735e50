//! The adaptive controller: grows a transfer's segment count towards the
//! bandwidth-delay-product optimum, rate-limited in time and floored by the
//! minimum segment size.  The caller supplies its clock in milliseconds.

use vstd::prelude::*;

verus! {

/// Milliseconds between two adjustments, at least.
pub const ADJUSTMENT_INTERVAL_MS: u64 = 500;

/// Why the controller asked for a change.
#[derive(Debug, Clone, Copy, PartialEq, Eq, Structural)]
pub enum AdjustmentReason {
    BdpIncrease { bdp: u64, optimal: usize },
    SlowSegment { speed: u64, threshold: u64 },
    ConnectionLimit,
}

/// A requested change to the segment count.
#[derive(Debug, Clone, Copy, PartialEq, Eq, Structural)]
pub enum SegmentAdjustment {
    Split { count: usize, reason: AdjustmentReason },
    Merge { count: usize, reason: AdjustmentReason },
}

/// Target segment count for a bandwidth-delay product: one 64 KiB window
/// per connection, rounded up, clamped between 1 and the cap.
pub open spec fn spec_target_segments(bdp: u64, max_segments: usize) -> int {
    let want = (bdp + 65535) / 65536;
    if want < 1 {
        1
    } else if want > max_segments {
        max_segments as int
    } else {
        want
    }
}

pub struct AdaptiveController {
    current_segments: usize,
    max_segments: usize,
    min_segment_size: u64,
    file_size: u64,
    last_adjustment_ms: u64,
}

impl AdaptiveController {
    pub closed spec fn spec_current_segments(self) -> usize {
        self.current_segments
    }

    pub closed spec fn spec_max_segments(self) -> usize {
        self.max_segments
    }

    pub closed spec fn spec_min_segment_size(self) -> u64 {
        self.min_segment_size
    }

    pub closed spec fn spec_file_size(self) -> u64 {
        self.file_size
    }

    pub closed spec fn spec_last_adjustment_ms(self) -> u64 {
        self.last_adjustment_ms
    }

    /// Whether `evaluate` at `now_ms` with this bandwidth-delay product
    /// grows the segment count, and by how much.
    pub open spec fn spec_evaluation(self, now_ms: u64, bdp: Option<u64>) -> Option<(
        usize,
        usize,
    )> {
        if now_ms < self.spec_last_adjustment_ms() + ADJUSTMENT_INTERVAL_MS {
            None
        } else {
            match bdp {
                None => None,
                Some(b) => {
                    let optimal = spec_target_segments(b, self.spec_max_segments());
                    if optimal <= self.spec_current_segments() {
                        None
                    } else {
                        let to_add = if optimal - self.spec_current_segments() < 4 {
                            optimal - self.spec_current_segments()
                        } else {
                            4int
                        };
                        if self.spec_file_size() as int / (self.spec_current_segments() + to_add)
                            < self.spec_min_segment_size() {
                            None
                        } else {
                            Some(((to_add) as usize, optimal as usize))
                        }
                    }
                },
            }
        }
    }

    /// A controller with the default cap of 32 segments and 256 KiB minimum
    /// segment size.  `now_ms` is the construction time; the first
    /// adjustment may happen half a second later.
    pub fn new(file_size: u64, initial_segments: usize, now_ms: u64) -> (c: AdaptiveController)
        ensures
            c.spec_current_segments() == initial_segments,
            c.spec_max_segments() == 32,
            c.spec_min_segment_size() == 262144,
            c.spec_file_size() == file_size,
            c.spec_last_adjustment_ms() == now_ms,
    {
        AdaptiveController {
            current_segments: initial_segments,
            max_segments: 32,
            min_segment_size: 256 * 1024,
            file_size,
            last_adjustment_ms: now_ms,
        }
    }

    pub fn with_config(
        file_size: u64,
        initial_segments: usize,
        max_segments: usize,
        min_segment_size: u64,
        now_ms: u64,
    ) -> (c: AdaptiveController)
        ensures
            c.spec_current_segments() == initial_segments,
            c.spec_max_segments() == max_segments,
            c.spec_min_segment_size() == min_segment_size,
            c.spec_file_size() == file_size,
            c.spec_last_adjustment_ms() == now_ms,
    {
        AdaptiveController {
            current_segments: initial_segments,
            max_segments,
            min_segment_size,
            file_size,
            last_adjustment_ms: now_ms,
        }
    }

    pub fn current_segments(&self) -> (n: usize)
        ensures
            n == self.spec_current_segments(),
    {
        self.current_segments
    }

    /// Decides whether to grow the segment count: no sooner than half a
    /// second after the last change, only towards the BDP target, at most
    /// four segments at a time, and never below the minimum segment size.
    /// On a decision the clock and count advance and a split request is
    /// returned.
    pub fn evaluate(&mut self, now_ms: u64, bdp: Option<u64>, _current_speed: u64) -> (r: Option<
        SegmentAdjustment,
    >)
        ensures
            ({
                match old(self).spec_evaluation(now_ms, bdp) {
                    None => r is None && *final(self) == *old(self),
                    Some((to_add, optimal)) => {
                        &&& r == Some(
                            SegmentAdjustment::Split {
                                count: to_add,
                                reason: AdjustmentReason::BdpIncrease {
                                    bdp: bdp->Some_0,
                                    optimal,
                                },
                            },
                        )
                        &&& final(self).spec_current_segments() == old(
                            self,
                        ).spec_current_segments() + to_add
                        &&& final(self).spec_last_adjustment_ms() == now_ms
                        &&& final(self).spec_max_segments() == old(self).spec_max_segments()
                        &&& final(self).spec_min_segment_size() == old(
                            self,
                        ).spec_min_segment_size()
                        &&& final(self).spec_file_size() == old(self).spec_file_size()
                    },
                }
            }),
    {
        let deadline: u128 = (self.last_adjustment_ms as u128) + (ADJUSTMENT_INTERVAL_MS as u128);
        if (now_ms as u128) < deadline {
            return None;
        }
        let b = match bdp {
            None => {
                return None;
            },
            Some(b) => b,
        };

        let current = self.current_segments;
        let want: u64 = if b == 0 {
            0
        } else {
            (b - 1) / 65536 + 1
        };
        proof {
            if b > 0 {
                assert((b - 1) / 65536 + 1 == (b + 65535) / 65536) by (nonlinear_arith)
                    requires
                        b >= 1,
                ;
            }
        }
        let optimal: usize = if want < 1 {
            1
        } else if want > self.max_segments as u64 {
            self.max_segments
        } else {
            want as usize
        };

        if optimal <= current {
            return None;
        }
        let remaining = optimal - current;
        let to_add = if remaining < 4 {
            remaining
        } else {
            4
        };

        let avg_segment_size = self.file_size / ((current + to_add) as u64);
        if avg_segment_size < self.min_segment_size {
            return None;
        }

        self.last_adjustment_ms = now_ms;
        self.current_segments = current + to_add;

        Some(
            SegmentAdjustment::Split {
                count: to_add,
                reason: AdjustmentReason::BdpIncrease { bdp: b, optimal },
            },
        )
    }

    /// Whether a slow segment is worth splitting: it moves but at less than
    /// three tenths of the average speed, what remains is worth two minimum
    /// halves, and the cap is not reached.
    pub fn should_split_slow_segment(
        &self,
        segment_speed: u64,
        avg_speed: u64,
        remaining_bytes: u64,
    ) -> (b: bool)
        ensures
            b == (remaining_bytes >= 2 * self.spec_min_segment_size()
                && self.spec_current_segments() < self.spec_max_segments() && segment_speed > 0 && 10
                * segment_speed < 3 * avg_speed),
    {
        if remaining_bytes / 2 < self.min_segment_size {
            proof {
                assert(remaining_bytes < 2 * self.spec_min_segment_size());
            }
            return false;
        }
        if self.current_segments >= self.max_segments {
            return false;
        }
        segment_speed > 0 && 10 * (segment_speed as u128) < 3 * (avg_speed as u128)
    }

    /// Counts one split done elsewhere, saturating at the type's limit.
    pub fn record_split(&mut self)
        ensures
            final(self).spec_current_segments() == if old(self).spec_current_segments()
                < usize::MAX {
                old(self).spec_current_segments() + 1
            } else {
                usize::MAX as int
            },
            final(self).spec_max_segments() == old(self).spec_max_segments(),
            final(self).spec_min_segment_size() == old(self).spec_min_segment_size(),
            final(self).spec_file_size() == old(self).spec_file_size(),
            final(self).spec_last_adjustment_ms() == old(self).spec_last_adjustment_ms(),
    {
        if self.current_segments < usize::MAX {
            self.current_segments = self.current_segments + 1;
        }
    }
}

} // verus!
