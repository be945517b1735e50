//! The rebalancer: finds segments crawling below a share of the average
//! speed and splits their remaining range so an idle worker can steal the
//! far half.

use vstd::prelude::*;
use crate::manager::{SegmentManager, seg_remaining, spec_average_speed, split_point};
use crate::range::{size_cap, spec_size_cap, ByteRange};
use crate::types::{SegmentState, SegmentStatus};

verus! {

/// Default slow threshold: a fifth of the average speed, in thousandths.
pub const SLOW_THRESHOLD_PERMILLE: u64 = 200;

/// Integer square root: the largest `r` with `r * r <= x`.
pub fn isqrt64(x: u64) -> (r: u64)
    ensures
        r * r <= x,
        (r + 1) * (r + 1) > x,
{
    let mut lo: u64 = 0;
    let mut hi: u64 = 4294967296;
    proof {
        assert(4294967296int * 4294967296int == 0x10000000000000000int) by (nonlinear_arith);
    }
    while lo + 1 < hi
        invariant
            lo < hi,
            hi <= 4294967296,
            lo * lo <= x,
            hi * hi > x,
        decreases hi - lo,
    {
        let mid = lo + (hi - lo) / 2;
        proof {
            assert((mid as u128) * (mid as u128) == (mid as int) * (mid as int) && (mid as u128)
                * (mid as u128) <= 0x10000000000000000u128) by (nonlinear_arith)
                requires
                    mid as u128 == mid as int,
                    mid as u128 <= 4294967296u128,
            ;
        }
        let sq: u128 = (mid as u128) * (mid as u128);
        if sq <= x as u128 {
            lo = mid;
        } else {
            hi = mid;
        }
    }
    lo
}

/// The effective slow threshold in thousandths of the average speed: the
/// base share, scaled by the integer square root of how many 64 KiB windows
/// the bandwidth-delay product spans, capped at one half.
pub open spec fn spec_threshold_permille(base: u64, bdp: Option<u64>) -> int {
    match bdp {
        None => base as int,
        Some(b) => {
            let factor = spec_isqrt(b as int / 65536);
            if base * factor > 500 {
                500
            } else {
                base * factor
            }
        },
    }
}

/// The integer square root, as a specification value.
pub closed spec fn spec_isqrt(x: int) -> int {
    choose|r: int| #![trigger r * r] r >= 0 && r * r <= x < (r + 1) * (r + 1)
}

pub proof fn lemma_isqrt_unique(x: int, r: int)
    requires
        r >= 0,
        r * r <= x,
        (r + 1) * (r + 1) > x,
    ensures
        spec_isqrt(x) == r,
{
    assert(exists|q: int| #![trigger q * q] q >= 0 && q * q <= x < (q + 1) * (q + 1)) by {
        assert(r >= 0 && r * r <= x < (r + 1) * (r + 1));
    }
    let q = spec_isqrt(x);
    assert(q >= 0 && q * q <= x < (q + 1) * (q + 1));
    if q < r {
        assert((q + 1) * (q + 1) <= r * r) by (nonlinear_arith)
            requires
                0 <= q < r,
        ;
    }
    if r < q {
        assert((r + 1) * (r + 1) <= q * q) by (nonlinear_arith)
            requires
                0 <= r < q,
        ;
    }
}

/// Watches a transfer's segments and splits the slow ones.
pub struct Rebalancer {
    slow_threshold_permille: u64,
    min_segment_size: u64,
    max_segments: usize,
}

impl Rebalancer {
    pub closed spec fn spec_threshold_base(self) -> u64 {
        self.slow_threshold_permille
    }

    pub closed spec fn spec_min_segment_size(self) -> u64 {
        self.min_segment_size
    }

    pub closed spec fn spec_max_segments(self) -> usize {
        self.max_segments
    }

    pub fn new() -> (r: Rebalancer)
        ensures
            r.spec_threshold_base() == 200,
            r.spec_min_segment_size() == 262144,
            r.spec_max_segments() == 32,
    {
        Rebalancer {
            slow_threshold_permille: SLOW_THRESHOLD_PERMILLE,
            min_segment_size: 256 * 1024,
            max_segments: 32,
        }
    }

    /// A rebalancer with a custom slow threshold, in thousandths of the
    /// average speed.
    pub fn with_threshold(slow_threshold_permille: u64) -> (r: Rebalancer)
        ensures
            r.spec_threshold_base() == slow_threshold_permille,
            r.spec_min_segment_size() == 262144,
            r.spec_max_segments() == 32,
    {
        Rebalancer {
            slow_threshold_permille,
            min_segment_size: 256 * 1024,
            max_segments: 32,
        }
    }

    pub fn with_config(
        slow_threshold_permille: u64,
        min_segment_size: u64,
        max_segments: usize,
    ) -> (r: Rebalancer)
        ensures
            r.spec_threshold_base() == slow_threshold_permille,
            r.spec_min_segment_size() == min_segment_size,
            r.spec_max_segments() == max_segments,
    {
        Rebalancer { slow_threshold_permille, min_segment_size, max_segments }
    }

    /// The speed below which an active segment counts as slow, in bytes per
    /// second, saturating at `u64::MAX`.
    pub fn calculate_threshold(&self, avg_speed: u64, bdp: Option<u64>) -> (t: u64)
        ensures
            t == ({
                let raw = avg_speed * spec_threshold_permille(self.spec_threshold_base(), bdp)
                    / 1000;
                if raw <= u64::MAX as int {
                    raw
                } else {
                    u64::MAX as int
                }
            }),
    {
        let permille: u64 = match bdp {
            None => self.slow_threshold_permille,
            Some(b) => {
                let factor = isqrt64(b / 65536);
                proof {
                    lemma_isqrt_unique(b as int / 65536, factor as int);
                }
                proof {
                    assert((self.slow_threshold_permille as u128) * (factor as u128)
                        == (self.slow_threshold_permille as int) * (factor as int)
                        && (self.slow_threshold_permille as u128) * (factor as u128) <= (u64::MAX
                        as u128) * (u64::MAX as u128)) by (nonlinear_arith)
                        requires
                            self.slow_threshold_permille as u128 == self.slow_threshold_permille
                                as int,
                            factor as u128 == factor as int,
                            self.slow_threshold_permille as u128 <= u64::MAX as u128,
                            factor as u128 <= u64::MAX as u128,
                    ;
                }
                let scaled: u128 = (self.slow_threshold_permille as u128) * (factor as u128);
                if scaled > 500 {
                    500
                } else {
                    scaled as u64
                }
            },
        };
        proof {
            assert((avg_speed as u128) * (permille as u128) == (avg_speed as int) * (permille
                as int) && (avg_speed as u128) * (permille as u128) <= (u64::MAX as u128)
                * (u64::MAX as u128)) by (nonlinear_arith)
                requires
                    avg_speed as u128 == avg_speed as int,
                    permille as u128 == permille as int,
                    avg_speed as u128 <= u64::MAX as u128,
                    permille as u128 <= u64::MAX as u128,
            ;
        }
        let raw: u128 = (avg_speed as u128) * (permille as u128) / 1000;
        if raw > u64::MAX as u128 {
            u64::MAX
        } else {
            raw as u64
        }
    }

    /// The slow threshold as a value: the average speed scaled by the
    /// effective permille share, saturating at `u64::MAX`.
    pub open spec fn spec_threshold(self, avg: int, bdp: Option<u64>) -> int {
        let raw = avg * spec_threshold_permille(self.spec_threshold_base(), bdp) / 1000;
        if raw <= u64::MAX as int {
            raw
        } else {
            u64::MAX as int
        }
    }

    /// A segment a rebalance pass splits: active, moving strictly below
    /// the slow threshold, with two halves of both the pass's and the
    /// manager's minimum size (and at least two bytes) still to fetch.
    pub open spec fn spec_slow_splittable(
        self,
        s: SegmentState,
        avg: int,
        bdp: Option<u64>,
        mgr_min: u64,
    ) -> bool {
        &&& s.status is Active
        &&& seg_remaining(s) >= 2 * self.spec_min_segment_size()
        &&& seg_remaining(s) >= 2 * mgr_min
        &&& seg_remaining(s) >= 2
        &&& (s.speed as int) < self.spec_threshold(avg, bdp)
    }

    /// One rebalance pass without a bandwidth-delay estimate.
    pub fn check_and_rebalance(&self, manager: &mut SegmentManager) -> (r: Vec<usize>)
        requires
            old(manager).wf(),
        ensures
            final(manager).wf(),
            final(manager).same_config(*old(manager)),
            final(manager).segs().len() == old(manager).segs().len() + r@.len(),
            forall|k: int| 0 <= k < r@.len() ==> r@[k] == old(manager).segs().len() + k,
            r@.len() == 0 ==> final(manager).segs() == old(manager).segs(),
            r@.len() == 0 ==> ({
                let avg = spec_average_speed(old(manager).segs());
                avg == 0 || old(manager).segs().len() >= self.spec_max_segments() || old(
                    manager,
                ).segs().len() >= old(manager).spec_max_segments() || (forall|i: int|
                    0 <= i < old(manager).segs().len() ==> !self.spec_slow_splittable(
                        #[trigger] old(manager).segs()[i],
                        avg,
                        None,
                        old(manager).spec_min_segment_size(),
                    ))
            }),
            forall|k: int|
                0 <= k < r@.len() ==> #[trigger] self.spec_has_pedigree(
                    old(manager).segs(),
                    final(manager).segs(),
                    None,
                    old(manager).spec_min_segment_size(),
                    k,
                ),
    {
        self.check_and_rebalance_with_bdp(manager, None)
    }

    /// What one returned child id attests: its parent was a slow active
    /// segment of the pre-pass state, the child covers the far half of the
    /// parent's remaining range from the split point, and the parent kept
    /// everything but its truncated end.
    pub open spec fn spec_split_pedigree(
        self,
        pre: Seq<SegmentState>,
        post: Seq<SegmentState>,
        bdp: Option<u64>,
        mgr_min: u64,
        p: int,
        k: int,
    ) -> bool {
        let avg = spec_average_speed(pre);
        let parent0 = pre[p];
        let child = post[pre.len() + k];
        &&& 0 <= p < pre.len()
        &&& self.spec_slow_splittable(parent0, avg, bdp, mgr_min)
        &&& child.range.start == split_point(parent0)
        &&& child.range.end == parent0.range.end
        &&& child.downloaded == 0
        &&& child.status is Pending
        &&& post[p] == (SegmentState {
            range: (ByteRange {
                start: parent0.range.start,
                end: split_point(parent0) as u64,
            }),
            ..parent0
        })
    }

    /// Some pre-pass segment is the `k`-th returned child's slow parent.
    pub open spec fn spec_has_pedigree(
        self,
        pre: Seq<SegmentState>,
        post: Seq<SegmentState>,
        bdp: Option<u64>,
        mgr_min: u64,
        k: int,
    ) -> bool {
        exists|p: int|
            #![trigger pre[p]]
            self.spec_split_pedigree(pre, post, bdp, mgr_min, p, k)
    }

    /// One rebalance pass: for each active segment moving below the slow
    /// threshold whose remaining range is worth two minimum halves, splits
    /// off the far half as a new segment, stopping at the segment cap.  The
    /// new segments' ids are returned; ids are assigned densely, so the
    /// manager grows by exactly the returned ids, each the child of a slow
    /// segment split at its remaining range's midpoint.  A pass that
    /// returns nothing had nothing to do: no measurable average speed, the
    /// cap already reached, or no segment slow and splittable.
    pub fn check_and_rebalance_with_bdp(&self, manager: &mut SegmentManager, bdp: Option<u64>)
        -> (r: Vec<usize>)
        requires
            old(manager).wf(),
        ensures
            final(manager).wf(),
            final(manager).same_config(*old(manager)),
            final(manager).segs().len() == old(manager).segs().len() + r@.len(),
            forall|k: int| 0 <= k < r@.len() ==> r@[k] == old(manager).segs().len() + k,
            r@.len() == 0 ==> final(manager).segs() == old(manager).segs(),
            r@.len() == 0 ==> ({
                let avg = spec_average_speed(old(manager).segs());
                avg == 0 || old(manager).segs().len() >= self.spec_max_segments() || old(
                    manager,
                ).segs().len() >= old(manager).spec_max_segments() || (forall|i: int|
                    0 <= i < old(manager).segs().len() ==> !self.spec_slow_splittable(
                        #[trigger] old(manager).segs()[i],
                        avg,
                        bdp,
                        old(manager).spec_min_segment_size(),
                    ))
            }),
            forall|k: int|
                0 <= k < r@.len() ==> #[trigger] self.spec_has_pedigree(
                    old(manager).segs(),
                    final(manager).segs(),
                    bdp,
                    old(manager).spec_min_segment_size(),
                    k,
                ),
    {
        let snapshot = manager.get_segments();
        let avg_speed = manager.average_speed();

        if avg_speed == 0 {
            return Vec::new();
        }

        let current_count = snapshot.len();
        if current_count >= self.max_segments {
            return Vec::new();
        }

        let slow_threshold = self.calculate_threshold(avg_speed, bdp);
        let mut new_segments: Vec<usize> = Vec::new();
        let ghost mut parents: Seq<int> = Seq::empty();

        let n = snapshot.len();
        let mut idx: usize = 0;
        let mut capped = false;
        while idx < n && !capped
            invariant
                manager.wf(),
                manager.same_config(*old(manager)),
                n == old(manager).segs().len(),
                n == snapshot@.len(),
                snapshot@ == old(manager).segs(),
                n < self.spec_max_segments(),
                idx <= n,
                avg_speed == spec_average_speed(old(manager).segs()),
                slow_threshold == self.spec_threshold(
                    spec_average_speed(old(manager).segs()),
                    bdp,
                ),
                manager.segs().len() == old(manager).segs().len() + new_segments@.len(),
                forall|k: int|
                    0 <= k < new_segments@.len() ==> new_segments@[k] == old(manager).segs().len()
                        + k,
                new_segments@.len() == 0 ==> manager.segs() == old(manager).segs(),
                capped ==> new_segments@.len() > 0,
                forall|i: int| idx <= i < n ==> manager.segs()[i] == old(manager).segs()[i],
                new_segments@.len() == 0 ==> old(manager).segs().len() >= old(
                    manager,
                ).spec_max_segments() || (forall|i: int|
                    0 <= i < idx ==> !self.spec_slow_splittable(
                        #[trigger] old(manager).segs()[i],
                        spec_average_speed(old(manager).segs()),
                        bdp,
                        old(manager).spec_min_segment_size(),
                    )),
                parents.len() == new_segments@.len(),
                forall|k: int| 0 <= k < parents.len() ==> 0 <= #[trigger] parents[k] < idx,
                forall|k: int|
                    0 <= k < parents.len() ==> self.spec_split_pedigree(
                        old(manager).segs(),
                        manager.segs(),
                        bdp,
                        old(manager).spec_min_segment_size(),
                        #[trigger] parents[k],
                        k,
                    ),
            decreases n - idx,
        {
            let seg = &snapshot[idx];
            let is_active = matches!(seg.status, SegmentStatus::Active);
            let remaining = seg.remaining();
            proof {
                assert(old(manager).segs()[idx as int].id == idx);
            }
            if is_active && remaining / 2 >= self.min_segment_size && seg.speed < slow_threshold
                && remaining > 0 {
                if manager.len() >= self.max_segments {
                    capped = true;
                } else {
                    let ghost pre_split = manager.segs();
                    match manager.split_segment(seg.id) {
                        Some(new_seg) => {
                            proof {
                                let s0 = old(manager).segs();
                                let parent0 = s0[idx as int];
                                assert(pre_split[idx as int] == parent0);
                                assert(seg_remaining(parent0) >= 2 * self.spec_min_segment_size()
                                    && seg_remaining(parent0) >= 2 * manager.spec_min_segment_size()
                                    && seg_remaining(parent0) >= 2);
                                assert(self.spec_slow_splittable(
                                    parent0,
                                    spec_average_speed(s0),
                                    bdp,
                                    old(manager).spec_min_segment_size(),
                                ));
                                let k = new_segments@.len() as int;
                                assert(manager.segs()[s0.len() + k] == manager.segs().last());
                                assert forall|k2: int| 0 <= k2 < parents.len() implies
                                    self.spec_split_pedigree(
                                    s0,
                                    manager.segs(),
                                    bdp,
                                    old(manager).spec_min_segment_size(),
                                    #[trigger] parents[k2],
                                    k2,
                                ) by {
                                    assert(self.spec_split_pedigree(
                                        s0,
                                        pre_split,
                                        bdp,
                                        old(manager).spec_min_segment_size(),
                                        parents[k2],
                                        k2,
                                    ));
                                    assert(manager.segs()[parents[k2]] == pre_split[parents[k2]]);
                                    assert(manager.segs()[s0.len() + k2] == pre_split[s0.len()
                                        + k2]);
                                }
                                assert(self.spec_split_pedigree(
                                    s0,
                                    manager.segs(),
                                    bdp,
                                    old(manager).spec_min_segment_size(),
                                    idx as int,
                                    k,
                                ));
                                parents = parents.push(idx as int);
                            }
                            new_segments.push(new_seg.id);
                        },
                        None => {
                            proof {
                                let s0 = old(manager).segs();
                                if pre_split.len() < manager.spec_max_segments() {
                                    assert(seg_remaining(pre_split[idx as int]) < 2
                                        * manager.spec_min_segment_size() || seg_remaining(
                                        pre_split[idx as int],
                                    ) < 2);
                                }
                            }
                        },
                    }
                }
            } else {
                proof {
                    let parent0 = old(manager).segs()[idx as int];
                    if !is_active {
                        assert(!self.spec_slow_splittable(
                            parent0,
                            spec_average_speed(old(manager).segs()),
                            bdp,
                            old(manager).spec_min_segment_size(),
                        ));
                    } else if remaining == 0 || remaining / 2 < self.min_segment_size {
                        assert(seg_remaining(parent0) < 2 * self.spec_min_segment_size()
                            || seg_remaining(parent0) < 2);
                        assert(!self.spec_slow_splittable(
                            parent0,
                            spec_average_speed(old(manager).segs()),
                            bdp,
                            old(manager).spec_min_segment_size(),
                        ));
                    } else {
                        assert(!((parent0.speed as int) < self.spec_threshold(
                            spec_average_speed(old(manager).segs()),
                            bdp,
                        )));
                    }
                }
            }
            idx = idx + 1;
        }
        proof {
            assert forall|k: int| 0 <= k < new_segments@.len() implies self.spec_has_pedigree(
                old(manager).segs(),
                manager.segs(),
                bdp,
                old(manager).spec_min_segment_size(),
                k,
            ) by {
                assert(self.spec_split_pedigree(
                    old(manager).segs(),
                    manager.segs(),
                    bdp,
                    old(manager).spec_min_segment_size(),
                    parents[k],
                    k,
                ));
            }
        }
        new_segments
    }

    /// Segment-count hint from a bandwidth-delay product: one 64 KiB window
    /// per connection, rounded up, clamped between one and both the
    /// file-size bucket cap and this rebalancer's cap.
    pub fn optimal_segments_from_bdp(&self, bdp: u64, file_size: u64) -> (n: usize)
        ensures
            ({
                let want = (bdp + 65535) / 65536;
                let cap = if spec_size_cap(file_size) <= self.spec_max_segments() {
                    spec_size_cap(file_size) as int
                } else {
                    self.spec_max_segments() as int
                };
                n == if want < 1 {
                    1int
                } else if want > cap {
                    cap
                } else {
                    want
                }
            }),
    {
        let want: u64 = if bdp == 0 {
            0
        } else {
            (bdp - 1) / 65536 + 1
        };
        proof {
            if bdp > 0 {
                assert((bdp - 1) / 65536 + 1 == (bdp + 65535) / 65536) by (nonlinear_arith)
                    requires
                        bdp >= 1,
                ;
            }
        }
        let bucket = size_cap(file_size);
        let cap: usize = if bucket <= self.max_segments {
            bucket
        } else {
            self.max_segments
        };
        if want < 1 {
            1
        } else if want > cap as u64 {
            cap
        } else {
            want as usize
        }
    }
}

} // verus!
