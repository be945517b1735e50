//! The segment manager: an ordered set of non-overlapping segments covering a
//! file, with completion tracking and slow-segment splitting.

use vstd::prelude::*;
use crate::range::{ByteRange, piece_start, split_range, initial_segments, lemma_piece_start_monotone, lemma_piece_start_le_total};
use crate::types::{SegmentState, SegmentStatus};

verus! {

/// Two ranges that do not share any offset.
pub open spec fn ranges_disjoint(a: ByteRange, b: ByteRange) -> bool {
    a.end <= b.start || b.end <= a.start
}

/// Total bytes downloaded over a sequence of segments.
pub open spec fn sum_downloaded(s: Seq<SegmentState>) -> int
    decreases s.len(),
{
    if s.len() == 0 {
        0
    } else {
        sum_downloaded(s.drop_last()) + s.last().downloaded
    }
}

/// Sum of the speeds of the active segments.
pub open spec fn sum_active_speed(s: Seq<SegmentState>) -> int
    decreases s.len(),
{
    if s.len() == 0 {
        0
    } else {
        sum_active_speed(s.drop_last()) + if s.last().status is Active {
            s.last().speed as int
        } else {
            0int
        }
    }
}

/// Mean speed of the active segments, zero when none is active.
pub open spec fn spec_average_speed(s: Seq<SegmentState>) -> int {
    if count_active(s) == 0 {
        0
    } else {
        sum_active_speed(s) / count_active(s)
    }
}

/// How many segments are active.
pub open spec fn count_active(s: Seq<SegmentState>) -> int
    decreases s.len(),
{
    if s.len() == 0 {
        0
    } else {
        count_active(s.drop_last()) + if s.last().status is Active {
            1int
        } else {
            0int
        }
    }
}

pub struct SegmentManager {
    segments: Vec<SegmentState>,
    total_size: u64,
    min_segment_size: u64,
    max_segments: usize,
}

impl SegmentManager {
    pub closed spec fn segs(self) -> Seq<SegmentState> {
        self.segments@
    }

    pub closed spec fn spec_total_size(self) -> u64 {
        self.total_size
    }

    pub closed spec fn spec_min_segment_size(self) -> u64 {
        self.min_segment_size
    }

    pub closed spec fn spec_max_segments(self) -> usize {
        self.max_segments
    }

    /// Every segment is well formed, segment ids are dense indices, and no
    /// two segments overlap.
    pub open spec fn wf(self) -> bool {
        &&& forall|i: int| 0 <= i < self.segs().len() ==> (#[trigger] self.segs()[i]).wf()
        &&& forall|i: int| 0 <= i < self.segs().len() ==> (#[trigger] self.segs()[i]).id == i
        &&& forall|i: int, j: int|
            #![trigger self.segs()[i], self.segs()[j]]
            0 <= i < j < self.segs().len() ==> ranges_disjoint(
                self.segs()[i].range,
                self.segs()[j].range,
            )
    }

    pub open spec fn same_config(self, other: SegmentManager) -> bool {
        &&& self.spec_total_size() == other.spec_total_size()
        &&& self.spec_min_segment_size() == other.spec_min_segment_size()
        &&& self.spec_max_segments() == other.spec_max_segments()
    }

    /// A manager with the default 256 KiB minimum segment size and a cap of
    /// 32 segments; no segments yet.
    pub fn new(total_size: u64) -> (m: SegmentManager)
        ensures
            m.wf(),
            m.segs().len() == 0,
            m.spec_total_size() == total_size,
            m.spec_min_segment_size() == 262144,
            m.spec_max_segments() == 32,
    {
        SegmentManager {
            segments: Vec::new(),
            total_size,
            min_segment_size: 256 * 1024,
            max_segments: 32,
        }
    }

    pub fn with_config(total_size: u64, min_segment_size: u64, max_segments: usize) -> (m:
        SegmentManager)
        ensures
            m.wf(),
            m.segs().len() == 0,
            m.spec_total_size() == total_size,
            m.spec_min_segment_size() == min_segment_size,
            m.spec_max_segments() == max_segments,
    {
        SegmentManager { segments: Vec::new(), total_size, min_segment_size, max_segments }
    }

    /// A manager already split into `num_segments` even pieces.
    pub fn with_segments(total_size: u64, num_segments: usize) -> (m: SegmentManager)
        ensures
            m.wf(),
            m.spec_total_size() == total_size,
            m.spec_min_segment_size() == 262144,
            m.spec_max_segments() == 32,
            m.segs() == spec_even_segments(total_size, num_segments),
    {
        let mut m = SegmentManager::new(total_size);
        let segments = even_segments(total_size, num_segments);
        m.segments = segments;
        m
    }

    /// Splits the file into the bucket-determined initial segment count and
    /// installs the result, returning a copy of it.
    pub fn initialize(&mut self) -> (r: Vec<SegmentState>)
        ensures
            final(self).wf(),
            final(self).same_config(*old(self)),
            final(self).segs() == spec_even_segments(
                old(self).spec_total_size(),
                crate::range::spec_initial_segments(old(self).spec_total_size()),
            ),
            r@ == final(self).segs(),
    {
        let n = initial_segments(self.total_size);
        let segments = even_segments(self.total_size, n);
        self.segments = segments;
        self.copy_segments()
    }

    /// A snapshot of the segment list.
    pub fn get_segments(&self) -> (r: Vec<SegmentState>)
        ensures
            r@ == self.segs(),
    {
        self.copy_segments()
    }

    fn copy_segments(&self) -> (r: Vec<SegmentState>)
        ensures
            r@ == self.segs(),
    {
        let mut r: Vec<SegmentState> = Vec::new();
        let n = self.segments.len();
        for i in 0..n
            invariant
                n == self.segs().len(),
                r@.len() == i,
                forall|j: int| 0 <= j < i ==> r@[j] == self.segs()[j],
        {
            r.push(self.segments[i]);
        }
        proof {
            assert(r@ =~= self.segs());
        }
        r
    }

    pub fn len(&self) -> (n: usize)
        ensures
            n == self.segs().len(),
    {
        self.segments.len()
    }

    /// Records progress on a segment.  The update is applied only when the
    /// segment exists, the new byte count does not shrink, and it fits the
    /// range; a segment whose range fills up becomes `Complete`.
    pub fn update_segment(&mut self, id: usize, downloaded: u64, speed: u64)
        requires
            old(self).wf(),
        ensures
            final(self).wf(),
            final(self).same_config(*old(self)),
            ({
                let valid = id < old(self).segs().len() && old(self).segs()[id as int].downloaded
                    <= downloaded <= old(self).segs()[id as int].range.spec_len();
                if valid {
                    let s0 = old(self).segs()[id as int];
                    let s1 = (SegmentState {
                        downloaded,
                        speed,
                        status: if downloaded == s0.range.spec_len() {
                            SegmentStatus::Complete
                        } else {
                            s0.status
                        },
                        ..s0
                    });
                    final(self).segs() == old(self).segs().update(id as int, s1)
                } else {
                    final(self).segs() == old(self).segs()
                }
            }),
    {
        let n = self.segments.len();
        if id < n {
            let s0 = self.segments[id];
            let range_len = s0.range.len();
            if s0.downloaded <= downloaded && downloaded <= range_len {
                let status = if downloaded == range_len {
                    SegmentStatus::Complete
                } else {
                    s0.status
                };
                let s1 = SegmentState { downloaded, speed, status, ..s0 };
                self.segments.set(id, s1);
                proof {
                    assert(self.segs() =~= old(self).segs().update(id as int, s1));
                }
                return ;
            }
        }
        proof {
            assert(self.segs() =~= old(self).segs());
        }
    }

    /// Marks a segment complete, forcing its byte count to the full range.
    pub fn mark_complete(&mut self, id: usize)
        requires
            old(self).wf(),
        ensures
            final(self).wf(),
            final(self).same_config(*old(self)),
            id < old(self).segs().len() ==> {
                let s0 = old(self).segs()[id as int];
                let s1 = (SegmentState {
                    status: SegmentStatus::Complete,
                    downloaded: (s0.range.spec_len()) as u64,
                    ..s0
                });
                final(self).segs() == old(self).segs().update(id as int, s1)
            },
            id >= old(self).segs().len() ==> final(self).segs() == old(self).segs(),
    {
        let n = self.segments.len();
        if id < n {
            let s0 = self.segments[id];
            let s1 = SegmentState {
                status: SegmentStatus::Complete,
                downloaded: s0.range.len(),
                ..s0
            };
            self.segments.set(id, s1);
            proof {
                assert(self.segs() =~= old(self).segs().update(id as int, s1));
            }
        } else {
            proof {
                assert(self.segs() =~= old(self).segs());
            }
        }
    }

    /// Marks a segment as being fetched.  A segment that already holds
    /// every byte of its range stays `Complete`.
    pub fn mark_active(&mut self, id: usize)
        requires
            old(self).wf(),
        ensures
            final(self).wf(),
            final(self).same_config(*old(self)),
            ({
                let valid = id < old(self).segs().len() && old(self).segs()[id as int].downloaded
                    < old(self).segs()[id as int].range.spec_len();
                if valid {
                    let s0 = old(self).segs()[id as int];
                    final(self).segs() == old(self).segs().update(
                        id as int,
                        (SegmentState { status: SegmentStatus::Active, ..s0 }),
                    )
                } else {
                    final(self).segs() == old(self).segs()
                }
            }),
    {
        let n = self.segments.len();
        if id < n {
            let s0 = self.segments[id];
            if s0.downloaded < s0.range.len() {
                let s1 = SegmentState { status: SegmentStatus::Active, ..s0 };
                self.segments.set(id, s1);
                proof {
                    assert(self.segs() =~= old(self).segs().update(id as int, s1));
                }
                return ;
            }
        }
        proof {
            assert(self.segs() =~= old(self).segs());
        }
    }

    /// Marks a segment failed.  A segment that already holds every byte of
    /// its range stays `Complete`: completion is decided by content.
    pub fn mark_error(&mut self, id: usize)
        requires
            old(self).wf(),
        ensures
            final(self).wf(),
            final(self).same_config(*old(self)),
            ({
                let valid = id < old(self).segs().len() && old(self).segs()[id as int].downloaded
                    < old(self).segs()[id as int].range.spec_len();
                if valid {
                    let s0 = old(self).segs()[id as int];
                    final(self).segs() == old(self).segs().update(
                        id as int,
                        (SegmentState { status: SegmentStatus::Error, ..s0 }),
                    )
                } else {
                    final(self).segs() == old(self).segs()
                }
            }),
    {
        let n = self.segments.len();
        if id < n {
            let s0 = self.segments[id];
            if s0.downloaded < s0.range.len() {
                let s1 = SegmentState { status: SegmentStatus::Error, ..s0 };
                self.segments.set(id, s1);
                proof {
                    assert(self.segs() =~= old(self).segs().update(id as int, s1));
                }
                return ;
            }
        }
        proof {
            assert(self.segs() =~= old(self).segs());
        }
    }

    /// Whether `split_segment` would split segment `id`: the cap is not
    /// reached, the segment exists, and what remains of it is worth two
    /// minimum-size halves (and at least two bytes, so both halves are
    /// non-empty).
    pub open spec fn can_split(self, id: usize) -> bool {
        &&& self.segs().len() < self.spec_max_segments()
        &&& id < self.segs().len()
        &&& seg_remaining(self.segs()[id as int]) >= 2 * self.spec_min_segment_size()
        &&& seg_remaining(self.segs()[id as int]) >= 2
    }

    /// Splits the remaining half of a slow segment into a new segment.
    ///
    /// With `p` the midpoint of the parent's remaining range, the parent is
    /// truncated to `[start, p)` and the child covers `[p, end)`; together
    /// they cover exactly the parent's pre-split range, without overlap, and
    /// the parent keeps its downloaded prefix.
    pub fn split_segment(&mut self, id: usize) -> (r: Option<SegmentState>)
        requires
            old(self).wf(),
        ensures
            final(self).wf(),
            final(self).same_config(*old(self)),
            r is Some <==> old(self).can_split(id),
            r is None ==> final(self).segs() == old(self).segs(),
            r is Some ==> ({
                let s0 = old(self).segs()[id as int];
                let p = split_point(s0);
                let child = r->Some_0;
                &&& child.id == old(self).segs().len()
                &&& child.range.start == p
                &&& child.range.end == s0.range.end
                &&& child.downloaded == 0
                &&& child.speed == 0
                &&& child.status is Pending
                &&& final(self).segs().len() == old(self).segs().len() + 1
                &&& final(self).segs()[id as int] == (SegmentState {
                    range: (ByteRange { start: s0.range.start, end: p as u64 }),
                    ..s0
                })
                &&& final(self).segs().last() == child
                &&& forall|k: int|
                    0 <= k < old(self).segs().len() && k != id ==> final(self).segs()[k] == old(
                        self,
                    ).segs()[k]
            }),
    {
        let n = self.segments.len();
        if n >= self.max_segments {
            proof {
                assert(self.segs() =~= old(self).segs());
            }
            return None;
        }
        if id >= n {
            proof {
                assert(self.segs() =~= old(self).segs());
            }
            return None;
        }
        let s0 = self.segments[id];
        let remaining = s0.range.len().saturating_sub(s0.downloaded);
        if remaining < 2 || (self.min_segment_size > 0 && remaining / 2 < self.min_segment_size) {
            proof {
                assert(self.segs() =~= old(self).segs());
                assert(!old(self).can_split(id));
            }
            return None;
        }
        let current_offset = s0.range.start + s0.downloaded;
        let p = current_offset + remaining / 2;
        let child = SegmentState::new(n, ByteRange::new(p, s0.range.end));
        let parent = SegmentState {
            range: ByteRange::new(s0.range.start, p),
            ..s0
        };
        self.segments.set(id, parent);
        self.segments.push(child);
        proof {
            let olds = old(self).segs();
            assert(self.segs() =~= olds.update(id as int, parent).push(child));
            assert(seg_remaining(s0) == remaining);
            assert(old(self).can_split(id));
            assert forall|i: int, j: int|
                #![trigger self.segs()[i], self.segs()[j]]
                0 <= i < j < self.segs().len() implies ranges_disjoint(
                self.segs()[i].range,
                self.segs()[j].range,
            ) by {
                if j < olds.len() {
                    assert(ranges_disjoint(olds[i].range, olds[j].range));
                } else {
                    if i != id {
                        assert(ranges_disjoint(olds[i].range, olds[id as int].range));
                    }
                }
            }
        }
        Some(child)
    }

    /// Total bytes downloaded over all segments, saturating at `u64::MAX`.
    pub fn total_downloaded(&self) -> (t: u64)
        ensures
            t == if sum_downloaded(self.segs()) <= u64::MAX as int {
                sum_downloaded(self.segs())
            } else {
                u64::MAX as int
            },
    {
        let n = self.segments.len();
        let mut acc: u64 = 0;
        for i in 0..n
            invariant
                n == self.segs().len(),
                acc == if sum_downloaded(self.segs().take(i as int)) <= u64::MAX as int {
                    sum_downloaded(self.segs().take(i as int))
                } else {
                    u64::MAX as int
                },
        {
            proof {
                assert(self.segs().take(i + 1).drop_last() =~= self.segs().take(i as int));
                assert(self.segs().take(i + 1).last() == self.segs()[i as int]);
            }
            acc = acc.saturating_add(self.segments[i].downloaded);
        }
        proof {
            assert(self.segs().take(n as int) =~= self.segs());
        }
        acc
    }

    /// Whether every segment is complete.
    pub fn all_complete(&self) -> (b: bool)
        ensures
            b <==> forall|i: int|
                0 <= i < self.segs().len() ==> (#[trigger] self.segs()[i]).status is Complete,
    {
        let n = self.segments.len();
        for i in 0..n
            invariant
                n == self.segs().len(),
                forall|j: int| 0 <= j < i ==> (#[trigger] self.segs()[j]).status is Complete,
        {
            if !matches!(self.segments[i].status, SegmentStatus::Complete) {
                return false;
            }
        }
        true
    }

    /// Mean speed of the active segments (zero when none is active),
    /// in bytes per second, rounded down.
    pub fn average_speed(&self) -> (v: u64)
        ensures
            v == spec_average_speed(self.segs()),
    {
        let n = self.segments.len();
        let mut sum: u128 = 0;
        let mut count: u64 = 0;
        for i in 0..n
            invariant
                n == self.segs().len(),
                sum == sum_active_speed(self.segs().take(i as int)),
                count == count_active(self.segs().take(i as int)),
                count <= i,
                sum <= count * (u64::MAX as int),
        {
            proof {
                assert(self.segs().take(i + 1).drop_last() =~= self.segs().take(i as int));
                assert(self.segs().take(i + 1).last() == self.segs()[i as int]);
            }
            let s = self.segments[i];
            if matches!(s.status, SegmentStatus::Active) {
                sum = sum + s.speed as u128;
                count = count + 1;
            }
        }
        proof {
            assert(self.segs().take(n as int) =~= self.segs());
        }
        if count == 0 {
            0
        } else {
            proof {
                assert(sum as int / count as int <= u64::MAX as int) by (nonlinear_arith)
                    requires
                        0 < count as int,
                        0 <= sum as int <= count as int * (u64::MAX as int),
                ;
            }
            (sum / (count as u128)) as u64
        }
    }
}

/// Bytes a segment still misses.
pub open spec fn seg_remaining(s: SegmentState) -> int {
    if s.downloaded <= s.range.spec_len() {
        s.range.spec_len() - s.downloaded
    } else {
        0
    }
}

/// The midpoint of a segment's remaining range, where a split cuts it.
pub open spec fn split_point(s: SegmentState) -> int {
    s.range.start + s.downloaded + seg_remaining(s) / 2
}

/// The even segmentation of `[0, total)` into `n` pieces, as fresh segments.
pub open spec fn spec_even_segments(total: u64, n: usize) -> Seq<SegmentState> {
    let count: int = if n == 0 || total == 0 {
        0
    } else {
        n as int
    };
    Seq::new(
        count as nat,
        |i: int|
            SegmentState {
                id: i as usize,
                range: (ByteRange {
                    start: piece_start(total, n, i) as u64,
                    end: piece_start(total, n, i + 1) as u64,
                }),
                downloaded: 0,
                status: if piece_start(total, n, i) == piece_start(total, n, i + 1) {
                    SegmentStatus::Complete
                } else {
                    SegmentStatus::Pending
                },
                speed: 0,
            },
    )
}

/// Builds the even segmentation as concrete segment values.
pub fn even_segments(total_size: u64, num_segments: usize) -> (segs: Vec<SegmentState>)
    ensures
        segs@ == spec_even_segments(total_size, num_segments),
        forall|i: int| 0 <= i < segs@.len() ==> (#[trigger] segs@[i]).wf(),
        forall|i: int| 0 <= i < segs@.len() ==> (#[trigger] segs@[i]).id == i,
        forall|i: int, j: int|
            #![trigger segs@[i], segs@[j]]
            0 <= i < j < segs@.len() ==> ranges_disjoint(segs@[i].range, segs@[j].range),
{
    let ranges = split_range(total_size, num_segments);
    let mut segs: Vec<SegmentState> = Vec::new();
    let n = ranges.len();
    for i in 0..n
        invariant
            n == ranges@.len(),
            n > 0 ==> num_segments > 0 && total_size > 0 && n == num_segments,
            forall|k: int|
                0 <= k < n ==> (#[trigger] ranges@[k]).start == piece_start(
                    total_size,
                    num_segments,
                    k,
                ),
            forall|k: int|
                0 <= k < n ==> (#[trigger] ranges@[k]).end == piece_start(
                    total_size,
                    num_segments,
                    k + 1,
                ),
            segs@.len() == i,
            forall|k: int| 0 <= k < i ==> segs@[k] == spec_even_segments(total_size, num_segments)[k],
    {
        proof {
            lemma_piece_start_monotone(total_size, num_segments, i as int, i + 1);
            lemma_piece_start_le_total(total_size, num_segments, i as int);
            lemma_piece_start_le_total(total_size, num_segments, i + 1);
        }
        segs.push(SegmentState::new(i, ranges[i]));
    }
    proof {
        assert(segs@ =~= spec_even_segments(total_size, num_segments));
        assert forall|i: int, j: int|
            #![trigger segs@[i], segs@[j]]
            0 <= i < j < segs@.len() implies ranges_disjoint(
            segs@[i].range,
            segs@[j].range,
        ) by {
            lemma_piece_start_le_total(total_size, num_segments, i + 1);
            lemma_piece_start_le_total(total_size, num_segments, j);
            lemma_piece_start_monotone(total_size, num_segments, i + 1, j);
        }
        assert forall|i: int| 0 <= i < segs@.len() implies (#[trigger] segs@[i]).wf() by {
            lemma_piece_start_le_total(total_size, num_segments, i);
            lemma_piece_start_le_total(total_size, num_segments, i + 1);
            lemma_piece_start_monotone(total_size, num_segments, i, i + 1);
        }
    }
    segs
}

} // verus!
