//! Live per-source accounting and the segment-to-source assignment,
//! including failover reassignment after errors.

use vstd::prelude::*;
use crate::mirror::{
    MirrorSet, MirrorStats, clamp32, spec_score_den, spec_score_gt, spec_score_le,
    lemma_score_den_positive, lemma_score_le_gt_trans,
};
use crate::range::ByteRange;

verus! {

/// Sum of a window of speed samples.
pub open spec fn sum_samples(s: Seq<u64>) -> int
    decreases s.len(),
{
    if s.len() == 0 {
        0
    } else {
        sum_samples(s.drop_last()) + s.last()
    }
}

/// Mean of a window of speed samples, zero when empty.
pub open spec fn spec_avg(s: Seq<u64>) -> int {
    if s.len() == 0 {
        0
    } else {
        sum_samples(s) / s.len() as int
    }
}

/// Live statistics of one source: byte and error counters, how many
/// segments it currently serves, and a window of its last speed samples.
#[derive(Debug, Clone)]
pub struct SourceStats {
    pub bytes_downloaded: u64,
    pub errors: usize,
    pub active_segments: usize,
    pub speed_samples: Vec<u64>,
}

/// Same observable content: equal counters and an equal sample window.
pub open spec fn stats_like(a: SourceStats, b: SourceStats) -> bool {
    &&& a.bytes_downloaded == b.bytes_downloaded
    &&& a.errors == b.errors
    &&& a.active_segments == b.active_segments
    &&& a.speed_samples@ == b.speed_samples@
}

impl SourceStats {
    pub fn new() -> (s: SourceStats)
        ensures
            s.bytes_downloaded == 0,
            s.errors == 0,
            s.active_segments == 0,
            s.speed_samples@.len() == 0,
    {
        SourceStats {
            bytes_downloaded: 0,
            errors: 0,
            active_segments: 0,
            speed_samples: Vec::new(),
        }
    }

    /// A copy with the same observable content.
    fn duplicate(&self) -> (r: SourceStats)
        ensures
            stats_like(r, *self),
    {
        let mut samples: Vec<u64> = Vec::new();
        let n = self.speed_samples.len();
        for i in 0..n
            invariant
                n == self.speed_samples@.len(),
                samples@.len() == i,
                forall|j: int| 0 <= j < i ==> samples@[j] == self.speed_samples@[j],
        {
            samples.push(self.speed_samples[i]);
        }
        proof {
            assert(samples@ =~= self.speed_samples@);
        }
        SourceStats {
            bytes_downloaded: self.bytes_downloaded,
            errors: self.errors,
            active_segments: self.active_segments,
            speed_samples: samples,
        }
    }

    /// Mean of the sample window, in bytes per second, rounded down.
    pub fn avg_speed(&self) -> (v: u64)
        ensures
            v == spec_avg(self.speed_samples@),
    {
        let n = self.speed_samples.len();
        if n == 0 {
            return 0;
        }
        let mut sum: u128 = 0;
        for i in 0..n
            invariant
                n == self.speed_samples@.len(),
                sum == sum_samples(self.speed_samples@.take(i as int)),
                sum <= i * (u64::MAX as int),
        {
            proof {
                assert(self.speed_samples@.take(i + 1).drop_last() =~= self.speed_samples@.take(
                    i as int,
                ));
            }
            sum = sum + self.speed_samples[i] as u128;
        }
        proof {
            assert(self.speed_samples@.take(n as int) =~= self.speed_samples@);
            assert(sum as int / n as int <= u64::MAX as int) by (nonlinear_arith)
                requires
                    0 < n as int,
                    0 <= sum as int <= n as int * (u64::MAX as int),
            ;
        }
        (sum / (n as u128)) as u64
    }
}

/// The active count of `idx` decremented (saturating at zero), all else as
/// in `s`; describes the release step of a reassignment.
pub open spec fn spec_dec_active(s: Seq<SourceStats>, idx: Option<usize>, t: Seq<SourceStats>)
    -> bool {
    &&& t.len() == s.len()
    &&& forall|j: int|
        0 <= j < s.len() && Some(j as usize) != idx ==> stats_like(#[trigger] t[j], s[j])
    &&& match idx {
        None => true,
        Some(i) => i < s.len() ==> {
        let a = s[i as int];
        let b = t[i as int];
        &&& b.bytes_downloaded == a.bytes_downloaded
        &&& b.errors == a.errors
        &&& b.speed_samples@ == a.speed_samples@
        &&& b.active_segments == if a.active_segments > 0 {
            a.active_segments - 1
        } else {
            0int
        }
        },
    }
}

/// Assigns segments of one transfer to sources and keeps per-source stats.
pub struct MultiSourceManager {
    mirrors: MirrorSet,
    assignments: Vec<Option<usize>>,
    source_stats: Vec<SourceStats>,
    total_size: u64,
}

impl MultiSourceManager {
    pub closed spec fn spec_mirror_set(self) -> MirrorSet {
        self.mirrors
    }

    pub closed spec fn srcs(self) -> Seq<SourceStats> {
        self.source_stats@
    }

    pub closed spec fn spec_assignments(self) -> Seq<Option<usize>> {
        self.assignments@
    }

    pub closed spec fn spec_total_size(self) -> u64 {
        self.total_size
    }

    /// The source a segment is assigned to, if any.
    pub open spec fn assignment_of(self, segment_idx: int) -> Option<usize> {
        if 0 <= segment_idx < self.spec_assignments().len() {
            self.spec_assignments()[segment_idx]
        } else {
            None
        }
    }

    pub open spec fn wf(self) -> bool {
        &&& self.spec_mirror_set().wf()
        &&& self.srcs().len() == self.spec_mirror_set().spec_mirrors().len()
        &&& forall|i: int|
            0 <= i < self.spec_assignments().len() ==> ((#[trigger] self.spec_assignments()[i])
                matches Some(s) ==> s < self.srcs().len())
    }

    /// Score numerator used for reassignment: mean speed plus one, so an
    /// idle source still scores above zero.
    pub open spec fn rnum_of(s: SourceStats) -> int {
        clamp32(spec_avg(s.speed_samples@)) + 1
    }

    pub open spec fn rden_of(s: SourceStats) -> int {
        spec_score_den(s.errors, s.active_segments)
    }

    pub fn new(mirrors: MirrorSet, total_size: u64) -> (m: MultiSourceManager)
        requires
            mirrors.wf(),
        ensures
            m.wf(),
            m.spec_mirror_set() == mirrors,
            m.spec_total_size() == total_size,
            m.spec_assignments().len() == 0,
            forall|i: int|
                0 <= i < m.srcs().len() ==> (#[trigger] m.srcs()[i]).active_segments == 0
                    && m.srcs()[i].errors == 0 && m.srcs()[i].bytes_downloaded == 0
                    && m.srcs()[i].speed_samples@.len() == 0,
    {
        let n = mirrors.len();
        let mut source_stats: Vec<SourceStats> = Vec::new();
        for i in 0..n
            invariant
                source_stats@.len() == i,
                forall|j: int|
                    0 <= j < i ==> (#[trigger] source_stats@[j]).active_segments == 0
                        && source_stats@[j].errors == 0 && source_stats@[j].bytes_downloaded == 0
                        && source_stats@[j].speed_samples@.len() == 0,
        {
            source_stats.push(SourceStats::new());
        }
        MultiSourceManager { mirrors, assignments: Vec::new(), source_stats, total_size }
    }

    /// Grows the assignment table so `segment_idx` is addressable.
    fn reserve_assignment(&mut self, segment_idx: usize)
        requires
            segment_idx < usize::MAX,
        ensures
            final(self).mirrors == old(self).mirrors,
            final(self).source_stats == old(self).source_stats,
            final(self).total_size == old(self).total_size,
            final(self).assignments@.len() > segment_idx,
            final(self).assignments@.len() >= old(self).assignments@.len(),
            forall|j: int|
                0 <= j < final(self).assignments@.len() ==> #[trigger] final(self).assignments@[j]
                    == old(self).assignment_of(j),
    {
        while self.assignments.len() <= segment_idx
            invariant
                segment_idx < usize::MAX,
                self.assignments@.len() >= old(self).assignments@.len(),
                self.mirrors == old(self).mirrors,
                self.source_stats == old(self).source_stats,
                self.total_size == old(self).total_size,
                forall|j: int|
                    0 <= j < self.assignments@.len() ==> #[trigger] self.assignments@[j] == old(
                        self,
                    ).assignment_of(j),
            decreases segment_idx + 1 - self.assignments@.len(),
        {
            self.assignments.push(None);
        }
    }

    /// Picks the best mirror for a fresh segment — no other source scores
    /// above it on the mirror set's statistics at call time — records the
    /// assignment and counts the segment against the chosen source.
    pub fn assign_segment(&mut self, segment_idx: usize, _range: ByteRange) -> (r: usize)
        requires
            old(self).wf(),
            segment_idx < usize::MAX,
        ensures
            final(self).wf(),
            final(self).spec_mirror_set() == old(self).spec_mirror_set(),
            r < final(self).srcs().len(),
            forall|j: int|
                0 <= j < old(self).spec_mirror_set().spec_mirrors().len() ==> spec_score_le(
                    #[trigger] old(self).spec_mirror_set().num_at(j),
                    old(self).spec_mirror_set().den_at(j),
                    old(self).spec_mirror_set().num_at(r as int),
                    old(self).spec_mirror_set().den_at(r as int),
                ),
            final(self).assignment_of(segment_idx as int) == Some(r),
            forall|j: int|
                j != segment_idx ==> final(self).assignment_of(j) == old(self).assignment_of(j),
            final(self).srcs().len() == old(self).srcs().len(),
            forall|j: int|
                0 <= j < old(self).srcs().len() && j != r ==> stats_like(
                    #[trigger] final(self).srcs()[j],
                    old(self).srcs()[j],
                ),
            ({
                let a = old(self).srcs()[r as int];
                let b = final(self).srcs()[r as int];
                &&& b.bytes_downloaded == a.bytes_downloaded
                &&& b.errors == a.errors
                &&& b.speed_samples@ == a.speed_samples@
                &&& b.active_segments == if a.active_segments < usize::MAX {
                    a.active_segments + 1
                } else {
                    usize::MAX as int
                }
            }),
    {
        let source_idx = self.mirrors.select_for_segment(segment_idx);
        self.reserve_assignment(segment_idx);
        self.assignments.set(segment_idx, Some(source_idx));
        let mut bumped = self.source_stats[source_idx].duplicate();
        bumped.active_segments = if bumped.active_segments < usize::MAX {
            bumped.active_segments + 1
        } else {
            usize::MAX
        };
        self.source_stats.set(source_idx, bumped);
        source_idx
    }

    pub fn get_assignment(&self, segment_idx: usize) -> (r: Option<usize>)
        ensures
            r == self.assignment_of(segment_idx as int),
    {
        if segment_idx < self.assignments.len() {
            self.assignments[segment_idx]
        } else {
            None
        }
    }

    /// Counts one more error against a source (saturating); out-of-range
    /// indices are ignored.
    pub fn record_error(&mut self, source_idx: usize)
        requires
            old(self).wf(),
        ensures
            final(self).wf(),
            final(self).spec_mirror_set() == old(self).spec_mirror_set(),
            final(self).spec_assignments() == old(self).spec_assignments(),
            final(self).srcs().len() == old(self).srcs().len(),
            forall|j: int|
                0 <= j < old(self).srcs().len() && j != source_idx ==> stats_like(
                    #[trigger] final(self).srcs()[j],
                    old(self).srcs()[j],
                ),
            source_idx < old(self).srcs().len() ==> ({
                let a = old(self).srcs()[source_idx as int];
                let b = final(self).srcs()[source_idx as int];
                &&& b.bytes_downloaded == a.bytes_downloaded
                &&& b.active_segments == a.active_segments
                &&& b.speed_samples@ == a.speed_samples@
                &&& b.errors == if a.errors < usize::MAX {
                    a.errors + 1
                } else {
                    usize::MAX as int
                }
            }),
    {
        if source_idx < self.source_stats.len() {
            let mut bumped = self.source_stats[source_idx].duplicate();
            bumped.errors = if bumped.errors < usize::MAX {
                bumped.errors + 1
            } else {
                usize::MAX
            };
            self.source_stats.set(source_idx, bumped);
        }
    }

    /// Records bytes and a speed sample for a source.  The byte counter
    /// saturates; the sample window keeps the last ten samples.
    pub fn record_progress(&mut self, source_idx: usize, bytes: u64, speed: u64)
        requires
            old(self).wf(),
        ensures
            final(self).wf(),
            final(self).spec_mirror_set() == old(self).spec_mirror_set(),
            final(self).spec_assignments() == old(self).spec_assignments(),
            final(self).srcs().len() == old(self).srcs().len(),
            forall|j: int|
                0 <= j < old(self).srcs().len() && j != source_idx ==> stats_like(
                    #[trigger] final(self).srcs()[j],
                    old(self).srcs()[j],
                ),
            source_idx < old(self).srcs().len() ==> ({
                let a = old(self).srcs()[source_idx as int];
                let b = final(self).srcs()[source_idx as int];
                let pushed = if a.speed_samples@.len() >= 10 {
                    a.speed_samples@.push(speed).drop_first()
                } else {
                    a.speed_samples@.push(speed)
                };
                &&& b.errors == a.errors
                &&& b.active_segments == a.active_segments
                &&& b.speed_samples@ == pushed
                &&& b.bytes_downloaded == if a.bytes_downloaded + bytes <= u64::MAX {
                    a.bytes_downloaded + bytes
                } else {
                    u64::MAX as int
                }
            }),
    {
        if source_idx < self.source_stats.len() {
            let mut bumped = self.source_stats[source_idx].duplicate();
            bumped.bytes_downloaded = bumped.bytes_downloaded.saturating_add(bytes);
            bumped.speed_samples.push(speed);
            if bumped.speed_samples.len() > 10 {
                bumped.speed_samples.remove(0);
            }
            self.source_stats.set(source_idx, bumped);
        }
    }

    /// Releases the source serving a completed segment.
    pub fn complete_segment(&mut self, segment_idx: usize)
        requires
            old(self).wf(),
        ensures
            final(self).wf(),
            final(self).spec_mirror_set() == old(self).spec_mirror_set(),
            final(self).spec_assignments() == old(self).spec_assignments(),
            spec_dec_active(
                old(self).srcs(),
                old(self).assignment_of(segment_idx as int),
                final(self).srcs(),
            ),
    {
        let assigned = self.get_assignment(segment_idx);
        if let Some(idx) = assigned {
            let mut bumped = self.source_stats[idx].duplicate();
            bumped.active_segments = if bumped.active_segments > 0 {
                bumped.active_segments - 1
            } else {
                0
            };
            self.source_stats.set(idx, bumped);
        }
    }

    pub fn get_mirror_url(&self, source_idx: usize) -> (r: Option<String>)
        ensures
            source_idx < self.spec_mirror_set().spec_mirrors().len() ==> (r matches Some(u) && u@
                == self.spec_mirror_set().spec_mirrors()[source_idx as int].url@),
            source_idx >= self.spec_mirror_set().spec_mirrors().len() ==> r is None,
    {
        match self.mirrors.get(source_idx) {
            Some(m) => Some(m.url.clone()),
            None => None,
        }
    }

    pub fn mirror_count(&self) -> (n: usize)
        ensures
            n == self.spec_mirror_set().spec_mirrors().len(),
    {
        self.mirrors.len()
    }

    /// Moves a segment off its current source onto the best other source:
    /// the old source's active count drops, the winner's rises, and the
    /// winner beats every other candidate on the reassignment score, taken
    /// over the released state.  With a single mirror there is nowhere to
    /// go; the old source is still released.
    pub fn reassign_segment(&mut self, segment_idx: usize) -> (r: Option<usize>)
        requires
            old(self).wf(),
            segment_idx < usize::MAX,
        ensures
            final(self).wf(),
            final(self).spec_mirror_set() == old(self).spec_mirror_set(),
            r is None <==> old(self).srcs().len() <= 1,
            r is None ==> spec_dec_active(
                old(self).srcs(),
                old(self).assignment_of(segment_idx as int),
                final(self).srcs(),
            ) && final(self).spec_assignments() == old(self).spec_assignments(),
            r matches Some(k) ==> ({
                let excluded = old(self).assignment_of(segment_idx as int);
                &&& k < old(self).srcs().len()
                &&& (excluded matches Some(e) ==> k != e)
                &&& final(self).assignment_of(segment_idx as int) == Some(k)
                &&& (forall|j: int|
                    j != segment_idx ==> final(self).assignment_of(j) == old(self).assignment_of(
                        j,
                    ))
                &&& exists|mid: Seq<SourceStats>|
                    {
                        &&& #[trigger] spec_dec_active(old(self).srcs(), excluded, mid)
                        &&& (forall|j: int|
                            0 <= j < mid.len() && Some(j as usize) != excluded ==> spec_score_le(
                                Self::rnum_of(#[trigger] mid[j]),
                                Self::rden_of(mid[j]),
                                Self::rnum_of(mid[k as int]),
                                Self::rden_of(mid[k as int]),
                            ))
                        &&& final(self).srcs().len() == mid.len()
                        &&& (forall|j: int|
                            0 <= j < mid.len() && j != k ==> stats_like(
                                #[trigger] final(self).srcs()[j],
                                mid[j],
                            ))
                        &&& {
                            let a = mid[k as int];
                            let b = final(self).srcs()[k as int];
                            &&& b.bytes_downloaded == a.bytes_downloaded
                            &&& b.errors == a.errors
                            &&& b.speed_samples@ == a.speed_samples@
                            &&& b.active_segments == if a.active_segments < usize::MAX {
                                a.active_segments + 1
                            } else {
                                usize::MAX as int
                            }
                        }
                    }
            }),
    {
        let old_source = self.get_assignment(segment_idx);
        let ghost excluded_g = old_source;

        if let Some(old_idx) = old_source {
            let mut bumped = self.source_stats[old_idx].duplicate();
            bumped.active_segments = if bumped.active_segments > 0 {
                bumped.active_segments - 1
            } else {
                0
            };
            self.source_stats.set(old_idx, bumped);
        }
        let ghost mid_g = self.source_stats@;
        proof {
            assert(spec_dec_active(old(self).srcs(), excluded_g, mid_g));
        }

        let n = self.mirrors.len();
        if n <= 1 {
            return None;
        }

        let mut best: Option<usize> = None;
        for idx in 0..n
            invariant
                self.wf(),
                n == self.srcs().len(),
                n >= 2,
                self.mirrors == old(self).mirrors,
                self.assignments@ == old(self).assignments@,
                self.source_stats@ == mid_g,
                segment_idx < usize::MAX,
                excluded_g == old(self).assignment_of(segment_idx as int),
                excluded_g matches Some(e) ==> e < n,
                old_source == excluded_g,
                best is None ==> idx == 0 || (idx == 1 && excluded_g == Some(0usize)),
                best matches Some(b) ==> b < idx && Some(b) != excluded_g && (forall|j: int|
                    0 <= j < idx && Some(j as usize) != excluded_g ==> spec_score_le(
                        Self::rnum_of(#[trigger] self.srcs()[j]),
                        Self::rden_of(self.srcs()[j]),
                        Self::rnum_of(self.srcs()[b as int]),
                        Self::rden_of(self.srcs()[b as int]),
                    )),
        {
            let is_excluded = match old_source {
                Some(e) => idx == e,
                None => false,
            };
            if !is_excluded {
                let cand_avg = self.source_stats[idx].avg_speed();
                let cand_errors = self.source_stats[idx].errors;
                let cand_active = self.source_stats[idx].active_segments;
                match best {
                    None => {
                        best = Some(idx);
                    },
                    Some(b) => {
                        let bs_avg = self.source_stats[b].avg_speed();
                        let bs_errors = self.source_stats[b].errors;
                        let bs_active = self.source_stats[b].active_segments;
                        if score_above_plain(
                            cand_avg,
                            cand_errors,
                            cand_active,
                            bs_avg,
                            bs_errors,
                            bs_active,
                        ) {
                            proof {
                                assert forall|j: int|
                                    0 <= j < idx && Some(j as usize) != excluded_g implies
                                    spec_score_le(
                                    Self::rnum_of(#[trigger] self.srcs()[j]),
                                    Self::rden_of(self.srcs()[j]),
                                    Self::rnum_of(self.srcs()[idx as int]),
                                    Self::rden_of(self.srcs()[idx as int]),
                                ) by {
                                    lemma_score_den_positive(
                                        self.srcs()[j].errors,
                                        self.srcs()[j].active_segments,
                                    );
                                    lemma_score_den_positive(
                                        self.srcs()[b as int].errors,
                                        self.srcs()[b as int].active_segments,
                                    );
                                    lemma_score_den_positive(
                                        self.srcs()[idx as int].errors,
                                        self.srcs()[idx as int].active_segments,
                                    );
                                    lemma_score_le_gt_trans(
                                        Self::rnum_of(self.srcs()[j]),
                                        Self::rden_of(self.srcs()[j]),
                                        Self::rnum_of(self.srcs()[b as int]),
                                        Self::rden_of(self.srcs()[b as int]),
                                        Self::rnum_of(self.srcs()[idx as int]),
                                        Self::rden_of(self.srcs()[idx as int]),
                                    );
                                }
                            }
                            best = Some(idx);
                        }
                    },
                }
            }
        }

        let chosen = match best {
            Some(k) => k,
            None => {
                proof {
                    assert(false);
                }
                0
            },
        };

        self.reserve_assignment(segment_idx);
        self.assignments.set(segment_idx, Some(chosen));

        let mut bumped = self.source_stats[chosen].duplicate();
        bumped.active_segments = if bumped.active_segments < usize::MAX {
            bumped.active_segments + 1
        } else {
            usize::MAX
        };
        self.source_stats.set(chosen, bumped);

        proof {
            assert(spec_dec_active(old(self).srcs(), excluded_g, mid_g));
            assert(forall|j: int|
                0 <= j < mid_g.len() && Some(j as usize) != excluded_g ==> spec_score_le(
                    MultiSourceManager::rnum_of(#[trigger] mid_g[j]),
                    MultiSourceManager::rden_of(mid_g[j]),
                    MultiSourceManager::rnum_of(mid_g[chosen as int]),
                    MultiSourceManager::rden_of(mid_g[chosen as int]),
                ));
            assert(self.source_stats@.len() == mid_g.len());
            assert(forall|j: int|
                0 <= j < mid_g.len() && j != chosen ==> stats_like(
                    #[trigger] self.source_stats@[j],
                    mid_g[j],
                ));
        }
        Some(chosen)
    }

    /// Copies the live counters into the mirror set's statistics.
    pub fn sync_mirror_stats(&mut self)
        requires
            old(self).wf(),
        ensures
            final(self).wf(),
            final(self).srcs() == old(self).srcs(),
            final(self).spec_assignments() == old(self).spec_assignments(),
            final(self).spec_mirror_set().spec_mirrors() == old(self).spec_mirror_set().spec_mirrors(),
            final(self).spec_mirror_set().spec_stats().len() == old(self).srcs().len(),
            forall|i: int|
                0 <= i < old(self).srcs().len() ==> ({
                    let s = old(self).srcs()[i];
                    (#[trigger] final(self).spec_mirror_set().spec_stats()[i]) == (MirrorStats {
                        bytes_downloaded: s.bytes_downloaded,
                        errors: s.errors,
                        avg_speed: spec_avg(s.speed_samples@) as u64,
                        active_segments: s.active_segments,
                    })
                }),
    {
        let n = self.source_stats.len();
        for i in 0..n
            invariant
                self.wf(),
                n == self.srcs().len(),
                self.source_stats@ == old(self).source_stats@,
                self.assignments@ == old(self).assignments@,
                self.mirrors.spec_mirrors() == old(self).mirrors.spec_mirrors(),
                self.mirrors.spec_stats().len() == n,
                forall|j: int|
                    0 <= j < i ==> ({
                        let s = old(self).srcs()[j];
                        (#[trigger] self.mirrors.spec_stats()[j]) == (MirrorStats {
                            bytes_downloaded: s.bytes_downloaded,
                            errors: s.errors,
                            avg_speed: spec_avg(s.speed_samples@) as u64,
                            active_segments: s.active_segments,
                        })
                    }),
        {
            let avg = self.source_stats[i].avg_speed();
            let stats = MirrorStats {
                bytes_downloaded: self.source_stats[i].bytes_downloaded,
                errors: self.source_stats[i].errors,
                avg_speed: avg,
                active_segments: self.source_stats[i].active_segments,
            };
            self.mirrors.update_stats(i, stats);
        }
    }

    /// One row per source: index, bytes downloaded, mean speed, errors.
    pub fn get_source_summary(&self) -> (r: Vec<(usize, u64, u64, usize)>)
        ensures
            r@.len() == self.srcs().len(),
            forall|i: int|
                0 <= i < self.srcs().len() ==> ({
                    let s = self.srcs()[i];
                    (#[trigger] r@[i]) == (
                        i as usize,
                        s.bytes_downloaded,
                        spec_avg(s.speed_samples@) as u64,
                        s.errors,
                    )
                }),
    {
        let n = self.source_stats.len();
        let mut r: Vec<(usize, u64, u64, usize)> = Vec::new();
        for i in 0..n
            invariant
                n == self.srcs().len(),
                r@.len() == i,
                forall|j: int|
                    0 <= j < i ==> ({
                        let s = self.srcs()[j];
                        (#[trigger] r@[j]) == (
                            j as usize,
                            s.bytes_downloaded,
                            spec_avg(s.speed_samples@) as u64,
                            s.errors,
                        )
                    }),
        {
            let avg = self.source_stats[i].avg_speed();
            r.push((i, self.source_stats[i].bytes_downloaded, avg, self.source_stats[i].errors));
        }
        r
    }
}

/// Whether the first source's reassignment score is strictly above the
/// second's.
fn score_above_plain(
    speed1: u64,
    errors1: usize,
    active1: usize,
    speed2: u64,
    errors2: usize,
    active2: usize,
) -> (b: bool)
    ensures
        b == spec_score_gt(
            clamp32(speed1 as int) + 1,
            spec_score_den(errors1, active1),
            clamp32(speed2 as int) + 1,
            spec_score_den(errors2, active2),
        ),
{
    let v1: u128 = if speed1 > 0xFFFF_FFFF {
        0xFFFF_FFFF
    } else {
        speed1 as u128
    };
    let v2: u128 = if speed2 > 0xFFFF_FFFF {
        0xFFFF_FFFF
    } else {
        speed2 as u128
    };
    let e1: u128 = if errors1 > 0xFFFF_FFFF {
        0xFFFF_FFFF
    } else {
        errors1 as u128
    };
    let e2: u128 = if errors2 > 0xFFFF_FFFF {
        0xFFFF_FFFF
    } else {
        errors2 as u128
    };
    let a1: u128 = if active1 > 0xFFFF_FFFF {
        0xFFFF_FFFF
    } else {
        active1 as u128
    };
    let a2: u128 = if active2 > 0xFFFF_FFFF {
        0xFFFF_FFFF
    } else {
        active2 as u128
    };
    proof {
        assert((2 + e1) * (10 + a1) < 0x40000000000000000 && (2 + e2) * (10 + a2)
            < 0x40000000000000000) by (nonlinear_arith)
            requires
                e1 <= 0xFFFF_FFFFu128,
                e2 <= 0xFFFF_FFFFu128,
                a1 <= 0xFFFF_FFFFu128,
                a2 <= 0xFFFF_FFFFu128,
        ;
    }
    let n1: u128 = v1 + 1;
    let d1: u128 = (2 + e1) * (10 + a1);
    let n2: u128 = v2 + 1;
    let d2: u128 = (2 + e2) * (10 + a2);
    proof {
        assert(n1 * d2 < u128::MAX && n2 * d1 < u128::MAX) by (nonlinear_arith)
            requires
                n1 <= 0x100000000u128,
                n2 <= 0x100000000u128,
                d1 < 0x40000000000000000u128,
                d2 < 0x40000000000000000u128,
        ;
    }
    n1 * d2 > n2 * d1
}

} // verus!
