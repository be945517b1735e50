//! Mirrors of a resource and the score that picks the best source.
//!
//! The score of a source is the rational number
//! `(speed + 1) * boost / ((1 + errors/2) * (1 + active/10))`, kept exact
//! by comparing scores with cross-multiplication instead of dividing.  The
//! one-byte-per-second floor keeps priority and error counts ordering
//! sources before any bytes have flowed.  Each component saturates at
//! `2^32 - 1` so the cross products fit in `u128`.

use vstd::prelude::*;

verus! {

#[derive(Debug, Clone, Copy, PartialEq, Eq, Structural)]
pub enum MirrorPriority {
    Primary,
    Secondary,
    Fallback,
}

impl Default for MirrorPriority {
    fn default() -> (p: MirrorPriority)
        ensures
            p == MirrorPriority::Secondary,
    {
        MirrorPriority::Secondary
    }
}

/// An alternative URL serving the same resource.  URLs are plain strings;
/// the I/O layer parses them at its edge.
#[derive(Debug, Clone)]
pub struct Mirror {
    pub url: String,
    pub priority: MirrorPriority,
    pub region: Option<String>,
    pub max_connections: Option<usize>,
}

impl Mirror {
    pub fn new(url: String) -> (m: Mirror)
        ensures
            m.url == url,
            m.priority == MirrorPriority::Secondary,
            m.region is None,
            m.max_connections is None,
    {
        Mirror { url, priority: MirrorPriority::Secondary, region: None, max_connections: None }
    }

    pub fn primary(url: String) -> (m: Mirror)
        ensures
            m.url == url,
            m.priority == MirrorPriority::Primary,
            m.region is None,
            m.max_connections is None,
    {
        Mirror { url, priority: MirrorPriority::Primary, region: None, max_connections: None }
    }

    pub fn with_priority(self, priority: MirrorPriority) -> (m: Mirror)
        ensures
            m == (Mirror { priority, ..self }),
    {
        Mirror { priority, ..self }
    }

    pub fn with_region(self, region: String) -> (m: Mirror)
        ensures
            m == (Mirror { region: Some(region), ..self }),
    {
        Mirror { region: Some(region), ..self }
    }

    pub fn with_max_connections(self, max: usize) -> (m: Mirror)
        ensures
            m == (Mirror { max_connections: Some(max), ..self }),
    {
        Mirror { max_connections: Some(max), ..self }
    }
}

/// Observed statistics of one source.  Speed is in bytes per second.
#[derive(Debug, Clone)]
pub struct MirrorStats {
    pub bytes_downloaded: u64,
    pub errors: usize,
    pub avg_speed: u64,
    pub active_segments: usize,
}

impl Default for MirrorStats {
    fn default() -> (s: MirrorStats)
        ensures
            s.bytes_downloaded == 0,
            s.errors == 0,
            s.avg_speed == 0,
            s.active_segments == 0,
    {
        MirrorStats { bytes_downloaded: 0, errors: 0, avg_speed: 0, active_segments: 0 }
    }
}

/// Saturation bound of the score components.
pub open spec fn clamp32(x: int) -> int {
    if x > 0xFFFF_FFFF {
        0xFFFF_FFFF
    } else {
        x
    }
}

/// Priority weight, doubled so it stays an integer: Primary boosts a score
/// by 1.5, Secondary leaves it, Fallback halves it.
pub open spec fn spec_boost2(p: MirrorPriority) -> int {
    match p {
        MirrorPriority::Primary => 3,
        MirrorPriority::Secondary => 2,
        MirrorPriority::Fallback => 1,
    }
}

/// Numerator of a source's score: the speed floored at one byte per
/// second, so an idle source still scores by priority and errors.
pub open spec fn spec_score_num(speed: u64, p: MirrorPriority) -> int {
    (clamp32(speed as int) + 1) * spec_boost2(p)
}

/// Denominator of a source's score: grows with the error count (half an
/// error each) and the active-segment count (a tenth each), scaled by 20 to
/// stay an integer.
pub open spec fn spec_score_den(errors: usize, active: usize) -> int {
    (2 + clamp32(errors as int)) * (10 + clamp32(active as int))
}

/// `n1/d1 > n2/d2`, by cross-multiplication.
pub open spec fn spec_score_gt(n1: int, d1: int, n2: int, d2: int) -> bool {
    n1 * d2 > n2 * d1
}

/// `n1/d1 <= n2/d2`, by cross-multiplication.
pub open spec fn spec_score_le(n1: int, d1: int, n2: int, d2: int) -> bool {
    n1 * d2 <= n2 * d1
}

pub proof fn lemma_score_den_positive(errors: usize, active: usize)
    ensures
        20 <= spec_score_den(errors, active) < 0x4000000000000000000,
{
    let e = clamp32(errors as int);
    let a = clamp32(active as int);
    assert((2 + e) * (10 + a) >= 20 && (2 + e) * (10 + a) < 0x4000000000000000000)
        by (nonlinear_arith)
        requires
            0 <= e <= 0xFFFF_FFFFint,
            0 <= a <= 0xFFFF_FFFFint,
    ;
}

/// Scores order like rationals: `a <= b` and `b < c` imply `a < c`.
pub proof fn lemma_score_le_gt_trans(n1: int, d1: int, n2: int, d2: int, n3: int, d3: int)
    requires
        d1 > 0,
        d2 > 0,
        d3 > 0,
        spec_score_le(n1, d1, n2, d2),
        spec_score_gt(n3, d3, n2, d2),
    ensures
        spec_score_gt(n3, d3, n1, d1),
{
    assert(n1 * d3 < n3 * d1) by (nonlinear_arith)
        requires
            d1 > 0,
            d2 > 0,
            d3 > 0,
            n1 * d2 <= n2 * d1,
            n3 * d2 > n2 * d3,
    ;
}

/// The score never rises when the error count grows, everything else equal.
pub proof fn lemma_score_monotone_errors(
    speed: u64,
    p: MirrorPriority,
    active: usize,
    e1: usize,
    e2: usize,
)
    requires
        e1 <= e2,
    ensures
        spec_score_le(
            spec_score_num(speed, p),
            spec_score_den(e2, active),
            spec_score_num(speed, p),
            spec_score_den(e1, active),
        ),
{
    let n = spec_score_num(speed, p);
    let d1 = spec_score_den(e1, active);
    let d2 = spec_score_den(e2, active);
    assert(d1 <= d2 && n >= 0) by (nonlinear_arith)
        requires
            0 <= clamp32(e1 as int) <= clamp32(e2 as int),
            0 <= clamp32(active as int),
            0 <= clamp32(speed as int),
            1 <= spec_boost2(p),
            n == (clamp32(speed as int) + 1) * spec_boost2(p),
            d1 == (2 + clamp32(e1 as int)) * (10 + clamp32(active as int)),
            d2 == (2 + clamp32(e2 as int)) * (10 + clamp32(active as int)),
    ;
    assert(n * d1 <= n * d2) by (nonlinear_arith)
        requires
            n >= 0,
            d1 <= d2,
    ;
}

/// The score never rises when the active-segment count grows, everything
/// else equal.
pub proof fn lemma_score_monotone_active(
    speed: u64,
    p: MirrorPriority,
    errors: usize,
    a1: usize,
    a2: usize,
)
    requires
        a1 <= a2,
    ensures
        spec_score_le(
            spec_score_num(speed, p),
            spec_score_den(errors, a2),
            spec_score_num(speed, p),
            spec_score_den(errors, a1),
        ),
{
    let n = spec_score_num(speed, p);
    let d1 = spec_score_den(errors, a1);
    let d2 = spec_score_den(errors, a2);
    assert(d1 <= d2 && n >= 0) by (nonlinear_arith)
        requires
            0 <= clamp32(a1 as int) <= clamp32(a2 as int),
            0 <= clamp32(errors as int),
            0 <= clamp32(speed as int),
            1 <= spec_boost2(p),
            n == (clamp32(speed as int) + 1) * spec_boost2(p),
            d1 == (2 + clamp32(errors as int)) * (10 + clamp32(a1 as int)),
            d2 == (2 + clamp32(errors as int)) * (10 + clamp32(a2 as int)),
    ;
    assert(n * d1 <= n * d2) by (nonlinear_arith)
        requires
            n >= 0,
            d1 <= d2,
    ;
}

/// The score never falls when the speed grows, everything else equal.
pub proof fn lemma_score_monotone_speed(
    p: MirrorPriority,
    errors: usize,
    active: usize,
    v1: u64,
    v2: u64,
)
    requires
        v1 <= v2,
    ensures
        spec_score_le(
            spec_score_num(v1, p),
            spec_score_den(errors, active),
            spec_score_num(v2, p),
            spec_score_den(errors, active),
        ),
{
    let d = spec_score_den(errors, active);
    lemma_score_den_positive(errors, active);
    assert((clamp32(v1 as int) + 1) * spec_boost2(p) * d <= (clamp32(v2 as int) + 1)
        * spec_boost2(p) * d) by (nonlinear_arith)
        requires
            0 <= clamp32(v1 as int) <= clamp32(v2 as int),
            1 <= spec_boost2(p),
            d > 0,
    ;
}

/// Clamps a count to the score's 32-bit component range.
fn clamp_u32(x: usize) -> (r: u64)
    ensures
        r == clamp32(x as int),
{
    if x > 0xFFFF_FFFF {
        0xFFFF_FFFF
    } else {
        x as u64
    }
}

fn clamp_speed(x: u64) -> (r: u64)
    ensures
        r == clamp32(x as int),
{
    if x > 0xFFFF_FFFF {
        0xFFFF_FFFF
    } else {
        x
    }
}

fn boost2(p: MirrorPriority) -> (b: u64)
    ensures
        b == spec_boost2(p),
{
    match p {
        MirrorPriority::Primary => 3,
        MirrorPriority::Secondary => 2,
        MirrorPriority::Fallback => 1,
    }
}

/// Whether the first source's score is strictly above the second's.
fn score_above(
    speed1: u64,
    p1: MirrorPriority,
    errors1: usize,
    active1: usize,
    speed2: u64,
    p2: MirrorPriority,
    errors2: usize,
    active2: usize,
) -> (b: bool)
    ensures
        b == spec_score_gt(
            spec_score_num(speed1, p1),
            spec_score_den(errors1, active1),
            spec_score_num(speed2, p2),
            spec_score_den(errors2, active2),
        ),
{
    let v1: u128 = clamp_speed(speed1) as u128;
    let b1: u128 = boost2(p1) as u128;
    let e1: u128 = clamp_u32(errors1) as u128;
    let a1: u128 = clamp_u32(active1) as u128;
    let v2: u128 = clamp_speed(speed2) as u128;
    let b2: u128 = boost2(p2) as u128;
    let e2: u128 = clamp_u32(errors2) as u128;
    let a2: u128 = clamp_u32(active2) as u128;
    proof {
        assert((v1 + 1) * b1 <= 0x300000003 && (v2 + 1) * b2 <= 0x300000003 && (2 + e1) * (10
            + a1) < 0x40000000000000000 && (2 + e2) * (10 + a2) < 0x40000000000000000)
            by (nonlinear_arith)
            requires
                v1 <= 0xFFFF_FFFFu128,
                v2 <= 0xFFFF_FFFFu128,
                e1 <= 0xFFFF_FFFFu128,
                e2 <= 0xFFFF_FFFFu128,
                a1 <= 0xFFFF_FFFFu128,
                a2 <= 0xFFFF_FFFFu128,
                b1 <= 3,
                b2 <= 3,
        ;
    }
    let n1: u128 = (v1 + 1) * b1;
    let d1: u128 = (2 + e1) * (10 + a1);
    let n2: u128 = (v2 + 1) * b2;
    let d2: u128 = (2 + e2) * (10 + a2);
    proof {
        assert(n1 <= 0x300000003 && n2 <= 0x300000003 && d1 < 0x40000000000000000 && d2
            < 0x40000000000000000 && n1 * d2 < u128::MAX && n2 * d1 < u128::MAX)
            by (nonlinear_arith)
            requires
                n1 == (clamp32(speed1 as int) + 1) * spec_boost2(p1),
                n2 == (clamp32(speed2 as int) + 1) * spec_boost2(p2),
                d1 == (2 + clamp32(errors1 as int)) * (10 + clamp32(active1 as int)),
                d2 == (2 + clamp32(errors2 as int)) * (10 + clamp32(active2 as int)),
                0 <= clamp32(speed1 as int) <= 0xFFFF_FFFFint,
                0 <= clamp32(speed2 as int) <= 0xFFFF_FFFFint,
                0 <= clamp32(errors1 as int) <= 0xFFFF_FFFFint,
                0 <= clamp32(errors2 as int) <= 0xFFFF_FFFFint,
                0 <= clamp32(active1 as int) <= 0xFFFF_FFFFint,
                0 <= clamp32(active2 as int) <= 0xFFFF_FFFFint,
                1 <= spec_boost2(p1) <= 3,
                1 <= spec_boost2(p2) <= 3,
        ;
    }
    n1 * d2 > n2 * d1
}

/// An ordered, non-empty set of mirrors with per-index statistics.  Index 0
/// is the original URL.  Statistics start at zero for every mirror.
#[derive(Debug, Clone)]
pub struct MirrorSet {
    mirrors: Vec<Mirror>,
    stats: Vec<MirrorStats>,
}

impl MirrorSet {
    pub closed spec fn spec_mirrors(self) -> Seq<Mirror> {
        self.mirrors@
    }

    pub closed spec fn spec_stats(self) -> Seq<MirrorStats> {
        self.stats@
    }

    /// Non-empty, with one statistics slot per mirror.
    pub open spec fn wf(self) -> bool {
        &&& self.spec_mirrors().len() >= 1
        &&& self.spec_stats().len() == self.spec_mirrors().len()
    }

    /// Score numerator of the mirror at `i`.
    pub open spec fn num_at(self, i: int) -> int {
        spec_score_num(self.spec_stats()[i].avg_speed, self.spec_mirrors()[i].priority)
    }

    /// Score denominator of the mirror at `i`.
    pub open spec fn den_at(self, i: int) -> int {
        spec_score_den(self.spec_stats()[i].errors, self.spec_stats()[i].active_segments)
    }

    pub fn new(primary: String) -> (s: MirrorSet)
        ensures
            s.wf(),
            s.spec_mirrors().len() == 1,
            s.spec_mirrors()[0].url == primary,
            s.spec_mirrors()[0].priority == MirrorPriority::Primary,
            s.spec_stats()[0] == (MirrorStats {
                bytes_downloaded: 0,
                errors: 0,
                avg_speed: 0,
                active_segments: 0,
            }),
    {
        let mut mirrors: Vec<Mirror> = Vec::new();
        mirrors.push(Mirror::primary(primary));
        let mut stats: Vec<MirrorStats> = Vec::new();
        stats.push(MirrorStats::default());
        MirrorSet { mirrors, stats }
    }

    /// The first URL is the primary; the rest are secondaries.
    pub fn from_urls(urls: &Vec<String>) -> (s: MirrorSet)
        requires
            urls@.len() >= 1,
        ensures
            s.wf(),
            s.spec_mirrors().len() == urls@.len(),
            forall|i: int| 0 <= i < urls@.len() ==> (#[trigger] s.spec_mirrors()[i]).url == urls@[i],
            s.spec_mirrors()[0].priority == MirrorPriority::Primary,
            forall|i: int|
                1 <= i < urls@.len() ==> (#[trigger] s.spec_mirrors()[i]).priority
                    == MirrorPriority::Secondary,
    {
        let mut s = MirrorSet::new(urls[0].clone());
        let n = urls.len();
        for i in 1..n
            invariant
                n == urls@.len(),
                n >= 1,
                s.wf(),
                s.spec_mirrors().len() == i,
                forall|j: int| 0 <= j < i ==> (#[trigger] s.spec_mirrors()[j]).url == urls@[j],
                s.spec_mirrors()[0].priority == MirrorPriority::Primary,
                forall|j: int|
                    1 <= j < i ==> (#[trigger] s.spec_mirrors()[j]).priority
                        == MirrorPriority::Secondary,
        {
            s.add_url(urls[i].clone());
        }
        s
    }

    pub fn add(&mut self, mirror: Mirror)
        requires
            old(self).wf(),
        ensures
            final(self).wf(),
            final(self).spec_mirrors() == old(self).spec_mirrors().push(mirror),
            final(self).spec_stats() == old(self).spec_stats().push(
                (MirrorStats { bytes_downloaded: 0, errors: 0, avg_speed: 0, active_segments: 0 }),
            ),
    {
        self.mirrors.push(mirror);
        self.stats.push(MirrorStats::default());
    }

    pub fn add_url(&mut self, url: String)
        requires
            old(self).wf(),
        ensures
            final(self).wf(),
            final(self).spec_mirrors().len() == old(self).spec_mirrors().len() + 1,
            final(self).spec_mirrors() == old(self).spec_mirrors().push(
                (Mirror {
                    url,
                    priority: MirrorPriority::Secondary,
                    region: None,
                    max_connections: None,
                }),
            ),
            final(self).spec_stats() == old(self).spec_stats().push(
                (MirrorStats { bytes_downloaded: 0, errors: 0, avg_speed: 0, active_segments: 0 }),
            ),
    {
        self.add(Mirror::new(url));
    }

    pub fn mirrors(&self) -> (r: &[Mirror])
        ensures
            r@ == self.spec_mirrors(),
    {
        self.mirrors.as_slice()
    }

    pub fn len(&self) -> (n: usize)
        ensures
            n == self.spec_mirrors().len(),
    {
        self.mirrors.len()
    }

    pub fn is_empty(&self) -> (b: bool)
        ensures
            b == (self.spec_mirrors().len() == 0),
    {
        self.mirrors.len() == 0
    }

    pub fn get(&self, index: usize) -> (r: Option<&Mirror>)
        ensures
            index < self.spec_mirrors().len() ==> (r matches Some(m) && *m
                == self.spec_mirrors()[index as int]),
            index >= self.spec_mirrors().len() ==> r is None,
    {
        if index < self.mirrors.len() {
            Some(&self.mirrors[index])
        } else {
            None
        }
    }

    /// Replaces the statistics of the mirror at `index`; out-of-range
    /// indices are ignored.
    pub fn update_stats(&mut self, index: usize, stats: MirrorStats)
        requires
            old(self).wf(),
        ensures
            final(self).wf(),
            final(self).spec_mirrors() == old(self).spec_mirrors(),
            index < old(self).spec_stats().len() ==> final(self).spec_stats() == old(
                self,
            ).spec_stats().update(index as int, stats),
            index >= old(self).spec_stats().len() ==> final(self).spec_stats() == old(
                self,
            ).spec_stats(),
    {
        if index < self.stats.len() {
            self.stats.set(index, stats);
        }
    }

    pub fn get_stats(&self, index: usize) -> (r: Option<&MirrorStats>)
        ensures
            index < self.spec_stats().len() ==> (r matches Some(s) && *s
                == self.spec_stats()[index as int]),
            index >= self.spec_stats().len() ==> r is None,
    {
        if index < self.stats.len() {
            Some(&self.stats[index])
        } else {
            None
        }
    }

    /// The first mirror whose score no other mirror beats: every other score
    /// is at most the winner's, and everything before the winner scores
    /// strictly below it.
    pub fn best_mirror(&self) -> (r: usize)
        requires
            self.wf(),
        ensures
            r < self.spec_mirrors().len(),
            forall|j: int|
                0 <= j < self.spec_mirrors().len() ==> spec_score_le(
                    #[trigger] self.num_at(j),
                    self.den_at(j),
                    self.num_at(r as int),
                    self.den_at(r as int),
                ),
            forall|j: int|
                0 <= j < r ==> spec_score_gt(
                    self.num_at(r as int),
                    self.den_at(r as int),
                    #[trigger] self.num_at(j),
                    self.den_at(j),
                ),
    {
        let n = self.mirrors.len();
        let mut best: usize = 0;
        proof {
            lemma_score_den_positive(self.stats@[0].errors, self.stats@[0].active_segments);
        }
        for idx in 1..n
            invariant
                self.wf(),
                n == self.spec_mirrors().len(),
                best < idx,
                forall|j: int|
                    0 <= j < idx ==> spec_score_le(
                        #[trigger] self.num_at(j),
                        self.den_at(j),
                        self.num_at(best as int),
                        self.den_at(best as int),
                    ),
                forall|j: int|
                    0 <= j < best ==> spec_score_gt(
                        self.num_at(best as int),
                        self.den_at(best as int),
                        #[trigger] self.num_at(j),
                        self.den_at(j),
                    ),
        {
            let m = &self.mirrors[idx];
            let s = &self.stats[idx];
            let b_m = &self.mirrors[best];
            let b_s = &self.stats[best];
            if score_above(
                s.avg_speed,
                m.priority,
                s.errors,
                s.active_segments,
                b_s.avg_speed,
                b_m.priority,
                b_s.errors,
                b_s.active_segments,
            ) {
                proof {
                    assert forall|j: int| 0 <= j < idx + 1 implies spec_score_le(
                        #[trigger] self.num_at(j),
                        self.den_at(j),
                        self.num_at(idx as int),
                        self.den_at(idx as int),
                    ) by {
                        if j < idx {
                            lemma_score_den_positive(
                                self.spec_stats()[j].errors,
                                self.spec_stats()[j].active_segments,
                            );
                            lemma_score_den_positive(
                                self.spec_stats()[best as int].errors,
                                self.spec_stats()[best as int].active_segments,
                            );
                            lemma_score_den_positive(
                                self.spec_stats()[idx as int].errors,
                                self.spec_stats()[idx as int].active_segments,
                            );
                            lemma_score_le_gt_trans(
                                self.num_at(j),
                                self.den_at(j),
                                self.num_at(best as int),
                                self.den_at(best as int),
                                self.num_at(idx as int),
                                self.den_at(idx as int),
                            );
                        }
                    }
                    assert forall|j: int| 0 <= j < idx implies spec_score_gt(
                        self.num_at(idx as int),
                        self.den_at(idx as int),
                        #[trigger] self.num_at(j),
                        self.den_at(j),
                    ) by {
                        lemma_score_den_positive(
                            self.spec_stats()[j].errors,
                            self.spec_stats()[j].active_segments,
                        );
                        lemma_score_den_positive(
                            self.spec_stats()[best as int].errors,
                            self.spec_stats()[best as int].active_segments,
                        );
                        lemma_score_den_positive(
                            self.spec_stats()[idx as int].errors,
                            self.spec_stats()[idx as int].active_segments,
                        );
                        lemma_score_le_gt_trans(
                            self.num_at(j),
                            self.den_at(j),
                            self.num_at(best as int),
                            self.den_at(best as int),
                            self.num_at(idx as int),
                            self.den_at(idx as int),
                        );
                    }
                }
                best = idx;
            }
        }
        best
    }

    /// Source choice for a segment; every segment currently uses the global
    /// best mirror.
    pub fn select_for_segment(&self, _segment_idx: usize) -> (r: usize)
        requires
            self.wf(),
        ensures
            r < self.spec_mirrors().len(),
            forall|j: int|
                0 <= j < self.spec_mirrors().len() ==> spec_score_le(
                    #[trigger] self.num_at(j),
                    self.den_at(j),
                    self.num_at(r as int),
                    self.den_at(r as int),
                ),
    {
        self.best_mirror()
    }
}

} // verus!
