//! Network observation: throughput and round-trip-time samples, the
//! smoothed RTT, the bandwidth-delay product, and the segment-count hint
//! derived from it.  Timestamps arrive as milliseconds from the caller's
//! clock; byte counts are cumulative.

use vstd::prelude::*;
use crate::range::{spec_optimal_from_bdp, size_cap};

verus! {

/// Throughput samples kept, at most.
pub const SAMPLE_WINDOW: usize = 10;

/// RTT samples kept, at most.
pub const RTT_SAMPLE_WINDOW: usize = 20;

/// Samples older than this leave the throughput window.
pub const SAMPLE_MAX_AGE_MS: u64 = 10000;

/// The fixed window-size heuristic a path is assumed to grant each
/// connection.
pub const TCP_WINDOW: u64 = 65536;

/// The throughput samples younger than the cutoff, order kept.
pub open spec fn spec_keep_recent(s: Seq<(u64, u64)>, now_ms: u64) -> Seq<(u64, u64)>
    decreases s.len(),
{
    if s.len() == 0 {
        Seq::empty()
    } else {
        spec_keep_recent(s.drop_last(), now_ms) + if s.last().0 + SAMPLE_MAX_AGE_MS > now_ms {
            seq![s.last()]
        } else {
            Seq::<(u64, u64)>::empty()
        }
    }
}

/// The exponentially weighted RTT after one more measurement, with a
/// smoothing factor of one fifth.
pub open spec fn spec_ewma_step(prev: Option<u64>, rtt_ms: u64) -> int {
    match prev {
        None => rtt_ms as int,
        Some(p) => (4 * p + rtt_ms) / 5,
    }
}

/// Speed in bytes per second over a window whose first and last samples are
/// given; zero when time stood still or the counter went backwards.
pub open spec fn spec_window_speed(first: (u64, u64), last: (u64, u64)) -> int {
    let elapsed = last.0 - first.0;
    let bytes = last.1 - first.1;
    if elapsed <= 0 || bytes < 0 {
        0
    } else {
        bytes * 1000 / elapsed
    }
}

pub proof fn lemma_keep_recent_len(s: Seq<(u64, u64)>, now_ms: u64)
    ensures
        spec_keep_recent(s, now_ms).len() <= s.len(),
    decreases s.len(),
{
    if s.len() > 0 {
        lemma_keep_recent_len(s.drop_last(), now_ms);
    }
}

pub struct NetworkMonitor {
    samples: Vec<(u64, u64)>,
    last_bytes: u64,
    rtt_samples: Vec<u64>,
    smoothed_rtt_ms: Option<u64>,
}

impl NetworkMonitor {
    pub closed spec fn spec_samples(self) -> Seq<(u64, u64)> {
        self.samples@
    }

    pub closed spec fn spec_last_bytes(self) -> u64 {
        self.last_bytes
    }

    pub closed spec fn spec_rtt_samples(self) -> Seq<u64> {
        self.rtt_samples@
    }

    pub closed spec fn spec_smoothed_rtt(self) -> Option<u64> {
        self.smoothed_rtt_ms
    }

    /// The windows never outgrow their caps.
    pub open spec fn wf(self) -> bool {
        &&& self.spec_samples().len() <= SAMPLE_WINDOW
        &&& self.spec_rtt_samples().len() <= RTT_SAMPLE_WINDOW
    }

    /// Current speed as reported: the window speed, saturating at
    /// `u64::MAX`.
    pub open spec fn spec_current_speed(self) -> int {
        if self.spec_samples().len() < 2 {
            0
        } else {
            let s = spec_window_speed(self.spec_samples()[0], self.spec_samples().last());
            if s <= u64::MAX as int {
                s
            } else {
                u64::MAX as int
            }
        }
    }

    /// The bandwidth-delay product as reported: current speed times the
    /// smoothed RTT, saturating at `u64::MAX`; none while either is
    /// unknown.
    pub open spec fn spec_bdp(self) -> Option<int> {
        if self.spec_current_speed() <= 0 || self.spec_smoothed_rtt() is None {
            None
        } else {
            let bdp = self.spec_current_speed() * self.spec_smoothed_rtt()->Some_0 / 1000;
            Some(
                if bdp <= u64::MAX as int {
                    bdp
                } else {
                    u64::MAX as int
                },
            )
        }
    }

    pub fn new() -> (m: NetworkMonitor)
        ensures
            m.wf(),
            m.spec_samples().len() == 0,
            m.spec_last_bytes() == 0,
            m.spec_rtt_samples().len() == 0,
            m.spec_smoothed_rtt() is None,
    {
        NetworkMonitor {
            samples: Vec::new(),
            last_bytes: 0,
            rtt_samples: Vec::new(),
            smoothed_rtt_ms: None,
        }
    }

    /// Records a cumulative byte count at `now_ms`: the sample joins the
    /// window, samples older than ten seconds leave it, and if the window
    /// still overflows, the oldest sample leaves too.
    pub fn record(&mut self, now_ms: u64, bytes: u64)
        requires
            old(self).wf(),
        ensures
            final(self).wf(),
            final(self).spec_rtt_samples() == old(self).spec_rtt_samples(),
            final(self).spec_smoothed_rtt() == old(self).spec_smoothed_rtt(),
            final(self).spec_last_bytes() == bytes,
            ({
                let kept = spec_keep_recent(old(self).spec_samples().push((now_ms, bytes)), now_ms);
                final(self).spec_samples() == if kept.len() > SAMPLE_WINDOW {
                    kept.drop_first()
                } else {
                    kept
                }
            }),
    {
        let ghost pushed = self.samples@.push((now_ms, bytes));
        self.samples.push((now_ms, bytes));

        let ghost orig = self.samples@;
        let n0 = self.samples.len();
        let mut i: usize = 0;
        let mut processed: usize = 0;
        while i < self.samples.len()
            invariant
                orig == pushed,
                orig.len() == n0,
                processed <= orig.len(),
                self.samples@ =~= spec_keep_recent(orig.take(processed as int), now_ms)
                    + orig.skip(processed as int),
                i == spec_keep_recent(orig.take(processed as int), now_ms).len(),
                i <= self.samples@.len(),
                self.last_bytes == old(self).last_bytes,
                self.rtt_samples == old(self).rtt_samples,
                self.smoothed_rtt_ms == old(self).smoothed_rtt_ms,
            decreases orig.len() - processed,
        {
            proof {
                assert(processed < orig.len());
                assert(orig.take(processed + 1).drop_last() =~= orig.take(processed as int));
                assert(orig.take(processed + 1).last() == orig[processed as int]);
                assert(self.samples@[i as int] == orig[processed as int]);
            }
            let (t, _b) = self.samples[i];
            if (t as u128) + (SAMPLE_MAX_AGE_MS as u128) > (now_ms as u128) {
                i = i + 1;
                proof {
                    assert(self.samples@ =~= spec_keep_recent(orig.take(processed + 1), now_ms)
                        + orig.skip(processed + 1));
                }
            } else {
                self.samples.remove(i);
                proof {
                    assert(self.samples@ =~= spec_keep_recent(orig.take(processed + 1), now_ms)
                        + orig.skip(processed + 1));
                }
            }
            processed = processed + 1;
        }
        proof {
            assert(orig.take(processed as int) =~= orig);
            lemma_keep_recent_len(pushed, now_ms);
        }
        if self.samples.len() > SAMPLE_WINDOW {
            self.samples.remove(0);
            proof {
                assert(self.samples@ =~= spec_keep_recent(pushed, now_ms).drop_first());
            }
        }
        self.last_bytes = bytes;
    }

    /// Records an RTT measurement: the sample joins a twenty-entry window
    /// and the smoothed RTT moves a fifth of the way towards it.
    pub fn record_rtt(&mut self, rtt_ms: u64)
        requires
            old(self).wf(),
        ensures
            final(self).wf(),
            final(self).spec_samples() == old(self).spec_samples(),
            final(self).spec_last_bytes() == old(self).spec_last_bytes(),
            ({
                let pushed = old(self).spec_rtt_samples().push(rtt_ms);
                final(self).spec_rtt_samples() == if pushed.len() > RTT_SAMPLE_WINDOW {
                    pushed.drop_first()
                } else {
                    pushed
                }
            }),
            final(self).spec_smoothed_rtt() matches Some(s) && s == spec_ewma_step(
                old(self).spec_smoothed_rtt(),
                rtt_ms,
            ),
    {
        self.rtt_samples.push(rtt_ms);
        if self.rtt_samples.len() > RTT_SAMPLE_WINDOW {
            self.rtt_samples.remove(0);
        }
        let next: u64 = match self.smoothed_rtt_ms {
            None => rtt_ms,
            Some(p) => {
                let v: u128 = (4 * (p as u128) + (rtt_ms as u128)) / 5;
                proof {
                    assert(4 * (p as int) + rtt_ms <= 5 * (u64::MAX as int));
                    assert((4 * (p as int) + rtt_ms) / 5 <= u64::MAX as int);
                }
                v as u64
            },
        };
        self.smoothed_rtt_ms = Some(next);
    }

    pub fn smoothed_rtt(&self) -> (r: Option<u64>)
        ensures
            r == self.spec_smoothed_rtt(),
    {
        self.smoothed_rtt_ms
    }

    /// The smallest RTT in the window, if any was measured.
    pub fn min_rtt(&self) -> (r: Option<u64>)
        ensures
            self.spec_rtt_samples().len() == 0 ==> r is None,
            self.spec_rtt_samples().len() > 0 ==> (r matches Some(m) && (forall|i: int|
                0 <= i < self.spec_rtt_samples().len()
                    ==> m <= #[trigger] self.spec_rtt_samples()[i]) && (exists|i: int|
                0 <= i < self.spec_rtt_samples().len()
                    && m == #[trigger] self.spec_rtt_samples()[i])),
    {
        let n = self.rtt_samples.len();
        if n == 0 {
            return None;
        }
        let mut m = self.rtt_samples[0];
        proof {
            assert(m == self.spec_rtt_samples()[0]);
        }
        for i in 1..n
            invariant
                n == self.spec_rtt_samples().len(),
                forall|j: int| 0 <= j < i ==> m <= #[trigger] self.spec_rtt_samples()[j],
                exists|j: int| 0 <= j < i && m == #[trigger] self.spec_rtt_samples()[j],
        {
            if self.rtt_samples[i] < m {
                m = self.rtt_samples[i];
            }
        }
        Some(m)
    }

    /// Instantaneous speed: bytes gained between the first and last window
    /// samples over the time between them, in bytes per second.  Zero
    /// without at least two samples.
    pub fn current_speed(&self) -> (v: u64)
        ensures
            v == self.spec_current_speed(),
    {
        let n = self.samples.len();
        if n < 2 {
            return 0;
        }
        let (t0, b0) = self.samples[0];
        let (t1, b1) = self.samples[n - 1];
        if t1 <= t0 || b1 < b0 {
            return 0;
        }
        let elapsed: u128 = (t1 - t0) as u128;
        let bytes: u128 = (b1 - b0) as u128;
        let speed: u128 = bytes * 1000 / elapsed;
        if speed > u64::MAX as u128 {
            u64::MAX
        } else {
            speed as u64
        }
    }

    /// Mean speed over the window: all sampled bytes over the window span,
    /// divided by the sample count, in bytes per second.
    pub fn average_speed(&self) -> (v: u64)
        requires
            self.wf(),
        ensures
            self.spec_samples().len() < 2 ==> v == 0,
            self.spec_samples().len() >= 2 ==> ({
                let s = self.spec_samples();
                let elapsed = s.last().0 - s[0].0;
                v == if elapsed <= 0 {
                    0int
                } else {
                    let x = sum_sample_bytes(s) * 1000 / elapsed / s.len() as int;
                    if x <= u64::MAX as int {
                        x
                    } else {
                        u64::MAX as int
                    }
                }
            }),
    {
        let n = self.samples.len();
        if n < 2 {
            return 0;
        }
        let (t0, _b0) = self.samples[0];
        let (t1, _b1) = self.samples[n - 1];
        if t1 <= t0 {
            return 0;
        }
        let mut total: u128 = 0;
        for i in 0..n
            invariant
                n == self.spec_samples().len(),
                n <= SAMPLE_WINDOW,
                total == sum_sample_bytes(self.spec_samples().take(i as int)),
                total <= i * (u64::MAX as int),
        {
            proof {
                assert(self.spec_samples().take(i + 1).drop_last() =~= self.spec_samples().take(
                    i as int,
                ));
            }
            total = total + self.samples[i].1 as u128;
        }
        proof {
            assert(self.spec_samples().take(n as int) =~= self.spec_samples());
        }
        let elapsed: u128 = (t1 - t0) as u128;
        proof {
            assert(total * 1000 <= u128::MAX) by (nonlinear_arith)
                requires
                    total <= 10 * (u64::MAX as int),
            ;
        }
        let v: u128 = total * 1000 / elapsed / (n as u128);
        if v > u64::MAX as u128 {
            u64::MAX
        } else {
            v as u64
        }
    }

    /// The bandwidth-delay product: current speed times smoothed RTT, in
    /// bytes, saturating at `u64::MAX`; none while speed or RTT is unknown.
    pub fn bandwidth_delay_product(&self) -> (r: Option<u64>)
        ensures
            self.spec_bdp() is None ==> r is None,
            self.spec_bdp() matches Some(b) ==> r == Some(b as u64) && 0 <= b <= u64::MAX,
    {
        let speed = self.current_speed();
        if speed == 0 {
            return None;
        }
        match self.smoothed_rtt_ms {
            None => None,
            Some(rtt) => {
                let a: u128 = speed as u128;
                let b: u128 = rtt as u128;
                proof {
                    assert(a * b <= (u64::MAX as u128) * (u64::MAX as u128) && a * b == (speed
                        as int) * (rtt as int)) by (nonlinear_arith)
                        requires
                            a <= u64::MAX as u128,
                            b <= u64::MAX as u128,
                            a == speed as int,
                            b == rtt as int,
                    ;
                }
                let bdp: u128 = a * b / 1000;
                if bdp > u64::MAX as u128 {
                    Some(u64::MAX)
                } else {
                    Some(bdp as u64)
                }
            },
        }
    }

    /// Segment-count hint: enough 64 KiB windows to fill the path, capped
    /// by the file-size bucket; none while the path is unmeasured.
    pub fn optimal_segment_count(&self, file_size: u64) -> (r: Option<usize>)
        ensures
            ({
                match self.spec_bdp() {
                    None => r is None,
                    Some(b) => if b == 0 {
                        r is None
                    } else {
                        r == Some(spec_optimal_from_bdp(b, file_size))
                    },
                }
            }),
    {
        let bdp = match self.bandwidth_delay_product() {
            None => {
                return None;
            },
            Some(b) => b,
        };
        if bdp == 0 {
            return None;
        }
        let want: u64 = (bdp - 1) / TCP_WINDOW + 1;
        let cap = size_cap(file_size);
        proof {
            assert((bdp - 1) / 65536 + 1 == (bdp + 65535) / 65536) by (nonlinear_arith)
                requires
                    bdp >= 1,
            ;
        }
        if want < 1 {
            Some(1)
        } else if want > cap as u64 {
            Some(cap)
        } else {
            Some(want as usize)
        }
    }

    /// Forgets every sample and the smoothed RTT.
    pub fn reset(&mut self)
        ensures
            final(self).wf(),
            final(self).spec_samples().len() == 0,
            final(self).spec_last_bytes() == 0,
            final(self).spec_rtt_samples().len() == 0,
            final(self).spec_smoothed_rtt() is None,
    {
        self.samples.clear();
        self.last_bytes = 0;
        self.rtt_samples.clear();
        self.smoothed_rtt_ms = None;
    }
}

impl Default for NetworkMonitor {
    fn default() -> (m: NetworkMonitor)
        ensures
            m.spec_samples().len() == 0,
            m.spec_rtt_samples().len() == 0,
            m.spec_smoothed_rtt() is None,
    {
        NetworkMonitor::new()
    }
}

/// Total bytes over a sample window.
pub open spec fn sum_sample_bytes(s: Seq<(u64, u64)>) -> int
    decreases s.len(),
{
    if s.len() == 0 {
        0
    } else {
        sum_sample_bytes(s.drop_last()) + s.last().1
    }
}

} // verus!
