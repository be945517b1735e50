//! Byte ranges and the even-split algebra that seeds a segmented transfer.

use vstd::prelude::*;
use vstd::arithmetic::div_mod::{lemma_fundamental_div_mod, lemma_mod_bound, lemma_div_pos_is_pos};
use vstd::arithmetic::mul::lemma_mul_inequality;

verus! {

/// A half-open interval `[start, end)` of absolute file offsets.
#[derive(Debug, Clone, Copy, PartialEq, Eq, Structural)]
pub struct ByteRange {
    pub start: u64,
    pub end: u64,
}

impl ByteRange {
    /// Length of the range; zero when the range runs backwards.
    pub open spec fn spec_len(self) -> int {
        if self.start <= self.end {
            self.end - self.start
        } else {
            0
        }
    }

    /// A well-formed range does not run backwards.
    pub open spec fn wf(self) -> bool {
        self.start <= self.end
    }

    pub fn new(start: u64, end: u64) -> (r: ByteRange)
        ensures
            r.start == start,
            r.end == end,
    {
        ByteRange { start, end }
    }

    pub fn len(&self) -> (n: u64)
        ensures
            n == self.spec_len(),
    {
        self.end.saturating_sub(self.start)
    }

    pub fn is_empty(&self) -> (b: bool)
        ensures
            b == (self.spec_len() == 0),
    {
        self.len() == 0
    }

    /// Splits the range at absolute offset `start + offset` into
    /// `[start, start + offset)` and `[start + offset, end)`.
    pub fn split_at(&self, offset: u64) -> (r: (ByteRange, ByteRange))
        requires
            self.start + offset <= u64::MAX,
        ensures
            r.0 == (ByteRange { start: self.start, end: (self.start + offset) as u64 }),
            r.1 == (ByteRange { start: (self.start + offset) as u64, end: self.end }),
    {
        let mid = self.start + offset;
        (ByteRange::new(self.start, mid), ByteRange::new(mid, self.end))
    }
}

/// How a transfer decides its segment count.
#[derive(Debug, Clone, Copy)]
pub enum SplitStrategy {
    Static(usize),
    Adaptive,
}

/// Start of the `i`-th piece when `[0, total)` is split into `n` even pieces
/// with the remainder spread one byte at a time over the first pieces.
pub open spec fn piece_start(total: u64, n: usize, i: int) -> int {
    let q = total as int / n as int;
    let r = total as int % n as int;
    i * q + if i <= r {
        i
    } else {
        r
    }
}

/// Length of the `i`-th piece: one extra byte for the first `total % n` pieces.
pub open spec fn piece_len(total: u64, n: usize, i: int) -> int {
    let q = total as int / n as int;
    let r = total as int % n as int;
    q + if i < r {
        1int
    } else {
        0int
    }
}

pub proof fn lemma_piece_start_step(total: u64, n: usize, i: int)
    requires
        n > 0,
        0 <= i,
    ensures
        piece_start(total, n, i + 1) == piece_start(total, n, i) + piece_len(total, n, i),
{
    let q = total as int / n as int;
    assert((i + 1) * q == i * q + q) by (nonlinear_arith);
}

pub proof fn lemma_piece_start_le_total(total: u64, n: usize, i: int)
    requires
        n > 0,
        0 <= i <= n,
    ensures
        0 <= piece_start(total, n, i) <= total,
        piece_start(total, n, 0) == 0,
        piece_start(total, n, n as int) == total,
{
    let t = total as int;
    let nn = n as int;
    let q = t / nn;
    let r = t % nn;
    lemma_fundamental_div_mod(t, nn);
    lemma_mod_bound(t, nn);
    lemma_div_pos_is_pos(t, nn);
    lemma_mul_inequality(i, nn, q);
    lemma_mul_inequality(0, i, q);
}

pub proof fn lemma_piece_start_monotone(total: u64, n: usize, i: int, j: int)
    requires
        n > 0,
        0 <= i <= j <= n,
    ensures
        piece_start(total, n, i) <= piece_start(total, n, j),
{
    let t = total as int;
    let nn = n as int;
    let q = t / nn;
    lemma_div_pos_is_pos(t, nn);
    lemma_mod_bound(t, nn);
    lemma_mul_inequality(i, j, q);
}

/// Sum of the lengths of the first `i` pieces of an even split.
pub open spec fn sum_piece_lens(total: u64, n: usize, i: int) -> int
    decreases i,
{
    if i <= 0 {
        0
    } else {
        sum_piece_lens(total, n, i - 1) + piece_len(total, n, i - 1)
    }
}

pub proof fn lemma_sum_piece_lens(total: u64, n: usize, i: int)
    requires
        n > 0,
        0 <= i <= n,
    ensures
        sum_piece_lens(total, n, i) == piece_start(total, n, i),
    decreases i,
{
    if i > 0 {
        lemma_sum_piece_lens(total, n, i - 1);
        lemma_piece_start_step(total, n, i - 1);
    } else {
        lemma_piece_start_le_total(total, n, 0);
    }
}

/// An even split of `[0, total)` into `n` pieces covers the interval exactly:
/// the pieces are contiguous from offset 0 to `total` (so they neither gap
/// nor overlap), their lengths sum to `total`, and no two lengths differ by
/// more than one byte.
pub proof fn lemma_split_even_exact(total: u64, n: usize)
    requires
        n > 0,
    ensures
        piece_start(total, n, 0) == 0,
        piece_start(total, n, n as int) == total,
        forall|i: int|
            0 <= i < n ==> piece_start(total, n, i) + piece_len(total, n, i) == piece_start(
                total,
                n,
                i + 1,
            ),
        forall|i: int| 0 <= i < n ==> piece_len(total, n, i) >= 0,
        sum_piece_lens(total, n, n as int) == total,
        forall|i: int, j: int|
            0 <= i < n && 0 <= j < n ==> piece_len(total, n, i) - piece_len(total, n, j) <= 1,
{
    lemma_piece_start_le_total(total, n, 0);
    lemma_piece_start_le_total(total, n, n as int);
    lemma_sum_piece_lens(total, n, n as int);
    lemma_div_pos_is_pos(total as int, n as int);
    assert forall|i: int| 0 <= i < n implies piece_start(total, n, i) + piece_len(total, n, i)
        == piece_start(total, n, i + 1) by {
        lemma_piece_start_step(total, n, i);
    }
}

/// Partitions `[0, total_size)` into `num_segments` contiguous ranges, the
/// remainder `total_size % num_segments` spread one byte at a time over the
/// first ranges.  Yields no ranges when either argument is zero.
pub fn split_range(total_size: u64, num_segments: usize) -> (ranges: Vec<ByteRange>)
    ensures
        (num_segments == 0 || total_size == 0) ==> ranges@.len() == 0,
        num_segments > 0 && total_size > 0 ==> ranges@.len() == num_segments,
        forall|i: int|
            0 <= i < ranges@.len() ==> (#[trigger] ranges@[i]).start == piece_start(
                total_size,
                num_segments,
                i,
            ),
        forall|i: int|
            0 <= i < ranges@.len() ==> (#[trigger] ranges@[i]).end == piece_start(
                total_size,
                num_segments,
                i + 1,
            ),
{
    if num_segments == 0 || total_size == 0 {
        return Vec::new();
    }

    let segment_size = total_size / (num_segments as u64);
    let remainder = total_size % (num_segments as u64);

    let mut ranges: Vec<ByteRange> = Vec::new();
    let mut offset: u64 = 0;

    assert(segment_size == total_size as int / num_segments as int);
    assert(remainder == total_size as int % num_segments as int);

    for i in 0..num_segments
        invariant
            num_segments > 0,
            total_size > 0,
            segment_size == total_size as int / num_segments as int,
            remainder == total_size as int % num_segments as int,
            ranges@.len() == i,
            offset == piece_start(total_size, num_segments, i as int),
            forall|j: int|
                0 <= j < i ==> (#[trigger] ranges@[j]).start == piece_start(
                    total_size,
                    num_segments,
                    j,
                ),
            forall|j: int|
                0 <= j < i ==> (#[trigger] ranges@[j]).end == piece_start(
                    total_size,
                    num_segments,
                    j + 1,
                ),
    {
        proof {
            lemma_piece_start_le_total(total_size, num_segments, i as int);
            lemma_piece_start_le_total(total_size, num_segments, i + 1);
            lemma_piece_start_step(total_size, num_segments, i as int);
        }
        let extra: u64 = if (i as u64) < remainder {
            1
        } else {
            0
        };
        let size = segment_size + extra;
        ranges.push(ByteRange::new(offset, offset + size));
        offset = offset + size;
    }
    ranges
}

/// Initial segment count by file-size bucket.
pub fn initial_segments(file_size: u64) -> (n: usize)
    ensures
        n == spec_initial_segments(file_size),
{
    if file_size <= 1_000_000 {
        1
    } else if file_size <= 10_000_000 {
        4
    } else {
        8
    }
}

pub open spec fn spec_initial_segments(file_size: u64) -> usize {
    if file_size <= 1_000_000 {
        1usize
    } else if file_size <= 10_000_000 {
        4usize
    } else {
        8usize
    }
}

/// Initial segment count by file-size bucket for the turbo preset.
pub fn turbo_segments(file_size: u64) -> (n: usize)
    ensures
        n == spec_turbo_segments(file_size),
{
    if file_size <= 1_000_000 {
        1
    } else if file_size <= 10_000_000 {
        8
    } else {
        16
    }
}

pub open spec fn spec_turbo_segments(file_size: u64) -> usize {
    if file_size <= 1_000_000 {
        1usize
    } else if file_size <= 10_000_000 {
        8usize
    } else {
        16usize
    }
}

/// Size-bucket cap on the segment count.
pub open spec fn spec_size_cap(file_size: u64) -> usize {
    if file_size <= 1_000_000 {
        1usize
    } else if file_size <= 10_000_000 {
        4usize
    } else if file_size <= 100_000_000 {
        8usize
    } else if file_size <= 1_000_000_000 {
        16usize
    } else {
        32usize
    }
}

pub fn size_cap(file_size: u64) -> (n: usize)
    ensures
        n == spec_size_cap(file_size),
{
    if file_size <= 1_000_000 {
        1
    } else if file_size <= 10_000_000 {
        4
    } else if file_size <= 100_000_000 {
        8
    } else if file_size <= 1_000_000_000 {
        16
    } else {
        32
    }
}

/// Bandwidth-delay product in bytes from a bandwidth in bytes per second and
/// a round-trip time in milliseconds.
pub open spec fn spec_bdp(measured_bw: u64, rtt_ms: u64) -> int {
    (measured_bw * rtt_ms) / 1000
}

/// Segment-count hint from the bandwidth-delay product: enough connections to
/// keep the path full, assuming a 64 KiB window each, capped by file size.
pub open spec fn spec_optimal_from_bdp(bdp: int, file_size: u64) -> usize {
    let want = (bdp + 65535) / 65536;
    let cap = spec_size_cap(file_size) as int;
    if want < 1 {
        1usize
    } else if want > cap {
        spec_size_cap(file_size)
    } else {
        want as usize
    }
}

/// Segment count from measured bandwidth (bytes/second) and round-trip time
/// (milliseconds), clamped between 1 and the file-size bucket cap.
pub fn optimal_segments(file_size: u64, measured_bw: u64, rtt_ms: u64) -> (n: usize)
    ensures
        n == spec_optimal_from_bdp(spec_bdp(measured_bw, rtt_ms), file_size),
        1 <= n <= 32,
{
    let a: u128 = measured_bw as u128;
    let b: u128 = rtt_ms as u128;
    proof {
        assert(a * b <= u64::MAX as u128 * u64::MAX as u128 && a * b == measured_bw as int
            * rtt_ms as int) by (nonlinear_arith)
            requires
                a <= u64::MAX as u128,
                b <= u64::MAX as u128,
                a == measured_bw as int,
                b == rtt_ms as int,
        ;
    }
    let bdp: u128 = a * b / 1000;
    let want: u128 = (bdp + 65535) / 65536;
    let cap = size_cap(file_size);
    if want < 1 {
        1
    } else if want > cap as u128 {
        cap
    } else {
        want as usize
    }
}

} // verus!
