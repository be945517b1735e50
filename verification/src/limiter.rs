//! Bandwidth-limit accounting: how a byte budget translates into token
//! chunks.  The waiting itself is a scheduler concern and happens outside
//! the library; this type decides whether a limit is in force and how many
//! chunks a read must be charged.

use vstd::prelude::*;
use vstd::slice::slice_subrange;
use crate::http::{all_digits, dec_value, parse_u64_dec, spec_trimmed, trimmed};

verus! {

/// Granularity of the token bucket: one token admits 16 KiB.
pub const CHUNK_SIZE: u64 = 16384;

/// A token-bucket-equivalent gate on byte throughput.  A limit of zero
/// means unlimited, as does no limit at all.
pub struct RateLimiter {
    bytes_per_second: Option<u64>,
}

impl RateLimiter {
    pub closed spec fn spec_limit(self) -> Option<u64> {
        self.bytes_per_second
    }

    /// Whether a limit is in force: a limit was set and it is non-zero.
    pub open spec fn spec_is_limited(self) -> bool {
        self.spec_limit() matches Some(b) && b > 0
    }

    pub fn new(bytes_per_second: Option<u64>) -> (r: RateLimiter)
        ensures
            r.spec_limit() == bytes_per_second,
    {
        RateLimiter { bytes_per_second }
    }

    pub fn unlimited() -> (r: RateLimiter)
        ensures
            r.spec_limit() is None,
            !r.spec_is_limited(),
    {
        RateLimiter { bytes_per_second: None }
    }

    pub fn is_limited(&self) -> (b: bool)
        ensures
            b == self.spec_is_limited(),
    {
        match self.bytes_per_second {
            Some(bps) => bps > 0,
            None => false,
        }
    }

    pub fn limit(&self) -> (r: Option<u64>)
        ensures
            r == self.spec_limit(),
    {
        self.bytes_per_second
    }

    /// Replaces the limit in place; `Some(0)` turns limiting off.
    pub fn set_limit(&mut self, bytes_per_second: Option<u64>)
        ensures
            final(self).spec_limit() == bytes_per_second,
            final(self).spec_is_limited() == (bytes_per_second matches Some(b) && b > 0),
    {
        self.bytes_per_second = bytes_per_second;
    }

    /// How many chunks a read of `bytes` bytes is charged: at least one.
    pub fn chunks_for(&self, bytes: usize) -> (n: usize)
        ensures
            n == if bytes as int / CHUNK_SIZE as int >= 1 {
                bytes as int / CHUNK_SIZE as int
            } else {
                1int
            },
    {
        let c = bytes / (CHUNK_SIZE as usize);
        if c >= 1 {
            c
        } else {
            1
        }
    }

    /// The bucket's refill rate in chunks per second: at least one when a
    /// limit is in force, saturating at `u32::MAX`; none when unlimited.
    pub fn chunks_per_second(&self) -> (r: Option<u32>)
        ensures
            !self.spec_is_limited() ==> r is None,
            self.spec_is_limited() ==> (r matches Some(c) && ({
                let raw = self.spec_limit()->Some_0 as int / CHUNK_SIZE as int;
                c == if raw < 1 {
                    1int
                } else if raw > u32::MAX {
                    u32::MAX as int
                } else {
                    raw
                }
            })),
    {
        match self.bytes_per_second {
            None => None,
            Some(bps) => {
                if bps == 0 {
                    return None;
                }
                let raw = bps / CHUNK_SIZE;
                if raw < 1 {
                    Some(1)
                } else if raw > u32::MAX as u64 {
                    Some(u32::MAX)
                } else {
                    Some(raw as u32)
                }
            },
        }
    }
}

impl Default for RateLimiter {
    fn default() -> (r: RateLimiter)
        ensures
            r.spec_limit() is None,
    {
        RateLimiter::unlimited()
    }
}

/// The digit part and the unit factor of a human bandwidth limit: a `k`,
/// `m` or `g` suffix (either case) scales by the matching power of 1024.
pub open spec fn spec_limit_parts(s: Seq<u8>) -> (Seq<u8>, int) {
    if s.len() > 0 && (s.last() == 107 || s.last() == 75) {
        (s.drop_last(), 1024int)
    } else if s.len() > 0 && (s.last() == 109 || s.last() == 77) {
        (s.drop_last(), 1048576int)
    } else if s.len() > 0 && (s.last() == 103 || s.last() == 71) {
        (s.drop_last(), 1073741824int)
    } else {
        (s, 1int)
    }
}

/// The bytes per second a human bandwidth limit names, saturating at
/// `u64::MAX`; none when the digit part (surrounding whitespace ignored)
/// is not a number.
pub open spec fn spec_parse_limit(s: Seq<u8>) -> Option<u64> {
    let (digits, factor) = spec_limit_parts(s);
    let d = spec_trimmed(digits);
    if d.len() > 0 && all_digits(d) && dec_value(d) <= u64::MAX {
        Some(
            (if dec_value(d) * factor <= u64::MAX {
                dec_value(d) * factor
            } else {
                u64::MAX as int
            }) as u64,
        )
    } else {
        None
    }
}

/// Parses a bandwidth limit such as `500k` or `2m` into bytes per second.
pub fn parse_limit(s: &[u8]) -> (r: Option<u64>)
    ensures
        r == spec_parse_limit(s@),
{
    let n = s.len();
    let (digits_end, factor): (usize, u64) = if n > 0 {
        let b = *vstd::slice::slice_index_get(s, n - 1);
        if b == 107 || b == 75 {
            (n - 1, 1024)
        } else if b == 109 || b == 77 {
            (n - 1, 1048576)
        } else if b == 103 || b == 71 {
            (n - 1, 1073741824)
        } else {
            (n, 1)
        }
    } else {
        (n, 1)
    };
    let digits = slice_subrange(s, 0, digits_end);
    proof {
        if digits_end < n {
            assert(digits@ =~= s@.drop_last());
        } else {
            assert(digits@ =~= s@);
        }
    }
    let d = trimmed(digits);
    match parse_u64_dec(d.as_slice()) {
        None => None,
        Some(v) => match v.checked_mul(factor) {
            Some(x) => Some(x),
            None => Some(u64::MAX),
        },
    }
}

} // verus!
