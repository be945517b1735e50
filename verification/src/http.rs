//! The protocol-facing logic of the probe and fetch paths, over plain
//! bytes: decimal parsing and rendering, `Content-Range` totals,
//! `Accept-Ranges` and `Alt-Svc` inspection, `Content-Disposition` filename
//! extraction with percent-decoding, status classification, and the segment
//! plan drawn from a probe.  The sockets live outside the library; headers
//! arrive here as byte strings.

use vstd::prelude::*;
use vstd::slice::{slice_subrange, slice_to_vec};
use crate::range::{
    ByteRange, initial_segments, turbo_segments, optimal_segments, spec_initial_segments,
    spec_turbo_segments, spec_optimal_from_bdp, spec_bdp,
};

verus! {

/// ASCII decimal digit.
pub open spec fn is_digit(b: u8) -> bool {
    48 <= b <= 57
}

pub open spec fn all_digits(s: Seq<u8>) -> bool {
    forall|i: int| 0 <= i < s.len() ==> is_digit(#[trigger] s[i])
}

/// Value of a decimal digit string.
pub open spec fn dec_value(s: Seq<u8>) -> int
    decreases s.len(),
{
    if s.len() == 0 {
        0
    } else {
        dec_value(s.drop_last()) * 10 + (s.last() - 48)
    }
}

pub proof fn lemma_dec_value_nonneg(s: Seq<u8>)
    requires
        all_digits(s),
    ensures
        dec_value(s) >= 0,
    decreases s.len(),
{
    if s.len() > 0 {
        assert(all_digits(s.drop_last())) by {
            assert(forall|i: int|
                0 <= i < s.len() - 1 ==> is_digit(#[trigger] s.drop_last()[i]) == is_digit(s[i]));
        }
        lemma_dec_value_nonneg(s.drop_last());
    }
}

/// A digit string's value never shrinks as digits are appended.
pub proof fn lemma_dec_value_prefix_le(s: Seq<u8>, j: int)
    requires
        all_digits(s),
        0 <= j <= s.len(),
    ensures
        dec_value(s.take(j)) <= dec_value(s),
    decreases s.len() - j,
{
    if j < s.len() {
        assert(all_digits(s.take(j + 1))) by {
            assert(forall|i: int|
                0 <= i < j + 1 ==> is_digit(#[trigger] s.take(j + 1)[i]) == is_digit(s[i]));
        }
        assert(s.take(j + 1).drop_last() =~= s.take(j));
        lemma_dec_value_nonneg(s.take(j + 1));
        assert(dec_value(s.take(j)) <= dec_value(s.take(j + 1)));
        lemma_dec_value_prefix_le(s, j + 1);
    } else {
        assert(s.take(j) =~= s);
    }
}

/// Parses a non-empty decimal digit string into a `u64`; anything else —
/// empty, a stray byte, or a value past `u64::MAX` — is rejected.
pub fn parse_u64_dec(s: &[u8]) -> (r: Option<u64>)
    ensures
        r matches Some(v) ==> s@.len() > 0 && all_digits(s@) && v == dec_value(s@),
        r is None ==> s@.len() == 0 || !all_digits(s@) || dec_value(s@) > u64::MAX,
{
    let n = s.len();
    if n == 0 {
        return None;
    }
    let mut acc: u64 = 0;
    for i in 0..n
        invariant
            n == s@.len(),
            all_digits(s@.take(i as int)),
            acc == dec_value(s@.take(i as int)),
    {
        let b = *slice_index_get_u8(s, i);
        if b < 48 || b > 57 {
            return None;
        }
        proof {
            assert(s@.take(i + 1).drop_last() =~= s@.take(i as int));
            assert(all_digits(s@.take(i + 1))) by {
                assert(forall|k: int|
                    0 <= k < i + 1 ==> is_digit(#[trigger] s@.take(i + 1)[k]) == is_digit(s@[k]));
            }
        }
        let shifted = match acc.checked_mul(10) {
            Some(x) => x,
            None => {
                proof {
                    lemma_dec_value_nonneg(s@.take(i + 1));
                    if all_digits(s@) {
                        lemma_dec_value_prefix_le(s@, i + 1);
                    }
                }
                return None;
            },
        };
        let next = match shifted.checked_add((b - 48) as u64) {
            Some(x) => x,
            None => {
                proof {
                    if all_digits(s@) {
                        lemma_dec_value_prefix_le(s@, i + 1);
                    }
                }
                return None;
            },
        };
        acc = next;
    }
    proof {
        assert(s@.take(n as int) =~= s@);
    }
    Some(acc)
}

/// The decimal rendering of a value, most significant digit first, no
/// leading zeros.
pub open spec fn spec_dec_digits(v: int) -> Seq<u8>
    decreases v,
{
    if v < 10 {
        seq![(48 + if v >= 0 { v } else { 0int }) as u8]
    } else {
        spec_dec_digits(v / 10).push((48 + v % 10) as u8)
    }
}

/// Appends the decimal rendering of `v`.
pub fn push_dec(v: u64, out: &mut Vec<u8>)
    ensures
        final(out)@ == old(out)@ + spec_dec_digits(v as int),
    decreases v,
{
    if v < 10 {
        out.push(48 + v as u8);
        proof {
            assert(final(out)@ =~= old(out)@ + spec_dec_digits(v as int));
        }
    } else {
        push_dec(v / 10, out);
        out.push(48 + (v % 10) as u8);
        proof {
            assert(final(out)@ =~= old(out)@ + spec_dec_digits(v as int));
        }
    }
}

/// The `Range` header value requesting `[start, end)`: an inclusive span
/// `bytes=START-ENDMINUS1`.
pub open spec fn spec_range_header(range: ByteRange) -> Seq<u8> {
    seq![98u8, 121u8, 116u8, 101u8, 115u8, 61u8] + spec_dec_digits(range.start as int) + seq![45u8]
        + spec_dec_digits(range.end - 1)
}

pub fn range_header_value(range: ByteRange) -> (r: Vec<u8>)
    requires
        range.start < range.end,
    ensures
        r@ == spec_range_header(range),
{
    let mut r: Vec<u8> = Vec::new();
    r.push(98);
    r.push(121);
    r.push(116);
    r.push(101);
    r.push(115);
    r.push(61);
    proof {
        assert(r@ =~= seq![98u8, 121u8, 116u8, 101u8, 115u8, 61u8]);
    }
    push_dec(range.start, &mut r);
    r.push(45);
    push_dec(range.end - 1, &mut r);
    proof {
        assert(r@ =~= spec_range_header(range));
    }
    r
}

/// Everything after the last slash; the whole string when there is none.
pub open spec fn after_last_slash(s: Seq<u8>) -> Seq<u8>
    decreases s.len(),
{
    if s.len() == 0 {
        s
    } else if s.last() == 47 {
        Seq::empty()
    } else {
        after_last_slash(s.drop_last()).push(s.last())
    }
}

proof fn lemma_after_last_slash_skip(s: Seq<u8>, k: int)
    requires
        0 <= k < s.len(),
        s[k] == 47,
        forall|j: int| k < j < s.len() ==> s[j] != 47,
    ensures
        after_last_slash(s) == s.skip(k + 1),
    decreases s.len(),
{
    if k == s.len() - 1 {
        assert(s.skip(k + 1) =~= Seq::<u8>::empty());
    } else {
        lemma_after_last_slash_skip(s.drop_last(), k);
        assert(after_last_slash(s) == after_last_slash(s.drop_last()).push(s.last()));
        assert(s.drop_last().skip(k + 1).push(s.last()) =~= s.skip(k + 1));
    }
}

proof fn lemma_after_last_slash_whole(s: Seq<u8>)
    requires
        forall|j: int| 0 <= j < s.len() ==> s[j] != 47,
    ensures
        after_last_slash(s) == s,
    decreases s.len(),
{
    if s.len() > 0 {
        lemma_after_last_slash_whole(s.drop_last());
        assert(s.drop_last().push(s.last()) =~= s);
    } else {
        assert(after_last_slash(s) =~= s);
    }
}

/// The bytes after the last slash, as a fresh vector.
pub fn suffix_after_last_slash(s: &[u8]) -> (r: Vec<u8>)
    ensures
        r@ == after_last_slash(s@),
{
    let n = s.len();
    let mut i: usize = n;
    while i > 0
        invariant
            n == s@.len(),
            i <= n,
            forall|j: int| i <= j < n ==> s@[j] != 47,
        decreases i,
    {
        if *slice_index_get_u8(s, i - 1) == 47 {
            proof {
                lemma_after_last_slash_skip(s@, i - 1);
            }
            let tail = slice_subrange(s, i, n);
            let r = slice_to_vec(tail);
            proof {
                assert(r@ =~= after_last_slash(s@));
            }
            return r;
        }
        i = i - 1;
    }
    proof {
        lemma_after_last_slash_whole(s@);
    }
    let r = slice_to_vec(s);
    r
}

/// Total size from a `Content-Range` value: the decimal number after the
/// final slash (`bytes 0-0/N`), if well formed.
pub fn content_range_total(header: &[u8]) -> (r: Option<u64>)
    ensures
        ({
            let tail = after_last_slash(header@);
            &&& (r matches Some(v) ==> tail.len() > 0 && all_digits(tail) && v == dec_value(tail))
            &&& (r is None ==> tail.len() == 0 || !all_digits(tail) || dec_value(tail)
                > u64::MAX)
        }),
{
    let tail = suffix_after_last_slash(header);
    parse_u64_dec(tail.as_slice())
}

/// The last non-empty path segment, the probe's fallback filename.
pub fn filename_from_path(path: &[u8]) -> (r: Option<Vec<u8>>)
    ensures
        after_last_slash(path@).len() == 0 ==> r is None,
        after_last_slash(path@).len() > 0 ==> (r matches Some(v) && v@ == after_last_slash(
            path@,
        )),
{
    let seg = suffix_after_last_slash(path);
    if seg.len() == 0 {
        None
    } else {
        Some(seg)
    }
}

/// Whether an `Accept-Ranges` value announces byte ranges.
pub fn accept_ranges_bytes(value: &[u8]) -> (r: bool)
    ensures
        r == (value@ == seq![98u8, 121u8, 116u8, 101u8, 115u8]),
{
    if value.len() != 5 {
        proof {
            assert(value@ != seq![98u8, 121u8, 116u8, 101u8, 115u8]);
        }
        return false;
    }
    let r = *slice_index_get_u8(value, 0) == 98 && *slice_index_get_u8(value, 1) == 121
        && *slice_index_get_u8(value, 2) == 116 && *slice_index_get_u8(value, 3) == 101
        && *slice_index_get_u8(value, 4) == 115;
    proof {
        if r {
            assert(value@ =~= seq![98u8, 121u8, 116u8, 101u8, 115u8]);
        }
    }
    r
}

/// First index where `pat` occurs in `s`.
pub open spec fn spec_find_sub(s: Seq<u8>, pat: Seq<u8>) -> Option<int>
    decreases s.len(),
{
    if pat.len() > s.len() {
        None
    } else if s.take(pat.len() as int) == pat {
        Some(0)
    } else if s.len() == 0 {
        None
    } else {
        match spec_find_sub(s.drop_first(), pat) {
            Some(i) => Some(i + 1),
            None => None,
        }
    }
}

pub proof fn lemma_find_sub_props(s: Seq<u8>, pat: Seq<u8>)
    ensures
        spec_find_sub(s, pat) matches Some(i) ==> 0 <= i && i + pat.len() <= s.len()
            && s.subrange(i, i + pat.len()) == pat && (forall|j: int|
            0 <= j < i ==> #[trigger] s.subrange(j, j + pat.len()) != pat),
        spec_find_sub(s, pat) is None ==> forall|j: int|
            0 <= j && j + pat.len() <= s.len() ==> #[trigger] s.subrange(j, j + pat.len()) != pat,
    decreases s.len(),
{
    if pat.len() > s.len() {
    } else if s.take(pat.len() as int) == pat {
        assert(s.subrange(0, pat.len() as int) =~= s.take(pat.len() as int));
    } else {
        if s.len() > 0 {
            lemma_find_sub_props(s.drop_first(), pat);
            assert forall|j: int| 1 <= j && j + pat.len() <= s.len() implies #[trigger] s.subrange(
                j,
                j + pat.len(),
            ) == s.drop_first().subrange(j - 1, j - 1 + pat.len()) by {
                assert(s.subrange(j, j + pat.len()) =~= s.drop_first().subrange(
                    j - 1,
                    j - 1 + pat.len(),
                ));
            }
            assert(s.subrange(0, pat.len() as int) =~= s.take(pat.len() as int));
        }
    }
}

/// Scans for the first occurrence of `pat` in `s`.
pub fn find_sub(s: &[u8], pat: &[u8]) -> (r: Option<usize>)
    ensures
        r matches Some(i) ==> Some(i as int) == spec_find_sub(s@, pat@),
        r is None ==> spec_find_sub(s@, pat@) is None,
{
    let n = s.len();
    let m = pat.len();
    if m > n {
        return None;
    }
    if m == 0 {
        proof {
            assert(s@.take(0) =~= pat@);
        }
        return Some(0);
    }
    let mut i: usize = 0;
    while i <= n - m
        invariant
            n == s@.len(),
            m == pat@.len(),
            1 <= m <= n,
            i <= n - m + 1,
            forall|j: int| 0 <= j < i ==> #[trigger] s@.subrange(j, j + pat@.len()) != pat@,
        decreases n - m + 1 - i,
    {
        let mut k: usize = 0;
        let mut matches_here = true;
        while k < m && matches_here
            invariant
                n == s@.len(),
                m == pat@.len(),
                i + m <= n,
                k <= m,
                matches_here ==> forall|t: int| 0 <= t < k ==> s@[i + t] == pat@[t],
                !matches_here ==> s@.subrange(i as int, i + pat@.len()) != pat@,
            decreases m - k + if matches_here {
                1int
            } else {
                0int
            },
        {
            if *slice_index_get_u8(s, i + k) != *slice_index_get_u8(pat, k) {
                proof {
                    assert(s@.subrange(i as int, i + pat@.len())[k as int] != pat@[k as int]);
                }
                matches_here = false;
            } else {
                k = k + 1;
            }
        }
        if matches_here {
            proof {
                assert(s@.subrange(i as int, i + pat@.len()) =~= pat@);
                lemma_find_sub_props(s@, pat@);
                match spec_find_sub(s@, pat@) {
                    None => {
                        assert(s@.subrange(i as int, i + pat@.len()) != pat@);
                        assert(false);
                    },
                    Some(fi) => {
                        if fi < i {
                            assert(s@.subrange(fi, fi + pat@.len()) != pat@);
                            assert(s@.subrange(fi, fi + pat@.len()) == pat@);
                            assert(false);
                        }
                        if fi > i {
                            assert(s@.subrange(i as int, i + pat@.len()) != pat@);
                            assert(false);
                        }
                    },
                }
            }
            return Some(i);
        }
        i = i + 1;
    }
    proof {
        lemma_find_sub_props(s@, pat@);
        match spec_find_sub(s@, pat@) {
            Some(fi) => {
                assert(s@.subrange(fi, fi + pat@.len()) != pat@);
                assert(s@.subrange(fi, fi + pat@.len()) == pat@);
            },
            None => {},
        }
    }
    None
}

/// Whether an `Alt-Svc` value mentions an `h3` endpoint.
pub fn alt_svc_mentions_h3(value: &[u8]) -> (r: bool)
    ensures
        r == (spec_find_sub(value@, seq![104u8, 51u8]) is Some),
{
    let mut pat: Vec<u8> = Vec::new();
    pat.push(104);
    pat.push(51);
    proof {
        assert(pat@ =~= seq![104u8, 51u8]);
    }
    find_sub(value, pat.as_slice()).is_some()
}

fn slice_index_get_u8(s: &[u8], i: usize) -> (b: &u8)
    requires
        i < s@.len(),
    ensures
        *b == s@[i as int],
{
    vstd::slice::slice_index_get(s, i)
}


/// ASCII whitespace, as `str::trim` sees it in header values.
pub open spec fn is_ws(b: u8) -> bool {
    b == 32 || b == 9 || b == 13 || b == 10
}

pub open spec fn trim_front(s: Seq<u8>) -> Seq<u8>
    decreases s.len(),
{
    if s.len() > 0 && is_ws(s.first()) {
        trim_front(s.drop_first())
    } else {
        s
    }
}

pub open spec fn trim_back(s: Seq<u8>) -> Seq<u8>
    decreases s.len(),
{
    if s.len() > 0 && is_ws(s.last()) {
        trim_back(s.drop_last())
    } else {
        s
    }
}

/// The byte string without leading or trailing ASCII whitespace.
pub open spec fn spec_trimmed(s: Seq<u8>) -> Seq<u8> {
    trim_back(trim_front(s))
}

proof fn lemma_trim_front_skip(s: Seq<u8>, a: int)
    requires
        0 <= a <= s.len(),
        forall|j: int| 0 <= j < a ==> is_ws(#[trigger] s[j]),
        a < s.len() ==> !is_ws(s[a]),
    ensures
        trim_front(s) == s.skip(a),
    decreases a,
{
    if a == 0 {
        assert(s.skip(0) =~= s);
    } else {
        assert(is_ws(s.first()));
        lemma_trim_front_skip(s.drop_first(), a - 1);
        assert(s.drop_first().skip(a - 1) =~= s.skip(a));
    }
}

proof fn lemma_trim_back_take(s: Seq<u8>, b: int)
    requires
        0 <= b <= s.len(),
        forall|j: int| b <= j < s.len() ==> is_ws(#[trigger] s[j]),
        b > 0 ==> !is_ws(s[b - 1]),
    ensures
        trim_back(s) == s.take(b),
    decreases s.len() - b,
{
    if b == s.len() {
        assert(s.take(b) =~= s);
    } else {
        assert(is_ws(s.last()));
        lemma_trim_back_take(s.drop_last(), b);
        assert(s.drop_last().take(b) =~= s.take(b));
    }
}

fn ws(b: u8) -> (r: bool)
    ensures
        r == is_ws(b),
{
    b == 32 || b == 9 || b == 13 || b == 10
}

/// The bytes without leading or trailing ASCII whitespace, as a fresh
/// vector.
pub fn trimmed(s: &[u8]) -> (r: Vec<u8>)
    ensures
        r@ == spec_trimmed(s@),
{
    let n = s.len();
    let mut a: usize = 0;
    while a < n && ws(*slice_index_get_u8(s, a))
        invariant
            n == s@.len(),
            a <= n,
            forall|j: int| 0 <= j < a ==> is_ws(#[trigger] s@[j]),
        decreases n - a,
    {
        a = a + 1;
    }
    let mut b: usize = n;
    while b > a && ws(*slice_index_get_u8(s, b - 1))
        invariant
            n == s@.len(),
            a <= b <= n,
            forall|j: int| b <= j < n ==> is_ws(#[trigger] s@[j]),
        decreases b,
    {
        b = b - 1;
    }
    proof {
        lemma_trim_front_skip(s@, a as int);
        assert forall|j: int| (b - a) <= j < s@.skip(a as int).len() implies is_ws(
            #[trigger] s@.skip(a as int)[j],
        ) by {
            assert(s@.skip(a as int)[j] == s@[a + j]);
        }
        lemma_trim_back_take(s@.skip(a as int), b - a);
    }
    let r = slice_to_vec(slice_subrange(s, a, b));
    proof {
        assert(r@ =~= s@.skip(a as int).take(b - a));
    }
    r
}

/// `pat` stripped off the front of `s` as often as it occurs there.
pub open spec fn strip_prefix_all(s: Seq<u8>, pat: Seq<u8>) -> Seq<u8>
    decreases s.len(),
{
    if pat.len() == 0 {
        s
    } else if s.len() >= pat.len() && s.take(pat.len() as int) == pat {
        strip_prefix_all(s.skip(pat.len() as int), pat)
    } else {
        s
    }
}

fn starts_with(s: &[u8], pat: &[u8]) -> (r: bool)
    ensures
        r == (s@.len() >= pat@.len() && s@.take(pat@.len() as int) == pat@),
{
    let m = pat.len();
    if s.len() < m {
        return false;
    }
    let mut k: usize = 0;
    while k < m
        invariant
            m == pat@.len(),
            m <= s@.len(),
            k <= m,
            forall|t: int| 0 <= t < k ==> s@[t] == pat@[t],
        decreases m - k,
    {
        if *slice_index_get_u8(s, k) != *slice_index_get_u8(pat, k) {
            proof {
                assert(s@.take(pat@.len() as int)[k as int] != pat@[k as int]);
            }
            return false;
        }
        k = k + 1;
    }
    proof {
        assert(s@.take(pat@.len() as int) =~= pat@);
    }
    true
}

/// Strips every occurrence of `pat` off the front.
pub fn strip_all<'a>(s: &'a [u8], pat: &[u8]) -> (r: &'a [u8])
    ensures
        r@ == strip_prefix_all(s@, pat@),
    decreases s@.len(),
{
    if pat.len() == 0 {
        return s;
    }
    if starts_with(s, pat) {
        let rest = slice_subrange(s, pat.len(), s.len());
        if rest.len() < s.len() {
            return strip_all(rest, pat);
        }
    }
    s
}

/// Leading bytes equal to `c` removed.
pub open spec fn trim_byte_front(s: Seq<u8>, c: u8) -> Seq<u8>
    decreases s.len(),
{
    if s.len() > 0 && s.first() == c {
        trim_byte_front(s.drop_first(), c)
    } else {
        s
    }
}

/// Trailing bytes equal to `c` removed.
pub open spec fn trim_byte_back(s: Seq<u8>, c: u8) -> Seq<u8>
    decreases s.len(),
{
    if s.len() > 0 && s.last() == c {
        trim_byte_back(s.drop_last(), c)
    } else {
        s
    }
}

proof fn lemma_trim_byte_front_skip(s: Seq<u8>, c: u8, a: int)
    requires
        0 <= a <= s.len(),
        forall|j: int| 0 <= j < a ==> #[trigger] s[j] == c,
        a < s.len() ==> s[a] != c,
    ensures
        trim_byte_front(s, c) == s.skip(a),
    decreases a,
{
    if a == 0 {
        assert(s.skip(0) =~= s);
    } else {
        lemma_trim_byte_front_skip(s.drop_first(), c, a - 1);
        assert(s.drop_first().skip(a - 1) =~= s.skip(a));
    }
}

proof fn lemma_trim_byte_back_take(s: Seq<u8>, c: u8, b: int)
    requires
        0 <= b <= s.len(),
        forall|j: int| b <= j < s.len() ==> #[trigger] s[j] == c,
        b > 0 ==> s[b - 1] != c,
    ensures
        trim_byte_back(s, c) == s.take(b),
    decreases s.len() - b,
{
    if b == s.len() {
        assert(s.take(b) =~= s);
    } else {
        lemma_trim_byte_back_take(s.drop_last(), c, b);
        assert(s.drop_last().take(b) =~= s.take(b));
    }
}

/// The bytes with every leading and trailing `c` removed.
pub fn trim_byte(s: &[u8], c: u8) -> (r: Vec<u8>)
    ensures
        r@ == trim_byte_back(trim_byte_front(s@, c), c),
{
    let n = s.len();
    let mut a: usize = 0;
    while a < n && *slice_index_get_u8(s, a) == c
        invariant
            n == s@.len(),
            a <= n,
            forall|j: int| 0 <= j < a ==> #[trigger] s@[j] == c,
        decreases n - a,
    {
        a = a + 1;
    }
    let mut b: usize = n;
    while b > a && *slice_index_get_u8(s, b - 1) == c
        invariant
            n == s@.len(),
            a <= b <= n,
            forall|j: int| b <= j < n ==> #[trigger] s@[j] == c,
        decreases b,
    {
        b = b - 1;
    }
    proof {
        lemma_trim_byte_front_skip(s@, c, a as int);
        assert forall|j: int| (b - a) <= j < s@.skip(a as int).len() implies #[trigger] s@.skip(
            a as int,
        )[j] == c by {
            assert(s@.skip(a as int)[j] == s@[a + j]);
        }
        lemma_trim_byte_back_take(s@.skip(a as int), c, b - a);
    }
    let r = slice_to_vec(slice_subrange(s, a, b));
    proof {
        assert(r@ =~= s@.skip(a as int).take(b - a));
    }
    r
}

/// ASCII hex digit.
pub open spec fn is_hex(b: u8) -> bool {
    (48 <= b <= 57) || (97 <= b <= 102) || (65 <= b <= 70)
}

pub open spec fn hex_val(b: u8) -> int {
    if 48 <= b <= 57 {
        b - 48
    } else if 97 <= b <= 102 {
        b - 87
    } else if 65 <= b <= 70 {
        b - 55
    } else {
        0
    }
}

fn hex_digit(b: u8) -> (r: Option<u8>)
    ensures
        r matches Some(v) ==> is_hex(b) && v == hex_val(b),
        r is None ==> !is_hex(b),
{
    if 48 <= b && b <= 57 {
        Some(b - 48)
    } else if 97 <= b && b <= 102 {
        Some(b - 87)
    } else if 65 <= b && b <= 70 {
        Some(b - 55)
    } else {
        None
    }
}

/// Percent-decoding over bytes: `%XX` with two hex digits becomes one
/// byte, everything else passes through.  Whether the result is valid text
/// is the caller's concern.
pub open spec fn spec_percent_decode(s: Seq<u8>) -> Seq<u8>
    decreases s.len(),
{
    if s.len() == 0 {
        Seq::empty()
    } else if s[0] == 37 && s.len() >= 3 && is_hex(s[1]) && is_hex(s[2]) {
        seq![(hex_val(s[1]) * 16 + hex_val(s[2])) as u8] + spec_percent_decode(s.skip(3))
    } else {
        seq![s[0]] + spec_percent_decode(s.skip(1))
    }
}

pub fn percent_decode(s: &[u8]) -> (r: Vec<u8>)
    ensures
        r@ == spec_percent_decode(s@),
{
    let n = s.len();
    let mut out: Vec<u8> = Vec::new();
    proof {
        assert(s@.skip(0) =~= s@);
        assert(out@ + spec_percent_decode(s@) =~= spec_percent_decode(s@));
    }
    let mut i: usize = 0;
    while i < n
        invariant
            n == s@.len(),
            i <= n,
            out@ + spec_percent_decode(s@.skip(i as int)) == spec_percent_decode(s@),
        decreases n - i,
    {
        let b = *slice_index_get_u8(s, i);
        proof {
            assert(s@.skip(i as int)[0] == s@[i as int]);
        }
        if b == 37 && n - i > 2 {
            let h1 = hex_digit(*slice_index_get_u8(s, i + 1));
            let h2 = hex_digit(*slice_index_get_u8(s, i + 2));
            match (h1, h2) {
                (Some(v1), Some(v2)) => {
                    proof {
                        assert(s@.skip(i as int)[1] == s@[i + 1]);
                        assert(s@.skip(i as int)[2] == s@[i + 2]);
                        assert(s@.skip(i as int).skip(3) =~= s@.skip(i + 3));
                        assert((out@ + spec_percent_decode(s@.skip(i as int))) =~= (out@.push(
                            (hex_val(s@[i + 1]) * 16 + hex_val(s@[i + 2])) as u8,
                        ) + spec_percent_decode(s@.skip(i + 3))));
                    }
                    out.push(v1 * 16 + v2);
                    i = i + 3;
                },
                _ => {
                    proof {
                        assert(s@.skip(i as int).skip(1) =~= s@.skip(i + 1));
                        assert((out@ + spec_percent_decode(s@.skip(i as int))) =~= (out@.push(
                            s@[i as int],
                        ) + spec_percent_decode(s@.skip(i + 1))));
                    }
                    out.push(b);
                    i = i + 1;
                },
            }
        } else {
            proof {
                assert(s@.skip(i as int).skip(1) =~= s@.skip(i + 1));
                assert((out@ + spec_percent_decode(s@.skip(i as int))) =~= (out@.push(s@[i as int])
                    + spec_percent_decode(s@.skip(i + 1))));
            }
            out.push(b);
            i = i + 1;
        }
    }
    proof {
        assert(s@.skip(n as int) =~= Seq::<u8>::empty());
        assert(out@ =~= out@ + spec_percent_decode(s@.skip(n as int)));
    }
    out
}

/// The bytes of `filename=`.
pub open spec fn fn_eq_pat() -> Seq<u8> {
    seq![102u8, 105u8, 108u8, 101u8, 110u8, 97u8, 109u8, 101u8, 61u8]
}

/// The bytes of `filename*=`.
pub open spec fn fn_star_pat() -> Seq<u8> {
    seq![102u8, 105u8, 108u8, 101u8, 110u8, 97u8, 109u8, 101u8, 42u8, 61u8]
}

/// The bytes of the `''` marker separating charset and value.
pub open spec fn qq_pat() -> Seq<u8> {
    seq![39u8, 39u8]
}

/// The filename one `Content-Disposition` parameter yields: a `filename=`
/// value with surrounding quotes removed, or a `filename*=` value
/// percent-decoded from after its `''` marker up to the next one.
pub open spec fn spec_cd_part(p: Seq<u8>) -> Option<Seq<u8>> {
    let t = spec_trimmed(p);
    if t.len() >= fn_eq_pat().len() && t.take(fn_eq_pat().len() as int) == fn_eq_pat() {
        Some(trim_byte_back(trim_byte_front(strip_prefix_all(t, fn_eq_pat()), 34), 34))
    } else if t.len() >= fn_star_pat().len() && t.take(fn_star_pat().len() as int)
        == fn_star_pat() {
        let e = strip_prefix_all(t, fn_star_pat());
        match spec_find_sub(e, qq_pat()) {
            Some(i) => {
                if 0 <= i && i + 2 <= e.len() {
                    let rest = e.skip(i + 2);
                    let seg = match spec_find_sub(rest, qq_pat()) {
                        Some(j) => {
                            if 0 <= j <= rest.len() {
                                rest.take(j)
                            } else {
                                rest
                            }
                        },
                        None => rest,
                    };
                    Some(spec_percent_decode(seg))
                } else {
                    None
                }
            },
            None => None,
        }
    } else {
        None
    }
}

/// The filename a `Content-Disposition` value carries: its parameters are
/// scanned in order and the first that yields a name wins.
pub open spec fn spec_parse_cd(s: Seq<u8>) -> Option<Seq<u8>>
    decreases s.len(),
{
    match spec_find_sub(s, seq![59u8]) {
        Some(i) => {
            if 0 <= i < s.len() {
                match spec_cd_part(s.take(i)) {
                    Some(f) => Some(f),
                    None => spec_parse_cd(s.skip(i + 1)),
                }
            } else {
                spec_cd_part(s)
            }
        },
        None => spec_cd_part(s),
    }
}

fn fn_eq_pat_vec() -> (r: Vec<u8>)
    ensures
        r@ == fn_eq_pat(),
{
    let mut r: Vec<u8> = Vec::new();
    r.push(102);
    r.push(105);
    r.push(108);
    r.push(101);
    r.push(110);
    r.push(97);
    r.push(109);
    r.push(101);
    r.push(61);
    proof {
        assert(r@ =~= fn_eq_pat());
    }
    r
}

fn fn_star_pat_vec() -> (r: Vec<u8>)
    ensures
        r@ == fn_star_pat(),
{
    let mut r: Vec<u8> = Vec::new();
    r.push(102);
    r.push(105);
    r.push(108);
    r.push(101);
    r.push(110);
    r.push(97);
    r.push(109);
    r.push(101);
    r.push(42);
    r.push(61);
    proof {
        assert(r@ =~= fn_star_pat());
    }
    r
}

fn qq_pat_vec() -> (r: Vec<u8>)
    ensures
        r@ == qq_pat(),
{
    let mut r: Vec<u8> = Vec::new();
    r.push(39);
    r.push(39);
    proof {
        assert(r@ =~= qq_pat());
    }
    r
}

fn cd_part(p: &[u8]) -> (r: Option<Vec<u8>>)
    ensures
        r matches Some(v) ==> spec_cd_part(p@) == Some(v@),
        r is None ==> spec_cd_part(p@) is None,
{
    let t = trimmed(p);
    let eq_pat = fn_eq_pat_vec();
    let star_pat = fn_star_pat_vec();
    if starts_with(t.as_slice(), eq_pat.as_slice()) {
        let stripped = strip_all(t.as_slice(), eq_pat.as_slice());
        let dequoted = trim_byte(stripped, 34);
        return Some(dequoted);
    }
    if starts_with(t.as_slice(), star_pat.as_slice()) {
        let e = strip_all(t.as_slice(), star_pat.as_slice());
        let qq = qq_pat_vec();
        match find_sub(e, qq.as_slice()) {
            Some(i) => {
                let e_len = e.len();
                proof {
                    lemma_find_sub_props(e@, qq_pat());
                    assert(i + 2 <= e@.len());
                }
                let rest = slice_subrange(e, i + 2, e_len);
                proof {
                    assert(rest@ =~= e@.skip(i + 2));
                }
                let seg: Vec<u8> = match find_sub(rest, qq.as_slice()) {
                    Some(j) => {
                        proof {
                            lemma_find_sub_props(rest@, qq_pat());
                        }
                        let head = slice_subrange(rest, 0, j);
                        proof {
                            assert(head@ =~= rest@.take(j as int));
                        }
                        slice_to_vec(head)
                    },
                    None => slice_to_vec(rest),
                };
                return Some(percent_decode(seg.as_slice()));
            },
            None => {
                return None;
            },
        }
    }
    None
}

/// The filename a `Content-Disposition` header value names, if any.
pub fn parse_content_disposition(header: &[u8]) -> (r: Option<Vec<u8>>)
    ensures
        r matches Some(v) ==> spec_parse_cd(header@) == Some(v@),
        r is None ==> spec_parse_cd(header@) is None,
    decreases header@.len(),
{
    let mut semi: Vec<u8> = Vec::new();
    semi.push(59);
    proof {
        assert(semi@ =~= seq![59u8]);
    }
    match find_sub(header, semi.as_slice()) {
        Some(i) => {
            proof {
                lemma_find_sub_props(header@, seq![59u8]);
            }
            let part = slice_subrange(header, 0, i);
            proof {
                assert(part@ =~= header@.take(i as int));
            }
            match cd_part(part) {
                Some(v) => Some(v),
                None => {
                    let h_len = header.len();
                    proof {
                        assert(i + 1 <= header@.len());
                    }
                    let rest = slice_subrange(header, i + 1, h_len);
                    proof {
                        assert(rest@ =~= header@.skip(i + 1));
                    }
                    parse_content_disposition(rest)
                },
            }
        },
        None => cd_part(header),
    }
}

/// What a probe learned about the resource: total size (when stated) and
/// whether the server takes range requests.
pub struct ProbeMeta {
    pub size: Option<u64>,
    pub supports_range: bool,
}

/// The size stated by a `Content-Range` or `Content-Length` value, by the
/// library's parsing rules.
pub open spec fn spec_stated_size(header: Option<Seq<u8>>, from_content_range: bool) -> Option<
    u64,
> {
    match header {
        None => None,
        Some(h) => {
            let digits = if from_content_range {
                after_last_slash(h)
            } else {
                h
            };
            if digits.len() > 0 && all_digits(digits) && dec_value(digits) <= u64::MAX {
                Some(dec_value(digits) as u64)
            } else {
                None
            }
        },
    }
}

/// Extracts size and range support from a probe response: a 206 carries the
/// total after the slash of `Content-Range` and proves range support; a
/// plain success carries `Content-Length` and supports ranges only when
/// `Accept-Ranges` says `bytes`.
pub fn probe_metadata(
    status: u16,
    content_range: Option<&Vec<u8>>,
    content_length: Option<&Vec<u8>>,
    accept_ranges: Option<&Vec<u8>>,
) -> (r: ProbeMeta)
    ensures
        status == 206 ==> r.supports_range && r.size == spec_stated_size(
            match content_range {
                Some(v) => Some(v@),
                None => None,
            },
            true,
        ),
        status != 206 ==> r.size == spec_stated_size(
            match content_length {
                Some(v) => Some(v@),
                None => None,
            },
            false,
        ) && r.supports_range == (match accept_ranges {
            Some(v) => v@ == seq![98u8, 121u8, 116u8, 101u8, 115u8],
            None => false,
        }),
{
    if status == 206 {
        let size = match content_range {
            Some(v) => content_range_total(v.as_slice()),
            None => None,
        };
        ProbeMeta { size, supports_range: true }
    } else {
        let size = match content_length {
            Some(v) => parse_u64_dec(v.as_slice()),
            None => None,
        };
        let supports_range = match accept_ranges {
            Some(v) => accept_ranges_bytes(v.as_slice()),
            None => false,
        };
        ProbeMeta { size, supports_range }
    }
}

/// Whether an HTTP status is a success (2xx).
pub fn is_success(status: u16) -> (r: bool)
    ensures
        r == (200 <= status <= 299),
{
    200 <= status && status <= 299
}

/// How a range fetch went, by status code.
#[derive(Debug, Clone, Copy, PartialEq, Eq, Structural)]
pub enum FetchClass {
    /// 206: the range arrived.
    Partial,
    /// 200: the server ignored the range request.
    NotRanged,
    /// 429: the server asked for back-off.
    RateLimited,
    /// Anything else: a plain HTTP failure.
    HttpError,
}

pub open spec fn spec_fetch_class(status: u16) -> FetchClass {
    if status == 206 {
        FetchClass::Partial
    } else if status == 200 {
        FetchClass::NotRanged
    } else if status == 429 {
        FetchClass::RateLimited
    } else {
        FetchClass::HttpError
    }
}

pub fn classify_fetch_status(status: u16) -> (r: FetchClass)
    ensures
        r == spec_fetch_class(status),
{
    if status == 206 {
        FetchClass::Partial
    } else if status == 200 {
        FetchClass::NotRanged
    } else if status == 429 {
        FetchClass::RateLimited
    } else {
        FetchClass::HttpError
    }
}

#[derive(Debug, Clone, Copy, PartialEq, Eq, Structural)]
pub enum PreferredProtocol {
    Http1,
    Http2,
    Http3,
    Auto,
}

impl Default for PreferredProtocol {
    fn default() -> (p: PreferredProtocol)
        ensures
            p == PreferredProtocol::Auto,
    {
        PreferredProtocol::Auto
    }
}

/// Protocol choice: an explicit preference wins; `Auto` takes HTTP/3 when
/// the server advertised it and HTTP/2 otherwise.
pub fn negotiate(preferred: PreferredProtocol, h3_supported: bool) -> (r: PreferredProtocol)
    ensures
        preferred != PreferredProtocol::Auto ==> r == preferred,
        preferred == PreferredProtocol::Auto && h3_supported ==> r == PreferredProtocol::Http3,
        preferred == PreferredProtocol::Auto && !h3_supported ==> r == PreferredProtocol::Http2,
{
    match preferred {
        PreferredProtocol::Auto => {
            if h3_supported {
                PreferredProtocol::Http3
            } else {
                PreferredProtocol::Http2
            }
        },
        other => other,
    }
}

/// The segment plan for one transfer.
#[derive(Debug, Clone, Copy, PartialEq, Eq, Structural)]
pub struct TransferPlan {
    pub num_segments: usize,
    pub segmented: bool,
}

/// Plans a transfer from a probe: without a stated size or range support
/// the whole resource is fetched in one piece, otherwise the file-size
/// bucket decides the initial segment count.
pub fn plan_transfer(size: Option<u64>, supports_range: bool) -> (r: TransferPlan)
    ensures
        ({
            let total: u64 = match size {
                Some(t) => t,
                None => 0u64,
            };
            if supports_range && total > 0 {
                r.segmented && r.num_segments == spec_initial_segments(total)
            } else {
                !r.segmented && r.num_segments == 1
            }
        }),
{
    let total = match size {
        Some(t) => t,
        None => 0,
    };
    if supports_range && total > 0 {
        TransferPlan { num_segments: initial_segments(total), segmented: true }
    } else {
        TransferPlan { num_segments: 1, segmented: false }
    }
}

/// The assumed bandwidth when only the round-trip time is known, in bytes
/// per second.
pub const ASSUMED_BANDWIDTH: u64 = 10_000_000;

/// The segment count for a transfer: an explicit request wins; with a
/// measured round-trip time the bandwidth-delay product decides (doubled in
/// turbo mode, up to 32); otherwise the file-size bucket does.
pub fn calculate_segments(
    size: Option<u64>,
    rtt_ms: Option<u64>,
    requested: Option<usize>,
    turbo: bool,
) -> (n: usize)
    ensures
        ({
            let total: u64 = match size {
                Some(t) => t,
                None => 0u64,
            };
            match requested {
                Some(s) => n == s,
                None => match rtt_ms {
                    Some(rtt) => {
                        let optimal = spec_optimal_from_bdp(
                            spec_bdp(ASSUMED_BANDWIDTH, rtt),
                            total,
                        );
                        if turbo {
                            n == if 2 * optimal <= 32 {
                                2 * optimal as int
                            } else {
                                32int
                            }
                        } else {
                            n == optimal
                        }
                    },
                    None => n == if turbo {
                        spec_turbo_segments(total)
                    } else {
                        spec_initial_segments(total)
                    },
                },
            }
        }),
{
    let total = match size {
        Some(t) => t,
        None => 0,
    };
    if let Some(s) = requested {
        return s;
    }
    match rtt_ms {
        Some(rtt) => {
            let optimal = optimal_segments(total, ASSUMED_BANDWIDTH, rtt);
            if turbo {
                if 2 * optimal <= 32 {
                    2 * optimal
                } else {
                    32
                }
            } else {
                optimal
            }
        },
        None => {
            if turbo {
                turbo_segments(total)
            } else {
                initial_segments(total)
            }
        },
    }
}

} // verus!
