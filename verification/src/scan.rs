//! Address-shape validators shared by the highlighter and by callers that
//! redact session logs: IPv6 run shape, IPv4 quad candidates and the
//! private / loopback IPv4 ranges.
use vstd::prelude::*;
use vstd::string::StringSliceAdditionalSpecFns;
use crate::text::decimal;
use crate::ascii::{all_digits, digits_value, is_alnum, is_digit, is_hex, lemma_digits_value_bound, spec_is_alnum, spec_is_digit, spec_is_hex};

verus! {

// ---------------------------------------------------------------------------
// IPv6 run shape
// ---------------------------------------------------------------------------

/// Number of `:` bytes in `s[..n]`.
pub open spec fn colon_count(s: Seq<u8>, n: int) -> nat
    decreases n,
{
    if n <= 0 {
        0
    } else {
        colon_count(s, n - 1) + (if s[n - 1] == 58 { 1nat } else { 0 })
    }
}

/// Number of adjacent `::` pairs lying inside `s[..n]`.
pub open spec fn pair_count(s: Seq<u8>, n: int) -> nat
    decreases n,
{
    if n < 2 {
        0
    } else {
        pair_count(s, n - 1) + (if s[n - 2] == 58 && s[n - 1] == 58 { 1nat } else { 0 })
    }
}

/// Whether `s[..n]` contains `:::`.
pub open spec fn has_triple(s: Seq<u8>, n: int) -> bool
    decreases n,
{
    n >= 3 && (has_triple(s, n - 1) || (s[n - 3] == 58 && s[n - 2] == 58 && s[n - 1] == 58))
}

/// Number of colon-free groups that start inside `s[..n]`.
pub open spec fn group_count(s: Seq<u8>, n: int) -> nat
    decreases n,
{
    if n <= 0 {
        0
    } else {
        group_count(s, n - 1) + (if s[n - 1] != 58 && (n == 1 || s[n - 2] == 58) {
            1nat
        } else {
            0
        })
    }
}

/// Length of the colon-free run that ends `s[..n]`.
pub open spec fn trailing_run(s: Seq<u8>, n: int) -> nat
    decreases n,
{
    if n <= 0 {
        0
    } else if s[n - 1] == 58 {
        0
    } else {
        trailing_run(s, n - 1) + 1
    }
}

/// Whether some colon-free group inside `s[..n]` is longer than 4 bytes.
pub open spec fn has_long_group(s: Seq<u8>, n: int) -> bool
    decreases n,
{
    n > 0 && (has_long_group(s, n - 1) || trailing_run(s, n) > 4)
}

pub open spec fn hex_or_colon(s: Seq<u8>) -> bool {
    forall|k: int| 0 <= k < s.len() ==> (spec_is_hex(#[trigger] s[k]) || s[k] == 58)
}

/// IPv6 shape: hex digits and colons only; groups of 1-4 hex digits; either
/// the `::`-compressed form (exactly one `::`, no `:::`, at most 7 explicit
/// groups, a lone leading or trailing colon only as part of the `::`) or
/// the full form (exactly 7 colons, 8 groups).
pub open spec fn spec_looks_like_ipv6(s: Seq<u8>) -> bool {
    let n = s.len() as int;
    &&& s.len() > 0
    &&& hex_or_colon(s)
    &&& !has_triple(s, n)
    &&& pair_count(s, n) <= 1
    &&& group_count(s, n) > 0
    &&& !has_long_group(s, n)
    &&& if pair_count(s, n) == 1 {
        &&& group_count(s, n) <= 7
        &&& (s[0] != 58 || (n >= 2 && s[1] == 58))
        &&& (s[n - 1] != 58 || (n >= 2 && s[n - 2] == 58))
    } else {
        colon_count(s, n) == 7 && group_count(s, n) == 8
    }
}

/// Byte-level form of [`looks_like_ipv6`].
pub fn looks_like_ipv6_bytes(s: &[u8]) -> (r: bool)
    ensures
        r == spec_looks_like_ipv6(s@),
{
    let n = s.len();
    if n == 0 {
        return false;
    }
    let mut i: usize = 0;
    let mut colons: usize = 0;
    let mut pairs: usize = 0;
    let mut triple = false;
    let mut groups: usize = 0;
    let mut run: usize = 0;
    let mut long = false;
    while i < n
        invariant
            n == s@.len(),
            0 <= i <= n,
            hex_or_colon(s@.subrange(0, i as int)),
            colons == colon_count(s@, i as int),
            pairs == pair_count(s@, i as int),
            triple == has_triple(s@, i as int),
            groups == group_count(s@, i as int),
            run == trailing_run(s@, i as int),
            long == has_long_group(s@, i as int),
            colons <= i,
            pairs <= i,
            groups <= i,
            run <= i,
        decreases n - i,
    {
        let b = s[i];
        if !(is_hex(b) || b == 58) {
            assert(!hex_or_colon(s@)) by {
                assert(!(spec_is_hex(s@[i as int]) || s@[i as int] == 58));
            }
            return false;
        }
        if b == 58 {
            colons = colons + 1;
            if i >= 1 && s[i - 1] == 58 {
                pairs = pairs + 1;
            }
            if i >= 2 && s[i - 1] == 58 && s[i - 2] == 58 {
                triple = true;
            }
            run = 0;
        } else {
            if i == 0 || s[i - 1] == 58 {
                groups = groups + 1;
            }
            run = run + 1;
            if run > 4 {
                long = true;
            }
        }
        assert(hex_or_colon(s@.subrange(0, i + 1))) by {
            assert forall|k: int| 0 <= k < i + 1 implies (spec_is_hex(
                #[trigger] s@.subrange(0, i + 1)[k],
            ) || s@.subrange(0, i + 1)[k] == 58) by {
                if k < i {
                    assert(s@.subrange(0, i + 1)[k] == s@.subrange(0, i as int)[k]);
                }
            }
        }
        i = i + 1;
    }
    assert(s@.subrange(0, n as int) =~= s@);
    if triple || pairs > 1 {
        return false;
    }
    if groups == 0 || long {
        return false;
    }
    if pairs == 1 {
        groups <= 7 && (s[0] != 58 || (n >= 2 && s[1] == 58)) && (s[n - 1] != 58 || (n >= 2
            && s[n - 2] == 58))
    } else {
        colons == 7 && groups == 8
    }
}

/// Whether a hex-digit/colon run is IPv6-shaped: the full 8-group form
/// (exactly 7 colons) or the `::`-compressed form, groups of 1-4 hex digits,
/// at most one `::`, no `:::`. Timestamps (`12:34:56`) and MAC addresses are
/// rejected; a run glued to a word is the caller's to reject.
pub fn looks_like_ipv6(run: &str) -> (r: bool)
    ensures
        r == spec_looks_like_ipv6(run.spec_bytes()),
{
    looks_like_ipv6_bytes(run.as_bytes())
}

// ---------------------------------------------------------------------------
// IPv4 quad candidates
// ---------------------------------------------------------------------------

/// End of the run of ASCII digits starting at `j`.
pub open spec fn digit_run_end(s: Seq<u8>, j: int) -> int
    decreases s.len() - j,
{
    if j >= s.len() || j < 0 || !spec_is_digit(s[j]) {
        j
    } else {
        digit_run_end(s, j + 1)
    }
}

/// A range-valid octet group starts at `j`: 1-3 digits (the whole digit run)
/// whose value is at most 255.
pub open spec fn octet_at(s: Seq<u8>, j: int) -> bool {
    let e = digit_run_end(s, j);
    1 <= e - j <= 3 && digits_value(s.subrange(j, e)) <= 255
}

/// The end of a four-group dotted quad starting at `i`, if one starts there.
pub open spec fn quad_end(s: Seq<u8>, i: int) -> Option<int> {
    let e1 = digit_run_end(s, i);
    let e2 = digit_run_end(s, e1 + 1);
    let e3 = digit_run_end(s, e2 + 1);
    let e4 = digit_run_end(s, e3 + 1);
    if octet_at(s, i) && e1 < s.len() && s[e1] == 46 && octet_at(s, e1 + 1) && e2 < s.len()
        && s[e2] == 46 && octet_at(s, e2 + 1) && e3 < s.len() && s[e3] == 46 && octet_at(
        s,
        e3 + 1,
    ) {
        Some(e4)
    } else {
        None
    }
}

/// A byte that glues a quad to its neighbour: ASCII alphanumeric or `.`.
pub open spec fn spec_glue(b: u8) -> bool {
    spec_is_alnum(b) || b == 46
}

/// The left-to-right scan for quad candidates from position `i`, with the
/// candidates found so far in `acc`: a digit not glued on its left that
/// begins a dotted quad not glued on its right yields the span and resumes
/// after it; anything else moves on by one byte.
pub open spec fn quad_scan(s: Seq<u8>, i: int, acc: Seq<(usize, usize)>) -> Seq<(usize, usize)>
    decreases s.len() - i,
{
    if i >= s.len() || i < 0 {
        acc
    } else if spec_is_digit(s[i]) && !(i > 0 && spec_glue(s[i - 1])) && quad_end(s, i) is Some
        && !(quad_end(s, i)->0 < s.len() && spec_glue(s[quad_end(s, i)->0])) {
        proof {
            lemma_quad_end_bounds(s, i);
        }
        quad_scan(s, quad_end(s, i)->0, acc.push((i as usize, quad_end(s, i)->0 as usize)))
    } else {
        quad_scan(s, i + 1, acc)
    }
}

pub proof fn lemma_digit_run_end(s: Seq<u8>, j: int)
    requires
        0 <= j <= s.len(),
    ensures
        j <= digit_run_end(s, j) <= s.len(),
        forall|k: int| j <= k < digit_run_end(s, j) ==> spec_is_digit(#[trigger] s[k]),
        digit_run_end(s, j) < s.len() ==> !spec_is_digit(s[digit_run_end(s, j)]),
    decreases s.len() - j,
{
    if j < s.len() && spec_is_digit(s[j]) {
        lemma_digit_run_end(s, j + 1);
    }
}

pub proof fn lemma_quad_end_bounds(s: Seq<u8>, i: int)
    requires
        0 <= i < s.len(),
    ensures
        quad_end(s, i) matches Some(e) ==> i < e <= s.len(),
{
    lemma_digit_run_end(s, i);
    let e1 = digit_run_end(s, i);
    if e1 < s.len() {
        lemma_digit_run_end(s, e1 + 1);
        let e2 = digit_run_end(s, e1 + 1);
        if e2 < s.len() {
            lemma_digit_run_end(s, e2 + 1);
            let e3 = digit_run_end(s, e2 + 1);
            if e3 < s.len() {
                lemma_digit_run_end(s, e3 + 1);
            }
        }
    }
}

/// Reads one octet group at `j`; returns its end when it is range-valid.
fn read_octet(s: &[u8], j: usize) -> (r: Option<usize>)
    requires
        j <= s@.len(),
    ensures
        match r {
            Some(e) => octet_at(s@, j as int) && e == digit_run_end(s@, j as int),
            None => !octet_at(s@, j as int),
        },
{
    let n = s.len();
    let mut e = j;
    let mut val: u32 = 0;
    proof {
        lemma_digit_run_end(s@, j as int);
    }
    while e < n && is_digit(s[e])
        invariant
            n == s@.len(),
            j <= e <= n,
            digit_run_end(s@, j as int) == digit_run_end(s@, e as int),
            forall|k: int| j <= k < e ==> spec_is_digit(#[trigger] s@[k]),
            e - j <= 3 ==> val == digits_value(s@.subrange(j as int, e as int)),
            val <= 999,
        decreases n - e,
    {
        if e - j < 3 {
            proof {
                assert(s@.subrange(j as int, e + 1).drop_last() =~= s@.subrange(j as int, e as int));
                assert(all_digits(s@.subrange(j as int, e as int)));
                lemma_digits_value_bound(s@.subrange(j as int, e as int));
            }
            val = val * 10 + (s[e] - 48) as u32;
        }
        e = e + 1;
    }
    if e - j >= 1 && e - j <= 3 && val <= 255 {
        Some(e)
    } else {
        None
    }
}

/// The end of the dotted quad starting at `i`, if one starts there.
fn read_quad(s: &[u8], i: usize) -> (r: Option<usize>)
    requires
        i < s@.len(),
    ensures
        r == (match quad_end(s@, i as int) {
            Some(e) => Some(e as usize),
            None => None,
        }),
{
    proof {
        lemma_quad_end_bounds(s@, i as int);
        lemma_digit_run_end(s@, i as int);
    }
    let n = s.len();
    let e1 = match read_octet(s, i) {
        Some(e) => e,
        None => return None,
    };
    if !(e1 < n && s[e1] == 46) {
        return None;
    }
    proof {
        lemma_digit_run_end(s@, e1 + 1);
    }
    let e2 = match read_octet(s, e1 + 1) {
        Some(e) => e,
        None => return None,
    };
    if !(e2 < n && s[e2] == 46) {
        return None;
    }
    proof {
        lemma_digit_run_end(s@, e2 + 1);
    }
    let e3 = match read_octet(s, e2 + 1) {
        Some(e) => e,
        None => return None,
    };
    if !(e3 < n && s[e3] == 46) {
        return None;
    }
    proof {
        lemma_digit_run_end(s@, e3 + 1);
    }
    let e4 = match read_octet(s, e3 + 1) {
        Some(e) => e,
        None => return None,
    };
    Some(e4)
}

/// Byte-level form of [`scan_quad_dot_candidates`].
pub fn quad_candidates(s: &[u8]) -> (out: Vec<(usize, usize)>)
    ensures
        out@ == quad_scan(s@, 0, seq![]),
{
    let n = s.len();
    let mut out: Vec<(usize, usize)> = Vec::new();
    let mut i: usize = 0;
    while i < n
        invariant
            n == s@.len(),
            0 <= i <= n,
            quad_scan(s@, i as int, out@) == quad_scan(s@, 0, seq![]),
        decreases n - i,
    {
        let b = s[i];
        if is_digit(b) && !(i > 0 && (is_alnum(s[i - 1]) || s[i - 1] == 46)) {
            proof {
                lemma_quad_end_bounds(s@, i as int);
            }
            match read_quad(s, i) {
                Some(j) => {
                    if !(j < n && (is_alnum(s[j]) || s[j] == 46)) {
                        out.push((i, j));
                        i = j;
                        continue;
                    }
                },
                None => {},
            }
        }
        i = i + 1;
    }
    out
}

/// Byte spans (`start..end`, end exclusive) of range-valid IPv4-shaped
/// tokens in a row: exactly 4 dot-separated groups of 1-3 digits, each
/// `<= 255`, not glued to an alphanumeric or `.` on either side.
pub fn scan_quad_dot_candidates(row: &str) -> (out: Vec<(usize, usize)>)
    ensures
        out@ == quad_scan(row.spec_bytes(), 0, seq![]),
{
    quad_candidates(row.as_bytes())
}

// ---------------------------------------------------------------------------
// Private / loopback IPv4
// ---------------------------------------------------------------------------

/// `u8::from_str` on a byte segment: an optional `+`, then at least one ASCII
/// digit, with a value of at most 255.
pub open spec fn parse_u8(seg: Seq<u8>) -> Option<u8> {
    let d = if seg.len() > 0 && seg[0] == 43 { seg.drop_first() } else { seg };
    if d.len() > 0 && all_digits(d) && digits_value(d) <= 255 {
        Some(digits_value(d) as u8)
    } else {
        None
    }
}

/// Index of the first `.` at or after `j`, or the length when there is none.
pub open spec fn next_dot(s: Seq<u8>, j: int) -> int
    decreases s.len() - j,
{
    if j >= s.len() || j < 0 {
        s.len() as int
    } else if s[j] == 46 {
        j
    } else {
        next_dot(s, j + 1)
    }
}

/// The first two `.`-separated segments parse as octets `a`, `b` and lie in
/// 10/8, 127/8, 169.254/16, 172.16/12 or 192.168/16.
pub open spec fn spec_private_v4(s: Seq<u8>) -> bool {
    let d1 = next_dot(s, 0);
    let d2 = next_dot(s, d1 + 1);
    d1 < s.len() && match (parse_u8(s.subrange(0, d1)), parse_u8(s.subrange(d1 + 1, d2))) {
        (Some(a), Some(b)) => a == 10 || a == 127 || (a == 169 && b == 254) || (a == 172 && 16
            <= b <= 31) || (a == 192 && b == 168),
        _ => false,
    }
}

pub proof fn lemma_next_dot(s: Seq<u8>, j: int)
    requires
        0 <= j <= s.len(),
    ensures
        j <= next_dot(s, j) <= s.len(),
        forall|k: int| j <= k < next_dot(s, j) ==> #[trigger] s[k] != 46,
        next_dot(s, j) < s.len() ==> s[next_dot(s, j)] == 46,
    decreases s.len() - j,
{
    if j < s.len() && s[j] != 46 {
        lemma_next_dot(s, j + 1);
    }
}

/// Finds the next `.` at or after `j`.
fn find_dot(s: &[u8], j: usize) -> (r: usize)
    requires
        j <= s@.len(),
    ensures
        r == next_dot(s@, j as int),
{
    let mut k = j;
    while k < s.len() && s[k] != 46
        invariant
            j <= k <= s@.len(),
            next_dot(s@, k as int) == next_dot(s@, j as int),
        decreases s@.len() - k,
    {
        k = k + 1;
    }
    k
}

/// `u8::from_str` on `s[a..b]`.
fn parse_u8_at(s: &[u8], a: usize, b: usize) -> (r: Option<u8>)
    requires
        a <= b <= s@.len(),
    ensures
        r == parse_u8(s@.subrange(a as int, b as int)),
{
    let ghost seg = s@.subrange(a as int, b as int);
    let mut k = a;
    if k < b && s[k] == 43 {
        k = k + 1;
    }
    let ghost d = s@.subrange(k as int, b as int);
    assert(d == (if seg.len() > 0 && seg[0] == 43 { seg.drop_first() } else { seg }));
    if k == b {
        return None;
    }
    let start = k;
    let mut val: u32 = 0;
    while k < b
        invariant
            a <= start <= k <= b <= s@.len(),
            d == s@.subrange(start as int, b as int),
            seg == s@.subrange(a as int, b as int),
            d == (if seg.len() > 0 && seg[0] == 43 { seg.drop_first() } else { seg }),
            all_digits(s@.subrange(start as int, k as int)),
            val == digits_value(s@.subrange(start as int, k as int)),
            val <= 255,
        decreases b - k,
    {
        if !is_digit(s[k]) {
            assert(!all_digits(d)) by {
                assert(!spec_is_digit(d[k - start]));
            }
            return None;
        }
        let next: u32 = val * 10 + (s[k] - 48) as u32;
        assert(s@.subrange(start as int, k + 1).drop_last() =~= s@.subrange(start as int, k as int));
        assert(all_digits(s@.subrange(start as int, k + 1))) by {
            assert forall|q: int| 0 <= q < k + 1 - start implies spec_is_digit(
                #[trigger] s@.subrange(start as int, k + 1)[q],
            ) by {
                if q < k - start {
                    assert(s@.subrange(start as int, k + 1)[q] == s@.subrange(
                        start as int,
                        k as int,
                    )[q]);
                }
            }
        }
        if next > 255 {
            proof {
                if all_digits(d) {
                    lemma_digits_prefix_monotone(d, k + 1 - start);
                    assert(d.subrange(0, k + 1 - start) =~= s@.subrange(start as int, k + 1));
                }
            }
            return None;
        }
        val = next;
        k = k + 1;
    }
    assert(s@.subrange(start as int, b as int) =~= d);
    Some(val as u8)
}

/// A digit run is at least as large as any of its prefixes.
pub proof fn lemma_digits_prefix_monotone(d: Seq<u8>, m: int)
    requires
        0 <= m <= d.len(),
        all_digits(d),
    ensures
        digits_value(d.subrange(0, m)) <= digits_value(d),
    decreases d.len(),
{
    if m < d.len() {
        assert(d.drop_last().subrange(0, m) =~= d.subrange(0, m));
        assert(all_digits(d.drop_last()));
        lemma_digits_prefix_monotone(d.drop_last(), m);
    } else {
        assert(d.subrange(0, m) =~= d);
    }
}

/// Byte-level form of [`ipv4_is_private_or_loopback`].
pub fn private_v4_bytes(s: &[u8]) -> (r: bool)
    ensures
        r == spec_private_v4(s@),
{
    proof {
        lemma_next_dot(s@, 0);
    }
    let d1 = find_dot(s, 0);
    if d1 >= s.len() {
        return false;
    }
    proof {
        lemma_next_dot(s@, d1 + 1);
    }
    let d2 = find_dot(s, d1 + 1);
    let a = match parse_u8_at(s, 0, d1) {
        Some(v) => v,
        None => return false,
    };
    let b = match parse_u8_at(s, d1 + 1, d2) {
        Some(v) => v,
        None => return false,
    };
    a == 10 || a == 127 || (a == 169 && b == 254) || (a == 172 && 16 <= b && b <= 31) || (a
        == 192 && b == 168)
}

/// Whether an IPv4 candidate sits in private / loopback / link-local space
/// (10/8, 127/8, 169.254/16, 172.16/12, 192.168/16), judged on its first
/// two dot-separated octets.
pub fn ipv4_is_private_or_loopback(candidate: &str) -> (r: bool)
    ensures
        r == spec_private_v4(candidate.spec_bytes()),
{
    private_v4_bytes(candidate.as_bytes())
}

/// The decimal rendering of `n` is a non-empty digit run worth `n`.
proof fn lemma_decimal_value(n: nat)
    ensures
        decimal(n).len() >= 1,
        all_digits(decimal(n)),
        digits_value(decimal(n)) == n,
    decreases n,
{
    if n >= 10 {
        lemma_decimal_value(n / 10);
        let d = decimal(n / 10);
        let s = decimal(n);
        assert(s == d.push((48 + n % 10) as u8));
        assert(s.drop_last() =~= d);
        assert(all_digits(s)) by {
            assert forall|k: int| 0 <= k < s.len() implies spec_is_digit(#[trigger] s[k]) by {
                if k < d.len() {
                    assert(s[k] == d[k]);
                }
            }
        }
        assert(s.last() == (48 + n % 10) as u8);
        assert(((48 + n % 10) as u8) as int == 48 + n % 10);
        assert(digits_value(s) == digits_value(d) * 10 + n % 10);
        assert((n / 10) * 10 + n % 10 == n);
        assert(digits_value(s) == n);
    } else {
        let s = decimal(n);
        assert(s.drop_last() =~= Seq::<u8>::empty());
        assert(((48 + n) as u8) as int == 48 + n);
        assert(s.last() == (48 + n) as u8);
        assert(digits_value(s.drop_last()) == 0);
        assert(digits_value(s) == n);
    }
}

/// `next_dot` from `j` is `m` when no `.` lies in `s[j..m]` and `m` is a
/// `.` or the end.
proof fn lemma_next_dot_is(s: Seq<u8>, j: int, m: int)
    requires
        0 <= j <= m <= s.len(),
        forall|k: int| j <= k < m ==> #[trigger] s[k] != 46,
        m == s.len() || s[m] == 46,
    ensures
        next_dot(s, j) == m,
    decreases m - j,
{
    if j < m {
        lemma_next_dot_is(s, j + 1, m);
    }
}

/// The private / loopback classification of a dotted address `a.b...`
/// depends on its first two octets alone and is exactly the five ranges:
/// 10/8, 127/8, 169.254/16, 172.16/12 and 192.168/16. In particular a
/// `192.x` address is private only when `x` is 168, and `172.x` only for
/// `x` in 16..=31.
pub proof fn law_private_v4_ranges(a: u8, b: u8, tail: Seq<u8>)
    requires
        tail.len() == 0 || tail[0] == 46,
    ensures
        spec_private_v4(decimal(a as nat) + seq![46u8] + decimal(b as nat) + tail) == (a == 10
            || a == 127 || (a == 169 && b == 254) || (a == 172 && 16 <= b && b <= 31) || (a == 192
            && b == 168)),
        a == 192 ==> (spec_private_v4(decimal(a as nat) + seq![46u8] + decimal(b as nat) + tail)
            <==> b == 168),
{
    let da = decimal(a as nat);
    let db = decimal(b as nat);
    let s = da + seq![46u8] + db + tail;
    lemma_decimal_value(a as nat);
    lemma_decimal_value(b as nat);
    let la = da.len() as int;
    let lb = db.len() as int;
    assert forall|k: int| 0 <= k < la implies #[trigger] s[k] != 46 by {
        assert(s[k] == da[k]);
        assert(spec_is_digit(da[k]));
    }
    assert(s[la] == 46);
    lemma_next_dot_is(s, 0, la);
    assert forall|k: int| la + 1 <= k < la + 1 + lb implies #[trigger] s[k] != 46 by {
        assert(s[k] == db[k - la - 1]);
        assert(spec_is_digit(db[k - la - 1]));
    }
    if tail.len() > 0 {
        assert(s[la + 1 + lb] == tail[0]);
    }
    lemma_next_dot_is(s, la + 1, la + 1 + lb);
    assert(s.subrange(0, la) =~= da);
    assert(s.subrange(la + 1, la + 1 + lb) =~= db);
    assert(spec_is_digit(da[0]));
    assert(spec_is_digit(db[0]));
    assert(parse_u8(da) == Some(a));
    assert(parse_u8(db) == Some(b));
}

} // verus!
