//! IPv6 textual addresses (RFC 4291 forms, with an optional embedded
//! dotted-quad tail) and the machine-local ranges of the private-IPs
//! privacy class.
use vstd::prelude::*;
use crate::ascii::{digits_value, is_digit, is_hex, spec_is_digit, spec_is_hex};
use crate::scan::{digit_run_end, lemma_digit_run_end};
use crate::text::{chars_of, is_whitespace, proj, proj_seq, spec_is_whitespace};

verus! {

/// End of the run of ASCII hex digits starting at `p`.
pub open spec fn hex_run_end(s: Seq<u8>, p: int) -> int
    decreases s.len() - p,
{
    if p >= s.len() || p < 0 || !spec_is_hex(s[p]) {
        p
    } else {
        hex_run_end(s, p + 1)
    }
}

pub open spec fn hex_digit_value(b: u8) -> nat {
    if 48 <= b <= 57 {
        (b - 48) as nat
    } else if 65 <= b <= 70 {
        (b - 55) as nat
    } else {
        (b - 87) as nat
    }
}

/// Value of a run of hex digits.
pub open spec fn hex_value(s: Seq<u8>) -> nat
    decreases s.len(),
{
    if s.len() == 0 {
        0
    } else {
        hex_value(s.drop_last()) * 16 + hex_digit_value(s.last())
    }
}

/// A 16-bit group at `p`: the whole hex run there, 1 to 4 digits.
pub open spec fn hex_group(s: Seq<u8>, p: int) -> Option<(u16, int)> {
    let e = hex_run_end(s, p);
    if 1 <= e - p <= 4 {
        Some((hex_value(s.subrange(p, e)) as u16, e))
    } else {
        None
    }
}

/// A decimal octet at `p`: the whole digit run there, 1 to 3 digits, at
/// most 255, no leading zero on a multi-digit octet.
pub open spec fn dec_octet(s: Seq<u8>, p: int) -> Option<(nat, int)> {
    let e = digit_run_end(s, p);
    if 1 <= e - p <= 3 && digits_value(s.subrange(p, e)) <= 255 && !(e - p > 1 && s[p] == 48) {
        Some((digits_value(s.subrange(p, e)), e))
    } else {
        None
    }
}

pub open spec fn dot_at(s: Seq<u8>, p: int) -> bool {
    0 <= p < s.len() && s[p] == 46
}

/// A dotted quad at `p`, as its two 16-bit groups and its end.
pub open spec fn ipv4_tail(s: Seq<u8>, p: int) -> Option<(u16, u16, int)> {
    match dec_octet(s, p) {
        Some((a, e1)) => if dot_at(s, e1) {
            match dec_octet(s, e1 + 1) {
                Some((b, e2)) => if dot_at(s, e2) {
                    match dec_octet(s, e2 + 1) {
                        Some((c, e3)) => if dot_at(s, e3) {
                            match dec_octet(s, e3 + 1) {
                                Some((d, e4)) => Some(((a * 256 + b) as u16, (c * 256 + d) as u16, e4)),
                                None => None,
                            }
                        } else {
                            None
                        },
                        None => None,
                    }
                } else {
                    None
                },
                None => None,
            }
        } else {
            None
        },
        None => None,
    }
}

/// The separator before group `i`: none before the first, a `:` before
/// any later one.
pub open spec fn after_sep(s: Seq<u8>, p: int, i: int) -> Option<int> {
    if i == 0 {
        Some(p)
    } else if 0 <= p < s.len() && s[p] == 58 {
        Some(p + 1)
    } else {
        None
    }
}

/// Reads up to `limit` groups from `p` (group `i` onwards, `acc` holding
/// those read): while two groups remain, a separator and a dotted quad end
/// the run as its last two groups; otherwise a separator and a hex group
/// continue it; anything else stops before the separator. Returns the
/// groups, where reading stopped, and whether a dotted quad ended it.
pub open spec fn read_groups(s: Seq<u8>, p: int, i: int, limit: int, acc: Seq<u16>) -> (
    Seq<u16>,
    int,
    bool,
)
    decreases limit - i,
{
    if i >= limit {
        (acc, p, false)
    } else {
        let v4 = if i < limit - 1 {
            match after_sep(s, p, i) {
                Some(q) => ipv4_tail(s, q),
                None => None,
            }
        } else {
            None
        };
        match v4 {
            Some((hi, lo, e)) => (acc.push(hi).push(lo), e, true),
            None => match after_sep(s, p, i) {
                Some(q) => match hex_group(s, q) {
                    Some((g, e)) => read_groups(s, e, i + 1, limit, acc.push(g)),
                    None => (acc, p, false),
                },
                None => (acc, p, false),
            },
        }
    }
}

/// The eight groups of an IPv6 address in textual form, when all of `s`
/// is one: up to eight groups, or a head, `::` standing for at least one
/// zero group, and a tail; a dotted quad only as the last two groups.
pub open spec fn parse_ipv6(s: Seq<u8>) -> Option<Seq<u16>> {
    let (head, p, v4) = read_groups(s, 0, 0, 8, seq![]);
    if head.len() == 8 {
        if p == s.len() {
            Some(head)
        } else {
            None
        }
    } else if v4 {
        None
    } else if 0 <= p && p + 1 < s.len() && s[p] == 58 && s[p + 1] == 58 {
        let limit = 8 - (head.len() + 1);
        let (tail, p2, _v) = read_groups(s, p + 2, 0, limit, seq![]);
        if p2 == s.len() {
            Some(head + Seq::new((8 - head.len() - tail.len()) as nat, |k: int| 0u16) + tail)
        } else {
            None
        }
    } else {
        None
    }
}

/// Loopback (`::1`), link-local (`fe80::/10`) or unique-local (`fc00::/7`).
pub open spec fn local_groups(g: Seq<u16>) -> bool {
    g =~= seq![0u16, 0, 0, 0, 0, 0, 0, 1] || (0xfe80 <= g[0] <= 0xfebf) || (0xfc00 <= g[0]
        <= 0xfdff)
}

pub open spec fn spec_ipv6_local_bytes(s: Seq<u8>) -> bool {
    match parse_ipv6(s) {
        Some(g) => local_groups(g),
        None => false,
    }
}

proof fn lemma_hex_run_end(s: Seq<u8>, p: int)
    requires
        0 <= p <= s.len(),
    ensures
        p <= hex_run_end(s, p) <= s.len(),
        forall|k: int| p <= k < hex_run_end(s, p) ==> spec_is_hex(#[trigger] s[k]),
        hex_run_end(s, p) < s.len() ==> !spec_is_hex(s[hex_run_end(s, p)]),
    decreases s.len() - p,
{
    if p < s.len() && spec_is_hex(s[p]) {
        lemma_hex_run_end(s, p + 1);
    }
}

proof fn lemma_hex_value_bound(s: Seq<u8>)
    requires
        forall|k: int| 0 <= k < s.len() ==> spec_is_hex(#[trigger] s[k]),
    ensures
        hex_value(s) < pow16(s.len()),
    decreases s.len(),
{
    if s.len() > 0 {
        lemma_hex_value_bound(s.drop_last());
        assert(hex_digit_value(s.last()) < 16);
    }
}

pub open spec fn pow16(n: nat) -> nat
    decreases n,
{
    if n == 0 {
        1
    } else {
        16 * pow16((n - 1) as nat)
    }
}

/// Reads the hex group at `p`.
fn read_hex_group(s: &[u8], p: usize) -> (r: Option<(u16, usize)>)
    requires
        p <= s@.len(),
    ensures
        r matches Some((g, e)) ==> hex_group(s@, p as int) == Some((g, e as int)),
        r is None ==> hex_group(s@, p as int) is None,
{
    proof {
        lemma_hex_run_end(s@, p as int);
    }
    let n = s.len();
    let mut e = p;
    let mut val: u32 = 0;
    while e < n && is_hex(s[e])
        invariant
            n == s@.len(),
            p <= e <= n,
            hex_run_end(s@, p as int) == hex_run_end(s@, e as int),
            forall|k: int| p <= k < e ==> spec_is_hex(#[trigger] s@[k]),
            e - p <= 4 ==> val == hex_value(s@.subrange(p as int, e as int)),
            val < 65536,
        decreases n - e,
    {
        if e - p < 4 {
            proof {
                assert(s@.subrange(p as int, e + 1).drop_last() =~= s@.subrange(p as int, e as int));
                lemma_hex_value_bound(s@.subrange(p as int, e + 1));
                assert(pow16((e + 1 - p) as nat) <= 65536) by {
                    reveal_with_fuel(pow16, 5);
                    assert(pow16(1) == 16);
                    assert(pow16(2) == 256);
                    assert(pow16(3) == 4096);
                    assert(pow16(4) == 65536);
                }
            }
            let b = s[e];
            let d: u32 = if 48 <= b && b <= 57 {
                (b - 48) as u32
            } else if 65 <= b && b <= 70 {
                (b - 55) as u32
            } else {
                (b - 87) as u32
            };
            val = val * 16 + d;
        }
        e = e + 1;
    }
    if e - p >= 1 && e - p <= 4 {
        Some((val as u16, e))
    } else {
        None
    }
}

/// Reads the decimal octet at `p`.
fn read_dec_octet(s: &[u8], p: usize) -> (r: Option<(u32, usize)>)
    requires
        p <= s@.len(),
    ensures
        match dec_octet(s@, p as int) {
            Some((v, e)) => r == Some((v as u32, e as usize)),
            None => r is None,
        },
{
    proof {
        lemma_digit_run_end(s@, p as int);
    }
    let n = s.len();
    let mut e = p;
    let mut val: u32 = 0;
    while e < n && is_digit(s[e])
        invariant
            n == s@.len(),
            p <= e <= n,
            digit_run_end(s@, p as int) == digit_run_end(s@, e as int),
            forall|k: int| p <= k < e ==> spec_is_digit(#[trigger] s@[k]),
            e - p <= 3 ==> val == digits_value(s@.subrange(p as int, e as int)),
            val <= 999,
        decreases n - e,
    {
        if e - p < 3 {
            proof {
                assert(s@.subrange(p as int, e + 1).drop_last() =~= s@.subrange(p as int, e as int));
                assert(crate::ascii::all_digits(s@.subrange(p as int, e as int)));
                crate::ascii::lemma_digits_value_bound(s@.subrange(p as int, e as int));
            }
            val = val * 10 + (s[e] - 48) as u32;
        }
        e = e + 1;
    }
    if e - p >= 1 && e - p <= 3 && val <= 255 && !(e - p > 1 && s[p] == 48) {
        Some((val, e))
    } else {
        None
    }
}

/// Reads a dotted quad at `p`.
fn read_ipv4_tail(s: &[u8], p: usize) -> (r: Option<(u16, u16, usize)>)
    requires
        p <= s@.len(),
    ensures
        r matches Some((hi, lo, e)) ==> ipv4_tail(s@, p as int) == Some((hi, lo, e as int)),
        r is None ==> ipv4_tail(s@, p as int) is None,
{
    proof {
        lemma_digit_run_end(s@, p as int);
    }
    let n = s.len();
    let (a, e1) = match read_dec_octet(s, p) {
        Some(x) => x,
        None => return None,
    };
    if !(e1 < n && s[e1] == 46) {
        return None;
    }
    proof {
        lemma_digit_run_end(s@, e1 + 1);
    }
    let (b, e2) = match read_dec_octet(s, e1 + 1) {
        Some(x) => x,
        None => return None,
    };
    if !(e2 < n && s[e2] == 46) {
        return None;
    }
    proof {
        lemma_digit_run_end(s@, e2 + 1);
    }
    let (c, e3) = match read_dec_octet(s, e2 + 1) {
        Some(x) => x,
        None => return None,
    };
    if !(e3 < n && s[e3] == 46) {
        return None;
    }
    proof {
        lemma_digit_run_end(s@, e3 + 1);
    }
    let (d, e4) = match read_dec_octet(s, e3 + 1) {
        Some(x) => x,
        None => return None,
    };
    Some(((a * 256 + b) as u16, (c * 256 + d) as u16, e4))
}

/// Separator before group `i`.
fn read_sep(s: &[u8], p: usize, i: usize) -> (r: Option<usize>)
    requires
        p <= s@.len(),
    ensures
        r matches Some(q) ==> after_sep(s@, p as int, i as int) == Some(q as int),
        r is None ==> after_sep(s@, p as int, i as int) is None,
{
    if i == 0 {
        Some(p)
    } else if p < s.len() && s[p] == 58 {
        Some(p + 1)
    } else {
        None
    }
}

proof fn lemma_ipv4_tail_bound(s: Seq<u8>, q: int)
    requires
        0 <= q <= s.len(),
    ensures
        ipv4_tail(s, q) matches Some((hi, lo, e)) ==> q <= e <= s.len(),
{
    lemma_digit_run_end(s, q);
    let e1 = digit_run_end(s, q);
    if e1 < s.len() {
        lemma_digit_run_end(s, e1 + 1);
        let e2 = digit_run_end(s, e1 + 1);
        if e2 < s.len() {
            lemma_digit_run_end(s, e2 + 1);
            let e3 = digit_run_end(s, e2 + 1);
            if e3 < s.len() {
                lemma_digit_run_end(s, e3 + 1);
            }
        }
    }
}

proof fn lemma_read_groups(s: Seq<u8>, p: int, i: int, limit: int, acc: Seq<u16>)
    requires
        0 <= p <= s.len(),
        0 <= i <= limit,
        acc.len() == i,
    ensures
        ({
            let (g, q, v4) = read_groups(s, p, i, limit, acc);
            &&& g.len() <= limit
            &&& p <= q <= s.len()
            &&& (v4 ==> g.len() >= 2)
        }),
    decreases limit - i,
{
    if i < limit {
        let v4 = if i < limit - 1 {
            match after_sep(s, p, i) {
                Some(q) => ipv4_tail(s, q),
                None => None,
            }
        } else {
            None
        };
        if v4 is Some {
            let q = after_sep(s, p, i)->0;
            lemma_digit_run_end(s, q);
            let e1 = digit_run_end(s, q);
            lemma_digit_run_end(s, e1 + 1);
            let e2 = digit_run_end(s, e1 + 1);
            lemma_digit_run_end(s, e2 + 1);
            let e3 = digit_run_end(s, e2 + 1);
            lemma_digit_run_end(s, e3 + 1);
        } else {
            match after_sep(s, p, i) {
                Some(q) => {
                    lemma_hex_run_end(s, q);
                    match hex_group(s, q) {
                        Some((g, e)) => {
                            lemma_read_groups(s, e, i + 1, limit, acc.push(g));
                        },
                        None => {},
                    }
                },
                None => {},
            }
        }
    }
}

/// Exec form of `read_groups` from group 0.
fn read_groups_exec(s: &[u8], p0: usize, limit: usize) -> (r: (Vec<u16>, usize, bool))
    requires
        p0 <= s@.len(),
        limit <= 8,
    ensures
        ({
            let (g, q, v4) = read_groups(s@, p0 as int, 0, limit as int, seq![]);
            r.0@ == g && r.1 == q && r.2 == v4
        }),
{
    let mut acc: Vec<u16> = Vec::new();
    let mut p = p0;
    let mut i: usize = 0;
    while i < limit
        invariant
            p0 <= p <= s@.len(),
            i <= limit <= 8,
            acc@.len() == i,
            read_groups(s@, p as int, i as int, limit as int, acc@) == read_groups(
                s@,
                p0 as int,
                0,
                limit as int,
                seq![],
            ),
        decreases limit - i,
    {
        proof {
            lemma_read_groups(s@, p as int, i as int, limit as int, acc@);
        }
        if i + 1 < limit {
            match read_sep(s, p, i) {
                Some(q) => {
                    proof {
                        lemma_ipv4_tail_bound(s@, q as int);
                    }
                    match read_ipv4_tail(s, q) {
                        Some((hi, lo, e)) => {
                            assert(after_sep(s@, p as int, i as int) == Some(q as int));
                            assert(ipv4_tail(s@, q as int) == Some((hi, lo, e as int)));
                            assert(read_groups(s@, p as int, i as int, limit as int, acc@) == (
                                acc@.push(hi).push(lo),
                                e as int,
                                true,
                            ));
                            acc.push(hi);
                            acc.push(lo);
                            return (acc, e, true);
                        },
                        None => {},
                    }
                },
                None => {},
            }
        }
        match read_sep(s, p, i) {
            Some(q) => {
                match read_hex_group(s, q) {
                    Some((g, e)) => {
                        proof {
                            lemma_hex_run_end(s@, q as int);
                        }
                        acc.push(g);
                        p = e;
                        i = i + 1;
                    },
                    None => {
                        proof {
                            if i + 1 < limit {
                                lemma_ipv4_tail_bound(s@, q as int);
                            }
                        }
                        assert(read_groups(s@, p as int, i as int, limit as int, acc@) == (
                            acc@,
                            p as int,
                            false,
                        ));
                        return (acc, p, false);
                    },
                }
            },
            None => {
                return (acc, p, false);
            },
        }
    }
    (acc, p, false)
}

/// Parses an IPv6 address (eight groups) from `s`.
pub fn parse_ipv6_bytes(s: &[u8]) -> (r: Option<Vec<u16>>)
    ensures
        match parse_ipv6(s@) {
            Some(g) => r is Some && r->0@ == g,
            None => r is None,
        },
{
    proof {
        lemma_read_groups(s@, 0, 0, 8, seq![]);
    }
    let (head, p, v4) = read_groups_exec(s, 0, 8);
    if head.len() == 8 {
        if p == s.len() {
            return Some(head);
        }
        return None;
    }
    if v4 {
        return None;
    }
    if !(p < s.len() && p + 1 < s.len() && s[p] == 58 && s[p + 1] == 58) {
        return None;
    }
    let limit = 8 - (head.len() + 1);
    proof {
        lemma_read_groups(s@, p + 2, 0, limit as int, seq![]);
    }
    let (tail, p2, _v) = read_groups_exec(s, p + 2, limit);
    if p2 != s.len() {
        return None;
    }
    let zeros = 8 - head.len() - tail.len();
    let mut out: Vec<u16> = Vec::new();
    let mut k: usize = 0;
    while k < head.len()
        invariant
            k <= head@.len(),
            out@ == head@.take(k as int),
        decreases head@.len() - k,
    {
        out.push(head[k]);
        assert(head@.take(k + 1) =~= head@.take(k as int).push(head@[k as int]));
        k = k + 1;
    }
    assert(head@.take(head@.len() as int) =~= head@);
    let mut z: usize = 0;
    while z < zeros
        invariant
            z <= zeros,
            out@ == head@ + Seq::new(z as nat, |q: int| 0u16),
        decreases zeros - z,
    {
        out.push(0);
        assert(head@ + Seq::new((z + 1) as nat, |q: int| 0u16) =~= (head@ + Seq::new(
            z as nat,
            |q: int| 0u16,
        )).push(0));
        z = z + 1;
    }
    let ghost mid = out@;
    let mut t: usize = 0;
    while t < tail.len()
        invariant
            t <= tail@.len(),
            out@ == mid + tail@.take(t as int),
        decreases tail@.len() - t,
    {
        out.push(tail[t]);
        assert(mid + tail@.take(t + 1) =~= (mid + tail@.take(t as int)).push(tail@[t as int]));
        t = t + 1;
    }
    assert(tail@.take(tail@.len() as int) =~= tail@);
    Some(out)
}

/// Whether the eight groups are loopback, link-local or unique-local.
fn local_groups_exec(g: &Vec<u16>) -> (r: bool)
    requires
        g@.len() == 8,
    ensures
        r == local_groups(g@),
{
    let loopback = g[0] == 0 && g[1] == 0 && g[2] == 0 && g[3] == 0 && g[4] == 0 && g[5] == 0
        && g[6] == 0 && g[7] == 1;
    if loopback {
        assert(g@ =~= seq![0u16, 0, 0, 0, 0, 0, 0, 1]);
    } else {
        assert(!(g@ =~= seq![0u16, 0, 0, 0, 0, 0, 0, 1])) by {
            if g@ =~= seq![0u16, 0, 0, 0, 0, 0, 0, 1] {
                assert(g@[0] == 0 && g@[7] == 1);
            }
        }
    }
    let s0 = g[0];
    let link = s0 & 0xffc0 == 0xfe80;
    let ula = s0 & 0xfe00 == 0xfc00;
    assert((s0 & 0xffc0 == 0xfe80) == (0xfe80 <= s0 <= 0xfebf)) by (bit_vector);
    assert((s0 & 0xfe00 == 0xfc00) == (0xfc00 <= s0 <= 0xfdff)) by (bit_vector);
    loopback || link || ula
}

proof fn lemma_parse_len(s: Seq<u8>)
    ensures
        parse_ipv6(s) matches Some(g) ==> g.len() == 8,
{
    lemma_read_groups(s, 0, 0, 8, seq![]);
    let (head, p, v4) = read_groups(s, 0, 0, 8, seq![]);
    if head.len() != 8 && !v4 && 0 <= p && p + 1 < s.len() && s[p] == 58 && s[p + 1] == 58 {
        let limit = 8 - (head.len() + 1);
        lemma_read_groups(s, p + 2, 0, limit, seq![]);
    }
}

/// Byte-level core of [`ipv6_is_local`], on an already-stripped address.
pub fn ipv6_local_bytes(s: &[u8]) -> (r: bool)
    ensures
        r == spec_ipv6_local_bytes(s@),
{
    proof {
        lemma_parse_len(s@);
    }
    match parse_ipv6_bytes(s) {
        Some(g) => local_groups_exec(&g),
        None => false,
    }
}

/// First index at or after `a` whose character is not whitespace.
pub open spec fn skip_ws(t: Seq<char>, a: int) -> int
    decreases t.len() - a,
{
    if a >= t.len() || a < 0 || !spec_is_whitespace(t[a]) {
        a
    } else {
        skip_ws(t, a + 1)
    }
}

/// End of `t[a..b]` once trailing whitespace is dropped.
pub open spec fn trim_ws_end(t: Seq<char>, a: int, b: int) -> int
    decreases b - a,
{
    if b <= a || !spec_is_whitespace(t[b - 1]) {
        b
    } else {
        trim_ws_end(t, a, b - 1)
    }
}

/// First index at or after `a` (below `b`) that is not `c`.
pub open spec fn skip_char(t: Seq<char>, a: int, b: int, c: char) -> int
    decreases b - a,
{
    if a >= b || t[a] != c {
        a
    } else {
        skip_char(t, a + 1, b, c)
    }
}

/// End of `t[a..b]` once trailing `c` characters are dropped.
pub open spec fn trim_char_end(t: Seq<char>, a: int, b: int, c: char) -> int
    decreases b - a,
{
    if b <= a || t[b - 1] != c {
        b
    } else {
        trim_char_end(t, a, b - 1, c)
    }
}

/// First index of `c` in `t[a..b]`, or `b`.
pub open spec fn find_char(t: Seq<char>, a: int, b: int, c: char) -> int
    decreases b - a,
{
    if a >= b || t[a] == c {
        a
    } else {
        find_char(t, a + 1, b, c)
    }
}

/// The address part of `s`: surrounding whitespace trimmed, every leading
/// `[` and trailing `]` dropped, and a `%zone` suffix cut off.
pub open spec fn ipv6_core(t: Seq<char>) -> Seq<char> {
    let a0 = skip_ws(t, 0);
    let b0 = trim_ws_end(t, a0, t.len() as int);
    let a1 = skip_char(t, a0, b0, '[');
    let b1 = trim_char_end(t, a1, b0, ']');
    let e = find_char(t, a1, b1, '%');
    t.subrange(a1, e)
}

/// Whether an IPv6 literal is machine-local: loopback (`::1`), link-local
/// (`fe80::/10`) or unique-local (`fc00::/7`). A `[...]` wrapper and a
/// `%zone` suffix are ignored; anything that does not parse is not local.
pub fn ipv6_is_local(s: &str) -> (r: bool)
    ensures
        r == spec_ipv6_local_bytes(proj_seq(ipv6_core(s@))),
{
    let t = chars_of(s);
    let n = t.len();
    let mut a0: usize = 0;
    while a0 < n && is_whitespace(t[a0])
        invariant
            a0 <= n == t@.len(),
            skip_ws(t@, a0 as int) == skip_ws(t@, 0),
        decreases n - a0,
    {
        a0 = a0 + 1;
    }
    let mut b0: usize = n;
    while b0 > a0 && is_whitespace(t[b0 - 1])
        invariant
            a0 <= b0 <= n == t@.len(),
            trim_ws_end(t@, a0 as int, b0 as int) == trim_ws_end(t@, a0 as int, n as int),
        decreases b0 - a0,
    {
        b0 = b0 - 1;
    }
    let mut a1: usize = a0;
    while a1 < b0 && t[a1] == '['
        invariant
            a0 <= a1 <= b0 <= n == t@.len(),
            skip_char(t@, a1 as int, b0 as int, '[') == skip_char(t@, a0 as int, b0 as int, '['),
        decreases b0 - a1,
    {
        a1 = a1 + 1;
    }
    let mut b1: usize = b0;
    while b1 > a1 && t[b1 - 1] == ']'
        invariant
            a1 <= b1 <= b0 <= n == t@.len(),
            trim_char_end(t@, a1 as int, b1 as int, ']') == trim_char_end(
                t@,
                a1 as int,
                b0 as int,
                ']',
            ),
        decreases b1 - a1,
    {
        b1 = b1 - 1;
    }
    let mut e: usize = a1;
    while e < b1 && t[e] != '%'
        invariant
            a1 <= e <= b1 <= n == t@.len(),
            find_char(t@, e as int, b1 as int, '%') == find_char(t@, a1 as int, b1 as int, '%'),
        decreases b1 - e,
    {
        e = e + 1;
    }
    let mut core: Vec<u8> = Vec::new();
    let mut k: usize = a1;
    while k < e
        invariant
            a1 <= k <= e <= n == t@.len(),
            core@ =~= proj_seq(t@.subrange(a1 as int, k as int)),
        decreases e - k,
    {
        let c = t[k];
        let u = c as u32;
        let p: u8 = if u < 128 { u as u8 } else { 0x80 };
        assert(p == proj(t@[k as int]));
        core.push(p);
        assert(core@ =~= proj_seq(t@.subrange(a1 as int, k + 1)));
        k = k + 1;
    }
    ipv6_local_bytes(core.as_slice())
}

} // verus!
