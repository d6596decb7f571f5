//! Keyword / privacy highlighting of terminal rows without regexes: URLs
//! (followed across soft wraps), IPv4 and IPv6 addresses, `user@host`
//! tokens, home-directory user names, saved hostnames, Unix paths and
//! standalone numbers.
//!
//! Every scan works on one character per column, so span boundaries are
//! columns directly, also on rows holding multi-byte characters.
use vstd::prelude::*;
use crate::ascii::{
    is_alnum, is_digit, is_hex, is_word_byte, spec_is_alnum, spec_is_digit, spec_is_word_byte,
};
use crate::highlight::{
    covered, covers, is_covered, coloured, is_coloured, row_text, spec_row_text, lemma_row_text_len, Highlight,
    HighlightColor, HighlightKind, PrivacyClasses, ScanRow,
};
use crate::ipv6::{ipv6_local_bytes, spec_ipv6_local_bytes};
use crate::runs::{
    in_class, is_tok, lemma_path_back, lemma_run_end, lemma_token_end, lemma_trim_tail,
    path_back, path_back_exec, lemma_token_end_past, lemma_trim_tail_stop, run_end, run_end_exec, spec_hexcolon, spec_is_tok, tok_left,
    tok_left_exec, lemma_tok_left, token_end, token_end_exec, trim_tail, trim_tail_exec, Class,
};
use crate::scan::{
    lemma_quad_end_bounds, looks_like_ipv6_bytes, private_v4_bytes, quad_candidates, quad_end,
    quad_scan, spec_glue, spec_looks_like_ipv6, spec_private_v4,
};
use crate::text::{chars_of, project, proj_seq, spec_is_whitespace};

verus! {

pub open spec fn hl(row: u16, s: int, e: int, color: HighlightColor, kind: HighlightKind) -> Highlight {
    Highlight { row, start_col: s as u16, end_col: e as u16, color, kind }
}

// ---------------------------------------------------------------------------
// URLs
// ---------------------------------------------------------------------------

/// `t[i..]` starts with `http://` or `https://`.
pub open spec fn url_start(t: Seq<char>, i: int) -> bool {
    (0 <= i && i + 7 <= t.len() && t.subrange(i, i + 7) =~= seq!['h', 't', 't', 'p', ':', '/', '/'])
        || (0 <= i && i + 8 <= t.len() && t.subrange(i, i + 8) =~= seq![
        'h',
        't',
        't',
        'p',
        's',
        ':',
        '/',
        '/',
    ])
}

/// The URL scan of a row from `i`: each `http(s)://` token runs to the next
/// whitespace / NUL; trailing punctuation is trimmed unless the token
/// reaches the wrap margin, in which case the row carries the URL into the
/// next one. Returns the spans and whether the row carries.
pub open spec fn url_scan(
    t: Seq<char>,
    b: Seq<u8>,
    row: u16,
    wraps_at: Option<u16>,
    i: int,
    acc: Seq<Highlight>,
    carry: bool,
) -> (Seq<Highlight>, bool)
    decreases t.len() - i,
{
    if i < 0 || i >= t.len() {
        (acc, carry)
    } else if url_start(t, i) {
        proof {
            lemma_url_start_chars(t, i);
            lemma_token_end(t, i);
        }
        let end = token_end(t, i);
        let carries_on = wraps_at == Some((end - 1) as u16);
        let cut = if carries_on { end } else { trim_tail(b, end, i) };
        url_scan(
            t,
            b,
            row,
            wraps_at,
            end,
            acc.push(hl(row, i, cut - 1, HighlightColor::Ansi(4), HighlightKind::Url)),
            carry || carries_on,
        )
    } else {
        url_scan(t, b, row, wraps_at, i + 1, acc, carry)
    }
}

/// The URL pass of a row. When the row above carried a URL into this one
/// (`claimed`), the leading token is the URL's tail and is highlighted from
/// column 0 (unless trimming its trailing punctuation leaves nothing, in
/// which case it adds no span) before the scan resumes after it.
pub open spec fn url_row(
    t: Seq<char>,
    b: Seq<u8>,
    row: u16,
    wraps_at: Option<u16>,
    claimed: bool,
    acc: Seq<Highlight>,
) -> (Seq<Highlight>, bool) {
    if claimed && token_end(t, 0) > 0 {
        let end = token_end(t, 0);
        let carries_on = wraps_at == Some((end - 1) as u16);
        let cut = if carries_on { end } else { trim_tail(b, end, 0) };
        let spans = if cut == 0 {
            acc
        } else {
            acc.push(hl(row, 0, cut - 1, HighlightColor::Ansi(4), HighlightKind::Url))
        };
        url_scan(t, b, row, wraps_at, end, spans, carries_on)
    } else {
        url_scan(t, b, row, wraps_at, 0, acc, false)
    }
}

pub proof fn lemma_url_start_chars(t: Seq<char>, i: int)
    requires
        url_start(t, i),
    ensures
        i + 7 <= t.len(),
        t[i] == 'h',
        t[i + 6] == '/',
        forall|k: int| i <= k < i + 7 ==> !spec_is_whitespace(#[trigger] t[k]) && t[k] != '\0',
{
    let h7 = seq!['h', 't', 't', 'p', ':', '/', '/'];
    let h8 = seq!['h', 't', 't', 'p', 's', ':', '/', '/'];
    assert(h7[0] == 'h' && h7[1] == 't' && h7[2] == 't' && h7[3] == 'p' && h7[4] == ':' && h7[5]
        == '/' && h7[6] == '/');
    assert(h8[0] == 'h' && h8[1] == 't' && h8[2] == 't' && h8[3] == 'p' && h8[4] == 's' && h8[5]
        == ':' && h8[6] == '/' && h8[7] == '/');
    if i + 7 <= t.len() && t.subrange(i, i + 7) =~= h7 {
        assert forall|k: int| i <= k < i + 7 implies !spec_is_whitespace(#[trigger] t[k]) && t[k]
            != '\0' by {
            assert(t[k] == t.subrange(i, i + 7)[k - i]);
        }
        assert(t[i] == t.subrange(i, i + 7)[0]);
        assert(t[i + 6] == t.subrange(i, i + 7)[6]);
    } else {
        assert(t.subrange(i, i + 8) =~= h8);
        assert forall|k: int| i <= k < i + 7 implies !spec_is_whitespace(#[trigger] t[k]) && t[k]
            != '\0' by {
            assert(t[k] == t.subrange(i, i + 8)[k - i]);
        }
        assert(t[i] == t.subrange(i, i + 8)[0]);
        assert(t[i + 6] == t.subrange(i, i + 8)[6]);
    }
}

pub fn is_url_start(t: &Vec<char>, i: usize) -> (r: bool)
    requires
        i < t@.len(),
    ensures
        r == url_start(t@, i as int),
{
    let n = t.len();
    if n - i >= 7 && t[i] == 'h' && t[i + 1] == 't' && t[i + 2] == 't' && t[i + 3] == 'p' && t[i
        + 4] == ':' && t[i + 5] == '/' && t[i + 6] == '/' {
        assert(t@.subrange(i as int, i + 7) =~= seq!['h', 't', 't', 'p', ':', '/', '/']);
        return true;
    }
    if n - i >= 8 && t[i] == 'h' && t[i + 1] == 't' && t[i + 2] == 't' && t[i + 3] == 'p' && t[i
        + 4] == 's' && t[i + 5] == ':' && t[i + 6] == '/' && t[i + 7] == '/' {
        assert(t@.subrange(i as int, i + 8) =~= seq!['h', 't', 't', 'p', 's', ':', '/', '/']);
        return true;
    }
    proof {
        if i + 7 <= n && t@.subrange(i as int, i + 7) =~= seq!['h', 't', 't', 'p', ':', '/', '/'] {
            assert(t@[i as int] == t@.subrange(i as int, i + 7)[0]);
            assert(t@[i + 1] == t@.subrange(i as int, i + 7)[1]);
            assert(t@[i + 2] == t@.subrange(i as int, i + 7)[2]);
            assert(t@[i + 3] == t@.subrange(i as int, i + 7)[3]);
            assert(t@[i + 4] == t@.subrange(i as int, i + 7)[4]);
            assert(t@[i + 5] == t@.subrange(i as int, i + 7)[5]);
            assert(t@[i + 6] == t@.subrange(i as int, i + 7)[6]);
        }
        if i + 8 <= n && t@.subrange(i as int, i + 8) =~= seq![
            'h',
            't',
            't',
            'p',
            's',
            ':',
            '/',
            '/',
        ] {
            assert(t@[i as int] == t@.subrange(i as int, i + 8)[0]);
            assert(t@[i + 1] == t@.subrange(i as int, i + 8)[1]);
            assert(t@[i + 2] == t@.subrange(i as int, i + 8)[2]);
            assert(t@[i + 3] == t@.subrange(i as int, i + 8)[3]);
            assert(t@[i + 4] == t@.subrange(i as int, i + 8)[4]);
            assert(t@[i + 5] == t@.subrange(i as int, i + 8)[5]);
            assert(t@[i + 6] == t@.subrange(i as int, i + 8)[6]);
            assert(t@[i + 7] == t@.subrange(i as int, i + 8)[7]);
        }
    }
    false
}

fn url_pass(
    t: &Vec<char>,
    b: &Vec<u8>,
    row: u16,
    wraps_at: Option<u16>,
    claimed: bool,
    hs: &mut Vec<Highlight>,
) -> (carry: bool)
    requires
        b@ == proj_seq(t@),
        t@.len() <= 65536,
    ensures
        (final(hs)@, carry) == url_row(t@, b@, row, wraps_at, claimed, old(hs)@),
{
    let n = t.len();
    let mut i: usize = 0;
    let mut carry = false;
    proof {
        lemma_token_end(t@, 0);
    }
    let first_end = token_end_exec(t, 0);
    if claimed && first_end > 0 {
        let carries_on = wraps_at == Some((first_end - 1) as u16);
        let cut = if carries_on {
            first_end
        } else {
            trim_tail_exec(b, first_end, 0)
        };
        if cut > 0 {
            hs.push(
                Highlight {
                    row,
                    start_col: 0,
                    end_col: (cut - 1) as u16,
                    color: HighlightColor::Ansi(4),
                    kind: HighlightKind::Url,
                },
            );
        }
        i = first_end;
        carry = carries_on;
    }
    while i < n
        invariant
            n == t@.len() <= 65536,
            b@ == proj_seq(t@),
            i <= n,
            url_scan(t@, b@, row, wraps_at, i as int, hs@, carry) == url_row(
                t@,
                b@,
                row,
                wraps_at,
                claimed,
                old(hs)@,
            ),
        decreases n - i,
    {
        if t[i] == 'h' && is_url_start(t, i) {
            proof {
                lemma_token_end(t@, i as int);
                lemma_url_start_chars(t@, i as int);
                lemma_token_end_past(t@, i as int, i + 7);
                assert(b@[i + 6] == 47);
            }
            let end = token_end_exec(t, i);
            proof {
                lemma_trim_tail_stop(b@, end as int, i as int, i + 6);
            }
            let carries_on = wraps_at == Some((end - 1) as u16);
            let cut = if carries_on {
                end
            } else {
                trim_tail_exec(b, end, i)
            };
            hs.push(
                Highlight {
                    row,
                    start_col: i as u16,
                    end_col: (cut - 1) as u16,
                    color: HighlightColor::Ansi(4),
                    kind: HighlightKind::Url,
                },
            );
            carry = carry || carries_on;
            i = end;
        } else {
            proof {
                if url_start(t@, i as int) {
                    lemma_url_start_chars(t@, i as int);
                }
            }
            i = i + 1;
        }
    }
    carry
}

} // verus!

verus! {

// ---------------------------------------------------------------------------
// Shared helpers
// ---------------------------------------------------------------------------

/// A saved-connection term equal to `text`.
pub open spec fn term_hit(terms: Seq<Seq<char>>, text: Seq<char>) -> bool {
    exists|q: int| 0 <= q < terms.len() && terms[q] == text
}

pub fn sub_vec(b: &Vec<u8>, s: usize, e: usize) -> (v: Vec<u8>)
    requires
        s <= e <= b@.len(),
    ensures
        v@ == b@.subrange(s as int, e as int),
{
    let mut v: Vec<u8> = Vec::new();
    let mut k = s;
    while k < e
        invariant
            s <= k <= e <= b@.len(),
            v@ =~= b@.subrange(s as int, k as int),
        decreases e - k,
    {
        v.push(b[k]);
        k = k + 1;
    }
    v
}

fn chars_equal_range(a: &Vec<char>, t: &Vec<char>, s: usize, e: usize) -> (r: bool)
    requires
        s <= e <= t@.len(),
    ensures
        r == (a@ == t@.subrange(s as int, e as int)),
{
    if a.len() != e - s {
        return false;
    }
    let mut k: usize = 0;
    while k < a.len()
        invariant
            a@.len() == e - s,
            s <= e <= t@.len(),
            k <= a@.len(),
            forall|q: int| 0 <= q < k ==> a@[q] == t@[s + q],
        decreases a@.len() - k,
    {
        if a[k] != t[s + k] {
            assert(a@[k as int] != t@.subrange(s as int, e as int)[k as int]);
            return false;
        }
        k = k + 1;
    }
    assert(a@ =~= t@.subrange(s as int, e as int));
    true
}

fn any_term_hit(terms: &Vec<Vec<char>>, t: &Vec<char>, s: usize, e: usize) -> (r: bool)
    requires
        s <= e <= t@.len(),
    ensures
        r == term_hit(terms@.map_values(|v: Vec<char>| v@), t@.subrange(s as int, e as int)),
{
    let ghost tv = terms@.map_values(|v: Vec<char>| v@);
    let mut q: usize = 0;
    while q < terms.len()
        invariant
            s <= e <= t@.len(),
            q <= terms@.len(),
            tv == terms@.map_values(|v: Vec<char>| v@),
            forall|j: int| 0 <= j < q ==> tv[j] != t@.subrange(s as int, e as int),
        decreases terms@.len() - q,
    {
        if chars_equal_range(&terms[q], t, s, e) {
            assert(tv[q as int] == t@.subrange(s as int, e as int));
            return true;
        }
        q = q + 1;
    }
    false
}

// ---------------------------------------------------------------------------
// IPv4
// ---------------------------------------------------------------------------

/// The address class of a quad / IPv6 literal is enabled for masking.
pub open spec fn class_on(classes: PrivacyClasses, private: bool) -> bool {
    if private { classes.private_ips } else { classes.public_ips }
}

/// The IPv4 pass over the quad candidates `cands[k..]`: a candidate that
/// equals a saved term or whose address class is on is `Ip` (masked),
/// otherwise `VersionQuad`. A candidate starting inside an earlier span is
/// skipped, except an `Ip` under Privacy Mode, which is still added so the
/// address inside a URL host is masked.
pub open spec fn v4_pass(
    t: Seq<char>,
    b: Seq<u8>,
    row: u16,
    cands: Seq<(usize, usize)>,
    k: int,
    acc: Seq<Highlight>,
    privacy: bool,
    terms: Seq<Seq<char>>,
    classes: PrivacyClasses,
) -> Seq<Highlight>
    decreases cands.len() - k,
{
    if k < 0 || k >= cands.len() {
        acc
    } else {
        let s = cands[k].0 as int;
        let e = cands[k].1 as int;
        let dominated = covered(acc, row, s as u16);
        let masked = term_hit(terms, t.subrange(s, e)) || class_on(
            classes,
            spec_private_v4(b.subrange(s, e)),
        );
        if dominated && !(privacy && masked) {
            v4_pass(t, b, row, cands, k + 1, acc, privacy, terms, classes)
        } else {
            v4_pass(
                t,
                b,
                row,
                cands,
                k + 1,
                acc.push(
                    hl(
                        row,
                        s,
                        e - 1,
                        HighlightColor::Ansi(5),
                        if masked {
                            HighlightKind::Ip
                        } else {
                            HighlightKind::VersionQuad
                        },
                    ),
                ),
                privacy,
                terms,
                classes,
            )
        }
    }
}

/// Every candidate the quad scan adds is a non-empty span inside the row.
pub proof fn lemma_quad_scan_bounds(s: Seq<u8>, i: int, acc: Seq<(usize, usize)>)
    requires
        0 <= i <= s.len(),
        s.len() <= usize::MAX,
    ensures
        quad_scan(s, i, acc).len() >= acc.len(),
        forall|k: int| 0 <= k < acc.len() ==> quad_scan(s, i, acc)[k] == acc[k],
        forall|k: int|
            acc.len() <= k < quad_scan(s, i, acc).len() ==> (quad_scan(s, i, acc)[k].0 as int)
                < (quad_scan(s, i, acc)[k].1 as int) <= s.len() && i <= quad_scan(s, i, acc)[k].0
                as int,
    decreases s.len() - i,
{
    if i < s.len() {
        if spec_is_digit(s[i]) && !(i > 0 && spec_glue(s[i - 1])) && quad_end(s, i) is Some
            && !(quad_end(s, i)->0 < s.len() && spec_glue(s[quad_end(s, i)->0])) {
            lemma_quad_end_bounds(s, i);
            let e = quad_end(s, i)->0;
            assert((i as usize) as int == i && (e as usize) as int == e);
            let acc2 = acc.push((i as usize, e as usize));
            assert(quad_scan(s, i, acc) == quad_scan(s, e, acc2));
            lemma_quad_scan_bounds(s, e, acc2);
            assert(acc2[acc.len() as int] == (i as usize, e as usize));
            assert forall|k: int| 0 <= k < acc.len() implies quad_scan(s, i, acc)[k] == acc[k] by {
                assert(acc2[k] == acc[k]);
            }
        } else {
            assert(quad_scan(s, i, acc) == quad_scan(s, i + 1, acc));
            lemma_quad_scan_bounds(s, i + 1, acc);
        }
    }
}

fn v4_pass_exec(
    t: &Vec<char>,
    b: &Vec<u8>,
    row: u16,
    privacy: bool,
    terms: &Vec<Vec<char>>,
    classes: PrivacyClasses,
    hs: &mut Vec<Highlight>,
)
    requires
        b@ == proj_seq(t@),
        t@.len() <= 65536,
    ensures
        final(hs)@ == v4_pass(
            t@,
            b@,
            row,
            quad_scan(b@, 0, seq![]),
            0,
            old(hs)@,
            privacy,
            terms@.map_values(|v: Vec<char>| v@),
            classes,
        ),
{
    let ghost tv = terms@.map_values(|v: Vec<char>| v@);
    let cands = quad_candidates(b.as_slice());
    proof {
        lemma_quad_scan_bounds(b@, 0, seq![]);
    }
    let mut k: usize = 0;
    while k < cands.len()
        invariant
            b@ == proj_seq(t@),
            t@.len() <= 65536,
            tv == terms@.map_values(|v: Vec<char>| v@),
            cands@ == quad_scan(b@, 0, seq![]),
            forall|q: int|
                0 <= q < cands@.len() ==> (#[trigger] cands@[q].0 as int) < (cands@[q].1 as int)
                    <= b@.len(),
            k <= cands@.len(),
            v4_pass(t@, b@, row, cands@, k as int, hs@, privacy, tv, classes) == v4_pass(
                t@,
                b@,
                row,
                cands@,
                0,
                old(hs)@,
                privacy,
                tv,
                classes,
            ),
        decreases cands@.len() - k,
    {
        let (s, e) = cands[k];
        assert(s < e <= b@.len());
        let dominated = is_covered(hs, row, s as u16);
        let hit = any_term_hit(terms, t, s, e);
        let seg = sub_vec(b, s, e);
        let private = private_v4_bytes(seg.as_slice());
        let on = if private {
            classes.private_ips
        } else {
            classes.public_ips
        };
        let masked = hit || on;
        if dominated && !(privacy && masked) {
            k = k + 1;
        } else {
            hs.push(
                Highlight {
                    row,
                    start_col: s as u16,
                    end_col: (e - 1) as u16,
                    color: HighlightColor::Ansi(5),
                    kind: if masked {
                        HighlightKind::Ip
                    } else {
                        HighlightKind::VersionQuad
                    },
                },
            );
            k = k + 1;
        }
    }
}

// ---------------------------------------------------------------------------
// IPv6
// ---------------------------------------------------------------------------

/// The IPv6 pass from `i`: each maximal hex/colon run, with one stray
/// colon trimmed off either end, that is not glued to a word and is
/// IPv6-shaped becomes an `Ip` span (or `VersionQuad` when its class is
/// off), unless it starts inside an earlier colouring span (a Privacy Mode
/// marker does not count) and would not be masked.
pub open spec fn v6_pass(
    b: Seq<u8>,
    row: u16,
    i: int,
    acc: Seq<Highlight>,
    privacy: bool,
    classes: PrivacyClasses,
) -> Seq<Highlight>
    decreases b.len() - i,
{
    if i < 0 || i >= b.len() {
        acc
    } else if !spec_hexcolon(b[i]) {
        v6_pass(b, row, i + 1, acc, privacy, classes)
    } else {
        proof {
            lemma_run_end(b, i, Class::HexColon);
        }
        let j = run_end(b, i, Class::HexColon);
        let glued = (i > 0 && (spec_is_word_byte(b[i - 1]) || b[i - 1] == 46)) || (j < b.len()
            && spec_is_word_byte(b[j]));
        let s2 = if j - i >= 2 && b[i] == 58 && b[i + 1] != 58 { i + 1 } else { i };
        let e2 = if j - s2 >= 2 && b[j - 1] == 58 && b[j - 2] != 58 { j - 1 } else { j };
        let seg = b.subrange(s2, e2);
        let on = class_on(classes, spec_ipv6_local_bytes(seg));
        let acc2 = if !glued && spec_looks_like_ipv6(seg) && (!coloured(acc, row, s2 as u16) || (
        privacy && on)) {
            acc.push(
                hl(
                    row,
                    s2,
                    e2 - 1,
                    HighlightColor::Ansi(5),
                    if on {
                        HighlightKind::Ip
                    } else {
                        HighlightKind::VersionQuad
                    },
                ),
            )
        } else {
            acc
        };
        v6_pass(b, row, j, acc2, privacy, classes)
    }
}

fn v6_pass_exec(
    b: &Vec<u8>,
    row: u16,
    privacy: bool,
    classes: PrivacyClasses,
    hs: &mut Vec<Highlight>,
)
    requires
        b@.len() <= 65536,
    ensures
        final(hs)@ == v6_pass(b@, row, 0, old(hs)@, privacy, classes),
{
    let n = b.len();
    let mut i: usize = 0;
    while i < n
        invariant
            n == b@.len() <= 65536,
            i <= n,
            v6_pass(b@, row, i as int, hs@, privacy, classes) == v6_pass(
                b@,
                row,
                0,
                old(hs)@,
                privacy,
                classes,
            ),
        decreases n - i,
    {
        let x = b[i];
        if !(is_hex(x) || x == 58) {
            i = i + 1;
            continue;
        }
        proof {
            lemma_run_end(b@, i as int, Class::HexColon);
        }
        let j = run_end_exec(b, i, Class::HexColon);
        let glued = (i > 0 && (is_word_byte(b[i - 1]) || b[i - 1] == 46)) || (j < n
            && is_word_byte(b[j]));
        let s2 = if j - i >= 2 && b[i] == 58 && b[i + 1] != 58 {
            i + 1
        } else {
            i
        };
        let e2 = if j - s2 >= 2 && b[j - 1] == 58 && b[j - 2] != 58 {
            j - 1
        } else {
            j
        };
        let seg = sub_vec(b, s2, e2);
        if !glued && looks_like_ipv6_bytes(seg.as_slice()) {
            let local = ipv6_local_bytes(seg.as_slice());
            let on = if local {
                classes.private_ips
            } else {
                classes.public_ips
            };
            let dominated = is_coloured(hs, row, s2 as u16);
            if !dominated || (privacy && on) {
                hs.push(
                    Highlight {
                        row,
                        start_col: s2 as u16,
                        end_col: (e2 - 1) as u16,
                        color: HighlightColor::Ansi(5),
                        kind: if on {
                            HighlightKind::Ip
                        } else {
                            HighlightKind::VersionQuad
                        },
                    },
                );
            }
        }
        i = j;
    }
}

} // verus!

verus! {

// ---------------------------------------------------------------------------
// user@host tokens
// ---------------------------------------------------------------------------

/// `user@host` scan from `i`: an `@` with token bytes on both sides spans
/// the whole token run around it.
pub open spec fn host_user_pass(b: Seq<u8>, row: u16, i: int, acc: Seq<Highlight>) -> Seq<
    Highlight,
>
    decreases b.len() - i,
{
    if i < 0 || i >= b.len() {
        acc
    } else if b[i] == 64 && i > 0 && i + 1 < b.len() && spec_is_tok(b[i - 1]) && spec_is_tok(
        b[i + 1],
    ) {
        proof {
            lemma_run_end(b, i + 1, Class::Tok);
        }
        let start = tok_left(b, i);
        let end = run_end(b, i + 1, Class::Tok);
        host_user_pass(
            b,
            row,
            end,
            acc.push(hl(row, start, end - 1, HighlightColor::Ansi(5), HighlightKind::HostUser)),
        )
    } else {
        host_user_pass(b, row, i + 1, acc)
    }
}

fn host_user_exec(b: &Vec<u8>, row: u16, hs: &mut Vec<Highlight>)
    requires
        b@.len() <= 65536,
    ensures
        final(hs)@ == host_user_pass(b@, row, 0, old(hs)@),
{
    let n = b.len();
    let mut i: usize = 0;
    while i < n
        invariant
            n == b@.len() <= 65536,
            i <= n,
            host_user_pass(b@, row, i as int, hs@) == host_user_pass(b@, row, 0, old(hs)@),
        decreases n - i,
    {
        if b[i] == 64 && i > 0 && i + 1 < n && is_tok(b[i - 1]) && is_tok(b[i + 1]) {
            proof {
                lemma_run_end(b@, i + 1, Class::Tok);
            }
            let start = tok_left_exec(b, i);
            let end = run_end_exec(b, i + 1, Class::Tok);
            hs.push(
                Highlight {
                    row,
                    start_col: start as u16,
                    end_col: (end - 1) as u16,
                    color: HighlightColor::Ansi(5),
                    kind: HighlightKind::HostUser,
                },
            );
            i = end;
        } else {
            i = i + 1;
        }
    }
}

// ---------------------------------------------------------------------------
// Home-directory user names
// ---------------------------------------------------------------------------

pub open spec fn ascii_lower(x: u8) -> u8 {
    if 65 <= x <= 90 { (x + 32) as u8 } else { x }
}

/// `b[i..i + m.len()]` equals the lowercase marker `m`, ignoring ASCII case.
pub open spec fn marker_at(b: Seq<u8>, i: int, m: Seq<u8>) -> bool {
    0 <= i && i + m.len() <= b.len() && forall|k: int|
        0 <= k < m.len() ==> ascii_lower(#[trigger] b[i + k]) == m[k]
}

pub open spec fn win_users() -> Seq<u8> {
    seq![92u8, 117, 115, 101, 114, 115, 92]
}

pub open spec fn unix_home() -> Seq<u8> {
    seq![47u8, 104, 111, 109, 101, 47]
}

pub open spec fn mac_users() -> Seq<u8> {
    seq![47u8, 117, 115, 101, 114, 115, 47]
}

/// Length of the home-directory marker at `i` (`\users\`, `/home/` or
/// `/users/`, case-insensitive), the first that matches.
pub open spec fn marker_len(b: Seq<u8>, i: int) -> Option<int> {
    if marker_at(b, i, win_users()) {
        Some(7)
    } else if marker_at(b, i, unix_home()) {
        Some(6)
    } else if marker_at(b, i, mac_users()) {
        Some(7)
    } else {
        None
    }
}

/// Some URL span of `acc` on `row` covers column `c`.
pub open spec fn inside_url(acc: Seq<Highlight>, row: u16, c: u16) -> bool {
    exists|k: int|
        0 <= k < acc.len() && acc[k].kind == HighlightKind::Url && covers(#[trigger] acc[k], row, c)
}

/// Home-directory scan from `i`: after a marker, the token run is the user
/// name (unless empty or inside a URL); the scan resumes after it.
pub open spec fn user_dir_pass(b: Seq<u8>, row: u16, i: int, acc: Seq<Highlight>) -> Seq<
    Highlight,
>
    decreases b.len() - i,
{
    if i < 0 || i >= b.len() {
        acc
    } else if b[i] != 92 && b[i] != 47 {
        user_dir_pass(b, row, i + 1, acc)
    } else {
        match marker_len(b, i) {
            None => user_dir_pass(b, row, i + 1, acc),
            Some(m) => {
                proof {
                    lemma_run_end(b, i + m, Class::Tok);
                }
                let start = i + m;
                let end = run_end(b, start, Class::Tok);
                let acc2 = if end > start && !inside_url(acc, row, start as u16) {
                    acc.push(
                        hl(row, start, end - 1, HighlightColor::Ansi(5), HighlightKind::UserDir),
                    )
                } else {
                    acc
                };
                user_dir_pass(b, row, if end > i + 1 { end } else { i + 1 }, acc2)
            },
        }
    }
}

fn lower_byte(x: u8) -> (r: u8)
    ensures
        r == ascii_lower(x),
{
    if 65 <= x && x <= 90 {
        x + 32
    } else {
        x
    }
}

fn marker_at_exec(b: &Vec<u8>, i: usize, m: &[u8]) -> (r: bool)
    requires
        i <= b@.len() <= 65536,
    ensures
        r == marker_at(b@, i as int, m@),
{
    if m.len() > b.len() - i {
        return false;
    }
    let mut k: usize = 0;
    while k < m.len()
        invariant
            i + m@.len() <= b@.len() <= 65536,
            k <= m@.len(),
            forall|q: int| 0 <= q < k ==> ascii_lower(#[trigger] b@[i + q]) == m@[q],
        decreases m@.len() - k,
    {
        if lower_byte(b[i + k]) != m[k] {
            return false;
        }
        k = k + 1;
    }
    true
}

fn marker_len_exec(b: &Vec<u8>, i: usize) -> (r: Option<usize>)
    requires
        i <= b@.len() <= 65536,
    ensures
        match marker_len(b@, i as int) {
            Some(m) => r == Some(m as usize),
            None => r is None,
        },
{
    let w: [u8; 7] = [92, 117, 115, 101, 114, 115, 92];
    let h: [u8; 6] = [47, 104, 111, 109, 101, 47];
    let u: [u8; 7] = [47, 117, 115, 101, 114, 115, 47];
    assert(w@ =~= win_users());
    assert(h@ =~= unix_home());
    assert(u@ =~= mac_users());
    if marker_at_exec(b, i, w.as_slice()) {
        Some(7)
    } else if marker_at_exec(b, i, h.as_slice()) {
        Some(6)
    } else if marker_at_exec(b, i, u.as_slice()) {
        Some(7)
    } else {
        None
    }
}

fn is_inside_url(hs: &Vec<Highlight>, row: u16, c: u16) -> (r: bool)
    ensures
        r == inside_url(hs@, row, c),
{
    let mut k: usize = 0;
    while k < hs.len()
        invariant
            k <= hs@.len(),
            forall|q: int|
                0 <= q < k ==> !(hs@[q].kind == HighlightKind::Url && covers(
                    #[trigger] hs@[q],
                    row,
                    c,
                )),
        decreases hs@.len() - k,
    {
        let h = hs[k];
        if h.kind == HighlightKind::Url && h.row == row && h.start_col <= c && c <= h.end_col {
            return true;
        }
        k = k + 1;
    }
    false
}

fn user_dir_exec(b: &Vec<u8>, row: u16, hs: &mut Vec<Highlight>)
    requires
        b@.len() <= 65536,
    ensures
        final(hs)@ == user_dir_pass(b@, row, 0, old(hs)@),
{
    let n = b.len();
    let mut i: usize = 0;
    while i < n
        invariant
            n == b@.len() <= 65536,
            i <= n,
            user_dir_pass(b@, row, i as int, hs@) == user_dir_pass(b@, row, 0, old(hs)@),
        decreases n - i,
    {
        if b[i] != 92 && b[i] != 47 {
            i = i + 1;
            continue;
        }
        match marker_len_exec(b, i) {
            None => {
                i = i + 1;
            },
            Some(m) => {
                let start = i + m;
                proof {
                    lemma_run_end(b@, start as int, Class::Tok);
                }
                let end = run_end_exec(b, start, Class::Tok);
                if end > start && !is_inside_url(hs, row, start as u16) {
                    hs.push(
                        Highlight {
                            row,
                            start_col: start as u16,
                            end_col: (end - 1) as u16,
                            color: HighlightColor::Ansi(5),
                            kind: HighlightKind::UserDir,
                        },
                    );
                }
                i = if end > i + 1 {
                    end
                } else {
                    i + 1
                };
            },
        }
    }
}

} // verus!

verus! {

// ---------------------------------------------------------------------------
// Saved hostnames
// ---------------------------------------------------------------------------

/// `a` lowercased (ASCII only) equals `c`.
pub open spec fn eq_lower(a: char, c: char) -> bool {
    if 65 <= (a as u32) <= 90 {
        (c as u32) == (a as u32) + 32
    } else {
        a == c
    }
}

/// `term` occurs at `s` in `t`, comparing `t` ASCII-lowercased.
pub open spec fn match_at(t: Seq<char>, term: Seq<char>, s: int) -> bool {
    0 <= s && s + term.len() <= t.len() && forall|k: int|
        0 <= k < term.len() ==> eq_lower(#[trigger] t[s + k], term[k])
}

/// First occurrence of `term` at or after `from`.
pub open spec fn find_from(t: Seq<char>, term: Seq<char>, from: int) -> Option<int>
    decreases t.len() - from,
{
    if from < 0 || from + term.len() > t.len() {
        None
    } else if match_at(t, term, from) {
        Some(from)
    } else {
        find_from(t, term, from + 1)
    }
}

pub proof fn lemma_find_from(t: Seq<char>, term: Seq<char>, from: int)
    requires
        0 <= from,
    ensures
        find_from(t, term, from) matches Some(s) ==> from <= s && s + term.len() <= t.len()
            && match_at(t, term, s),
    decreases t.len() - from,
{
    if from + term.len() <= t.len() && !match_at(t, term, from) {
        lemma_find_from(t, term, from + 1);
    }
}

/// Every token-bounded occurrence of one saved term from `from` on.
pub open spec fn known_host_term(
    t: Seq<char>,
    b: Seq<u8>,
    row: u16,
    term: Seq<char>,
    from: int,
    acc: Seq<Highlight>,
) -> Seq<Highlight>
    decreases t.len() - from,
{
    if term.len() == 0 || from < 0 {
        acc
    } else {
        match find_from(t, term, from) {
            None => acc,
            Some(s0) => {
                proof {
                    lemma_find_from(t, term, from);
                }
                let e0 = s0 + term.len();
                let bounded = (s0 == 0 || !spec_is_tok(b[s0 - 1])) && (e0 >= b.len()
                    || !spec_is_tok(b[e0]));
                known_host_term(
                    t,
                    b,
                    row,
                    term,
                    e0,
                    if bounded {
                        acc.push(
                            hl(row, s0, e0 - 1, HighlightColor::Ansi(5), HighlightKind::KnownHost),
                        )
                    } else {
                        acc
                    },
                )
            },
        }
    }
}

/// The saved-hostname pass, term by term from `terms[q]`.
pub open spec fn known_host_pass(
    t: Seq<char>,
    b: Seq<u8>,
    row: u16,
    terms: Seq<Seq<char>>,
    q: int,
    acc: Seq<Highlight>,
) -> Seq<Highlight>
    decreases terms.len() - q,
{
    if q < 0 || q >= terms.len() {
        acc
    } else {
        known_host_pass(t, b, row, terms, q + 1, known_host_term(t, b, row, terms[q], 0, acc))
    }
}

fn eq_lower_exec(a: char, c: char) -> (r: bool)
    ensures
        r == eq_lower(a, c),
{
    let u = a as u32;
    if 65 <= u && u <= 90 {
        (c as u32) == u + 32
    } else {
        a == c
    }
}

fn match_at_exec(t: &Vec<char>, term: &Vec<char>, s: usize) -> (r: bool)
    requires
        s <= t@.len() <= 65536,
    ensures
        r == match_at(t@, term@, s as int),
{
    if term.len() > t.len() - s {
        return false;
    }
    let mut k: usize = 0;
    while k < term.len()
        invariant
            s + term@.len() <= t@.len() <= 65536,
            k <= term@.len(),
            forall|q: int| 0 <= q < k ==> eq_lower(#[trigger] t@[s + q], term@[q]),
        decreases term@.len() - k,
    {
        if !eq_lower_exec(t[s + k], term[k]) {
            return false;
        }
        k = k + 1;
    }
    true
}

fn find_from_exec(t: &Vec<char>, term: &Vec<char>, from: usize) -> (r: Option<usize>)
    requires
        from <= t@.len() <= 65536,
    ensures
        match find_from(t@, term@, from as int) {
            Some(s) => r == Some(s as usize),
            None => r is None,
        },
{
    proof {
        lemma_find_from(t@, term@, from as int);
    }
    let mut s = from;
    while s <= t.len() && term.len() <= t.len() - s
        invariant
            from <= s,
            t@.len() <= 65536,
            find_from(t@, term@, s as int) == find_from(t@, term@, from as int),
        decreases t@.len() + 1 - s,
    {
        if match_at_exec(t, term, s) {
            return Some(s);
        }
        s = s + 1;
    }
    None
}

fn known_host_term_exec(
    t: &Vec<char>,
    b: &Vec<u8>,
    row: u16,
    term: &Vec<char>,
    hs: &mut Vec<Highlight>,
)
    requires
        b@.len() == t@.len() <= 65536,
        term@.len() > 0,
    ensures
        final(hs)@ == known_host_term(t@, b@, row, term@, 0, old(hs)@),
{
    let n = t.len();
    let mut from: usize = 0;
    loop
        invariant
            b@.len() == t@.len() == n <= 65536,
            term@.len() > 0,
            from <= n,
            known_host_term(t@, b@, row, term@, from as int, hs@) == known_host_term(
                t@,
                b@,
                row,
                term@,
                0,
                old(hs)@,
            ),
        decreases n - from,
    {
        proof {
            lemma_find_from(t@, term@, from as int);
        }
        match find_from_exec(t, term, from) {
            None => {
                return;
            },
            Some(s0) => {
                let e0 = s0 + term.len();
                let bounded = (s0 == 0 || !is_tok(b[s0 - 1])) && (e0 >= n || !is_tok(b[e0]));
                if bounded {
                    hs.push(
                        Highlight {
                            row,
                            start_col: s0 as u16,
                            end_col: (e0 - 1) as u16,
                            color: HighlightColor::Ansi(5),
                            kind: HighlightKind::KnownHost,
                        },
                    );
                }
                from = e0;
            },
        }
    }
}

fn known_host_exec(
    t: &Vec<char>,
    b: &Vec<u8>,
    row: u16,
    terms: &Vec<Vec<char>>,
    hs: &mut Vec<Highlight>,
)
    requires
        b@.len() == t@.len() <= 65536,
        forall|q: int| 0 <= q < terms@.len() ==> (#[trigger] terms@[q])@.len() > 0,
    ensures
        final(hs)@ == known_host_pass(
            t@,
            b@,
            row,
            terms@.map_values(|v: Vec<char>| v@),
            0,
            old(hs)@,
        ),
{
    let ghost tv = terms@.map_values(|v: Vec<char>| v@);
    let mut q: usize = 0;
    while q < terms.len()
        invariant
            b@.len() == t@.len() <= 65536,
            forall|j: int| 0 <= j < terms@.len() ==> (#[trigger] terms@[j])@.len() > 0,
            tv == terms@.map_values(|v: Vec<char>| v@),
            q <= terms@.len(),
            known_host_pass(t@, b@, row, tv, q as int, hs@) == known_host_pass(
                t@,
                b@,
                row,
                tv,
                0,
                old(hs)@,
            ),
        decreases terms@.len() - q,
    {
        assert(tv[q as int] == terms@[q as int]@);
        known_host_term_exec(t, b, row, &terms[q], hs);
        q = q + 1;
    }
}

// ---------------------------------------------------------------------------
// Unix paths
// ---------------------------------------------------------------------------

/// A byte that glues a `/` to a preceding word: alphanumeric, `_`, `-`, `.`.
pub open spec fn path_glue(x: u8) -> bool {
    spec_is_alnum(x) || x == 95 || x == 45 || x == 46
}

/// Path scan from `i`: a `/` not glued on its left starts a run of path
/// bytes; a run of at least 3 bytes, with trailing `.` and `/` trimmed, is a
/// `Path` unless it starts inside an earlier colouring span (a Privacy Mode
/// marker does not count, so it never hides a colour).
pub open spec fn path_pass(b: Seq<u8>, row: u16, i: int, acc: Seq<Highlight>) -> Seq<Highlight>
    decreases b.len() - i,
{
    if i < 0 || i >= b.len() {
        acc
    } else if b[i] == 47 && !(i > 0 && path_glue(b[i - 1])) {
        proof {
            lemma_run_end(b, i + 1, Class::Path);
        }
        let j = run_end(b, i + 1, Class::Path);
        if j - i >= 3 {
            proof {
                lemma_path_back(b, i, j);
            }
            let j2 = path_back(b, i, j);
            let acc2 = if !coloured(acc, row, i as u16) && j2 - i >= 3 {
                acc.push(hl(row, i, j2 - 1, HighlightColor::Ansi(6), HighlightKind::Path))
            } else {
                acc
            };
            path_pass(b, row, j2, acc2)
        } else {
            path_pass(b, row, i + 1, acc)
        }
    } else {
        path_pass(b, row, i + 1, acc)
    }
}

fn path_exec(b: &Vec<u8>, row: u16, hs: &mut Vec<Highlight>)
    requires
        b@.len() <= 65536,
    ensures
        final(hs)@ == path_pass(b@, row, 0, old(hs)@),
{
    let n = b.len();
    let mut i: usize = 0;
    while i < n
        invariant
            n == b@.len() <= 65536,
            i <= n,
            path_pass(b@, row, i as int, hs@) == path_pass(b@, row, 0, old(hs)@),
        decreases n - i,
    {
        if b[i] == 47 && !(i > 0 && (is_alnum(b[i - 1]) || b[i - 1] == 95 || b[i - 1] == 45 || b[i
            - 1] == 46)) {
            proof {
                lemma_run_end(b@, i + 1, Class::Path);
            }
            let j = run_end_exec(b, i + 1, Class::Path);
            if j - i >= 3 {
                let j2 = path_back_exec(b, i, j);
                if !is_coloured(hs, row, i as u16) && j2 - i >= 3 {
                    hs.push(
                        Highlight {
                            row,
                            start_col: i as u16,
                            end_col: (j2 - 1) as u16,
                            color: HighlightColor::Ansi(6),
                            kind: HighlightKind::Path,
                        },
                    );
                }
                i = j2;
                continue;
            }
        }
        i = i + 1;
    }
}

// ---------------------------------------------------------------------------
// Numbers
// ---------------------------------------------------------------------------

/// A number starts at `i`: a digit, or a `-` followed by a digit and not
/// preceded by a word byte.
pub open spec fn number_start(b: Seq<u8>, i: int) -> bool {
    spec_is_digit(b[i]) || (b[i] == 45 && i + 1 < b.len() && spec_is_digit(b[i + 1]) && (i == 0
        || !spec_is_word_byte(b[i - 1])))
}

/// End of the number starting at `i`: optional `-`, digits, an optional
/// `.digits` fraction, an optional `%`.
pub open spec fn number_end(b: Seq<u8>, i: int) -> int {
    let j0 = if b[i] == 45 { i + 1 } else { i };
    let j1 = run_end(b, j0, Class::Digit);
    let j2 = if j1 + 1 < b.len() && b[j1] == 46 && spec_is_digit(b[j1 + 1]) {
        run_end(b, j1 + 1, Class::Digit)
    } else {
        j1
    };
    if j2 < b.len() && b[j2] == 37 { j2 + 1 } else { j2 }
}

pub proof fn lemma_number_end(b: Seq<u8>, i: int)
    requires
        0 <= i < b.len(),
        number_start(b, i),
    ensures
        i < number_end(b, i) <= b.len(),
{
    let j0 = if b[i] == 45 { i + 1 } else { i };
    lemma_run_end(b, j0, Class::Digit);
    let j1 = run_end(b, j0, Class::Digit);
    if j1 + 1 < b.len() && b[j1] == 46 && spec_is_digit(b[j1 + 1]) {
        lemma_run_end(b, j1 + 1, Class::Digit);
    }
}

/// Number scan from `i`: a number not glued to a word on either side is a
/// `Number` unless it starts inside an earlier colouring span (a Privacy
/// Mode marker does not count, so it never hides a colour).
pub open spec fn number_pass(b: Seq<u8>, row: u16, i: int, acc: Seq<Highlight>) -> Seq<
    Highlight,
>
    decreases b.len() - i,
{
    if i < 0 || i >= b.len() {
        acc
    } else if !number_start(b, i) || (i > 0 && spec_is_digit(b[i]) && spec_is_word_byte(
        b[i - 1],
    )) {
        number_pass(b, row, i + 1, acc)
    } else {
        proof {
            lemma_number_end(b, i);
        }
        let j = number_end(b, i);
        if j < b.len() && spec_is_word_byte(b[j]) {
            number_pass(b, row, j, acc)
        } else {
            let acc2 = if !coloured(acc, row, i as u16) {
                acc.push(hl(row, i, j - 1, HighlightColor::Ansi(5), HighlightKind::Number))
            } else {
                acc
            };
            number_pass(b, row, j, acc2)
        }
    }
}

fn number_end_exec(b: &Vec<u8>, i: usize) -> (r: usize)
    requires
        i < b@.len() <= 65536,
        number_start(b@, i as int),
    ensures
        r == number_end(b@, i as int),
        i < r <= b@.len(),
{
    proof {
        lemma_number_end(b@, i as int);
    }
    let n = b.len();
    let j0 = if b[i] == 45 {
        i + 1
    } else {
        i
    };
    proof {
        lemma_run_end(b@, j0 as int, Class::Digit);
    }
    let j1 = run_end_exec(b, j0, Class::Digit);
    let j2 = if j1 + 1 < n && b[j1] == 46 && is_digit(b[j1 + 1]) {
        run_end_exec(b, j1 + 1, Class::Digit)
    } else {
        j1
    };
    if j2 < n && b[j2] == 37 {
        j2 + 1
    } else {
        j2
    }
}

fn number_exec(b: &Vec<u8>, row: u16, hs: &mut Vec<Highlight>)
    requires
        b@.len() <= 65536,
    ensures
        final(hs)@ == number_pass(b@, row, 0, old(hs)@),
{
    let n = b.len();
    let mut i: usize = 0;
    while i < n
        invariant
            n == b@.len() <= 65536,
            i <= n,
            number_pass(b@, row, i as int, hs@) == number_pass(b@, row, 0, old(hs)@),
        decreases n - i,
    {
        let c = b[i];
        let start = is_digit(c) || (c == 45 && i + 1 < n && is_digit(b[i + 1]) && (i == 0
            || !is_word_byte(b[i - 1])));
        if !start || (i > 0 && is_digit(c) && is_word_byte(b[i - 1])) {
            i = i + 1;
            continue;
        }
        let j = number_end_exec(b, i);
        if j < n && is_word_byte(b[j]) {
            i = j;
            continue;
        }
        if !is_coloured(hs, row, i as u16) {
            hs.push(
                Highlight {
                    row,
                    start_col: i as u16,
                    end_col: (j - 1) as u16,
                    color: HighlightColor::Ansi(5),
                    kind: HighlightKind::Number,
                },
            );
        }
        i = j;
    }
}

} // verus!

verus! {

// ---------------------------------------------------------------------------
// Rows
// ---------------------------------------------------------------------------

/// The row index above `row` (wrapping like `u16::wrapping_sub`).
pub open spec fn prev_row(row: u16) -> u16 {
    if row == 0 { 65535 } else { (row - 1) as u16 }
}

/// All passes over one row, in order: URLs, IPv4, IPv6, then (Privacy Mode
/// with the usernames class on) `user@host` and home-directory names, then
/// (Privacy Mode with saved terms) hostnames, then paths and numbers.
/// Returns the spans so far and the URL carry into the next row.
pub open spec fn detect_row(
    cols: Seq<(u16, char)>,
    row: u16,
    wraps_at: Option<u16>,
    acc: Seq<Highlight>,
    carry: Option<u16>,
    privacy: bool,
    terms: Seq<Seq<char>>,
    classes: PrivacyClasses,
) -> (Seq<Highlight>, Option<u16>) {
    let t = spec_row_text(cols);
    let b = proj_seq(t);
    let claimed = carry == Some(prev_row(row));
    let (a1, c) = url_row(t, b, row, wraps_at, claimed, acc);
    let a2 = v4_pass(t, b, row, quad_scan(b, 0, seq![]), 0, a1, privacy, terms, classes);
    let a3 = v6_pass(b, row, 0, a2, privacy, classes);
    let a4 = if privacy && classes.usernames {
        host_user_pass(b, row, 0, a3)
    } else {
        a3
    };
    let a5 = if privacy && classes.usernames {
        user_dir_pass(b, row, 0, a4)
    } else {
        a4
    };
    let a6 = if privacy && terms.len() > 0 {
        known_host_pass(t, b, row, terms, 0, a5)
    } else {
        a5
    };
    let a7 = path_pass(b, row, 0, a6);
    let a8 = number_pass(b, row, 0, a7);
    (a8, if c { Some(row) } else { None })
}

/// The rows from `rows[k]` on, in order.
pub open spec fn detect_from(
    rows: Seq<ScanRow>,
    k: int,
    acc: Seq<Highlight>,
    carry: Option<u16>,
    privacy: bool,
    terms: Seq<Seq<char>>,
    classes: PrivacyClasses,
) -> Seq<Highlight>
    decreases rows.len() - k,
{
    if k < 0 || k >= rows.len() {
        acc
    } else {
        let (a, c) = detect_row(
            rows[k].cols@,
            rows[k].row,
            rows[k].wraps_at,
            acc,
            carry,
            privacy,
            terms,
            classes,
        );
        detect_from(rows, k + 1, a, c, privacy, terms, classes)
    }
}

pub open spec fn spec_detect(
    rows: Seq<ScanRow>,
    privacy: bool,
    terms: Seq<Seq<char>>,
    classes: PrivacyClasses,
) -> Seq<Highlight> {
    detect_from(rows, 0, seq![], None, privacy, terms, classes)
}

/// The characters of each saved term.
pub open spec fn term_chars(terms: Seq<String>) -> Seq<Seq<char>> {
    terms.map_values(|s: String| s@)
}

fn terms_to_chars(terms: &[String]) -> (v: Vec<Vec<char>>)
    ensures
        v@.map_values(|x: Vec<char>| x@) == term_chars(terms@),
        v@.len() == terms@.len(),
        forall|q: int| 0 <= q < v@.len() ==> (#[trigger] v@[q])@ == terms@[q]@,
{
    let mut v: Vec<Vec<char>> = Vec::new();
    let mut q: usize = 0;
    while q < terms.len()
        invariant
            q <= terms@.len(),
            v@.len() == q,
            forall|j: int| 0 <= j < q ==> (#[trigger] v@[j])@ == terms@[j]@,
        decreases terms@.len() - q,
    {
        v.push(chars_of(terms[q].as_str()));
        q = q + 1;
    }
    assert(v@.map_values(|x: Vec<char>| x@) =~= term_chars(terms@));
    v
}

fn detect_row_exec(
    sr: &ScanRow,
    carry: Option<u16>,
    privacy: bool,
    terms: &Vec<Vec<char>>,
    classes: PrivacyClasses,
    hs: &mut Vec<Highlight>,
) -> (c: Option<u16>)
    requires
        privacy ==> forall|q: int| 0 <= q < terms@.len() ==> (#[trigger] terms@[q])@.len() > 0,
    ensures
        (final(hs)@, c) == detect_row(
            sr.cols@,
            sr.row,
            sr.wraps_at,
            old(hs)@,
            carry,
            privacy,
            terms@.map_values(|v: Vec<char>| v@),
            classes,
        ),
{
    let ghost tv = terms@.map_values(|v: Vec<char>| v@);
    let row = sr.row;
    let t = row_text(&sr.cols);
    let b = project(&t);
    let claimed = match carry {
        Some(c) => c == row.wrapping_sub(1),
        None => false,
    };
    assert(claimed == (carry == Some(prev_row(row))));
    let c = url_pass(&t, &b, row, sr.wraps_at, claimed, hs);
    v4_pass_exec(&t, &b, row, privacy, terms, classes, hs);
    v6_pass_exec(&b, row, privacy, classes, hs);
    if privacy && classes.usernames {
        host_user_exec(&b, row, hs);
    }
    if privacy && classes.usernames {
        user_dir_exec(&b, row, hs);
    }
    if privacy && terms.len() > 0 {
        known_host_exec(&t, &b, row, terms, hs);
    }
    path_exec(&b, row, hs);
    number_exec(&b, row, hs);
    if c {
        Some(row)
    } else {
        None
    }
}

/// Scan rows for URLs (followed across soft wraps), IPv4 / IPv6 addresses,
/// Unix paths and standalone numbers, plus (under Privacy Mode) `user@host`
/// tokens, home-directory user names and occurrences of the saved hostnames
/// in `privacy_terms`. Spans are reported in columns, in scan order; see
/// [`detect_row`] for the passes and their overlap rules.
pub fn detect_highlights(
    row_chars: &[ScanRow],
    privacy: bool,
    privacy_terms: &[String],
    classes: PrivacyClasses,
) -> (out: Vec<Highlight>)
    requires
        privacy ==> forall|q: int|
            0 <= q < privacy_terms@.len() ==> (#[trigger] privacy_terms@[q])@.len() > 0,
    ensures
        out@ == spec_detect(row_chars@, privacy, term_chars(privacy_terms@), classes),
{
    let terms = terms_to_chars(privacy_terms);
    let ghost tv = term_chars(privacy_terms@);
    let mut hs: Vec<Highlight> = Vec::new();
    let mut carry: Option<u16> = None;
    let mut k: usize = 0;
    while k < row_chars.len()
        invariant
            k <= row_chars@.len(),
            terms@.map_values(|x: Vec<char>| x@) == tv,
            terms@.len() == privacy_terms@.len(),
            forall|q: int| 0 <= q < terms@.len() ==> (#[trigger] terms@[q])@ == privacy_terms@[q]@,
            privacy ==> forall|q: int|
                0 <= q < privacy_terms@.len() ==> (#[trigger] privacy_terms@[q])@.len() > 0,
            detect_from(row_chars@, k as int, hs@, carry, privacy, tv, classes) == spec_detect(
                row_chars@,
                privacy,
                tv,
                classes,
            ),
        decreases row_chars@.len() - k,
    {
        proof {
            if privacy {
                assert forall|q: int| 0 <= q < terms@.len() implies (#[trigger] terms@[q])@.len()
                    > 0 by {
                    assert(terms@[q]@ == privacy_terms@[q]@);
                }
            }
        }
        carry = detect_row_exec(&row_chars[k], carry, privacy, &terms, classes, &mut hs);
        k = k + 1;
    }
    hs
}

} // verus!
