//! Scheme policy for OSC 8 hyperlink targets.
//!
//! OSC 8 URIs are written by the program on the other end of the session,
//! so the scheme parse is strict and only a short allow-list may be opened.
use vstd::prelude::*;
use crate::text::{chars_of, string_push};

verus! {

pub open spec fn is_ascii_alpha_char(c: char) -> bool {
    ('a' <= c && c <= 'z') || ('A' <= c && c <= 'Z')
}

pub open spec fn is_scheme_char(c: char) -> bool {
    is_ascii_alpha_char(c) || ('0' <= c && c <= '9') || c == '+' || c == '-' || c == '.'
}

/// ASCII lower-casing of one character.
pub open spec fn ascii_lower(c: char) -> char {
    if 'A' <= c && c <= 'Z' {
        ((c as u8) + 32) as char
    } else {
        c
    }
}

/// Index of the first `:` at or after `i`, or `-1`.
pub open spec fn colon_from(u: Seq<char>, i: int) -> int
    decreases u.len() - i,
{
    if i < 0 || i >= u.len() {
        -1
    } else if u[i] == ':' {
        i
    } else {
        colon_from(u, i + 1)
    }
}

/// The run before the first `:` is a well-formed RFC 3986 scheme:
/// `ALPHA *( ALPHA / DIGIT / "+" / "-" / "." )`.
pub open spec fn well_formed_scheme(s: Seq<char>) -> bool {
    s.len() > 0 && is_ascii_alpha_char(s[0]) && forall|k: int|
        1 <= k < s.len() ==> #[trigger] is_scheme_char(s[k])
}

/// The lower-cased scheme of `u`, when `u` starts with a well-formed
/// `scheme:`.
pub open spec fn spec_osc8_scheme(u: Seq<char>) -> Option<Seq<char>> {
    let p = colon_from(u, 0);
    if p < 0 {
        None
    } else if well_formed_scheme(u.take(p)) {
        Some(u.take(p).map_values(|c: char| ascii_lower(c)))
    } else {
        None
    }
}

/// The schemes that may be followed: `http`, `https`, `mailto`, `ftp`.
pub open spec fn allowed_scheme(s: Seq<char>) -> bool {
    s == seq!['h', 't', 't', 'p'] || s == seq!['h', 't', 't', 'p', 's'] || s == seq![
        'm',
        'a',
        'i',
        'l',
        't',
        'o',
    ] || s == seq!['f', 't', 'p']
}

pub open spec fn spec_osc8_scheme_allowed(u: Seq<char>) -> bool {
    match spec_osc8_scheme(u) {
        Some(s) => allowed_scheme(s),
        None => false,
    }
}

proof fn lemma_colon_from(u: Seq<char>, i: int)
    requires
        0 <= i <= u.len(),
    ensures
        colon_from(u, i) == -1 || (i <= colon_from(u, i) < u.len() && u[colon_from(u, i)]
            == ':' && forall|k: int| i <= k < colon_from(u, i) ==> u[k] != ':'),
        colon_from(u, i) == -1 ==> forall|k: int| i <= k < u.len() ==> u[k] != ':',
    decreases u.len() - i,
{
    if i < u.len() && u[i] != ':' {
        lemma_colon_from(u, i + 1);
    }
}

fn is_alpha_char(c: char) -> (r: bool)
    ensures
        r == is_ascii_alpha_char(c),
{
    ('a' <= c && c <= 'z') || ('A' <= c && c <= 'Z')
}

fn is_scheme_char_exec(c: char) -> (r: bool)
    ensures
        r == is_scheme_char(c),
{
    is_alpha_char(c) || ('0' <= c && c <= '9') || c == '+' || c == '-' || c == '.'
}

fn lower_char(c: char) -> (r: char)
    ensures
        r == ascii_lower(c),
{
    if 'A' <= c && c <= 'Z' {
        ((c as u8) + 32) as char
    } else {
        c
    }
}

/// The characters of the lower-cased scheme, when there is one.
fn scheme_chars(u: &Vec<char>) -> (r: Option<Vec<char>>)
    ensures
        match r {
            Some(v) => spec_osc8_scheme(u@) == Some(v@),
            None => spec_osc8_scheme(u@) is None,
        },
{
    let mut p: usize = 0;
    while p < u.len() && u[p] != ':'
        invariant
            p <= u@.len(),
            colon_from(u@, p as int) == colon_from(u@, 0),
        decreases u@.len() - p,
    {
        p = p + 1;
    }
    if p == u.len() {
        return None;
    }
    proof {
        lemma_colon_from(u@, 0);
    }
    assert(colon_from(u@, 0) == p);
    let ghost s = u@.take(p as int);
    if p == 0 || !is_alpha_char(u[0]) {
        return None;
    }
    let mut k: usize = 1;
    while k < p
        invariant
            1 <= k <= p < u@.len(),
            colon_from(u@, 0) == p,
            s == u@.take(p as int),
            forall|j: int| 1 <= j < k ==> #[trigger] is_scheme_char(s[j]),
        decreases p - k,
    {
        if !is_scheme_char_exec(u[k]) {
            assert(!is_scheme_char(s[k as int]));
            assert(!well_formed_scheme(s));
            return None;
        }
        k = k + 1;
    }
    let mut out: Vec<char> = Vec::new();
    let mut j: usize = 0;
    while j < p
        invariant
            j <= p < u@.len(),
            colon_from(u@, 0) == p,
            well_formed_scheme(s),
            s == u@.take(p as int),
            out@ =~= s.take(j as int).map_values(|c: char| ascii_lower(c)),
        decreases p - j,
    {
        let lc = lower_char(u[j]);
        out.push(lc);
        j = j + 1;
    }
    assert(s.take(p as int) =~= s);
    Some(out)
}

/// The scheme of a URI, lower-cased, when the URI begins with a well-formed
/// `scheme:` (the run before the first `:` starts with an ASCII letter and
/// holds only letters, digits, `+`, `-` and `.`).
pub fn osc8_scheme(uri: &str) -> (r: Option<String>)
    ensures
        match r {
            Some(s) => spec_osc8_scheme(uri@) == Some(s@),
            None => spec_osc8_scheme(uri@) is None,
        },
{
    let u = chars_of(uri);
    match scheme_chars(&u) {
        None => None,
        Some(v) => {
            let mut s = String::new();
            let mut i: usize = 0;
            while i < v.len()
                invariant
                    i <= v@.len(),
                    s@ == v@.take(i as int),
                decreases v@.len() - i,
            {
                string_push(&mut s, v[i]);
                assert(v@.take(i + 1) =~= v@.take(i as int).push(v@[i as int]));
                i = i + 1;
            }
            assert(v@.take(v@.len() as int) =~= v@);
            Some(s)
        },
    }
}

fn is_allowed_scheme(v: &Vec<char>) -> (r: bool)
    ensures
        r == allowed_scheme(v@),
{
    let n = v.len();
    let r = if n == 4 {
        v[0] == 'h' && v[1] == 't' && v[2] == 't' && v[3] == 'p'
    } else if n == 5 {
        v[0] == 'h' && v[1] == 't' && v[2] == 't' && v[3] == 'p' && v[4] == 's'
    } else if n == 6 {
        v[0] == 'm' && v[1] == 'a' && v[2] == 'i' && v[3] == 'l' && v[4] == 't' && v[5] == 'o'
    } else if n == 3 {
        v[0] == 'f' && v[1] == 't' && v[2] == 'p'
    } else {
        false
    };
    proof {
        if r {
            if n == 4 {
                assert(v@ =~= seq!['h', 't', 't', 'p']);
            } else if n == 5 {
                assert(v@ =~= seq!['h', 't', 't', 'p', 's']);
            } else if n == 6 {
                assert(v@ =~= seq!['m', 'a', 'i', 'l', 't', 'o']);
            } else {
                assert(v@ =~= seq!['f', 't', 'p']);
            }
        } else {
            if v@ == seq!['h', 't', 't', 'p'] {
                assert(v@[3] == 'p');
            }
            if v@ == seq!['h', 't', 't', 'p', 's'] {
                assert(v@[4] == 's');
            }
            if v@ == seq!['m', 'a', 'i', 'l', 't', 'o'] {
                assert(v@[5] == 'o');
            }
            if v@ == seq!['f', 't', 'p'] {
                assert(v@[2] == 'p');
            }
        }
    }
    r
}

/// Whether an OSC 8 target may be followed: only when its scheme is `http`,
/// `https`, `mailto` or `ftp`.
pub fn osc8_scheme_allowed(uri: &str) -> (r: bool)
    ensures
        r == spec_osc8_scheme_allowed(uri@),
{
    let u = chars_of(uri);
    match scheme_chars(&u) {
        None => false,
        Some(v) => is_allowed_scheme(&v),
    }
}

/// A followed target really starts with its scheme: the characters before the
/// first `:` are, up to ASCII case, exactly one of the allowed names, so no
/// blank, control character or other byte can precede or hide inside it.
pub proof fn law_allowed_target_starts_with_its_scheme(u: Seq<char>)
    requires
        spec_osc8_scheme_allowed(u),
    ensures
        ({
            let p = colon_from(u, 0);
            &&& 0 < p < u.len()
            &&& u[p] == ':'
            &&& forall|k: int| 0 <= k < p ==> u[k] != ':' && is_scheme_char(u[k])
            &&& allowed_scheme(u.take(p).map_values(|c: char| ascii_lower(c)))
        }),
{
    lemma_colon_from(u, 0);
    let p = colon_from(u, 0);
    assert forall|k: int| 0 <= k < p implies u[k] != ':' && is_scheme_char(u[k]) by {
        if k > 0 {
            assert(is_scheme_char(u.take(p)[k]));
        }
    }
}

} // verus!
