//! Run boundaries the row scanners are built from: where a class of bytes
//! (or a non-blank token) ends, and how far trailing punctuation is trimmed.
use vstd::prelude::*;
use crate::ascii::{is_alnum, is_digit, is_hex, spec_is_alnum, spec_is_digit, spec_is_hex};
use crate::text::{is_whitespace, spec_is_whitespace};

verus! {

/// Token byte of a `user@host` / username: ASCII alphanumeric, `.`, `_`, `-`.
pub open spec fn spec_is_tok(x: u8) -> bool {
    spec_is_alnum(x) || x == 46 || x == 95 || x == 45
}

pub fn is_tok(x: u8) -> (r: bool)
    ensures
        r == spec_is_tok(x),
{
    is_alnum(x) || x == 46 || x == 95 || x == 45
}

pub open spec fn spec_hexcolon(x: u8) -> bool {
    spec_is_hex(x) || x == 58
}

/// Byte of a Unix path: ASCII alphanumeric, `.`, `-`, `_`, `/`, `~`.
pub open spec fn spec_path_byte(x: u8) -> bool {
    spec_is_alnum(x) || x == 46 || x == 45 || x == 95 || x == 47 || x == 126
}

/// Sentence punctuation trimmed off the end of a URL.
pub open spec fn spec_trail_punct(x: u8) -> bool {
    x == 41 || x == 93 || x == 62 || x == 44 || x == 46 || x == 59
}

/// Which class a run is made of.
pub enum Class {
    Digit,
    HexColon,
    Tok,
    Path,
}

pub open spec fn in_class(c: Class, x: u8) -> bool {
    match c {
        Class::Digit => spec_is_digit(x),
        Class::HexColon => spec_hexcolon(x),
        Class::Tok => spec_is_tok(x),
        Class::Path => spec_path_byte(x),
    }
}

/// First index at or after `i` whose byte is not in class `c`.
pub open spec fn run_end(b: Seq<u8>, i: int, c: Class) -> int
    decreases b.len() - i,
{
    if i < 0 || i >= b.len() || !in_class(c, b[i]) {
        i
    } else {
        run_end(b, i + 1, c)
    }
}

pub proof fn lemma_run_end(b: Seq<u8>, i: int, c: Class)
    requires
        0 <= i <= b.len(),
    ensures
        i <= run_end(b, i, c) <= b.len(),
        forall|k: int| i <= k < run_end(b, i, c) ==> in_class(c, #[trigger] b[k]),
        run_end(b, i, c) < b.len() ==> !in_class(c, b[run_end(b, i, c)]),
        i < b.len() && in_class(c, b[i]) ==> run_end(b, i, c) > i,
    decreases b.len() - i,
{
    if i < b.len() && in_class(c, b[i]) {
        lemma_run_end(b, i + 1, c);
    }
}

fn class_has(c: &Class, x: u8) -> (r: bool)
    ensures
        r == in_class(*c, x),
{
    match c {
        Class::Digit => is_digit(x),
        Class::HexColon => is_hex(x) || x == 58,
        Class::Tok => is_tok(x),
        Class::Path => is_alnum(x) || x == 46 || x == 45 || x == 95 || x == 47 || x == 126,
    }
}

pub fn run_end_exec(b: &Vec<u8>, i: usize, c: Class) -> (r: usize)
    requires
        i <= b@.len(),
    ensures
        r == run_end(b@, i as int, c),
        i <= r <= b@.len(),
{
    proof {
        lemma_run_end(b@, i as int, c);
    }
    let mut j = i;
    while j < b.len() && class_has(&c, b[j])
        invariant
            i <= j <= b@.len(),
            run_end(b@, j as int, c) == run_end(b@, i as int, c),
        decreases b@.len() - j,
    {
        j = j + 1;
    }
    j
}

/// Start of the run of token bytes ending just before `i`.
pub open spec fn tok_left(b: Seq<u8>, i: int) -> int
    decreases i,
{
    if i > 0 && i <= b.len() && spec_is_tok(b[i - 1]) {
        tok_left(b, i - 1)
    } else {
        i
    }
}

pub proof fn lemma_tok_left(b: Seq<u8>, i: int)
    requires
        0 <= i <= b.len(),
    ensures
        0 <= tok_left(b, i) <= i,
    decreases i,
{
    if i > 0 && spec_is_tok(b[i - 1]) {
        lemma_tok_left(b, i - 1);
    }
}

pub fn tok_left_exec(b: &Vec<u8>, i: usize) -> (r: usize)
    requires
        i <= b@.len(),
    ensures
        r == tok_left(b@, i as int),
        r <= i,
{
    proof {
        lemma_tok_left(b@, i as int);
    }
    let mut s = i;
    while s > 0 && is_tok(b[s - 1])
        invariant
            s <= i <= b@.len(),
            tok_left(b@, s as int) == tok_left(b@, i as int),
        decreases s,
    {
        s = s - 1;
    }
    s
}

/// End of the non-blank token starting at `i`: the first whitespace or NUL
/// character at or after `i`.
pub open spec fn token_end(t: Seq<char>, i: int) -> int
    decreases t.len() - i,
{
    if i < 0 || i >= t.len() || spec_is_whitespace(t[i]) || t[i] == '\0' {
        i
    } else {
        token_end(t, i + 1)
    }
}

pub proof fn lemma_token_end(t: Seq<char>, i: int)
    requires
        0 <= i <= t.len(),
    ensures
        i <= token_end(t, i) <= t.len(),
        i < t.len() && !spec_is_whitespace(t[i]) && t[i] != '\0' ==> token_end(t, i) > i,
    decreases t.len() - i,
{
    if i < t.len() && !spec_is_whitespace(t[i]) && t[i] != '\0' {
        lemma_token_end(t, i + 1);
    }
}

pub fn token_end_exec(t: &Vec<char>, i: usize) -> (r: usize)
    requires
        i <= t@.len(),
    ensures
        r == token_end(t@, i as int),
        i <= r <= t@.len(),
{
    proof {
        lemma_token_end(t@, i as int);
    }
    let mut j = i;
    while j < t.len() && !is_whitespace(t[j]) && t[j] != '\0'
        invariant
            i <= j <= t@.len(),
            token_end(t@, j as int) == token_end(t@, i as int),
        decreases t@.len() - j,
    {
        j = j + 1;
    }
    j
}

/// `end` moved left past trailing URL punctuation, never below `start`.
pub open spec fn trim_tail(b: Seq<u8>, end: int, start: int) -> int
    decreases end - start,
{
    if end > start && end <= b.len() && spec_trail_punct(b[end - 1]) {
        trim_tail(b, end - 1, start)
    } else {
        end
    }
}

pub proof fn lemma_trim_tail(b: Seq<u8>, end: int, start: int)
    requires
        start <= end <= b.len(),
    ensures
        start <= trim_tail(b, end, start) <= end,
    decreases end - start,
{
    if end > start && spec_trail_punct(b[end - 1]) {
        lemma_trim_tail(b, end - 1, start);
    }
}

fn is_trail_punct(x: u8) -> (r: bool)
    ensures
        r == spec_trail_punct(x),
{
    x == 41 || x == 93 || x == 62 || x == 44 || x == 46 || x == 59
}

pub fn trim_tail_exec(b: &Vec<u8>, end: usize, start: usize) -> (r: usize)
    requires
        start <= end <= b@.len(),
    ensures
        r == trim_tail(b@, end as int, start as int),
        start <= r <= end,
{
    proof {
        lemma_trim_tail(b@, end as int, start as int);
    }
    let mut e = end;
    while e > start && is_trail_punct(b[e - 1])
        invariant
            start <= e <= end <= b@.len(),
            trim_tail(b@, e as int, start as int) == trim_tail(b@, end as int, start as int),
        decreases e - start,
    {
        e = e - 1;
    }
    e
}

/// `j` moved left past trailing `.` and `/`, keeping at least one byte
/// after `start`.
pub open spec fn path_back(b: Seq<u8>, start: int, j: int) -> int
    decreases j - start,
{
    if j > start + 1 && j <= b.len() && (b[j - 1] == 46 || b[j - 1] == 47) {
        path_back(b, start, j - 1)
    } else {
        j
    }
}

pub proof fn lemma_path_back(b: Seq<u8>, start: int, j: int)
    requires
        start < j <= b.len(),
    ensures
        start < path_back(b, start, j) <= j,
    decreases j - start,
{
    if j > start + 1 && (b[j - 1] == 46 || b[j - 1] == 47) {
        lemma_path_back(b, start, j - 1);
    }
}

pub fn path_back_exec(b: &Vec<u8>, start: usize, j: usize) -> (r: usize)
    requires
        start < j <= b@.len(),
    ensures
        r == path_back(b@, start as int, j as int),
        start < r <= j,
{
    proof {
        lemma_path_back(b@, start as int, j as int);
    }
    let mut e = j;
    while e > start + 1 && (b[e - 1] == 46 || b[e - 1] == 47)
        invariant
            start < e <= j <= b@.len(),
            path_back(b@, start as int, e as int) == path_back(b@, start as int, j as int),
        decreases e - start,
    {
        e = e - 1;
    }
    e
}

} // verus!

verus! {

pub proof fn lemma_token_end_past(t: Seq<char>, i: int, j: int)
    requires
        0 <= i <= j <= t.len(),
        forall|k: int| i <= k < j ==> !spec_is_whitespace(#[trigger] t[k]) && t[k] != '\0',
    ensures
        token_end(t, i) >= j,
    decreases j - i,
{
    if i < j {
        assert(!spec_is_whitespace(t[i]) && t[i] != '\0');
        assert(token_end(t, i) == token_end(t, i + 1));
        lemma_token_end_past(t, i + 1, j);
        lemma_token_end(t, i + 1);
    } else {
        lemma_token_end(t, i);
    }
}

pub proof fn lemma_trim_tail_stop(b: Seq<u8>, end: int, start: int, p: int)
    requires
        start <= p < end <= b.len(),
        !spec_trail_punct(b[p]),
    ensures
        trim_tail(b, end, start) > p,
    decreases end - start,
{
    if end > start && spec_trail_punct(b[end - 1]) {
        lemma_trim_tail_stop(b, end - 1, start, p);
    }
}

} // verus!
