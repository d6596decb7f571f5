//! Bracketed paste: framing clipboard text for a terminal session.
use vstd::prelude::*;
use vstd::string::StringSliceAdditionalSpecFns;

verus! {

/// `ESC [ 200 ~`, the bracketed-paste start marker.
pub open spec fn paste_start() -> Seq<u8> {
    seq![0x1bu8, 0x5bu8, 0x32u8, 0x30u8, 0x30u8, 0x7eu8]
}

/// `ESC [ 201 ~`, the bracketed-paste end marker.
pub open spec fn paste_end() -> Seq<u8> {
    seq![0x1bu8, 0x5bu8, 0x32u8, 0x30u8, 0x31u8, 0x7eu8]
}

/// `m` occurs in `s` starting at byte `k`.
pub open spec fn occurs_at(s: Seq<u8>, k: int, m: Seq<u8>) -> bool {
    0 <= k && k + m.len() <= s.len() && s.subrange(k, k + m.len()) == m
}

pub open spec fn contains_marker(s: Seq<u8>, m: Seq<u8>) -> bool {
    exists|k: int| occurs_at(s, k, m)
}

/// Removal of every occurrence of `m` found by one left-to-right scan that
/// resumes after each removed occurrence (what `str::replace(m, "")` does).
pub open spec fn strip_marker(s: Seq<u8>, m: Seq<u8>) -> Seq<u8>
    decreases s.len(),
{
    if m.len() == 0 || s.len() == 0 {
        s
    } else if m.len() <= s.len() && s.take(m.len() as int) == m {
        strip_marker(s.skip(m.len() as int), m)
    } else {
        seq![s[0]] + strip_marker(s.skip(1), m)
    }
}

/// One round of stripping: every start marker, then every end marker.
pub open spec fn strip_round(s: Seq<u8>) -> Seq<u8> {
    strip_marker(strip_marker(s, paste_start()), paste_end())
}

/// The payload placed between the markers: stripping rounds repeated until
/// a round removes nothing, so no marker is left in it (removing one
/// marker can splice the bytes around it into a new one).
pub open spec fn paste_payload(text: Seq<u8>) -> Seq<u8>
    decreases text.len(),
{
    if strip_round(text).len() < text.len() {
        paste_payload(strip_round(text))
    } else {
        text
    }
}

pub open spec fn spec_wrap_paste(text: Seq<u8>, bracketed: bool) -> Seq<u8> {
    if bracketed {
        paste_start() + paste_payload(text) + paste_end()
    } else {
        text
    }
}

fn marker_bytes(last: u8) -> (v: Vec<u8>)
    ensures
        v@ == seq![0x1bu8, 0x5bu8, 0x32u8, 0x30u8, last],
{
    let mut v: Vec<u8> = Vec::new();
    v.push(0x1b);
    v.push(0x5b);
    v.push(0x32);
    v.push(0x30);
    v.push(last);
    assert(v@ =~= seq![0x1bu8, 0x5bu8, 0x32u8, 0x30u8, last]);
    v
}

fn start_marker() -> (v: Vec<u8>)
    ensures
        v@ == paste_start(),
{
    let mut v = marker_bytes(0x30);
    v.push(0x7e);
    assert(v@ =~= paste_start());
    v
}

fn end_marker() -> (v: Vec<u8>)
    ensures
        v@ == paste_end(),
{
    let mut v = marker_bytes(0x31);
    v.push(0x7e);
    assert(v@ =~= paste_end());
    v
}

/// Whether `m` occurs in `s` at byte `i`.
fn matches_at(s: &Vec<u8>, i: usize, m: &Vec<u8>) -> (r: bool)
    requires
        i <= s@.len(),
    ensures
        r == (i + m@.len() <= s@.len() && s@.subrange(i as int, i + m@.len()) == m@),
{
    if m.len() > s.len() - i {
        return false;
    }
    let mut j: usize = 0;
    while j < m.len()
        invariant
            i + m.len() <= s.len(),
            s@.len() == s.len(),
            m@.len() == m.len(),
            j <= m@.len(),
            forall|k: int| 0 <= k < j ==> s@[i + k] == m@[k],
        decreases m@.len() - j,
    {
        if s[i + j] != m[j] {
            assert(s@.subrange(i as int, i + m@.len())[j as int] != m@[j as int]);
            return false;
        }
        j = j + 1;
    }
    assert(s@.subrange(i as int, i + m@.len()) =~= m@);
    true
}

/// `strip_marker` of `s`, computed by one scan.
fn strip_all(s: &Vec<u8>, m: &Vec<u8>) -> (out: Vec<u8>)
    requires
        m@.len() > 0,
    ensures
        out@ == strip_marker(s@, m@),
{
    let mut out: Vec<u8> = Vec::new();
    let mut i: usize = 0;
    assert(s@.skip(0) =~= s@);
    assert(out@ + strip_marker(s@, m@) =~= strip_marker(s@, m@));
    while i < s.len()
        invariant
            m@.len() > 0,
            i <= s@.len(),
            out@ + strip_marker(s@.skip(i as int), m@) == strip_marker(s@, m@),
        decreases s@.len() - i,
    {
        let rest = Ghost(s@.skip(i as int));
        if matches_at(s, i, m) {
            assert(rest@.take(m@.len() as int) =~= s@.subrange(i as int, i + m@.len()));
            assert(rest@.skip(m@.len() as int) =~= s@.skip(i + m@.len()));
            i = i + m.len();
        } else {
            assert(!(m@.len() <= rest@.len() && rest@.take(m@.len() as int) == m@)) by {
                if m@.len() <= rest@.len() {
                    assert(rest@.take(m@.len() as int) =~= s@.subrange(i as int, i + m@.len()));
                }
            }
            assert(rest@.skip(1) =~= s@.skip(i + 1));
            let ghost before = out@;
            out.push(s[i]);
            assert(out@ + strip_marker(s@.skip(i + 1), m@) =~= before + (seq![s@[i as int]]
                + strip_marker(s@.skip(i + 1), m@)));
            i = i + 1;
        }
    }
    assert(s@.skip(i as int) =~= Seq::<u8>::empty());
    assert(out@ + strip_marker(s@.skip(i as int), m@) =~= out@);
    out
}

fn append_all(out: &mut Vec<u8>, src: &Vec<u8>)
    ensures
        final(out)@ == old(out)@ + src@,
{
    let mut i: usize = 0;
    while i < src.len()
        invariant
            i <= src@.len(),
            out@ == old(out)@ + src@.take(i as int),
        decreases src@.len() - i,
    {
        out.push(src[i]);
        assert(src@.take(i + 1) =~= src@.take(i as int).push(src@[i as int]));
        i = i + 1;
    }
    assert(src@.take(src@.len() as int) =~= src@);
}

pub fn bytes_of(text: &str) -> (v: Vec<u8>)
    ensures
        v@ == text.spec_bytes(),
{
    let b = text.as_bytes();
    let mut v: Vec<u8> = Vec::new();
    let mut i: usize = 0;
    while i < b.len()
        invariant
            b@ == text.spec_bytes(),
            i <= b@.len(),
            v@ == b@.take(i as int),
        decreases b@.len() - i,
    {
        v.push(b[i]);
        assert(b@.take(i + 1) =~= b@.take(i as int).push(b@[i as int]));
        i = i + 1;
    }
    assert(b@.take(b@.len() as int) =~= b@);
    v
}

/// Prepare clipboard text for writing to a terminal session.
///
/// With `bracketed` (the focused application enabled DECSET 2004) the UTF-8
/// bytes of `text` are framed by the two markers, after every marker already
/// in them has been stripped (again and again, until none is left), so the
/// payload can neither close nor reopen the bracket; otherwise the bytes go
/// out as they are.
pub fn wrap_paste(text: &str, bracketed: bool) -> (out: Vec<u8>)
    ensures
        out@ == spec_wrap_paste(text.spec_bytes(), bracketed),
{
    let raw = bytes_of(text);
    if !bracketed {
        return raw;
    }
    let start = start_marker();
    let end = end_marker();
    let mut cur = raw;
    loop
        invariant
            start@ == paste_start(),
            end@ == paste_end(),
            paste_payload(cur@) == paste_payload(text.spec_bytes()),
        ensures
            cur@ == paste_payload(text.spec_bytes()),
        decreases cur@.len(),
    {
        let once = strip_all(&cur, &start);
        let twice = strip_all(&once, &end);
        proof {
            lemma_strip_len(cur@, paste_start());
            lemma_strip_len(once@, paste_end());
        }
        if twice.len() == cur.len() {
            assert(paste_payload(cur@) == cur@);
            break;
        }
        cur = twice;
    }
    let mut out: Vec<u8> = Vec::new();
    append_all(&mut out, &start);
    append_all(&mut out, &cur);
    append_all(&mut out, &end);
    out
}

/// Stripping never lengthens, and keeps the length only when the marker
/// does not occur.
proof fn lemma_strip_len(s: Seq<u8>, m: Seq<u8>)
    requires
        m.len() > 0,
    ensures
        strip_marker(s, m).len() <= s.len(),
        strip_marker(s, m).len() == s.len() ==> !contains_marker(s, m),
    decreases s.len(),
{
    if s.len() == 0 {
    } else if m.len() <= s.len() && s.take(m.len() as int) == m {
        lemma_strip_len(s.skip(m.len() as int), m);
    } else {
        lemma_strip_len(s.skip(1), m);
        if strip_marker(s, m).len() == s.len() {
            assert forall|k: int| !occurs_at(s, k, m) by {
                if occurs_at(s, k, m) {
                    if k == 0 {
                        assert(s.subrange(0, m.len() as int) =~= s.take(m.len() as int));
                    } else {
                        assert(s.skip(1).subrange(k - 1, k - 1 + m.len()) =~= s.subrange(k, k + m.len()));
                        assert(occurs_at(s.skip(1), k - 1, m));
                    }
                }
            }
        }
    }
}

/// A round that removes nothing leaves no marker behind.
proof fn lemma_round_fixed(s: Seq<u8>)
    requires
        strip_round(s).len() >= s.len(),
    ensures
        !contains_marker(s, paste_start()),
        !contains_marker(s, paste_end()),
{
    lemma_strip_len(s, paste_start());
    lemma_strip_len(strip_marker(s, paste_start()), paste_end());
    lemma_strip_absent(s, paste_start());
}

/// The payload holds neither marker, whatever the text.
pub proof fn lemma_payload_is_marker_free(text: Seq<u8>)
    ensures
        !contains_marker(paste_payload(text), paste_start()),
        !contains_marker(paste_payload(text), paste_end()),
    decreases text.len(),
{
    if strip_round(text).len() < text.len() {
        lemma_payload_is_marker_free(strip_round(text));
    } else {
        lemma_round_fixed(text);
    }
}

/// Stripping a marker that does not occur leaves the bytes unchanged.
proof fn lemma_strip_absent(s: Seq<u8>, m: Seq<u8>)
    requires
        !contains_marker(s, m),
    ensures
        strip_marker(s, m) == s,
    decreases s.len(),
{
    if m.len() == 0 || s.len() == 0 {
    } else {
        if m.len() <= s.len() && s.take(m.len() as int) == m {
            assert(occurs_at(s, 0, m)) by {
                assert(s.subrange(0, m.len() as int) =~= s.take(m.len() as int));
            }
        }
        assert forall|k: int| !occurs_at(s.skip(1), k, m) by {
            if occurs_at(s.skip(1), k, m) {
                assert(s.subrange(k + 1, k + 1 + m.len()) =~= s.skip(1).subrange(k, k + m.len()));
                assert(occurs_at(s, k + 1, m));
            }
        }
        lemma_strip_absent(s.skip(1), m);
        assert(seq![s[0]] + s.skip(1) =~= s);
    }
}

/// Clipboard text that carries neither marker is pasted byte for byte between
/// the two markers.
pub proof fn law_marker_free_text_is_pasted_verbatim(text: Seq<u8>)
    requires
        !contains_marker(text, paste_start()),
        !contains_marker(text, paste_end()),
    ensures
        paste_payload(text) == text,
        spec_wrap_paste(text, true) == paste_start() + text + paste_end(),
{
    lemma_strip_absent(text, paste_start());
    lemma_strip_absent(text, paste_end());
    assert(strip_round(text) == text);
}

/// A marker occurrence in `S + p + E` away from the closing marker lies at
/// byte 0 or inside `p`: both markers begin with the only ESC they contain.
proof fn lemma_marker_position(p: Seq<u8>, k: int, m: Seq<u8>)
    requires
        m == paste_start() || m == paste_end(),
        occurs_at(paste_start() + p + paste_end(), k, m),
        k != p.len() + 6,
    ensures
        k == 0 || occurs_at(p, k - 6, m),
{
    let o = paste_start() + p + paste_end();
    let n = p.len() as int;
    assert(o.subrange(k, k + 6)[0] == m[0]);
    assert(m[0] == 0x1b);
    assert(forall|j: int| 1 <= j < 6 ==> m[j] != 0x1b);
    if 0 < k < 6 {
        assert(o.subrange(k, k + 6)[0] == o[k]);
        assert(o[k] == paste_start()[k]);
    } else if 6 <= k && k + 6 <= n + 6 {
        assert(p.subrange(k - 6, k) =~= o.subrange(k, k + 6));
    } else if 6 <= k && k < n + 6 {
        let j = n + 6 - k;
        assert(o.subrange(k, k + 6)[j] == o[n + 6]);
        assert(o[n + 6] == paste_end()[0]);
    } else if k > n + 6 {
    }
}

/// Whatever the clipboard holds, the bracketed output holds the start
/// marker only at its first byte and the end marker only as its last six
/// bytes: the pasted text can neither close the bracket early nor open a
/// nested one.
pub proof fn law_payload_cannot_break_out(text: Seq<u8>)
    ensures
        forall|k: int|
            occurs_at(spec_wrap_paste(text, true), k, paste_start()) <==> k == 0,
        forall|k: int|
            occurs_at(spec_wrap_paste(text, true), k, paste_end()) <==> k == spec_wrap_paste(
                text,
                true,
            ).len() - 6,
{
    lemma_payload_is_marker_free(text);
    let p = paste_payload(text);
    let o = spec_wrap_paste(text, true);
    let n = p.len() as int;
    assert(o == paste_start() + p + paste_end());
    assert(o.subrange(0, 6) =~= paste_start());
    assert(o.subrange(n + 6, n + 12) =~= paste_end());
    assert forall|k: int| occurs_at(o, k, paste_start()) implies k == 0 by {
        if k == n + 6 {
            assert(o.subrange(k, k + 6)[4] == o[n + 10]);
            assert(o[n + 10] == paste_end()[4]);
        } else {
            lemma_marker_position(p, k, paste_start());
        }
    }
    assert forall|k: int| occurs_at(o, k, paste_end()) implies k == n + 6 by {
        if k != n + 6 {
            lemma_marker_position(p, k, paste_end());
            if k == 0 {
                assert(o.subrange(0, 6)[4] == o[4]);
            }
        }
    }
}

} // verus!
