//! Decimal rendering and the few `String` operations the library needs.
use vstd::prelude::*;

verus! {

/// ASCII decimal digits of `n`, most significant first, no leading zeros.
pub open spec fn decimal(n: nat) -> Seq<u8>
    decreases n,
{
    if n < 10 {
        seq![(48 + n) as u8]
    } else {
        decimal(n / 10).push((48 + n % 10) as u8)
    }
}

/// Append the decimal rendering of `n` to `out`.
pub fn push_decimal(out: &mut Vec<u8>, n: u16)
    ensures
        final(out)@ == old(out)@ + decimal(n as nat),
    decreases n,
{
    if n >= 10 {
        push_decimal(out, n / 10);
    }
    let d: u8 = (n % 10) as u8;
    out.push(48u8 + d);
    proof {
        assert(old(out)@ + decimal(n as nat) =~= (old(out)@ + (if n >= 10 { decimal(
            (n / 10) as nat,
        ) } else { seq![] })).push((48 + n % 10) as u8));
    }
}

} // verus!

verus! {

/// The characters of `s`, in order.
pub fn chars_of(s: &str) -> (v: Vec<char>)
    ensures
        v@ == s@,
{
    broadcast use vstd::string::group_string_axioms;

    let mut v: Vec<char> = Vec::new();
    for c in it: s.chars()
        invariant
            it.seq() == s@,
            v@ == s@.take(it.index() as int),
    {
        assert(s@.take(it.index() + 1) =~= s@.take(it.index() as int).push(c));
        v.push(c);
    }
    assert(s@.take(s@.len() as int) =~= s@);
    v
}

/// `String::push` (std), which vstd leaves unspecified. Claimed, as std's
/// documentation says: the character is appended to the end of the string
/// and nothing else changes.
#[verifier::external_body]
pub(crate) fn string_push(s: &mut String, c: char)
    ensures
        final(s)@ == old(s)@.push(c),
{
    s.push(c);
}

/// A `String` holding exactly the characters of `v[a..b]`.
pub fn string_of(v: &Vec<char>, a: usize, b: usize) -> (s: String)
    requires
        a <= b <= v@.len(),
    ensures
        s@ == v@.subrange(a as int, b as int),
{
    let mut s = String::new();
    let mut i = a;
    while i < b
        invariant
            a <= i <= b <= v@.len(),
            s@ == v@.subrange(a as int, i as int),
        decreases b - i,
    {
        string_push(&mut s, v[i]);
        assert(v@.subrange(a as int, i + 1) =~= v@.subrange(a as int, i as int).push(v@[i as int]));
        i = i + 1;
    }
    s
}

} // verus!

verus! {

/// `char::is_whitespace`: the Unicode `White_Space` property.
pub open spec fn spec_is_whitespace(c: char) -> bool {
    let u = c as u32;
    (9 <= u <= 13) || u == 32 || u == 0x85 || u == 0xA0 || u == 0x1680 || (0x2000 <= u <= 0x200A)
        || u == 0x2028 || u == 0x2029 || u == 0x202F || u == 0x205F || u == 0x3000
}

pub fn is_whitespace(c: char) -> (r: bool)
    ensures
        r == spec_is_whitespace(c),
{
    let u = c as u32;
    (9 <= u && u <= 13) || u == 32 || u == 0x85 || u == 0xA0 || u == 0x1680 || (0x2000 <= u && u
        <= 0x200A) || u == 0x2028 || u == 0x2029 || u == 0x202F || u == 0x205F || u == 0x3000
}

/// One byte per character: the character itself when it is ASCII, `0x80`
/// (never an ASCII class) otherwise. Byte-class scans over this projection
/// see exactly what they would see over the UTF-8 bytes, with one position
/// per character.
pub open spec fn proj(c: char) -> u8 {
    if (c as u32) < 128 { (c as u32) as u8 } else { 0x80u8 }
}

pub open spec fn proj_seq(t: Seq<char>) -> Seq<u8> {
    Seq::new(t.len(), |i: int| proj(t[i]))
}

pub fn project(t: &Vec<char>) -> (b: Vec<u8>)
    ensures
        b@ == proj_seq(t@),
{
    let mut b: Vec<u8> = Vec::new();
    let mut i: usize = 0;
    while i < t.len()
        invariant
            0 <= i <= t@.len(),
            b@ =~= proj_seq(t@).take(i as int),
        decreases t@.len() - i,
    {
        let c = t[i];
        let u = c as u32;
        let p: u8 = if u < 128 { u as u8 } else { 0x80 };
        assert(p == proj(t@[i as int]));
        b.push(p);
        assert(b@ =~= proj_seq(t@).take(i + 1));
        i = i + 1;
    }
    b
}

} // verus!
