//! ASCII byte classes the scanners are built from.
use vstd::prelude::*;

verus! {

pub open spec fn spec_is_digit(b: u8) -> bool {
    48 <= b <= 57
}

pub open spec fn spec_is_alpha(b: u8) -> bool {
    (65 <= b <= 90) || (97 <= b <= 122)
}

pub open spec fn spec_is_alnum(b: u8) -> bool {
    spec_is_digit(b) || spec_is_alpha(b)
}

pub open spec fn spec_is_hex(b: u8) -> bool {
    spec_is_digit(b) || (65 <= b <= 70) || (97 <= b <= 102)
}

/// A byte that belongs to an identifier-like word: ASCII alphanumeric or `_`.
pub open spec fn spec_is_word_byte(b: u8) -> bool {
    spec_is_alnum(b) || b == 95
}

pub fn is_digit(b: u8) -> (r: bool)
    ensures
        r == spec_is_digit(b),
{
    48 <= b && b <= 57
}

pub fn is_alpha(b: u8) -> (r: bool)
    ensures
        r == spec_is_alpha(b),
{
    (65 <= b && b <= 90) || (97 <= b && b <= 122)
}

pub fn is_alnum(b: u8) -> (r: bool)
    ensures
        r == spec_is_alnum(b),
{
    is_digit(b) || is_alpha(b)
}

pub fn is_hex(b: u8) -> (r: bool)
    ensures
        r == spec_is_hex(b),
{
    is_digit(b) || (65 <= b && b <= 70) || (97 <= b && b <= 102)
}

/// Whether a byte belongs to an identifier-like word (ASCII alphanumeric or
/// `_`): a run glued to such a byte is part of a word, not a token.
pub fn is_word_byte(b: u8) -> (r: bool)
    ensures
        r == spec_is_word_byte(b),
{
    is_alnum(b) || b == 95
}

/// Decimal value of a run of ASCII digits.
pub open spec fn digits_value(s: Seq<u8>) -> nat
    decreases s.len(),
{
    if s.len() == 0 {
        0
    } else {
        digits_value(s.drop_last()) * 10 + (s.last() - 48) as nat
    }
}

pub open spec fn all_digits(s: Seq<u8>) -> bool {
    forall|k: int| 0 <= k < s.len() ==> spec_is_digit(#[trigger] s[k])
}

pub proof fn lemma_digits_value_bound(s: Seq<u8>)
    requires
        all_digits(s),
    ensures
        s.len() <= 1 ==> digits_value(s) <= 9,
        s.len() <= 2 ==> digits_value(s) <= 99,
        s.len() <= 3 ==> digits_value(s) <= 999,
    decreases s.len(),
{
    if s.len() > 0 {
        assert(all_digits(s.drop_last()));
        lemma_digits_value_bound(s.drop_last());
    }
}

} // verus!
