//! Bridges between `String` / `&str` and the character vectors that the
//! verified logic works on, together with the one case-folding operation
//! the store's path normalization needs.

use vstd::prelude::*;

verus! {

/// The sequence of characters that Unicode uppercasing produces for the
/// given sequence; it depends on the characters alone.
pub uninterp spec fn upper_of(s: Seq<char>) -> Seq<char>;

/// Relies on str::chars: the iterator yields exactly the characters of
/// the slice, in order.
#[verifier::external_body]
pub(crate) fn str_to_chars(s: &str) -> (r: Vec<char>)
    ensures
        r@ == s@,
{
    s.chars().collect()
}

/// Relies on FromIterator for String: collecting characters builds the
/// string of exactly those characters, in order.
#[verifier::external_body]
pub(crate) fn chars_to_string(v: &Vec<char>) -> (r: String)
    ensures
        r@ == v@,
{
    v.iter().collect()
}

/// Relies on str::to_uppercase: the result is the Unicode uppercase
/// mapping of the input, a function of the input characters alone; an
/// empty input gives an empty result.
#[verifier::external_body]
pub(crate) fn to_upper(s: &str) -> (r: String)
    ensures
        r@ == upper_of(s@),
        s@.len() == 0 ==> r@.len() == 0,
{
    s.to_uppercase()
}

/// Relies on char::from_u32: every value below the surrogate range or
/// between the surrogate range and the largest code point is a valid
/// scalar value, for which it returns exactly that character.
#[verifier::external_body]
pub(crate) fn char_from_u32(v: u32) -> (r: char)
    requires
        v < 0xD800 || (0xE000 <= v && v <= 0x10FFFF),
    ensures
        r == v as char,
{
    char::from_u32(v).unwrap()
}

} // verus!
