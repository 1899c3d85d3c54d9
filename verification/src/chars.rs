//! Character classes of the dialect.

use vstd::prelude::*;

verus! {

/// Blank characters that separate tokens: space, tab, line feed, carriage return.
pub open spec fn is_space(c: char) -> bool {
    c == ' ' || c == '\t' || c == '\n' || c == '\r'
}

/// ASCII decimal digits.
pub open spec fn is_digit(c: char) -> bool {
    '0' <= c <= '9'
}

/// Whether `char::is_alphabetic` holds of `c`: whether `c` is a letter in Unicode's sense.
pub uninterp spec fn alphabetic(c: char) -> bool;

/// Whether `char::is_alphanumeric` holds of `c`.
pub uninterp spec fn alphanumeric(c: char) -> bool;

/// `char::is_alphabetic` of std: its answer depends on the character alone,
/// and is known to contracts as `alphabetic`.
pub assume_specification[ char::is_alphabetic ](c: char) -> (b: bool)
    ensures
        b == alphabetic(c),
;

/// `char::is_alphanumeric` of std: its answer depends on the character alone,
/// and is known to contracts as `alphanumeric`.
pub assume_specification[ char::is_alphanumeric ](c: char) -> (b: bool)
    ensures
        b == alphanumeric(c),
;

/// `String::push` of std appends one character at the end.
pub assume_specification[ std::string::String::push ](s: &mut std::string::String, c: char)
    ensures
        final(s)@ == old(s)@.push(c),
;

/// A character that may begin an identifier or a keyword.
pub open spec fn is_word_start(c: char) -> bool {
    alphabetic(c) || c == '_'
}

/// A character that may continue an identifier or a keyword.
pub open spec fn is_word_part(c: char) -> bool {
    alphanumeric(c) || c == '_'
}

/// The ASCII lower-case form of `c`; characters outside `A`..`Z` are unchanged.
pub open spec fn lower(c: char) -> char {
    if 'A' <= c <= 'Z' {
        ((c as u8) + 32) as char
    } else {
        c
    }
}

/// Whether `c` is a blank.
pub fn space(c: char) -> (b: bool)
    ensures
        b == is_space(c),
{
    c == ' ' || c == '\t' || c == '\n' || c == '\r'
}

/// Whether `c` is an ASCII digit.
pub fn digit(c: char) -> (b: bool)
    ensures
        b == is_digit(c),
{
    '0' <= c && c <= '9'
}

/// Whether `c` may begin an identifier or a keyword.
pub fn word_start(c: char) -> (b: bool)
    ensures
        b == is_word_start(c),
{
    c.is_alphabetic() || c == '_'
}

/// Whether `c` may continue an identifier or a keyword.
pub fn word_part(c: char) -> (b: bool)
    ensures
        b == is_word_part(c),
{
    c.is_alphanumeric() || c == '_'
}

/// The ASCII lower-case form of `c`.
pub fn to_lower(c: char) -> (r: char)
    ensures
        r == lower(c),
{
    if 'A' <= c && c <= 'Z' {
        ((c as u8) + 32) as char
    } else {
        c
    }
}

} // verus!
