//! Character classes of the language.

use vstd::prelude::*;

verus! {

/// Whether Unicode gives the character the `Alphabetic` property. Only
/// consulted for characters beyond ASCII.
pub uninterp spec fn unicode_alphabetic(c: char) -> bool;

/// A decimal digit, `0` to `9`.
pub open spec fn is_digit(c: char) -> bool {
    '0' <= c && c <= '9'
}

/// A character within the ASCII range.
pub open spec fn is_ascii_char(c: char) -> bool {
    c <= '\x7f'
}

/// A character that may begin an identifier: an underscore or an alphabetic
/// character. Within ASCII the alphabetic characters are the Latin letters;
/// beyond it Unicode decides.
pub open spec fn is_letter(c: char) -> bool {
    if c == '_' {
        true
    } else if is_ascii_char(c) {
        ('a' <= c && c <= 'z') || ('A' <= c && c <= 'Z')
    } else {
        unicode_alphabetic(c)
    }
}

/// A character that may continue an identifier.
pub open spec fn is_word_char(c: char) -> bool {
    is_letter(c) || is_digit(c)
}

/// Insignificant whitespace: space, carriage return, tab and newline.
pub open spec fn is_blank(c: char) -> bool {
    c == ' ' || c == '\r' || c == '\t' || c == '\n'
}

/// Calls `char::is_alphabetic`. Not proved: the result is the Unicode
/// `Alphabetic` property of the character, which this crate only names.
#[verifier::external_body]
fn alphabetic(c: char) -> (r: bool)
    ensures
        r == unicode_alphabetic(c),
{
    c.is_alphabetic()
}

pub fn digit(c: char) -> (r: bool)
    ensures
        r == is_digit(c),
{
    '0' <= c && c <= '9'
}

pub fn letter(c: char) -> (r: bool)
    ensures
        r == is_letter(c),
{
    if c == '_' {
        true
    } else if c <= '\x7f' {
        ('a' <= c && c <= 'z') || ('A' <= c && c <= 'Z')
    } else {
        alphabetic(c)
    }
}

pub fn word_char(c: char) -> (r: bool)
    ensures
        r == is_word_char(c),
{
    letter(c) || digit(c)
}

} // verus!
