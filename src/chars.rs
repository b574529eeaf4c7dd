//! Character classes used by the tokenizer.
//!
//! Unicode classification is delegated to the standard library; the few
//! facts about ASCII that the tokenizer's proofs need are stated alongside.
use vstd::prelude::*;

verus! {

/// Whether `c` has the Unicode `White_Space` property.
pub uninterp spec fn whitespace(c: char) -> bool;

/// Whether `c` has the Unicode `Alphabetic` property.
pub uninterp spec fn alphabetic(c: char) -> bool;

/// Whether `c` is alphabetic or has a Unicode numeric general category.
pub uninterp spec fn alphanumeric(c: char) -> bool;

pub open spec fn ascii_letter(c: char) -> bool {
    ('a' <= c && c <= 'z') || ('A' <= c && c <= 'Z')
}

pub open spec fn ascii_digit(c: char) -> bool {
    '0' <= c && c <= '9'
}

pub open spec fn ascii_whitespace(c: char) -> bool {
    c == ' ' || c == '\t' || c == '\n' || c == '\r' || c == '\x0B' || c == '\x0C'
}

pub open spec fn is_ascii_char(c: char) -> bool {
    (c as u32) < 128
}

/// Whitespace as the tokenizer sees it: the six ASCII whitespace
/// characters, and beyond ASCII the `White_Space` property.
pub open spec fn space(c: char) -> bool {
    if is_ascii_char(c) {
        ascii_whitespace(c)
    } else {
        whitespace(c)
    }
}

/// A letter: `A-Z` and `a-z`, and beyond ASCII the `Alphabetic` property.
pub open spec fn letter(c: char) -> bool {
    if is_ascii_char(c) {
        ascii_letter(c)
    } else {
        alphabetic(c)
    }
}

/// A letter or digit: ASCII letters and decimal digits, and beyond ASCII
/// the alphabetic and numeric characters.
pub open spec fn letter_or_digit(c: char) -> bool {
    if is_ascii_char(c) {
        ascii_letter(c) || ascii_digit(c)
    } else {
        alphanumeric(c)
    }
}

/// Relies on `char::is_whitespace`: the `White_Space` property, which on
/// ASCII holds exactly for space, tab, line feed, vertical tab, form feed
/// and carriage return.
#[verifier::external_body]
pub fn is_whitespace(c: char) -> (r: bool)
    ensures
        r == whitespace(c),
        is_ascii_char(c) ==> (r <==> ascii_whitespace(c)),
{
    c.is_whitespace()
}

/// Relies on `char::is_alphabetic`: the `Alphabetic` property, which on
/// ASCII holds exactly for the letters.
#[verifier::external_body]
pub fn is_alphabetic(c: char) -> (r: bool)
    ensures
        r == alphabetic(c),
        is_ascii_char(c) ==> (r <==> ascii_letter(c)),
{
    c.is_alphabetic()
}

/// Relies on `char::is_alphanumeric`: alphabetic or numeric, which on ASCII
/// holds exactly for the letters and the decimal digits.
#[verifier::external_body]
pub fn is_alphanumeric(c: char) -> (r: bool)
    ensures
        r == alphanumeric(c),
        alphabetic(c) ==> r,
        is_ascii_char(c) ==> (r <==> (ascii_letter(c) || ascii_digit(c))),
{
    c.is_alphanumeric()
}

/// The value of `c` as a digit in base `radix` (at most 36): `0-9`, then
/// the letters of either case from `a` on.
pub open spec fn digit_value(c: char, radix: u32) -> Option<u32> {
    let v: int = if '0' <= c && c <= '9' {
        c as int - '0' as int
    } else if 'a' <= c && c <= 'z' {
        c as int - 'a' as int + 10
    } else if 'A' <= c && c <= 'Z' {
        c as int - 'A' as int + 10
    } else {
        36
    };
    if v < radix {
        Some(v as u32)
    } else {
        None
    }
}

/// Executable counterpart of `digit_value`.
pub fn to_digit(c: char, radix: u32) -> (r: Option<u32>)
    requires
        radix <= 36,
    ensures
        r == digit_value(c, radix),
{
    let v: u32 = if '0' <= c && c <= '9' {
        (c as u32) - ('0' as u32)
    } else if 'a' <= c && c <= 'z' {
        (c as u32) - ('a' as u32) + 10
    } else if 'A' <= c && c <= 'Z' {
        (c as u32) - ('A' as u32) + 10
    } else {
        36
    };
    if v < radix {
        Some(v)
    } else {
        None
    }
}

} // verus!
