//! Character classification for the tokenizer.
//!
//! Identifiers may contain any Unicode alphabetic or alphanumeric character,
//! exactly as `char::is_alphabetic` and `char::is_alphanumeric` decide them.
//! Within ASCII those classes are spelled out below; outside ASCII they are
//! named, uninterpreted functions, since only the Unicode tables define them.

use vstd::prelude::*;

verus! {

/// Whether a character above ASCII has the Unicode `Alphabetic` property.
/// Named, not defined: `char::is_alphabetic` is its only source.
pub uninterp spec fn wide_alphabetic(c: char) -> bool;

/// Whether a character above ASCII is alphanumeric in the Unicode sense.
/// Named, not defined: `char::is_alphanumeric` is its only source.
pub uninterp spec fn wide_alphanumeric(c: char) -> bool;

pub open spec fn ascii_letter(c: char) -> bool {
    (97 <= c as u32 && c as u32 <= 122)  // 'a' ..= 'z'
    || (65 <= c as u32 && c as u32 <= 90)  // 'A' ..= 'Z'
}

pub open spec fn ascii_digit(c: char) -> bool {
    48 <= c as u32 && c as u32 <= 57  // '0' ..= '9'
}

pub open spec fn alphabetic(c: char) -> bool {
    if c as u32 <= 127 {
        ascii_letter(c)
    } else {
        wide_alphabetic(c)
    }
}

pub open spec fn alphanumeric(c: char) -> bool {
    if c as u32 <= 127 {
        ascii_letter(c) || ascii_digit(c)
    } else {
        wide_alphanumeric(c)
    }
}

/// Relies on `char::is_alphabetic`, which tests the Unicode `Alphabetic`
/// property: within ASCII that property holds exactly of the letters
/// `a`-`z` and `A`-`Z` (the range `char::is_ascii_alphabetic` documents),
/// and on any character the result depends on the character alone.
pub assume_specification[ char::is_alphabetic ](c: char) -> (r: bool)
    ensures
        r == alphabetic(c),
        c as u32 > 127 ==> r == wide_alphabetic(c),
;

/// Relies on `char::is_alphanumeric`, which holds of alphabetic and numeric
/// characters: within ASCII exactly the letters and the digits `0`-`9` (the
/// range `char::is_ascii_alphanumeric` documents), and on any character the
/// result depends on the character alone.
pub assume_specification[ char::is_alphanumeric ](c: char) -> (r: bool)
    ensures
        r == alphanumeric(c),
        c as u32 > 127 ==> r == wide_alphanumeric(c),
;

} // verus!
