//! Specifications for the few `std` string functions the library uses
//! that `vstd` does not cover.

use vstd::prelude::*;

verus! {

/// Relies on `String::push`: appends the given character at the end of
/// the string.
pub assume_specification[ String::push ](s: &mut String, c: char)
    ensures
        final(s)@ == old(s)@.push(c),
;

/// Relies on `char::from_u32`: yields the character with the given code
/// point exactly when it is a Unicode scalar value (not a surrogate, not
/// beyond the highest code point).
pub assume_specification[ char::from_u32 ](u: u32) -> (r: Option<char>)
    ensures
        match r {
            Some(c) => (u < 0xD800 || (0xE000 <= u && u <= 0x10FFFF)) && c == u as char,
            None => !(u < 0xD800 || (0xE000 <= u && u <= 0x10FFFF)),
        },
;

} // verus!
