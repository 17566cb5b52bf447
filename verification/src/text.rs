//! What the standard library's `String` and `char` do, where `vstd` does not
//! say it.

use vstd::prelude::*;

verus! {

/// Whether a number is a Unicode scalar value: a code point that is no
/// surrogate.
pub open spec fn is_scalar_value(x: int) -> bool {
    0 <= x <= 0xD7FF || 0xE000 <= x <= 0x10FFFF
}

/// `String::push` appends the character.
pub assume_specification[ String::push ](s: &mut String, ch: char)
    ensures
        final(s)@ == old(s)@.push(ch),
;

/// `char::from_u32` gives the character with that code where the number is a
/// Unicode scalar value, and nothing otherwise.
pub assume_specification[ char::from_u32 ](i: u32) -> (r: Option<char>)
    ensures
        r == if is_scalar_value(i as int) {
            Some(i as char)
        } else {
            None
        },
;

} // verus!
