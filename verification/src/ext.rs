use vstd::prelude::*;

verus! {

/// Relies on String::push: appends the given character to the end of the
/// string, so the new character sequence is the old one plus that character.
pub assume_specification[ String::push ](s: &mut String, c: char)
    ensures
        final(s)@ == old(s)@.push(c),
;

/// Relies on char::from_u32: returns the character with scalar value `u`,
/// and None exactly when `u` is a surrogate code point or above char::MAX.
pub assume_specification[ char::from_u32 ](u: u32) -> (r: Option<char>)
    ensures
        r is Some <==> vstd::utf8::is_scalar(u),
        r matches Some(c) ==> c as u32 == u,
;

} // verus!
