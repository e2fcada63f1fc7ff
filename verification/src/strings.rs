//! What the library takes on trust about the strings of the standard
//! library.

use vstd::prelude::*;

verus! {

/// `String::push` appends the character to the end of the string and leaves
/// what stood before it as it was.
pub assume_specification[ String::push ](s: &mut String, ch: char)
    ensures
        final(s)@ == old(s)@.push(ch),
;

} // verus!
