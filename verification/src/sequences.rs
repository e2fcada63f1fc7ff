//! Small facts about texts: what is left of a text, and of a text with more
//! behind it.

use vstd::prelude::*;
use crate::grammar::after;

verus! {

/// What is left of `s + k` behind a position in `s` is what is left of `s`,
/// and `k`; and within `s` the two hold the same characters.
pub proof fn lemma_after_append(s: Seq<char>, k: Seq<char>, n: nat)
    requires
        n <= s.len(),
    ensures
        after(s + k, n) == after(s, n) + k,
        forall|i: int| 0 <= i < s.len() ==> (s + k)[i] == s[i],
        (s + k).take(n as int) == s.take(n as int),
{
}

/// The same for the position behind the first character.
pub proof fn lemma_skip_append(s: Seq<char>, k: Seq<char>)
    requires
        s.len() > 0,
    ensures
        (s + k).skip(1) == s.skip(1) + k,
        (s + k)[0] == s[0],
{
}

/// What is left behind `a` and then `b` characters is left behind `a + b`,
/// and what is read in two steps is read in one.
pub proof fn lemma_after_after(s: Seq<char>, a: nat, b: nat)
    requires
        a <= s.len(),
        b <= after(s, a).len(),
    ensures
        after(after(s, a), b) == after(s, a + b),
        s.take(a + b as int) == s.take(a as int) + after(s, a).take(b as int),
{
}

/// Nothing is left behind a text, and all of it behind nothing.
pub proof fn lemma_after_ends(s: Seq<char>, k: Seq<char>)
    ensures
        after(s + k, s.len()) == k,
        after(s, 0) == s,
        s + Seq::<char>::empty() == s,
        Seq::<char>::empty() + s == s,
        (s + k).take(s.len() as int) == s,
{
}

} // verus!
