//! A forward-only cursor over the characters of one input line.

use vstd::prelude::*;

verus! {

/// The input of a translation: the characters of a line and how many of them
/// have been consumed. A cursor only ever moves forward, one character at a
/// time, and never past the end of its line.
pub struct Cursor {
    chars: Vec<char>,
    pos: usize,
}

/// A character that ends a line: line feed or carriage return.
pub open spec fn is_line_end(c: char) -> bool {
    c == '\n' || c == '\r'
}

/// `s` without the line feeds and carriage returns at its end.
pub open spec fn without_line_end(s: Seq<char>) -> Seq<char>
    decreases s.len(),
{
    if s.len() > 0 && is_line_end(s.last()) {
        without_line_end(s.drop_last())
    } else {
        s
    }
}

/// The first character of `s`, if it has one.
pub open spec fn first_of(s: Seq<char>) -> Option<char> {
    if s.len() > 0 {
        Some(s[0])
    } else {
        None
    }
}

/// The characters of `text`, one by one.
fn characters(text: &str) -> (chars: Vec<char>)
    ensures
        chars@ == text@,
{
    let mut chars: Vec<char> = Vec::new();
    for c in it: text.chars()
        invariant
            it.seq() == text@,
            chars@ == it.seq().take(it.index() as int),
    {
        chars.push(c);
    }
    assert(chars@ == text@);
    chars
}

impl Cursor {
    /// The whole line the cursor was made for.
    pub closed spec fn source(self) -> Seq<char> {
        self.chars@
    }

    /// How many characters of the line have been consumed.
    pub closed spec fn consumed(self) -> nat {
        self.pos as nat
    }

    /// Every cursor stands inside its line or at its end.
    #[verifier::type_invariant]
    pub open spec fn within_source(self) -> bool {
        self.consumed() <= self.source().len()
    }

    /// What is still to be read.
    pub open spec fn remaining(self) -> Seq<char> {
        self.source().skip(self.consumed() as int)
    }

    /// `self` is where `earlier` can have got to by consuming characters.
    pub open spec fn continues(self, earlier: Cursor) -> bool {
        &&& self.source() == earlier.source()
        &&& earlier.consumed() <= self.consumed() <= self.source().len()
    }

    /// A cursor at the start of `text`.
    pub fn new(text: &str) -> (cursor: Cursor)
        ensures
            cursor.source() == text@,
            cursor.consumed() == 0,
            cursor.remaining() == text@,
    {
        Cursor { chars: characters(text), pos: 0 }
    }

    /// A cursor at the start of `line` as it was read from a file or a
    /// terminal: the line feeds and carriage returns at its end are left off.
    pub fn for_line(line: &str) -> (cursor: Cursor)
        ensures
            cursor.source() == without_line_end(line@),
            cursor.consumed() == 0,
            cursor.remaining() == without_line_end(line@),
    {
        let mut chars = characters(line);
        while chars.len() > 0 && (chars[chars.len() - 1] == '\n' || chars[chars.len() - 1] == '\r')
            invariant
                without_line_end(chars@) == without_line_end(line@),
            decreases chars.len(),
        {
            chars.pop();
        }
        Cursor { chars, pos: 0 }
    }

    /// The next character, which stays unconsumed; `None` at the end of the
    /// line.
    pub fn peek(&self) -> (next: Option<char>)
        ensures
            next == first_of(self.remaining()),
    {
        proof {
            use_type_invariant(self);
        }
        if self.pos < self.chars.len() {
            Some(self.chars[self.pos])
        } else {
            None
        }
    }

    /// Consumes the next character and returns it; at the end of the line
    /// nothing changes and the result is `None`.
    pub fn next(&mut self) -> (taken: Option<char>)
        ensures
            taken == first_of(old(self).remaining()),
            final(self).continues(*old(self)),
            final(self).consumed() == old(self).consumed() + if taken is Some {
                1nat
            } else {
                0nat
            },
    {
        proof {
            use_type_invariant(&*self);
        }
        if self.pos < self.chars.len() {
            let c = self.chars[self.pos];
            self.pos = self.pos + 1;
            Some(c)
        } else {
            None
        }
    }
}

} // verus!
