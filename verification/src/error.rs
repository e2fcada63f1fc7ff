//! The ways in which a line can be rejected.

use vstd::prelude::*;
use vstd::string::StringExecFns;

verus! {

/// Why a line was rejected. Nothing is translated of a line that is
/// rejected: the first fault ends the translation.
#[derive(Clone, Copy, Debug, PartialEq, Eq, Structural)]
pub enum ParseError {
    /// A group was opened with `(`, and behind its expression stands `found`
    /// where `)` is due.
    UnmatchedParenthesis { found: char },
    /// The expression has ended and the line has not: `found` is the first
    /// character that is left over.
    UnconsumedTrailingInput { found: char },
    /// `found` stands where something else is due: where an operand must
    /// begin, with `(` or a digit, or inside a number where a digit must
    /// follow.
    UnexpectedCharacter { found: char },
    /// The line has ended where an operand, a digit of a number or `)` is
    /// due.
    PrematureEndOfInput,
}

impl ParseError {
    /// The text of the message: what is wrong, and the character that is in
    /// the way, where there is one.
    pub open spec fn message_text(self) -> Seq<char> {
        match self {
            ParseError::UnmatchedParenthesis { found } => "missing ')' in source code before: "@.push(
                found,
            ),
            ParseError::UnconsumedTrailingInput { found } => "invalid input source code: "@.push(
                found,
            ),
            ParseError::UnexpectedCharacter { found } => "unexpected character in source code: "@.push(
                found,
            ),
            ParseError::PrematureEndOfInput => "unexpected end of source code"@,
        }
    }

    /// A message for the user.
    pub fn message(&self) -> (text: String)
        ensures
            text@ == self.message_text(),
    {
        match self {
            ParseError::UnmatchedParenthesis { found } => {
                let mut text = String::from_str("missing ')' in source code before: ");
                text.push(*found);
                text
            },
            ParseError::UnconsumedTrailingInput { found } => {
                let mut text = String::from_str("invalid input source code: ");
                text.push(*found);
                text
            },
            ParseError::UnexpectedCharacter { found } => {
                let mut text = String::from_str("unexpected character in source code: ");
                text.push(*found);
                text
            },
            ParseError::PrematureEndOfInput => String::from_str("unexpected end of source code"),
        }
    }
}

} // verus!
