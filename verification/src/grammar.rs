//! The translation scheme, as mathematics.
//!
//! A line is a sequence of characters. Each rule of the grammar reads a
//! prefix of the sequence it is given and synthesizes the postfix text of
//! what it read:
//!
//! ```text
//! expr   -> term rest            expr.out   = term.out ++ rest.out
//! rest   -> + term rest1         rest.out   = term.out ++ "+" ++ rest1.out
//!         | - term rest1         rest.out   = term.out ++ "-" ++ rest1.out
//!         | (nothing)            rest.out   = ""
//! term   -> factor other         term.out   = factor.out ++ other.out
//! other  -> * factor other1      other.out  = factor.out ++ "*" ++ other1.out
//!         | / factor other1      other.out  = factor.out ++ "/" ++ other1.out
//!         | (nothing)            other.out  = ""
//! factor -> ( expr )             factor.out = expr.out
//!         | number               factor.out = the number as written
//!         | (nothing)            factor.out = ""
//! number -> digits [ . digits ] [ (e|E) [+|-] digits ]
//! ```
//!
//! A rule decides by the next character alone which alternative applies.
//! `factor` reads nothing where no operand begins. `term` and `other`, which
//! need an operand, look first and reject the line where none begins, so
//! that an accepted line is a well-formed expression.

use vstd::prelude::*;
use crate::error::ParseError;

verus! {

/// What a rule made of a prefix of its input: the postfix text `out`, and the
/// number `used` of characters that the prefix has.
pub struct Parsed {
    pub out: Seq<char>,
    pub used: nat,
}

/// What a rule does with its input: it reads a prefix, or it rejects the line.
pub type Outcome = Result<Parsed, ParseError>;

pub open spec fn is_digit(c: char) -> bool {
    '0' <= c <= '9'
}

pub open spec fn is_additive(c: char) -> bool {
    c == '+' || c == '-'
}

pub open spec fn is_multiplicative(c: char) -> bool {
    c == '*' || c == '/'
}

pub open spec fn is_exponent_marker(c: char) -> bool {
    c == 'e' || c == 'E'
}

/// The rule that reads nothing.
pub open spec fn nothing() -> Parsed {
    Parsed { out: Seq::empty(), used: 0 }
}

/// What is left of `s` once `n` characters are read.
pub open spec fn after(s: Seq<char>, n: nat) -> Seq<char> {
    if n <= s.len() {
        s.skip(n as int)
    } else {
        Seq::empty()
    }
}

/// `first` followed by what `second` made of the input behind it.
pub open spec fn followed_by(first: Parsed, second: Outcome) -> Outcome {
    match second {
        Ok(p) => Ok(Parsed { out: first.out + p.out, used: first.used + p.used }),
        Err(e) => Err(e),
    }
}

/// The number of digits that `s` begins with.
pub open spec fn digit_run(s: Seq<char>) -> nat
    decreases s.len(),
{
    if s.len() > 0 && is_digit(s[0]) {
        1 + digit_run(s.skip(1))
    } else {
        0
    }
}

/// One or more digits: how many there are. A line that ends here is cut
/// short; any other character is out of place.
pub open spec fn digits_rule(s: Seq<char>) -> Result<nat, ParseError> {
    if s.len() == 0 {
        Err(ParseError::PrematureEndOfInput)
    } else if !is_digit(s[0]) {
        Err(ParseError::UnexpectedCharacter { found: s[0] })
    } else {
        Ok(digit_run(s))
    }
}

/// An optional fraction, `.` and one or more digits: its length.
pub open spec fn fraction_rule(s: Seq<char>) -> Result<nat, ParseError> {
    if s.len() > 0 && s[0] == '.' {
        match digits_rule(s.skip(1)) {
            Ok(n) => Ok(1 + n),
            Err(e) => Err(e),
        }
    } else {
        Ok(0)
    }
}

/// An optional exponent, `e` or `E`, an optional sign and one or more
/// digits: its length.
pub open spec fn exponent_rule(s: Seq<char>) -> Result<nat, ParseError> {
    if s.len() > 0 && is_exponent_marker(s[0]) {
        let sign: nat = if s.len() > 1 && is_additive(s[1]) { 1 } else { 0 };
        match digits_rule(after(s, 1 + sign)) {
            Ok(n) => Ok(1 + sign + n),
            Err(e) => Err(e),
        }
    } else {
        Ok(0)
    }
}

/// The length of the number that `s` begins with.
pub open spec fn number_len(s: Seq<char>) -> Result<nat, ParseError> {
    match digits_rule(s) {
        Err(e) => Err(e),
        Ok(whole) => match fraction_rule(after(s, whole)) {
            Err(e) => Err(e),
            Ok(fraction) => match exponent_rule(after(s, whole + fraction)) {
                Err(e) => Err(e),
                Ok(exponent) => Ok(whole + fraction + exponent),
            },
        },
    }
}

/// `number`: the text of the number is its own postfix form.
pub open spec fn number_rule(s: Seq<char>) -> Outcome {
    match number_len(s) {
        Ok(n) => Ok(Parsed { out: s.take(n as int), used: n }),
        Err(e) => Err(e),
    }
}

/// What is wrong with `s` where an operand is due: nothing where it begins
/// with `(` or with a digit; else the line has ended too early, or a
/// character is out of place.
pub open spec fn missing_operand(s: Seq<char>) -> Option<ParseError> {
    if s.len() == 0 {
        Some(ParseError::PrematureEndOfInput)
    } else if s[0] == '(' || is_digit(s[0]) {
        None
    } else {
        Some(ParseError::UnexpectedCharacter { found: s[0] })
    }
}

/// `factor`: a group in parentheses, a number, or nothing at all. Nothing is
/// read, and the postfix text is empty, where neither begins: in front of
/// any other character, and at the end of the line. An empty text is no
/// operand: `term` and `other`, which need one, look first.
pub open spec fn factor_rule(s: Seq<char>) -> Outcome
    decreases s.len(), 0nat,
{
    if s.len() > 0 && s[0] == '(' {
        match expr_rule(s.skip(1)) {
            Err(e) => Err(e),
            Ok(inner) => {
                let close = 1 + inner.used;
                if close >= s.len() {
                    Err(ParseError::PrematureEndOfInput)
                } else if s[close as int] != ')' {
                    Err(ParseError::UnmatchedParenthesis { found: s[close as int] })
                } else {
                    Ok(Parsed { out: inner.out, used: close + 1 })
                }
            },
        }
    } else if s.len() > 0 && is_digit(s[0]) {
        number_rule(s)
    } else {
        Ok(nothing())
    }
}

/// `other`: the factors that follow the first one of a term, each behind its
/// operator in the text and before it in the output. Behind an operator a
/// factor must begin.
pub open spec fn other_rule(s: Seq<char>) -> Outcome
    decreases s.len(), 0nat,
{
    if s.len() > 0 && is_multiplicative(s[0]) {
        match missing_operand(s.skip(1)) {
            Some(e) => Err(e),
            None => match factor_rule(s.skip(1)) {
                Err(e) => Err(e),
                Ok(f) => {
                    let operand = Parsed { out: f.out.push(s[0]), used: 1 + f.used };
                    followed_by(operand, other_rule(after(s, operand.used)))
                },
            },
        }
    } else {
        Ok(nothing())
    }
}

/// `term`: a factor and the factors that are multiplied to it or divide it.
/// The factor must begin where the term does.
pub open spec fn term_rule(s: Seq<char>) -> Outcome
    decreases s.len(), 1nat,
{
    match missing_operand(s) {
        Some(e) => Err(e),
        None => match factor_rule(s) {
            Err(e) => Err(e),
            Ok(f) => followed_by(f, other_rule(after(s, f.used))),
        },
    }
}

/// `rest`: the terms that follow the first one of an expression, each behind
/// its operator in the text and before it in the output.
pub open spec fn rest_rule(s: Seq<char>) -> Outcome
    decreases s.len(), 0nat,
{
    if s.len() > 0 && is_additive(s[0]) {
        match term_rule(s.skip(1)) {
            Err(e) => Err(e),
            Ok(t) => {
                let operand = Parsed { out: t.out.push(s[0]), used: 1 + t.used };
                followed_by(operand, rest_rule(after(s, operand.used)))
            },
        }
    } else {
        Ok(nothing())
    }
}

/// `expr`: a term and the terms that are added to it or subtracted from it.
pub open spec fn expr_rule(s: Seq<char>) -> Outcome
    decreases s.len(), 2nat,
{
    match term_rule(s) {
        Err(e) => Err(e),
        Ok(t) => followed_by(t, rest_rule(after(s, t.used))),
    }
}

/// A whole line: one expression and nothing behind it. The result is the
/// postfix text of the expression.
pub open spec fn translation(s: Seq<char>) -> Result<Seq<char>, ParseError> {
    match expr_rule(s) {
        Err(e) => Err(e),
        Ok(p) => if p.used < s.len() {
            Err(ParseError::UnconsumedTrailingInput { found: s[p.used as int] })
        } else {
            Ok(p.out)
        },
    }
}

} // verus!
