//! The translator: one function for each rule of the grammar, reading from a
//! cursor and returning the postfix text of what it read.

use vstd::prelude::*;
use vstd::string::StringExecFns;
use crate::cursor::{without_line_end, Cursor};
use crate::error::ParseError;
use crate::grammar::{
    after, digits_rule, exponent_rule, expr_rule, factor_rule, fraction_rule, is_digit,
    missing_operand, number_rule, other_rule, rest_rule, term_rule, translation, Outcome,
};
use crate::numbers::lemma_digit_run_exact;

verus! {

/// What a function of the translator owes to the rule it stands for, when it
/// is called with the cursor at `before` and leaves it at `after`: the cursor
/// is still on the same line and has not moved back; where the rule reads a
/// prefix, exactly that prefix is consumed and its postfix text is returned;
/// where the rule rejects the line, its error is returned.
pub open spec fn carries_out(
    rule: Outcome,
    before: Cursor,
    after: Cursor,
    res: Result<String, ParseError>,
) -> bool {
    &&& after.continues(before)
    &&& match rule {
        Ok(p) => res matches Ok(text) && text@ == p.out && after.consumed() == before.consumed()
            + p.used,
        Err(e) => res matches Err(got) && got == e,
    }
}

/// What a part of the number scanner owes to its rule, which gives the length
/// of what is read: the cursor moves over that many characters, and they are
/// appended to the text.
spec fn appends(
    rule: Result<nat, ParseError>,
    before: Cursor,
    after: Cursor,
    text_before: Seq<char>,
    text_after: Seq<char>,
    res: Result<(), ParseError>,
) -> bool {
    &&& after.continues(before)
    &&& match rule {
        Ok(n) => {
            &&& res is Ok
            &&& after.consumed() == before.consumed() + n
            &&& text_after == text_before + before.remaining().take(n as int)
        },
        Err(e) => res matches Err(got) && got == e,
    }
}

/// Reads one or more digits and appends them to `text`.
fn digits(look_ahead: &mut Cursor, text: &mut String) -> (res: Result<(), ParseError>)
    ensures
        appends(
            digits_rule(old(look_ahead).remaining()),
            *old(look_ahead),
            *final(look_ahead),
            old(text)@,
            final(text)@,
            res,
        ),
{
    proof {
        use_type_invariant(&*look_ahead);
    }
    let ghost input = look_ahead.remaining();
    let ghost start = look_ahead.consumed();
    match look_ahead.peek() {
        None => {
            return Err(ParseError::PrematureEndOfInput);
        },
        Some(c) => {
            if !(c >= '0' && c <= '9') {
                return Err(ParseError::UnexpectedCharacter { found: c });
            }
        },
    }
    let ghost mut n: nat = 0;
    loop
        invariant
            look_ahead.continues(*old(look_ahead)),
            look_ahead.consumed() == start + n,
            input == old(look_ahead).remaining(),
            start == old(look_ahead).consumed(),
            n <= input.len(),
            forall|i: int| 0 <= i < n ==> is_digit(#[trigger] input[i]),
            text@ == old(text)@ + input.take(n as int),
        ensures
            n < input.len() ==> !is_digit(input[n as int]),
        decreases input.len() - n,
    {
        match look_ahead.peek() {
            Some(c) => {
                if c >= '0' && c <= '9' {
                    look_ahead.next();
                    text.push(c);
                    proof {
                        assert(input.take(n as int).push(c) == input.take((n + 1) as int));
                        n = n + 1;
                    }
                } else {
                    break ;
                }
            },
            None => {
                break ;
            },
        }
    }
    proof {
        lemma_digit_run_exact(input, n);
    }
    Ok(())
}

/// Reads a fraction, if one comes next, and appends it to `text`.
fn fraction(look_ahead: &mut Cursor, text: &mut String) -> (res: Result<(), ParseError>)
    ensures
        appends(
            fraction_rule(old(look_ahead).remaining()),
            *old(look_ahead),
            *final(look_ahead),
            old(text)@,
            final(text)@,
            res,
        ),
{
    proof {
        use_type_invariant(&*look_ahead);
    }
    let ghost input = look_ahead.remaining();
    match look_ahead.peek() {
        Some(c) => {
            if c == '.' {
                look_ahead.next();
                text.push(c);
                assert(look_ahead.remaining() == input.skip(1));
                let ghost point = text@;
                let res = digits(look_ahead, text);
                proof {
                    if let Ok(n) = digits_rule(input.skip(1)) {
                        assert(text@ == old(text)@ + input.take(1 + n as int)) by {
                            assert(point == old(text)@ + input.take(1));
                            assert(input.take(1) + input.skip(1).take(n as int) == input.take(
                                1 + n as int,
                            ));
                            assert(text@ == point + input.skip(1).take(n as int));
                        }
                    }
                }
                res
            } else {
                proof {
                    assert(input.take(0) == Seq::<char>::empty());
                }
                Ok(())
            }
        },
        None => {
            proof {
                assert(input.take(0) == Seq::<char>::empty());
            }
            Ok(())
        },
    }
}

/// Reads an exponent, if one comes next, and appends it to `text`.
fn exponent(look_ahead: &mut Cursor, text: &mut String) -> (res: Result<(), ParseError>)
    ensures
        appends(
            exponent_rule(old(look_ahead).remaining()),
            *old(look_ahead),
            *final(look_ahead),
            old(text)@,
            final(text)@,
            res,
        ),
{
    proof {
        use_type_invariant(&*look_ahead);
    }
    let ghost input = look_ahead.remaining();
    proof {
        assert(input.take(0) == Seq::<char>::empty());
    }
    match look_ahead.peek() {
        Some(c) => {
            if c == 'e' || c == 'E' {
                look_ahead.next();
                text.push(c);
                let ghost mut sign: nat = 0;
                match look_ahead.peek() {
                    Some(d) => {
                        if d == '+' || d == '-' {
                            look_ahead.next();
                            text.push(d);
                            proof {
                                sign = 1;
                            }
                        }
                    },
                    None => {},
                }
                let ghost marked = text@;
                assert(marked == old(text)@ + input.take(1 + sign as int));
                assert(look_ahead.remaining() == after(input, 1 + sign));
                let res = digits(look_ahead, text);
                proof {
                    if let Ok(n) = digits_rule(after(input, 1 + sign)) {
                        assert(text@ == old(text)@ + input.take(1 + sign + n as int)) by {
                            assert(input.take(1 + sign as int) + input.skip(1 + sign as int).take(
                                n as int,
                            ) == input.take(1 + sign + n as int));
                            assert(text@ == marked + input.skip(1 + sign as int).take(n as int));
                        }
                    }
                }
                res
            } else {
                Ok(())
            }
        },
        None => Ok(()),
    }
}

/// `number`: reads the number that comes next and returns it as it is
/// written. It has one or more digits, then optionally `.` and one or more
/// digits, then optionally `e` or `E`, an optional sign and one or more
/// digits. Where digits are required, the end of the line gives
/// `PrematureEndOfInput` and any other character `UnexpectedCharacter`.
pub fn number(look_ahead: &mut Cursor) -> (res: Result<String, ParseError>)
    ensures
        carries_out(
            number_rule(old(look_ahead).remaining()),
            *old(look_ahead),
            *final(look_ahead),
            res,
        ),
{
    proof {
        use_type_invariant(&*look_ahead);
    }
    let ghost input = look_ahead.remaining();
    let mut text = String::new();
    match digits(look_ahead, &mut text) {
        Ok(()) => {},
        Err(e) => {
            return Err(e);
        },
    }
    let ghost whole = digits_rule(input)->Ok_0;
    assert(look_ahead.remaining() == after(input, whole));
    match fraction(look_ahead, &mut text) {
        Ok(()) => {},
        Err(e) => {
            return Err(e);
        },
    }
    let ghost part = fraction_rule(after(input, whole))->Ok_0;
    assert(look_ahead.remaining() == after(input, whole + part));
    assert(text@ == input.take(whole + part as int)) by {
        assert(input.take(whole as int) + input.skip(whole as int).take(part as int)
            == input.take(whole + part as int));
    }
    match exponent(look_ahead, &mut text) {
        Ok(()) => {},
        Err(e) => {
            return Err(e);
        },
    }
    let ghost power = exponent_rule(after(input, whole + part))->Ok_0;
    assert(text@ == input.take(whole + part + power as int)) by {
        assert(input.take(whole + part as int) + input.skip(whole + part as int).take(
            power as int,
        ) == input.take(whole + part + power as int));
    }
    Ok(text)
}

/// Looks whether an operand begins where the cursor stands, and says what is
/// wrong where none does. Nothing is consumed.
pub fn operand_due(look_ahead: &Cursor) -> (res: Result<(), ParseError>)
    ensures
        match missing_operand(look_ahead.remaining()) {
            None => res is Ok,
            Some(e) => res matches Err(got) && got == e,
        },
{
    match look_ahead.peek() {
        None => Err(ParseError::PrematureEndOfInput),
        Some(c) => {
            if c == '(' || (c >= '0' && c <= '9') {
                Ok(())
            } else {
                Err(ParseError::UnexpectedCharacter { found: c })
            }
        },
    }
}

/// `factor`: a group in parentheses, whose postfix text is that of the
/// expression inside; or a number, which is its own postfix text; or, where
/// neither begins, nothing: no character is read and the text is empty. That
/// is so in front of any other character and at the end of the line; an
/// empty text is no operand, and a caller that needs one has to look before
/// it calls. Behind the expression of a group, the end of the line gives
/// `PrematureEndOfInput` and a character other than `)` gives
/// `UnmatchedParenthesis`.
pub fn factor(look_ahead: &mut Cursor) -> (res: Result<String, ParseError>)
    ensures
        carries_out(
            factor_rule(old(look_ahead).remaining()),
            *old(look_ahead),
            *final(look_ahead),
            res,
        ),
    decreases old(look_ahead).remaining().len(), 0nat,
{
    proof {
        use_type_invariant(&*look_ahead);
    }
    let ghost input = look_ahead.remaining();
    match look_ahead.peek() {
        None => Ok(String::new()),
        Some(c) => {
            if c == '(' {
                look_ahead.next();
                assert(look_ahead.remaining() == input.skip(1));
                let inner = match expr(look_ahead) {
                    Ok(text) => text,
                    Err(e) => {
                        return Err(e);
                    },
                };
                let ghost close = 1 + expr_rule(input.skip(1))->Ok_0.used;
                assert(look_ahead.remaining() == after(input, close));
                match look_ahead.next() {
                    None => Err(ParseError::PrematureEndOfInput),
                    Some(d) => {
                        if d == ')' {
                            Ok(inner)
                        } else {
                            Err(ParseError::UnmatchedParenthesis { found: d })
                        }
                    },
                }
            } else if c >= '0' && c <= '9' {
                number(look_ahead)
            } else {
                Ok(String::new())
            }
        },
    }
}

/// `other`: as long as `*` or `/` comes next, reads the operator and the
/// factor behind it; the text of each factor comes before its operator.
/// Behind an operator a factor must begin: the end of the line gives
/// `PrematureEndOfInput` there, and a character that begins none gives
/// `UnexpectedCharacter`.
pub fn other(look_ahead: &mut Cursor) -> (res: Result<String, ParseError>)
    ensures
        carries_out(
            other_rule(old(look_ahead).remaining()),
            *old(look_ahead),
            *final(look_ahead),
            res,
        ),
    decreases old(look_ahead).remaining().len(), 0nat,
{
    proof {
        use_type_invariant(&*look_ahead);
    }
    let ghost input = look_ahead.remaining();
    match look_ahead.peek() {
        Some(c) => {
            if c == '*' || c == '/' {
                look_ahead.next();
                assert(look_ahead.remaining() == input.skip(1));
                match operand_due(look_ahead) {
                    Ok(()) => {},
                    Err(e) => {
                        return Err(e);
                    },
                }
                let mut text = match factor(look_ahead) {
                    Ok(text) => text,
                    Err(e) => {
                        return Err(e);
                    },
                };
                text.push(c);
                let ghost used = 1 + factor_rule(input.skip(1))->Ok_0.used;
                assert(look_ahead.remaining() == after(input, used));
                let more = match other(look_ahead) {
                    Ok(more) => more,
                    Err(e) => {
                        return Err(e);
                    },
                };
                text.append(more.as_str());
                Ok(text)
            } else {
                Ok(String::new())
            }
        },
        None => Ok(String::new()),
    }
}

/// `term`: a factor and what `other` reads behind it. The factor must begin
/// where the term does: the end of the line gives `PrematureEndOfInput`
/// there, and a character that begins none gives `UnexpectedCharacter`.
pub fn term(look_ahead: &mut Cursor) -> (res: Result<String, ParseError>)
    ensures
        carries_out(
            term_rule(old(look_ahead).remaining()),
            *old(look_ahead),
            *final(look_ahead),
            res,
        ),
    decreases old(look_ahead).remaining().len(), 1nat,
{
    proof {
        use_type_invariant(&*look_ahead);
    }
    let ghost input = look_ahead.remaining();
    match operand_due(look_ahead) {
        Ok(()) => {},
        Err(e) => {
            return Err(e);
        },
    }
    let mut text = match factor(look_ahead) {
        Ok(text) => text,
        Err(e) => {
            return Err(e);
        },
    };
    assert(look_ahead.remaining() == after(input, factor_rule(input)->Ok_0.used));
    let more = match other(look_ahead) {
        Ok(more) => more,
        Err(e) => {
            return Err(e);
        },
    };
    text.append(more.as_str());
    Ok(text)
}

/// `rest`: as long as `+` or `-` comes next, reads the operator and the term
/// behind it; the text of each term comes before its operator.
pub fn rest(look_ahead: &mut Cursor) -> (res: Result<String, ParseError>)
    ensures
        carries_out(
            rest_rule(old(look_ahead).remaining()),
            *old(look_ahead),
            *final(look_ahead),
            res,
        ),
    decreases old(look_ahead).remaining().len(), 0nat,
{
    proof {
        use_type_invariant(&*look_ahead);
    }
    let ghost input = look_ahead.remaining();
    match look_ahead.peek() {
        Some(c) => {
            if c == '+' || c == '-' {
                look_ahead.next();
                assert(look_ahead.remaining() == input.skip(1));
                let mut text = match term(look_ahead) {
                    Ok(text) => text,
                    Err(e) => {
                        return Err(e);
                    },
                };
                text.push(c);
                let ghost used = 1 + term_rule(input.skip(1))->Ok_0.used;
                assert(look_ahead.remaining() == after(input, used));
                let more = match rest(look_ahead) {
                    Ok(more) => more,
                    Err(e) => {
                        return Err(e);
                    },
                };
                text.append(more.as_str());
                Ok(text)
            } else {
                Ok(String::new())
            }
        },
        None => Ok(String::new()),
    }
}

/// `expr`: a term and what `rest` reads behind it.
pub fn expr(look_ahead: &mut Cursor) -> (res: Result<String, ParseError>)
    ensures
        carries_out(
            expr_rule(old(look_ahead).remaining()),
            *old(look_ahead),
            *final(look_ahead),
            res,
        ),
    decreases old(look_ahead).remaining().len(), 2nat,
{
    proof {
        use_type_invariant(&*look_ahead);
    }
    let ghost input = look_ahead.remaining();
    let mut text = match term(look_ahead) {
        Ok(text) => text,
        Err(e) => {
            return Err(e);
        },
    };
    assert(look_ahead.remaining() == after(input, term_rule(input)->Ok_0.used));
    let more = match rest(look_ahead) {
        Ok(more) => more,
        Err(e) => {
            return Err(e);
        },
    };
    text.append(more.as_str());
    Ok(text)
}

/// Translates one line of infix arithmetic into postfix notation. The line
/// feeds and carriage returns at the end of the line are not part of the
/// expression. The line is accepted where `expr` reads all of it; a
/// character that is left over gives `UnconsumedTrailingInput`.
pub fn translate(line: &str) -> (res: Result<String, ParseError>)
    ensures
        match translation(without_line_end(line@)) {
            Ok(out) => res matches Ok(text) && text@ == out,
            Err(e) => res matches Err(got) && got == e,
        },
{
    let mut look_ahead = Cursor::for_line(line);
    let text = match expr(&mut look_ahead) {
        Ok(text) => text,
        Err(e) => {
            return Err(e);
        },
    };
    match look_ahead.peek() {
        Some(c) => Err(ParseError::UnconsumedTrailingInput { found: c }),
        None => Ok(text),
    }
}

} // verus!
