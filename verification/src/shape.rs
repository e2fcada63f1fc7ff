//! What holds of every line, well-formed or not: a rule reads no more than
//! there is, what it reads has its parentheses in pairs, and what it writes
//! has none.

use vstd::prelude::*;
use crate::grammar::{
    after, expr_rule, factor_rule, followed_by, is_additive, is_digit, is_multiplicative,
    nothing, number_rule, other_rule, rest_rule, term_rule, translation, Outcome, Parsed,
};
use crate::numbers::{is_number_char, lemma_number_chars};

verus! {

/// A character that postfix text can hold: one of a number, or an operator.
pub open spec fn is_postfix_char(c: char) -> bool {
    is_number_char(c) || is_multiplicative(c)
}

/// `out` is made of the characters of numbers and of operators.
pub open spec fn plain(out: Seq<char>) -> bool {
    forall|i: int| 0 <= i < out.len() ==> is_postfix_char(#[trigger] out[i])
}

/// The number of parentheses that are open behind `s`, when `open` of them
/// are open in front of it. A `)` closes the `(` that was opened last; where
/// none is open it closes nothing.
pub open spec fn opens_left(s: Seq<char>, open: nat) -> nat
    decreases s.len(),
{
    if s.len() == 0 {
        open
    } else if s[0] == '(' {
        opens_left(s.skip(1), open + 1)
    } else if s[0] == ')' && open > 0 {
        opens_left(s.skip(1), (open - 1) as nat)
    } else {
        opens_left(s.skip(1), open)
    }
}

/// Every parenthesis of `s` has its partner in `s`.
pub open spec fn nested(s: Seq<char>) -> bool {
    forall|open: nat| #[trigger] opens_left(s, open) == open
}

/// What holds of whatever a rule makes of `s`: what it reads lies within
/// `s` and has its parentheses in pairs, and what it writes is plain; and no
/// rule complains of what it has left unread.
pub open spec fn shapely(s: Seq<char>, rule: Outcome) -> bool {
    match rule {
        Ok(p) => {
            &&& p.used <= s.len()
            &&& plain(p.out)
            &&& nested(s.take(p.used as int))
        },
        Err(e) => !(e is UnconsumedTrailingInput),
    }
}

proof fn lemma_opens_left_append(a: Seq<char>, b: Seq<char>, open: nat)
    ensures
        opens_left(a + b, open) == opens_left(b, opens_left(a, open)),
    decreases a.len(),
{
    if a.len() == 0 {
        assert(a + b == b);
    } else {
        assert((a + b).skip(1) == a.skip(1) + b);
        if a[0] == '(' {
            lemma_opens_left_append(a.skip(1), b, open + 1);
        } else if a[0] == ')' && open > 0 {
            lemma_opens_left_append(a.skip(1), b, (open - 1) as nat);
        } else {
            lemma_opens_left_append(a.skip(1), b, open);
        }
    }
}

/// Text without parentheses has them in pairs.
proof fn lemma_no_parentheses_nested(s: Seq<char>)
    requires
        forall|i: int| 0 <= i < s.len() ==> s[i] != '(' && s[i] != ')',
    ensures
        nested(s),
    decreases s.len(),
{
    if s.len() > 0 {
        let tail = s.skip(1);
        assert forall|i: int| 0 <= i < tail.len() implies tail[i] != '(' && tail[i] != ')' by {
            assert(tail[i] == s[i + 1]);
        }
        lemma_no_parentheses_nested(tail);
        assert forall|open: nat| #[trigger] opens_left(s, open) == open by {
            assert(opens_left(s, open) == opens_left(tail, open));
        }
    } else {
        assert forall|open: nat| #[trigger] opens_left(s, open) == open by {}
    }
}

/// Two texts with their parentheses in pairs, one behind the other.
proof fn lemma_nested_append(a: Seq<char>, b: Seq<char>)
    requires
        nested(a),
        nested(b),
    ensures
        nested(a + b),
{
    assert forall|open: nat| #[trigger] opens_left(a + b, open) == open by {
        lemma_opens_left_append(a, b, open);
    }
}

/// A text with its parentheses in pairs, in parentheses.
proof fn lemma_nested_group(a: Seq<char>)
    requires
        nested(a),
    ensures
        nested(seq!['('] + a.push(')')),
{
    let s = seq!['('] + a.push(')');
    assert forall|open: nat| #[trigger] opens_left(s, open) == open by {
        let close = seq![')'];
        assert(s[0] == '(');
        assert(s.skip(1) == a + close);
        lemma_opens_left_append(a, close, open + 1);
        assert(opens_left(a, open + 1) == open + 1);
        assert(opens_left(close, open + 1) == opens_left(close.skip(1), open));
        assert(opens_left(close.skip(1), open) == open);
    }
}

/// Nothing read, nothing written.
proof fn lemma_nothing_shape(s: Seq<char>)
    ensures
        shapely(s, Ok(nothing())),
{
    lemma_no_parentheses_nested(s.take(0));
}

/// One rule behind another.
proof fn lemma_followed_by_shape(s: Seq<char>, first: Parsed, second: Outcome)
    requires
        shapely(s, Ok(first)),
        shapely(after(s, first.used), second),
    ensures
        shapely(s, followed_by(first, second)),
{
    if let Ok(p) = second {
        let tail = after(s, first.used);
        assert(s.take(first.used + p.used as int) == s.take(first.used as int) + tail.take(
            p.used as int,
        ));
        lemma_nested_append(s.take(first.used as int), tail.take(p.used as int));
    }
}

/// An operator and the operand behind it.
proof fn lemma_operand_shape(s: Seq<char>, inner: Parsed)
    requires
        s.len() > 0,
        is_additive(s[0]) || is_multiplicative(s[0]),
        shapely(s.skip(1), Ok(inner)),
    ensures
        shapely(s, Ok(Parsed { out: inner.out.push(s[0]), used: 1 + inner.used })),
{
    let op = seq![s[0]];
    lemma_no_parentheses_nested(op);
    lemma_nested_append(op, s.skip(1).take(inner.used as int));
    assert(s.take(1 + inner.used as int) == op + s.skip(1).take(inner.used as int));
}

/// A number.
proof fn lemma_number_shape(s: Seq<char>)
    ensures
        shapely(s, number_rule(s)),
{
    if let Ok(p) = number_rule(s) {
        lemma_number_chars(s);
        lemma_no_parentheses_nested(p.out);
    }
}

/// A group.
proof fn lemma_group_shape(s: Seq<char>, inner: Parsed)
    requires
        s.len() > 1 + inner.used,
        s[0] == '(',
        s[1 + inner.used as int] == ')',
        shapely(s.skip(1), Ok(inner)),
    ensures
        shapely(s, Ok(Parsed { out: inner.out, used: inner.used + 2 })),
{
    let within = s.skip(1).take(inner.used as int);
    lemma_nested_group(within);
    assert(s.take(inner.used + 2 as int) == seq!['('] + within.push(')'));
}

pub proof fn lemma_factor_shape(s: Seq<char>)
    ensures
        shapely(s, factor_rule(s)),
    decreases s.len(), 0nat,
{
    if s.len() == 0 {
    } else if s[0] == '(' {
        lemma_expr_shape(s.skip(1));
        if let Ok(inner) = expr_rule(s.skip(1)) {
            if 1 + inner.used < s.len() && s[1 + inner.used as int] == ')' {
                lemma_group_shape(s, inner);
            }
        }
    } else if is_digit(s[0]) {
        lemma_number_shape(s);
    } else {
        lemma_nothing_shape(s);
    }
}

pub proof fn lemma_other_shape(s: Seq<char>)
    ensures
        shapely(s, other_rule(s)),
    decreases s.len(), 0nat,
{
    if s.len() > 0 && is_multiplicative(s[0]) {
        lemma_factor_shape(s.skip(1));
        if let Ok(f) = factor_rule(s.skip(1)) {
            let operand = Parsed { out: f.out.push(s[0]), used: 1 + f.used };
            lemma_operand_shape(s, f);
            lemma_other_shape(after(s, operand.used));
            lemma_followed_by_shape(s, operand, other_rule(after(s, operand.used)));
        }
    } else {
        lemma_nothing_shape(s);
    }
}

pub proof fn lemma_term_shape(s: Seq<char>)
    ensures
        shapely(s, term_rule(s)),
    decreases s.len(), 1nat,
{
    lemma_factor_shape(s);
    if let Ok(f) = factor_rule(s) {
        lemma_other_shape(after(s, f.used));
        lemma_followed_by_shape(s, f, other_rule(after(s, f.used)));
    }
}

pub proof fn lemma_rest_shape(s: Seq<char>)
    ensures
        shapely(s, rest_rule(s)),
    decreases s.len(), 0nat,
{
    if s.len() > 0 && is_additive(s[0]) {
        lemma_term_shape(s.skip(1));
        if let Ok(t) = term_rule(s.skip(1)) {
            let operand = Parsed { out: t.out.push(s[0]), used: 1 + t.used };
            lemma_operand_shape(s, t);
            lemma_rest_shape(after(s, operand.used));
            lemma_followed_by_shape(s, operand, rest_rule(after(s, operand.used)));
        }
    } else {
        lemma_nothing_shape(s);
    }
}

/// Whatever `expr` makes of a text: it lies within the text, its parentheses
/// are in pairs, and its postfix form is made of numbers and operators.
pub proof fn lemma_expr_shape(s: Seq<char>)
    ensures
        shapely(s, expr_rule(s)),
    decreases s.len(), 2nat,
{
    lemma_term_shape(s);
    if let Ok(t) = term_rule(s) {
        lemma_rest_shape(after(s, t.used));
        lemma_followed_by_shape(s, t, rest_rule(after(s, t.used)));
    }
}

/// The translation of a line holds numbers and operators and nothing else:
/// no parenthesis of the line is found in it.
pub proof fn theorem_output_plain(s: Seq<char>)
    ensures
        translation(s) matches Ok(out) ==> plain(out) && forall|i: int|
            0 <= i < out.len() ==> out[i] != '(' && out[i] != ')',
{
    lemma_expr_shape(s);
}

} // verus!
