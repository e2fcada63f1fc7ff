//! The lines that are accepted are the well-formed expressions: whatever a
//! rule reads is a phrase of the grammar.

use vstd::prelude::*;
use crate::correctness::theorem_translation;
use crate::error::ParseError;
use crate::grammar::{
    after, expr_rule, factor_rule, is_additive, is_multiplicative, missing_operand, number_len,
    other_rule, rest_rule, term_rule, translation,
};
use crate::numbers::lemma_number_take;
use crate::sequences::lemma_after_after;
use crate::shape::{
    lemma_expr_shape, lemma_factor_shape, lemma_other_shape, lemma_rest_shape,
    lemma_term_shape,
};
use crate::syntax::{Expr, Factor, Term};

verus! {

/// What `factor` reads where an operand begins is a well-formed factor.
pub proof fn lemma_factor_phrase(s: Seq<char>) -> (f: Factor)
    requires
        missing_operand(s) is None,
        factor_rule(s) is Ok,
    ensures
        f.well_formed(),
        f.text() == s.take(factor_rule(s)->Ok_0.used as int),
    decreases s.len(), 0nat,
{
    if s[0] == '(' {
        let inner = expr_rule(s.skip(1))->Ok_0;
        let e = lemma_expr_phrase(s.skip(1));
        lemma_expr_shape(s.skip(1));
        assert(s.take(inner.used + 2 as int) == seq!['('] + s.skip(1).take(inner.used as int).push(')'));
        Factor::Group(Box::new(e))
    } else {
        lemma_number_take(s);
        Factor::Number(s.take(number_len(s)->Ok_0 as int))
    }
}

/// What `other` reads behind a term makes a well-formed term of it.
pub proof fn lemma_other_phrase(left: Term, s: Seq<char>) -> (t: Term)
    requires
        left.well_formed(),
        other_rule(s) is Ok,
    ensures
        t.well_formed(),
        t.text() == left.text() + s.take(other_rule(s)->Ok_0.used as int),
    decreases s.len(), 0nat,
{
    if s.len() > 0 && is_multiplicative(s[0]) {
        let read = 1 + factor_rule(s.skip(1))->Ok_0.used;
        let more = other_rule(after(s, read))->Ok_0.used;
        let f = lemma_factor_phrase(s.skip(1));
        lemma_factor_shape(s.skip(1));
        let joined = Term::Product(Box::new(left), s[0], f);
        let t = lemma_other_phrase(joined, after(s, read));
        lemma_other_shape(after(s, read));
        lemma_after_after(s, read, more);
        assert(joined.text() == left.text() + s.take(read as int)) by {
            assert(s.take(read as int) == seq![s[0]] + s.skip(1).take(read - 1));
        }
        assert(left.text() + s.take(read as int) + after(s, read).take(more as int)
            == left.text() + s.take(read + more as int));
        t
    } else {
        assert(left.text() + s.take(0) == left.text());
        left
    }
}

/// What `term` reads is a well-formed term.
pub proof fn lemma_term_phrase(s: Seq<char>) -> (t: Term)
    requires
        term_rule(s) is Ok,
    ensures
        t.well_formed(),
        t.text() == s.take(term_rule(s)->Ok_0.used as int),
    decreases s.len(), 1nat,
{
    let read = factor_rule(s)->Ok_0.used;
    let more = other_rule(after(s, read))->Ok_0.used;
    let f = lemma_factor_phrase(s);
    lemma_factor_shape(s);
    let t = lemma_other_phrase(Term::Factor(f), after(s, read));
    lemma_other_shape(after(s, read));
    lemma_after_after(s, read, more);
    t
}

/// What `rest` reads behind an expression makes a well-formed expression of
/// it.
pub proof fn lemma_rest_phrase(left: Expr, s: Seq<char>) -> (e: Expr)
    requires
        left.well_formed(),
        rest_rule(s) is Ok,
    ensures
        e.well_formed(),
        e.text() == left.text() + s.take(rest_rule(s)->Ok_0.used as int),
    decreases s.len(), 0nat,
{
    if s.len() > 0 && is_additive(s[0]) {
        let read = 1 + term_rule(s.skip(1))->Ok_0.used;
        let more = rest_rule(after(s, read))->Ok_0.used;
        let t = lemma_term_phrase(s.skip(1));
        lemma_term_shape(s.skip(1));
        let joined = Expr::Sum(Box::new(left), s[0], t);
        let e = lemma_rest_phrase(joined, after(s, read));
        lemma_rest_shape(after(s, read));
        lemma_after_after(s, read, more);
        assert(joined.text() == left.text() + s.take(read as int)) by {
            assert(s.take(read as int) == seq![s[0]] + s.skip(1).take(read - 1));
        }
        assert(left.text() + s.take(read as int) + after(s, read).take(more as int)
            == left.text() + s.take(read + more as int));
        e
    } else {
        assert(left.text() + s.take(0) == left.text());
        left
    }
}

/// What `expr` reads is a well-formed expression.
pub proof fn lemma_expr_phrase(s: Seq<char>) -> (e: Expr)
    requires
        expr_rule(s) is Ok,
    ensures
        e.well_formed(),
        e.text() == s.take(expr_rule(s)->Ok_0.used as int),
    decreases s.len(), 2nat,
{
    let read = term_rule(s)->Ok_0.used;
    let more = rest_rule(after(s, read))->Ok_0.used;
    let t = lemma_term_phrase(s);
    lemma_term_shape(s);
    let e = lemma_rest_phrase(Expr::Term(t), after(s, read));
    lemma_rest_shape(after(s, read));
    lemma_after_after(s, read, more);
    e
}

/// A line that is accepted is a well-formed expression, and its translation
/// is the postfix form of that expression: no other line is accepted.
pub proof fn theorem_accepted(line: Seq<char>) -> (e: Expr)
    requires
        translation(line) is Ok,
    ensures
        e.well_formed(),
        e.text() == line,
        translation(line) == Ok::<Seq<char>, ParseError>(e.postfix()),
        exists|any: Expr| any.well_formed() && any.text() == line,
{
    let e = lemma_expr_phrase(line);
    lemma_expr_shape(line);
    assert(line.take(line.len() as int) == line);
    theorem_translation(e);
    e
}

} // verus!
