//! What the translation does with well-formed expressions.

use vstd::prelude::*;
use crate::error::ParseError;
use crate::evaluation::{postfix_value, theorem_postfix_value, Arithmetic};
use crate::grammar::{
    after, digit_run, expr_rule, factor_rule, followed_by, is_additive, is_digit,
    is_multiplicative, nothing, number_len, other_rule, rest_rule, term_rule, translation,
    Outcome, Parsed,
};
use crate::numbers::{ends_number, lemma_number_append};
use crate::stability::ends_term;
use crate::syntax::{Expr, Factor, Term};

verus! {

/// What a rule makes of a phrase: the whole text is read, and the postfix
/// form is the result.
pub open spec fn reads(text: Seq<char>, postfix: Seq<char>) -> Parsed {
    Parsed { out: postfix, used: text.len() }
}

/// A phrase and an operand behind it are read as one phrase: the operator
/// moves behind the operand.
proof fn lemma_joined(
    left: Seq<char>,
    left_postfix: Seq<char>,
    op: char,
    right: Seq<char>,
    right_postfix: Seq<char>,
    more: Outcome,
)
    ensures
        followed_by(
            reads(left, left_postfix),
            followed_by(Parsed { out: right_postfix.push(op), used: 1 + right.len() }, more),
        ) == followed_by(
            reads(left.push(op) + right, (left_postfix + right_postfix).push(op)),
            more,
        ),
{
    match more {
        Ok(m) => {
            assert(left_postfix + (right_postfix.push(op) + m.out) == (left_postfix
                + right_postfix).push(op) + m.out);
        },
        Err(_) => {},
    }
}

/// Nothing behind a phrase adds nothing to it.
proof fn lemma_alone(text: Seq<char>, postfix: Seq<char>)
    ensures
        followed_by(reads(text, postfix), Ok(nothing())) == Ok::<Parsed, ParseError>(
            reads(text, postfix),
        ),
{
    assert(postfix + Seq::<char>::empty() == postfix);
}

/// `other` reads an operator and the factor behind it, and goes on behind
/// them.
proof fn lemma_other_step(op: char, right: Seq<char>, right_postfix: Seq<char>, k: Seq<char>)
    requires
        is_multiplicative(op),
        right.len() > 0,
        factor_rule(right + k) == Ok::<Parsed, ParseError>(reads(right, right_postfix)),
    ensures
        other_rule(seq![op] + right + k) == followed_by(
            Parsed { out: right_postfix.push(op), used: 1 + right.len() },
            other_rule(k),
        ),
{
    let s = seq![op] + right + k;
    assert(s[0] == op);
    assert(s.skip(1) == right + k);
    assert(after(s, 1 + right.len()) == k);
}

/// `rest` reads an operator and the term behind it, and goes on behind them.
proof fn lemma_rest_step(op: char, right: Seq<char>, right_postfix: Seq<char>, k: Seq<char>)
    requires
        is_additive(op),
        term_rule(right + k) == Ok::<Parsed, ParseError>(reads(right, right_postfix)),
    ensures
        rest_rule(seq![op] + right + k) == followed_by(
            Parsed { out: right_postfix.push(op), used: 1 + right.len() },
            rest_rule(k),
        ),
{
    let s = seq![op] + right + k;
    assert(s[0] == op);
    assert(s.skip(1) == right + k);
    assert(after(s, 1 + right.len()) == k);
}

/// `factor` reads a group whose expression `expr` reads.
proof fn lemma_group(inner: Seq<char>, inner_postfix: Seq<char>, k: Seq<char>)
    requires
        expr_rule(inner + (seq![')'] + k)) == Ok::<Parsed, ParseError>(
            reads(inner, inner_postfix),
        ),
    ensures
        factor_rule(seq!['('] + inner.push(')') + k) == Ok::<Parsed, ParseError>(
            reads(seq!['('] + inner.push(')'), inner_postfix),
        ),
{
    let s = seq!['('] + inner.push(')') + k;
    assert(s[0] == '(');
    assert(s.skip(1) == inner + (seq![')'] + k));
    assert(s[1 + inner.len() as int] == ')');
}

/// `term` reads the factor it begins with and goes on behind it.
proof fn lemma_term_start(text: Seq<char>, postfix: Seq<char>, k: Seq<char>)
    requires
        text.len() > 0,
        factor_rule(text + k) == Ok::<Parsed, ParseError>(reads(text, postfix)),
    ensures
        term_rule(text + k) == followed_by(reads(text, postfix), other_rule(k)),
{
    assert(after(text + k, text.len()) == k);
}

/// `expr` reads the term it begins with and goes on behind it.
proof fn lemma_expr_start(text: Seq<char>, postfix: Seq<char>, k: Seq<char>)
    requires
        term_rule(text + k) == Ok::<Parsed, ParseError>(reads(text, postfix)),
    ensures
        expr_rule(text + k) == followed_by(reads(text, postfix), rest_rule(k)),
{
    assert(after(text + k, text.len()) == k);
}

/// `factor` reads a well-formed factor, whatever ends it.
pub proof fn lemma_factor(f: Factor, k: Seq<char>)
    requires
        f.well_formed(),
        ends_number(k),
    ensures
        f.text().len() > 0,
        factor_rule(f.text() + k) == Ok::<Parsed, ParseError>(reads(f.text(), f.postfix())),
    decreases f, 0nat,
{
    match f {
        Factor::Number(w) => {
            lemma_number_append(w, k);
            assert((w + k).take(w.len() as int) == w);
        },
        Factor::Group(e) => {
            let k1 = seq![')'] + k;
            lemma_expr(*e, k1);
            assert(rest_rule(k1) == Ok::<Parsed, ParseError>(nothing()));
            lemma_alone(e.text(), e.postfix());
            lemma_group(e.text(), e.postfix(), k);
        },
    }
}

/// `term` reads a well-formed term and then whatever `other` reads behind
/// it.
pub proof fn lemma_term(t: Term, k: Seq<char>)
    requires
        t.well_formed(),
        ends_number(k),
    ensures
        term_rule(t.text() + k) == followed_by(reads(t.text(), t.postfix()), other_rule(k)),
    decreases t, 0nat,
{
    match t {
        Term::Factor(f) => {
            lemma_factor(f, k);
            lemma_term_start(f.text(), f.postfix(), k);
        },
        Term::Product(t1, op, f) => {
            let k1 = seq![op] + f.text() + k;
            lemma_term(*t1, k1);
            assert(t.text() + k == t1.text() + k1);
            lemma_factor(f, k);
            lemma_other_step(op, f.text(), f.postfix(), k);
            lemma_joined(t1.text(), t1.postfix(), op, f.text(), f.postfix(), other_rule(k));
        },
    }
}

/// A term that is followed by what ends it is read by `term` as it stands.
proof fn lemma_whole_term(t: Term, k: Seq<char>)
    requires
        t.well_formed(),
        ends_term(k),
    ensures
        term_rule(t.text() + k) == Ok::<Parsed, ParseError>(reads(t.text(), t.postfix())),
    decreases t, 1nat,
{
    lemma_term(t, k);
    assert(other_rule(k) == Ok::<Parsed, ParseError>(nothing()));
    lemma_alone(t.text(), t.postfix());
}

/// `expr` reads a well-formed expression and then whatever `rest` reads
/// behind it.
pub proof fn lemma_expr(e: Expr, k: Seq<char>)
    requires
        e.well_formed(),
        ends_term(k),
    ensures
        expr_rule(e.text() + k) == followed_by(reads(e.text(), e.postfix()), rest_rule(k)),
    decreases e, 0nat,
{
    match e {
        Expr::Term(t) => {
            lemma_whole_term(t, k);
            lemma_expr_start(t.text(), t.postfix(), k);
        },
        Expr::Sum(e1, op, t) => {
            let k1 = seq![op] + t.text() + k;
            lemma_expr(*e1, k1);
            assert(e.text() + k == e1.text() + k1);
            lemma_whole_term(t, k);
            lemma_rest_step(op, t.text(), t.postfix(), k);
            lemma_joined(e1.text(), e1.postfix(), op, t.text(), t.postfix(), rest_rule(k));
        },
    }
}

/// A well-formed expression is translated into its postfix form.
pub proof fn theorem_translation(e: Expr)
    requires
        e.well_formed(),
    ensures
        translation(e.text()) == Ok::<Seq<char>, ParseError>(e.postfix()),
{
    let k = Seq::<char>::empty();
    lemma_expr(e, k);
    assert(e.text() + k == e.text());
    lemma_alone(e.text(), e.postfix());
}

/// A factor that is all there is on a line.
proof fn lemma_whole(f: Factor)
    requires
        f.well_formed(),
    ensures
        translation(f.text()) == Ok::<Seq<char>, ParseError>(f.postfix()),
{
    let term = Term::Factor(f);
    assert(term.well_formed() && term.text() == f.text() && term.postfix() == f.postfix());
    let e = Expr::Term(term);
    assert(e.well_formed() && e.text() == f.text() && e.postfix() == f.postfix());
    theorem_translation(e);
}

/// A single digit is its own translation.
pub proof fn theorem_single_digit(d: char)
    requires
        is_digit(d),
    ensures
        translation(seq![d]) == Ok::<Seq<char>, ParseError>(seq![d]),
{
    let number = seq![d];
    assert(digit_run(number.skip(1)) == 0);
    assert(number_len(number) == Ok::<nat, ParseError>(1)) by {
        assert(after(number, 1).len() == 0);
    }
    lemma_whole(Factor::Number(number));
}

/// Operators of one level are taken from the left, and each stands behind
/// its two operands: an expression, `+` or `-`, and a term are translated
/// into the translation of the expression, that of the term, and the
/// operator.
pub proof fn theorem_sum(left: Expr, op: char, right: Term)
    requires
        left.well_formed(),
        is_additive(op),
        right.well_formed(),
    ensures
        translation(left.text().push(op) + right.text()) == Ok::<Seq<char>, ParseError>(
            (left.postfix() + right.postfix()).push(op),
        ),
{
    theorem_translation(Expr::Sum(Box::new(left), op, right));
}

/// The same one level below: a term, `*` or `/`, and a factor are translated
/// into the translation of the term, that of the factor, and the operator.
pub proof fn theorem_product(left: Term, op: char, right: Factor)
    requires
        left.well_formed(),
        is_multiplicative(op),
        right.well_formed(),
    ensures
        translation(left.text().push(op) + right.text()) == Ok::<Seq<char>, ParseError>(
            (left.postfix() + right.postfix()).push(op),
        ),
{
    let product = Term::Product(Box::new(left), op, right);
    assert(product.well_formed());
    let e = Expr::Term(product);
    assert(e.text() == product.text() && e.postfix() == product.postfix());
    theorem_translation(e);
}

/// `*` and `/` bind more tightly than `+` and `-`: in `a + b * c` the product
/// is formed first and is then the right operand of the sum.
pub proof fn theorem_precedence(a: Expr, plus: char, b: Term, times: char, c: Factor)
    requires
        a.well_formed(),
        is_additive(plus),
        b.well_formed(),
        is_multiplicative(times),
        c.well_formed(),
    ensures
        translation(a.text().push(plus) + (b.text().push(times) + c.text())) == Ok::<
            Seq<char>,
            ParseError,
        >((a.postfix() + (b.postfix() + c.postfix()).push(times)).push(plus)),
{
    let product = Term::Product(Box::new(b), times, c);
    assert(product.well_formed());
    assert(product.text() == b.text().push(times) + c.text());
    assert(product.postfix() == (b.postfix() + c.postfix()).push(times));
    theorem_translation(Expr::Sum(Box::new(a), plus, product));
}

/// Parentheses make a factor of an expression and leave no trace: an
/// expression in parentheses is translated as the expression is.
pub proof fn theorem_group(inner: Expr)
    requires
        inner.well_formed(),
    ensures
        translation(seq!['('] + inner.text().push(')')) == Ok::<Seq<char>, ParseError>(
            inner.postfix(),
        ),
{
    lemma_whole(Factor::Group(Box::new(inner)));
}

/// The translation of an expression whose numbers are single digits
/// evaluates, on the stack machine, to the value of the expression, in every
/// arithmetic.
pub proof fn theorem_round_trip<V>(arith: Arithmetic<V>, e: Expr)
    requires
        e.well_formed(),
        e.single_digits(),
    ensures
        translation(e.text()) matches Ok(out) && postfix_value(arith, out) == e.value(arith),
{
    theorem_translation(e);
    theorem_postfix_value(arith, e);
}

} // verus!
