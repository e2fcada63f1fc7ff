//! What an expression is worth, and what its postfix form is worth on a
//! stack machine.
//!
//! The translator computes nothing. Evaluation is defined here to state that
//! a translation means what the line means: in whatever arithmetic the
//! numbers and the four operators are read, the postfix form evaluates to
//! the value of the expression.

use vstd::prelude::*;
use crate::grammar::{is_additive, is_digit, is_multiplicative};
use crate::syntax::{Expr, Factor, Term};

verus! {

/// An arithmetic: what a digit is worth, and what an operator makes of two
/// values. An operation may have no result, as a division by zero has none.
#[verifier::reject_recursive_types(V)]
pub struct Arithmetic<V> {
    pub digit: spec_fn(char) -> V,
    pub apply: spec_fn(char, V, V) -> Option<V>,
}

/// The result of `op` on two operands, where both have a value.
pub open spec fn combine<V>(arith: Arithmetic<V>, op: char, a: Option<V>, b: Option<V>) -> Option<
    V,
> {
    match (a, b) {
        (Some(x), Some(y)) => (arith.apply)(op, x, y),
        _ => None,
    }
}

impl Expr {
    /// Every number of the expression is a single digit.
    pub open spec fn single_digits(self) -> bool
        decreases self,
    {
        match self {
            Expr::Term(t) => t.single_digits(),
            Expr::Sum(e, _, t) => e.single_digits() && t.single_digits(),
        }
    }

    /// The value of the expression: sums and differences are taken from the
    /// left.
    pub open spec fn value<V>(self, arith: Arithmetic<V>) -> Option<V>
        decreases self,
    {
        match self {
            Expr::Term(t) => t.value(arith),
            Expr::Sum(e, op, t) => combine(arith, op, e.value(arith), t.value(arith)),
        }
    }
}

impl Term {
    /// Every number of the term is a single digit.
    pub open spec fn single_digits(self) -> bool
        decreases self,
    {
        match self {
            Term::Factor(f) => f.single_digits(),
            Term::Product(t, _, f) => t.single_digits() && f.single_digits(),
        }
    }

    /// The value of the term: products and quotients are taken from the
    /// left.
    pub open spec fn value<V>(self, arith: Arithmetic<V>) -> Option<V>
        decreases self,
    {
        match self {
            Term::Factor(f) => f.value(arith),
            Term::Product(t, op, f) => combine(arith, op, t.value(arith), f.value(arith)),
        }
    }
}

impl Factor {
    /// Every number of the factor is a single digit.
    pub open spec fn single_digits(self) -> bool
        decreases self,
    {
        match self {
            Factor::Number(digits) => digits.len() == 1 && is_digit(digits[0]),
            Factor::Group(e) => e.single_digits(),
        }
    }

    /// The value of the factor. A number of more than one digit is given
    /// none.
    pub open spec fn value<V>(self, arith: Arithmetic<V>) -> Option<V>
        decreases self,
    {
        match self {
            Factor::Number(digits) => if digits.len() == 1 && is_digit(digits[0]) {
                Some((arith.digit)(digits[0]))
            } else {
                None
            },
            Factor::Group(e) => e.value(arith),
        }
    }
}

/// One step of the stack machine: a digit is pushed; an operator takes the
/// two values on top, the upper one as its right operand, and leaves its
/// result. Anything else stops the machine, and so does an operator that
/// finds fewer than two values or has no result.
pub open spec fn step<V>(arith: Arithmetic<V>, stack: Seq<V>, c: char) -> Option<Seq<V>> {
    if is_digit(c) {
        Some(stack.push((arith.digit)(c)))
    } else if (is_additive(c) || is_multiplicative(c)) && stack.len() >= 2 {
        match (arith.apply)(c, stack[stack.len() - 2], stack[stack.len() - 1]) {
            Some(v) => Some(stack.take(stack.len() - 2).push(v)),
            None => None,
        }
    } else {
        None
    }
}

/// The stack that the machine leaves when it has read `tokens`, from left to
/// right, starting with `stack`.
pub open spec fn run<V>(arith: Arithmetic<V>, tokens: Seq<char>, stack: Seq<V>) -> Option<Seq<V>>
    decreases tokens.len(),
{
    if tokens.len() == 0 {
        Some(stack)
    } else {
        match step(arith, stack, tokens[0]) {
            Some(next) => run(arith, tokens.skip(1), next),
            None => None,
        }
    }
}

/// The value of postfix text: the one value that the machine is left with.
pub open spec fn postfix_value<V>(arith: Arithmetic<V>, tokens: Seq<char>) -> Option<V> {
    match run(arith, tokens, Seq::empty()) {
        Some(stack) => if stack.len() == 1 {
            Some(stack[0])
        } else {
            None
        },
        None => None,
    }
}

/// What the machine does with a value: it is one more on the stack. Without
/// a value the machine has stopped.
pub open spec fn pushed<V>(stack: Seq<V>, value: Option<V>) -> Option<Seq<V>> {
    match value {
        Some(v) => Some(stack.push(v)),
        None => None,
    }
}

/// The machine reads `a + b` by reading `a` and then `b`.
pub proof fn lemma_run_append<V>(arith: Arithmetic<V>, a: Seq<char>, b: Seq<char>, stack: Seq<V>)
    ensures
        run(arith, a + b, stack) == match run(arith, a, stack) {
            Some(between) => run(arith, b, between),
            None => None,
        },
    decreases a.len(),
{
    if a.len() == 0 {
        assert(a + b == b);
    } else {
        assert((a + b).skip(1) == a.skip(1) + b);
        if let Some(next) = step(arith, stack, a[0]) {
            lemma_run_append(arith, a.skip(1), b, next);
        }
    }
}

/// The machine reads the postfix forms of two operands and then their
/// operator.
proof fn lemma_run_operation<V>(
    arith: Arithmetic<V>,
    left: Seq<char>,
    left_value: Option<V>,
    right: Seq<char>,
    right_value: Option<V>,
    op: char,
    stack: Seq<V>,
)
    requires
        is_additive(op) || is_multiplicative(op),
        run(arith, left, stack) == pushed(stack, left_value),
        left_value matches Some(a) ==> run(arith, right, stack.push(a)) == pushed(
            stack.push(a),
            right_value,
        ),
    ensures
        run(arith, (left + right).push(op), stack) == pushed(
            stack,
            combine(arith, op, left_value, right_value),
        ),
{
    let last = seq![op];
    assert((left + right).push(op) == left + (right + last));
    lemma_run_append(arith, left, right + last, stack);
    if let Some(a) = left_value {
        lemma_run_append(arith, right, last, stack.push(a));
        if let Some(b) = right_value {
            let both = stack.push(a).push(b);
            assert(both.take(both.len() - 2) == stack);
            assert(last.skip(1).len() == 0);
            assert(run(arith, last, both) == match step(arith, both, op) {
                Some(next) => Some(next),
                None => None,
            }) by {
                if let Some(next) = step(arith, both, op) {
                    assert(run(arith, last.skip(1), next) == Some(next));
                }
            }
        }
    }
}

proof fn lemma_factor_runs<V>(arith: Arithmetic<V>, f: Factor, stack: Seq<V>)
    requires
        f.well_formed(),
        f.single_digits(),
    ensures
        run(arith, f.postfix(), stack) == pushed(stack, f.value(arith)),
    decreases f,
{
    match f {
        Factor::Number(digits) => {
            assert(digits.skip(1).len() == 0);
            let next = stack.push((arith.digit)(digits[0]));
            assert(run(arith, digits.skip(1), next) == Some(next));
        },
        Factor::Group(e) => {
            lemma_expr_runs(arith, *e, stack);
        },
    }
}

proof fn lemma_term_runs<V>(arith: Arithmetic<V>, t: Term, stack: Seq<V>)
    requires
        t.well_formed(),
        t.single_digits(),
    ensures
        run(arith, t.postfix(), stack) == pushed(stack, t.value(arith)),
    decreases t,
{
    match t {
        Term::Factor(f) => {
            lemma_factor_runs(arith, f, stack);
        },
        Term::Product(t1, op, f) => {
            lemma_term_runs(arith, *t1, stack);
            if let Some(a) = t1.value(arith) {
                lemma_factor_runs(arith, f, stack.push(a));
            }
            lemma_run_operation(
                arith,
                t1.postfix(),
                t1.value(arith),
                f.postfix(),
                f.value(arith),
                op,
                stack,
            );
        },
    }
}

/// The machine reads the postfix form of an expression and is left with its
/// value on top of what it started with; where the expression has no value,
/// the machine stops.
pub proof fn lemma_expr_runs<V>(arith: Arithmetic<V>, e: Expr, stack: Seq<V>)
    requires
        e.well_formed(),
        e.single_digits(),
    ensures
        run(arith, e.postfix(), stack) == pushed(stack, e.value(arith)),
    decreases e,
{
    match e {
        Expr::Term(t) => {
            lemma_term_runs(arith, t, stack);
        },
        Expr::Sum(e1, op, t) => {
            lemma_expr_runs(arith, *e1, stack);
            if let Some(a) = e1.value(arith) {
                lemma_term_runs(arith, t, stack.push(a));
            }
            lemma_run_operation(
                arith,
                e1.postfix(),
                e1.value(arith),
                t.postfix(),
                t.value(arith),
                op,
                stack,
            );
        },
    }
}

/// The postfix form of an expression is worth what the expression is worth.
pub proof fn theorem_postfix_value<V>(arith: Arithmetic<V>, e: Expr)
    requires
        e.well_formed(),
        e.single_digits(),
    ensures
        postfix_value(arith, e.postfix()) == e.value(arith),
{
    lemma_expr_runs(arith, e, Seq::empty());
}

} // verus!
