//! Well-formed expressions.
//!
//! The grammar that a reader has in mind is left-recursive: an expression is
//! a term, or an expression, `+` or `-`, and a term; a term is a factor, or a
//! term, `*` or `/`, and a factor; a factor is a number or an expression in
//! parentheses. The types below are the derivations of that grammar. Each
//! derivation has a text, which is the line one would write, and a postfix
//! form, in which every operator stands behind its two operands.

use vstd::prelude::*;
use crate::error::ParseError;
use crate::grammar::{is_additive, is_multiplicative, number_len};

verus! {

/// An expression: a term, or a sum or difference whose right operand is a
/// term.
pub enum Expr {
    Term(Term),
    Sum(Box<Expr>, char, Term),
}

/// A term: a factor, or a product or quotient whose right operand is a
/// factor.
pub enum Term {
    Factor(Factor),
    Product(Box<Term>, char, Factor),
}

/// A factor: a number as it is written, or an expression in parentheses.
pub enum Factor {
    Number(Seq<char>),
    Group(Box<Expr>),
}

impl Expr {
    /// Every operator is one of its level and every number is a number.
    pub open spec fn well_formed(self) -> bool
        decreases self,
    {
        match self {
            Expr::Term(t) => t.well_formed(),
            Expr::Sum(e, op, t) => e.well_formed() && is_additive(op) && t.well_formed(),
        }
    }

    /// The expression as it is written.
    pub open spec fn text(self) -> Seq<char>
        decreases self,
    {
        match self {
            Expr::Term(t) => t.text(),
            Expr::Sum(e, op, t) => e.text().push(op) + t.text(),
        }
    }

    /// The expression in postfix notation.
    pub open spec fn postfix(self) -> Seq<char>
        decreases self,
    {
        match self {
            Expr::Term(t) => t.postfix(),
            Expr::Sum(e, op, t) => (e.postfix() + t.postfix()).push(op),
        }
    }
}

impl Term {
    /// Every operator is one of its level and every number is a number.
    pub open spec fn well_formed(self) -> bool
        decreases self,
    {
        match self {
            Term::Factor(f) => f.well_formed(),
            Term::Product(t, op, f) => t.well_formed() && is_multiplicative(op) && f.well_formed(),
        }
    }

    /// The term as it is written.
    pub open spec fn text(self) -> Seq<char>
        decreases self,
    {
        match self {
            Term::Factor(f) => f.text(),
            Term::Product(t, op, f) => t.text().push(op) + f.text(),
        }
    }

    /// The term in postfix notation.
    pub open spec fn postfix(self) -> Seq<char>
        decreases self,
    {
        match self {
            Term::Factor(f) => f.postfix(),
            Term::Product(t, op, f) => (t.postfix() + f.postfix()).push(op),
        }
    }
}

impl Factor {
    /// Every operator is one of its level and every number is a number.
    pub open spec fn well_formed(self) -> bool
        decreases self,
    {
        match self {
            Factor::Number(digits) => number_len(digits) == Ok::<nat, ParseError>(digits.len()),
            Factor::Group(e) => e.well_formed(),
        }
    }

    /// The factor as it is written.
    pub open spec fn text(self) -> Seq<char>
        decreases self,
    {
        match self {
            Factor::Number(digits) => digits,
            Factor::Group(e) => seq!['('] + e.text().push(')'),
        }
    }

    /// The factor in postfix notation: the parentheses are gone.
    pub open spec fn postfix(self) -> Seq<char>
        decreases self,
    {
        match self {
            Factor::Number(digits) => digits,
            Factor::Group(e) => e.postfix(),
        }
    }
}

} // verus!
