//! Translation of infix arithmetic into postfix notation.
//!
//! A line such as `(1+2)*3` is read once, from left to right, and written
//! with every operator behind its two operands: `12+3*`. `+` and `-` bind
//! less tightly than `*` and `/`, operators of one level are taken from the
//! left, and parentheses override both and are not written.
//!
//! - [`translator`] holds the functions that do the work: [`translator::translate`]
//!   for a whole line, and one function for each rule of the grammar.
//! - [`cursor`] is the input they read from, [`error`] what they reject a
//!   line with.
//! - [`grammar`] says in mathematics what each rule makes of a text. The
//!   contracts of the translator are stated over it.
//! - [`syntax`] and [`evaluation`] define well-formed expressions, their
//!   postfix form and their value; [`correctness`] proves that a well-formed
//!   expression is translated into its postfix form, which has its value.
//! - [`acceptance`] proves the converse: a line that is accepted is a
//!   well-formed expression.
//! - [`shape`], [`stability`], [`beginnings`] and [`rejection`] prove what
//!   holds of every line: what the output is made of, and which lines are
//!   rejected with which error.
//! - [`numbers`] and [`sequences`] hold the facts about numbers and texts
//!   that the proofs share; [`strings`] holds what is taken on trust about
//!   the standard library.

pub mod acceptance;
pub mod beginnings;
pub mod correctness;
pub mod cursor;
pub mod error;
pub mod evaluation;
pub mod grammar;
pub mod numbers;
pub mod rejection;
pub mod sequences;
pub mod shape;
pub mod stability;
pub mod strings;
pub mod syntax;
pub mod translator;
