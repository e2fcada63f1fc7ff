//! The lines that are rejected, and why.

use vstd::prelude::*;
use crate::beginnings::lemma_expr_cut;
use crate::cursor::{is_line_end, without_line_end};
use crate::error::ParseError;
use crate::grammar::{expr_rule, factor_rule, term_rule, translation, Parsed};
use crate::sequences::{lemma_after_ends, lemma_skip_append};
use crate::shape::{lemma_expr_shape, opens_left};
use crate::stability::{ends_expr, lemma_expr_stable};

verus! {

/// A line in which a `(` is left open is rejected.
pub proof fn theorem_open_parenthesis_rejected(line: Seq<char>)
    requires
        opens_left(line, 0) > 0,
    ensures
        translation(line) is Err,
{
    lemma_expr_shape(line);
    if let Ok(p) = expr_rule(line) {
        if p.used == line.len() {
            assert(line.take(p.used as int) == line);
        }
    }
}

/// What `factor` makes of a `(` and what stands behind it.
proof fn lemma_opened(line: Seq<char>)
    ensures
        factor_rule(seq!['('] + line) == match expr_rule(line) {
            Err(e) => Err(e),
            Ok(inner) => if inner.used >= line.len() {
                Err(ParseError::PrematureEndOfInput)
            } else if line[inner.used as int] != ')' {
                Err(ParseError::UnmatchedParenthesis { found: line[inner.used as int] })
            } else {
                Ok(Parsed { out: inner.out, used: inner.used + 2 })
            },
        },
{
    let opened = seq!['('] + line;
    lemma_skip_append(seq!['('], line);
    lemma_after_ends(line, Seq::empty());
    assert(opened.skip(1) == line);
    if let Ok(inner) = expr_rule(line) {
        if inner.used < line.len() {
            assert(opened[1 + inner.used as int] == line[inner.used as int]);
        }
    }
}

/// A line that does not begin with a factor is rejected as `factor` rejects
/// it.
proof fn lemma_first_factor_rejected(line: Seq<char>)
    requires
        factor_rule(line) is Err,
    ensures
        translation(line) == Err::<Seq<char>, ParseError>(factor_rule(line)->Err_0),
{
    assert(term_rule(line) is Err);
    assert(expr_rule(line) is Err);
}

/// A `(` in front of a line, with nothing to close it. Where the line by
/// itself is accepted, the group is cut short by the end of the line. Where
/// the line by itself has a character left over, that character stands where
/// the `)` is due. Where the expression itself is at fault, the fault stays
/// the same.
pub proof fn theorem_open_group(line: Seq<char>)
    ensures
        match translation(line) {
            Ok(_) => translation(seq!['('] + line) == Err::<Seq<char>, ParseError>(
                ParseError::PrematureEndOfInput,
            ),
            Err(ParseError::UnconsumedTrailingInput { found }) => found != ')' ==> translation(
                seq!['('] + line,
            ) == Err::<Seq<char>, ParseError>(ParseError::UnmatchedParenthesis { found }),
            Err(e) => translation(seq!['('] + line) == Err::<Seq<char>, ParseError>(e),
        },
{
    let opened = seq!['('] + line;
    lemma_opened(line);
    lemma_expr_shape(line);
    if factor_rule(opened) is Err {
        lemma_first_factor_rejected(opened);
    }
}

/// The beginning of a line that is accepted is accepted itself, or the end
/// of the line has come too early for it: nothing else is wrong with it.
pub proof fn theorem_beginning(line: Seq<char>, more: Seq<char>)
    requires
        translation(line + more) is Ok,
    ensures
        translation(line) is Ok || translation(line) == Err::<Seq<char>, ParseError>(
            ParseError::PrematureEndOfInput,
        ),
{
    lemma_expr_cut(line, more);
    lemma_expr_shape(line);
}

/// A line with a `(` left open that goes on to a line that is accepted ends
/// too early.
pub proof fn theorem_open_parenthesis_cut_short(line: Seq<char>, more: Seq<char>)
    requires
        opens_left(line, 0) > 0,
        translation(line + more) is Ok,
    ensures
        translation(line) == Err::<Seq<char>, ParseError>(ParseError::PrematureEndOfInput),
{
    theorem_beginning(line, more);
    theorem_open_parenthesis_rejected(line);
}

/// A line that is accepted, with something behind it that no expression goes
/// on with: the first character of the addition is left over.
pub proof fn theorem_trailing_input(line: Seq<char>, garbage: Seq<char>)
    requires
        translation(line) is Ok,
        garbage.len() > 0,
        ends_expr(garbage),
    ensures
        translation(line + garbage) == Err::<Seq<char>, ParseError>(
            ParseError::UnconsumedTrailingInput { found: garbage[0] },
        ),
{
    lemma_expr_shape(line);
    lemma_expr_stable(line, garbage);
}

/// A line that holds nothing but its end is cut short before it begins.
pub proof fn theorem_empty_line(line: Seq<char>)
    requires
        forall|i: int| 0 <= i < line.len() ==> is_line_end(#[trigger] line[i]),
    ensures
        translation(without_line_end(line)) == Err::<Seq<char>, ParseError>(
            ParseError::PrematureEndOfInput,
        ),
    decreases line.len(),
{
    if line.len() > 0 {
        assert(is_line_end(line.last()));
        theorem_empty_line(line.drop_last());
    }
}

} // verus!
