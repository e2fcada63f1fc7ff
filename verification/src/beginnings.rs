//! The beginning of a line: what a rule makes of the first characters of a
//! text, given what it makes of the text.

use vstd::prelude::*;
use crate::error::ParseError;
use crate::grammar::{
    after, expr_rule, factor_rule, followed_by, is_additive, is_digit, is_multiplicative,
    missing_operand, nothing, number_len, number_rule, other_rule, rest_rule, term_rule,
    Outcome, Parsed,
};
use crate::numbers::lemma_number_cut;
use crate::sequences::{lemma_after_append, lemma_skip_append};

verus! {

/// What a rule makes of the first `len` characters of a text, when `whole`
/// is what it makes of the text. Where it stops before their end, it makes
/// the same of them. Where it reads on to their end or beyond it, it finds
/// them cut short, or it reads exactly to their end.
pub open spec fn cut(whole: Outcome, part: Outcome, len: nat) -> bool {
    whole matches Ok(p) ==> if p.used < len {
        part == whole
    } else {
        part == Err::<Parsed, ParseError>(ParseError::PrematureEndOfInput) || (part matches Ok(q)
            && q.used == len)
    }
}

proof fn lemma_number_rule_cut(s: Seq<char>, k: Seq<char>)
    ensures
        cut(number_rule(s + k), number_rule(s), s.len()),
{
    lemma_number_cut(s, k);
    if let Ok(n) = number_len(s + k) {
        if n < s.len() {
            lemma_after_append(s, k, n);
        }
    }
}

proof fn lemma_factor_cut(s: Seq<char>, k: Seq<char>)
    ensures
        cut(factor_rule(s + k), factor_rule(s), s.len()),
    decreases s.len(), 0nat,
{
    if s.len() > 0 {
        lemma_skip_append(s, k);
        if s[0] == '(' {
            lemma_expr_cut(s.skip(1), k);
            if let Ok(inner) = expr_rule(s.skip(1) + k) {
                if 1 + inner.used < s.len() {
                    lemma_after_append(s, k, 1 + inner.used);
                }
            }
        } else if is_digit(s[0]) {
            lemma_number_rule_cut(s, k);
        }
    }
}

/// An operator and the operand behind it, which a rule has read.
spec fn operand(op: char, read: Outcome) -> Outcome {
    match read {
        Ok(p) => Ok(Parsed { out: p.out.push(op), used: 1 + p.used }),
        Err(e) => Err(e),
    }
}

/// One rule behind another, within `len` characters: the second rule finds
/// nothing where the first has read them all.
spec fn followed_within(first: Outcome, second: Outcome, len: nat) -> Outcome {
    match first {
        Ok(f) => followed_by(
            f,
            if f.used < len {
                second
            } else {
                Ok(nothing())
            },
        ),
        Err(e) => Err(e),
    }
}

proof fn lemma_operand_cut(op: char, whole: Outcome, part: Outcome, len: nat)
    requires
        len > 0,
        cut(whole, part, (len - 1) as nat),
    ensures
        cut(operand(op, whole), operand(op, part), len),
{
}

proof fn lemma_followed_cut(
    first_whole: Outcome,
    first_part: Outcome,
    second_whole: Outcome,
    second_part: Outcome,
    len: nat,
)
    requires
        cut(first_whole, first_part, len),
        first_whole matches Ok(f) ==> f.used < len ==> cut(
            second_whole,
            second_part,
            (len - f.used) as nat,
        ),
    ensures
        cut(
            match first_whole {
                Ok(f) => followed_by(f, second_whole),
                Err(e) => Err(e),
            },
            followed_within(first_part, second_part, len),
            len,
        ),
{
    if let Ok(f) = first_whole {
        if let Ok(o) = second_whole {
            if f.used >= len {
                if let Ok(g) = first_part {
                    assert(g.out + Seq::<char>::empty() == g.out);
                }
            }
        }
    }
}

proof fn lemma_other_cut(s: Seq<char>, k: Seq<char>)
    ensures
        cut(other_rule(s + k), other_rule(s), s.len()),
    decreases s.len(), 0nat,
{
    if s.len() > 0 {
        lemma_skip_append(s, k);
        if is_multiplicative(s[0]) && missing_operand(s.skip(1)) is None {
            lemma_skip_append(s.skip(1), k);
            let whole = operand(s[0], factor_rule(s.skip(1) + k));
            let part = operand(s[0], factor_rule(s.skip(1)));
            lemma_factor_cut(s.skip(1), k);
            lemma_operand_cut(s[0], factor_rule(s.skip(1) + k), factor_rule(s.skip(1)), s.len());
            if let Ok(f) = whole {
                if f.used < s.len() {
                    lemma_after_append(s, k, f.used);
                    lemma_other_cut(after(s, f.used), k);
                }
                lemma_followed_cut(
                    whole,
                    part,
                    other_rule(after(s + k, f.used)),
                    other_rule(after(s, f.used)),
                    s.len(),
                );
                if let Ok(g) = part {
                    if g.used == s.len() {
                        assert(after(s, g.used).len() == 0);
                    }
                }
                assert(other_rule(s) == followed_within(
                    part,
                    other_rule(after(s, f.used)),
                    s.len(),
                )) by {
                    if let Ok(g) = part {
                        if g.used < s.len() {
                            assert(g == f);
                        } else {
                            assert(other_rule(after(s, g.used)) == Ok::<Parsed, ParseError>(nothing()));
                        }
                    }
                }
            }
        }
    }
}

proof fn lemma_term_cut(s: Seq<char>, k: Seq<char>)
    ensures
        cut(term_rule(s + k), term_rule(s), s.len()),
    decreases s.len(), 1nat,
{
    let whole = factor_rule(s + k);
    let part = factor_rule(s);
    lemma_factor_cut(s, k);
    if let Ok(f) = whole {
        if f.used < s.len() {
            lemma_after_append(s, k, f.used);
            lemma_other_cut(after(s, f.used), k);
        }
        lemma_followed_cut(
            whole,
            part,
            other_rule(after(s + k, f.used)),
            other_rule(after(s, f.used)),
            s.len(),
        );
        if let Ok(g) = part {
            if g.used == s.len() {
                assert(after(s, g.used).len() == 0);
            }
        }
    }
}

proof fn lemma_rest_cut(s: Seq<char>, k: Seq<char>)
    ensures
        cut(rest_rule(s + k), rest_rule(s), s.len()),
    decreases s.len(), 0nat,
{
    if s.len() > 0 {
        lemma_skip_append(s, k);
        if is_additive(s[0]) {
            let whole = operand(s[0], term_rule(s.skip(1) + k));
            let part = operand(s[0], term_rule(s.skip(1)));
            lemma_term_cut(s.skip(1), k);
            lemma_operand_cut(s[0], term_rule(s.skip(1) + k), term_rule(s.skip(1)), s.len());
            if let Ok(t) = whole {
                if t.used < s.len() {
                    lemma_after_append(s, k, t.used);
                    lemma_rest_cut(after(s, t.used), k);
                }
                lemma_followed_cut(
                    whole,
                    part,
                    rest_rule(after(s + k, t.used)),
                    rest_rule(after(s, t.used)),
                    s.len(),
                );
                if let Ok(g) = part {
                    if g.used == s.len() {
                        assert(after(s, g.used).len() == 0);
                    }
                }
                assert(rest_rule(s) == followed_within(
                    part,
                    rest_rule(after(s, t.used)),
                    s.len(),
                )) by {
                    if let Ok(g) = part {
                        if g.used < s.len() {
                            assert(g == t);
                        } else {
                            assert(rest_rule(after(s, g.used)) == Ok::<Parsed, ParseError>(nothing()));
                        }
                    }
                }
            }
        }
    }
}

/// What `expr` makes of the beginning of a text, given what it makes of the
/// text.
pub proof fn lemma_expr_cut(s: Seq<char>, k: Seq<char>)
    ensures
        cut(expr_rule(s + k), expr_rule(s), s.len()),
    decreases s.len(), 2nat,
{
    let whole = term_rule(s + k);
    let part = term_rule(s);
    lemma_term_cut(s, k);
    if let Ok(t) = whole {
        if t.used < s.len() {
            lemma_after_append(s, k, t.used);
            lemma_rest_cut(after(s, t.used), k);
        }
        lemma_followed_cut(
            whole,
            part,
            rest_rule(after(s + k, t.used)),
            rest_rule(after(s, t.used)),
            s.len(),
        );
        if let Ok(g) = part {
            if g.used == s.len() {
                assert(after(s, g.used).len() == 0);
            }
        }
    }
}

} // verus!
