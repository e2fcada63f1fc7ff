//! A rule looks at what it reads and at the one character behind it, and at
//! nothing else: what follows can be exchanged.

use vstd::prelude::*;
use crate::grammar::{
    after, expr_rule, factor_rule, is_additive, is_digit, is_multiplicative, number_rule,
    other_rule, rest_rule, term_rule, Outcome, Parsed,
};
use crate::numbers::{ends_number, lemma_number_append};
use crate::sequences::{lemma_after_append, lemma_after_ends, lemma_skip_append};

verus! {

/// A term that is followed by `k` ends where `k` begins.
pub open spec fn ends_term(k: Seq<char>) -> bool {
    ends_number(k) && (k.len() > 0 ==> !is_multiplicative(k[0]))
}

/// An expression that is followed by `k` ends where `k` begins.
pub open spec fn ends_expr(k: Seq<char>) -> bool {
    ends_term(k) && (k.len() > 0 ==> !is_additive(k[0]))
}

/// `rule`, which is what a rule makes of `s`, is also what it makes of `s`
/// with `k` behind it: it has read a prefix and stopped inside `s`, or it
/// has read all of `s` and `k` is known to end it.
pub open spec fn settled(rule: Outcome, s: Seq<char>, ended: bool) -> bool {
    rule matches Ok(p) && (p.used < s.len() || (p.used == s.len() && ended))
}

proof fn lemma_number_stable(s: Seq<char>, k: Seq<char>)
    requires
        settled(number_rule(s), s, ends_number(k)),
    ensures
        number_rule(s + k) == number_rule(s),
{
    lemma_number_append(s, k);
    lemma_after_append(s, k, number_rule(s)->Ok_0.used);
}

proof fn lemma_factor_stable(s: Seq<char>, k: Seq<char>)
    requires
        s.len() > 0,
        settled(factor_rule(s), s, ends_number(k)),
    ensures
        factor_rule(s + k) == factor_rule(s),
    decreases s.len(), 0nat,
{
    lemma_skip_append(s, k);
    if s[0] == '(' {
        let inner = expr_rule(s.skip(1))->Ok_0;
        lemma_expr_stable(s.skip(1), k);
        lemma_after_append(s, k, 1 + inner.used);
    } else if is_digit(s[0]) {
        lemma_number_stable(s, k);
    }
}

/// An operator of `s`, the operand behind it, which `first` has read, and
/// what `second` makes of the text behind that: where the whole is settled,
/// both parts are.
proof fn lemma_parts_settled(
    s: Seq<char>,
    first: Outcome,
    second: Outcome,
    lead: nat,
    ended_first: bool,
    ended: bool,
)
    requires
        lead <= 1,
        s.len() >= lead,
        first is Ok,
        second is Ok,
        settled(
            Ok(Parsed { out: Seq::empty(), used: lead + first->Ok_0.used + second->Ok_0.used }),
            s,
            ended,
        ),
        ended ==> ended_first,
    ensures
        settled(first, after(s, lead), ended_first),
        settled(second, after(s, lead + first->Ok_0.used), ended),
        lead + first->Ok_0.used <= s.len(),
{
}

proof fn lemma_other_stable(s: Seq<char>, k: Seq<char>)
    requires
        settled(other_rule(s), s, ends_term(k)),
    ensures
        other_rule(s + k) == other_rule(s),
    decreases s.len(), 0nat,
{
    if s.len() == 0 {
        lemma_after_ends(s, k);
    } else {
        lemma_skip_append(s, k);
        if is_multiplicative(s[0]) {
            let first = factor_rule(s.skip(1));
            let read = 1 + first->Ok_0.used;
            let second = other_rule(after(s, read));
            lemma_parts_settled(s, first, second, 1, ends_number(k), ends_term(k));
            lemma_factor_stable(s.skip(1), k);
            lemma_after_append(s, k, read);
            lemma_other_stable(after(s, read), k);
        }
    }
}

proof fn lemma_term_stable(s: Seq<char>, k: Seq<char>)
    requires
        settled(term_rule(s), s, ends_term(k)),
    ensures
        term_rule(s + k) == term_rule(s),
    decreases s.len(), 1nat,
{
    let first = factor_rule(s);
    let read = first->Ok_0.used;
    let second = other_rule(after(s, read));
    lemma_parts_settled(s, first, second, 0, ends_number(k), ends_term(k));
    lemma_after_ends(s, k);
    lemma_factor_stable(s, k);
    lemma_after_append(s, k, read);
    lemma_other_stable(after(s, read), k);
}

proof fn lemma_rest_stable(s: Seq<char>, k: Seq<char>)
    requires
        settled(rest_rule(s), s, ends_expr(k)),
    ensures
        rest_rule(s + k) == rest_rule(s),
    decreases s.len(), 0nat,
{
    if s.len() == 0 {
        lemma_after_ends(s, k);
    } else {
        lemma_skip_append(s, k);
        if is_additive(s[0]) {
            let first = term_rule(s.skip(1));
            let read = 1 + first->Ok_0.used;
            let second = rest_rule(after(s, read));
            lemma_parts_settled(s, first, second, 1, ends_term(k), ends_expr(k));
            lemma_term_stable(s.skip(1), k);
            lemma_after_append(s, k, read);
            lemma_rest_stable(after(s, read), k);
        }
    }
}

/// What `expr` makes of a text it also makes of the text with more behind
/// it, where it stopped inside the text or the addition ends an expression.
pub proof fn lemma_expr_stable(s: Seq<char>, k: Seq<char>)
    requires
        settled(expr_rule(s), s, ends_expr(k)),
    ensures
        expr_rule(s + k) == expr_rule(s),
    decreases s.len(), 2nat,
{
    let first = term_rule(s);
    let read = first->Ok_0.used;
    let second = rest_rule(after(s, read));
    lemma_parts_settled(s, first, second, 0, ends_term(k), ends_expr(k));
    lemma_after_ends(s, k);
    lemma_term_stable(s, k);
    lemma_after_append(s, k, read);
    lemma_rest_stable(after(s, read), k);
}

} // verus!
