//! Facts about the numbers of the grammar.

use vstd::prelude::*;
use crate::error::ParseError;
use crate::grammar::{
    after, digit_run, digits_rule, exponent_rule, fraction_rule, is_additive, is_digit,
    is_exponent_marker, number_len,
};

verus! {

/// A number that is followed by `k` ends where `k` begins.
pub open spec fn ends_number(k: Seq<char>) -> bool {
    k.len() > 0 ==> !is_digit(k[0]) && k[0] != '.' && !is_exponent_marker(k[0])
}

/// The digits that `s` begins with are digits of `s`, and the character
/// behind them is none.
pub proof fn lemma_digit_run_bound(s: Seq<char>)
    ensures
        digit_run(s) <= s.len(),
        forall|i: int| 0 <= i < digit_run(s) ==> is_digit(#[trigger] s[i]),
        digit_run(s) < s.len() ==> !is_digit(s[digit_run(s) as int]),
        s.len() > 0 && is_digit(s[0]) ==> digit_run(s) > 0,
    decreases s.len(),
{
    if s.len() > 0 && is_digit(s[0]) {
        let tail = s.skip(1);
        lemma_digit_run_bound(tail);
        assert forall|i: int| 0 <= i < digit_run(s) implies is_digit(#[trigger] s[i]) by {
            if i > 0 {
                assert(s[i] == tail[i - 1]);
            }
        }
    }
}

/// `s` begins with `n` digits and no more.
pub proof fn lemma_digit_run_exact(s: Seq<char>, n: nat)
    requires
        n <= s.len(),
        forall|i: int| 0 <= i < n ==> is_digit(#[trigger] s[i]),
        n < s.len() ==> !is_digit(s[n as int]),
    ensures
        digit_run(s) == n,
    decreases n,
{
    if n > 0 {
        assert(is_digit(s[0]));
        assert forall|i: int| 0 <= i < n - 1 implies is_digit(#[trigger] s.skip(1)[i]) by {
            assert(s.skip(1)[i] == s[i + 1]);
        }
        lemma_digit_run_exact(s.skip(1), (n - 1) as nat);
    }
}

/// The digits at the start of `a + k` are those of `a`, and those of `k` too
/// where `a` has digits only.
proof fn lemma_digit_run_append(a: Seq<char>, k: Seq<char>)
    ensures
        digit_run(a + k) == if digit_run(a) < a.len() {
            digit_run(a)
        } else {
            a.len() + digit_run(k)
        },
    decreases a.len(),
{
    lemma_digit_run_bound(a);
    if a.len() == 0 {
        assert(a + k == k);
    } else if is_digit(a[0]) {
        assert((a + k).skip(1) == a.skip(1) + k);
        lemma_digit_run_append(a.skip(1), k);
    }
}

proof fn lemma_digits_append(x: Seq<char>, k: Seq<char>)
    requires
        digits_rule(x) is Ok,
        digits_rule(x)->Ok_0 < x.len() || ends_number(k),
    ensures
        digits_rule(x + k) == digits_rule(x),
        digits_rule(x)->Ok_0 <= x.len(),
{
    lemma_digit_run_bound(x);
    lemma_digit_run_append(x, k);
}

proof fn lemma_fraction_append(x: Seq<char>, k: Seq<char>)
    requires
        fraction_rule(x) is Ok,
        fraction_rule(x)->Ok_0 < x.len() || ends_number(k),
    ensures
        fraction_rule(x + k) == fraction_rule(x),
        fraction_rule(x)->Ok_0 <= x.len(),
{
    if x.len() == 0 {
        assert(x + k == k);
    } else if x[0] == '.' {
        assert((x + k).skip(1) == x.skip(1) + k);
        lemma_digits_append(x.skip(1), k);
    }
}

proof fn lemma_exponent_append(x: Seq<char>, k: Seq<char>)
    requires
        exponent_rule(x) is Ok,
        exponent_rule(x)->Ok_0 < x.len() || ends_number(k),
    ensures
        exponent_rule(x + k) == exponent_rule(x),
        exponent_rule(x)->Ok_0 <= x.len(),
{
    if x.len() == 0 {
        assert(x + k == k);
    } else if is_exponent_marker(x[0]) {
        let sign: nat = if x.len() > 1 && is_additive(x[1]) { 1 } else { 0 };
        assert(after(x + k, 1 + sign) == after(x, 1 + sign) + k);
        lemma_digits_append(after(x, 1 + sign), k);
    }
}

/// A number keeps its length when it is followed by what ends it.
pub proof fn lemma_number_append(w: Seq<char>, k: Seq<char>)
    requires
        number_len(w) is Ok,
        number_len(w)->Ok_0 < w.len() || ends_number(k),
    ensures
        number_len(w + k) == number_len(w),
        number_len(w)->Ok_0 <= w.len(),
{
    let whole = digits_rule(w)->Ok_0;
    lemma_digit_run_bound(w);
    let x = after(w, whole);
    let part = fraction_rule(x)->Ok_0;
    if part < x.len() || ends_number(k) {
        lemma_fraction_append(x, k);
    } else {
        assert(after(w, whole + part).len() == 0);
    }
    assert(part <= x.len()) by {
        if x.len() > 0 && x[0] == '.' {
            lemma_digit_run_bound(x.skip(1));
        }
    }
    let y = after(w, whole + part);
    let power = exponent_rule(y)->Ok_0;
    assert(power <= y.len()) by {
        if y.len() > 0 && is_exponent_marker(y[0]) {
            let sign: nat = if y.len() > 1 && is_additive(y[1]) { 1 } else { 0 };
            lemma_digit_run_bound(after(y, 1 + sign));
        }
    }
    lemma_exponent_append(y, k);
    lemma_fraction_append(x, k);
    lemma_digits_append(w, k);
    assert(after(w + k, whole) == x + k);
    assert(after(w + k, whole + part) == y + k);
}

/// A character that a number can hold.
pub open spec fn is_number_char(c: char) -> bool {
    is_digit(c) || c == '.' || is_exponent_marker(c) || is_additive(c)
}

/// `s` begins with `n` characters that a number can hold.
pub open spec fn begins_with_number_chars(s: Seq<char>, n: nat) -> bool {
    &&& n <= s.len()
    &&& forall|i: int| 0 <= i < n ==> is_number_char(#[trigger] s[i])
}

proof fn lemma_digits_chars(s: Seq<char>)
    requires
        digits_rule(s) is Ok,
    ensures
        begins_with_number_chars(s, digits_rule(s)->Ok_0),
{
    lemma_digit_run_bound(s);
}

proof fn lemma_fraction_chars(s: Seq<char>)
    requires
        fraction_rule(s) is Ok,
    ensures
        begins_with_number_chars(s, fraction_rule(s)->Ok_0),
{
    if s.len() > 0 && s[0] == '.' {
        let tail = s.skip(1);
        lemma_digits_chars(tail);
        assert forall|i: int| 0 <= i < fraction_rule(s)->Ok_0 implies is_number_char(
            #[trigger] s[i],
        ) by {
            if i > 0 {
                assert(s[i] == tail[i - 1]);
            }
        }
    }
}

proof fn lemma_exponent_chars(s: Seq<char>)
    requires
        exponent_rule(s) is Ok,
    ensures
        begins_with_number_chars(s, exponent_rule(s)->Ok_0),
{
    if s.len() > 0 && is_exponent_marker(s[0]) {
        let sign: nat = if s.len() > 1 && is_additive(s[1]) { 1 } else { 0 };
        let tail = after(s, 1 + sign);
        lemma_digits_chars(tail);
        assert forall|i: int| 0 <= i < exponent_rule(s)->Ok_0 implies is_number_char(
            #[trigger] s[i],
        ) by {
            if i > sign {
                assert(s[i] == tail[i - 1 - sign]);
            }
        }
    }
}

/// `first` characters that a number can hold, and `second` more behind them.
proof fn lemma_number_chars_append(s: Seq<char>, first: nat, second: nat)
    requires
        begins_with_number_chars(s, first),
        begins_with_number_chars(after(s, first), second),
    ensures
        begins_with_number_chars(s, first + second),
{
    let tail = after(s, first);
    assert forall|i: int| 0 <= i < first + second implies is_number_char(#[trigger] s[i]) by {
        if i >= first {
            assert(s[i] == tail[i - first]);
        }
    }
}

/// A number lies within the text and is made of the characters of numbers.
pub proof fn lemma_number_chars(s: Seq<char>)
    requires
        number_len(s) is Ok,
    ensures
        begins_with_number_chars(s, number_len(s)->Ok_0),
{
    let whole = digits_rule(s)->Ok_0;
    lemma_digits_chars(s);
    let part = fraction_rule(after(s, whole))->Ok_0;
    lemma_fraction_chars(after(s, whole));
    lemma_number_chars_append(s, whole, part);
    let power = exponent_rule(after(s, whole + part))->Ok_0;
    lemma_exponent_chars(after(s, whole + part));
    lemma_number_chars_append(s, whole + part, power);
}

/// What a part of a number is in the first `len` characters of a text, when
/// `whole` is what it is in the text: the same where it ends before them;
/// else it is cut short by their end or reaches exactly to it.
pub open spec fn length_cut(
    whole: Result<nat, ParseError>,
    part: Result<nat, ParseError>,
    len: nat,
) -> bool {
    whole matches Ok(n) ==> if n < len {
        part == whole
    } else {
        part == Err::<nat, ParseError>(ParseError::PrematureEndOfInput) || part == Ok::<
            nat,
            ParseError,
        >(len)
    }
}

proof fn lemma_digits_cut(s: Seq<char>, k: Seq<char>)
    ensures
        length_cut(digits_rule(s + k), digits_rule(s), s.len()),
{
    if s.len() > 0 {
        lemma_digit_run_bound(s);
        lemma_digit_run_append(s, k);
        assert((s + k)[0] == s[0]);
    }
}

proof fn lemma_fraction_cut(s: Seq<char>, k: Seq<char>)
    ensures
        length_cut(fraction_rule(s + k), fraction_rule(s), s.len()),
{
    if s.len() > 0 {
        assert((s + k)[0] == s[0]);
        if s[0] == '.' {
            assert((s + k).skip(1) == s.skip(1) + k);
            lemma_digits_cut(s.skip(1), k);
        }
    }
}

proof fn lemma_exponent_cut(s: Seq<char>, k: Seq<char>)
    ensures
        length_cut(exponent_rule(s + k), exponent_rule(s), s.len()),
{
    if s.len() > 0 {
        assert((s + k)[0] == s[0]);
        if is_exponent_marker(s[0]) {
            if s.len() > 1 {
                assert((s + k)[1] == s[1]);
                let sign: nat = if is_additive(s[1]) { 1 } else { 0 };
                assert(after(s + k, 1 + sign) == after(s, 1 + sign) + k);
                lemma_digits_cut(after(s, 1 + sign), k);
            } else {
                assert(after(s, 1).len() == 0);
            }
        }
    }
}

/// The number at the start of a text, and at the start of its first
/// characters alone.
pub proof fn lemma_number_cut(s: Seq<char>, k: Seq<char>)
    ensures
        length_cut(number_len(s + k), number_len(s), s.len()),
{
    if let Ok(n) = number_len(s + k) {
        let whole = digits_rule(s + k)->Ok_0;
        lemma_digits_cut(s, k);
        if whole < s.len() {
            assert(after(s + k, whole) == after(s, whole) + k);
            let x = after(s, whole);
            let part = fraction_rule(x + k)->Ok_0;
            lemma_fraction_cut(x, k);
            if part < x.len() {
                assert(after(s + k, whole + part) == after(s, whole + part) + k);
                lemma_exponent_cut(after(s, whole + part), k);
            } else if fraction_rule(x) is Ok {
                assert(after(s, whole + x.len()).len() == 0);
            }
        } else if digits_rule(s) is Ok {
            assert(after(s, s.len()).len() == 0);
        }
    }
}

proof fn lemma_digits_take(x: Seq<char>, m: nat)
    requires
        digits_rule(x) is Ok,
        digits_rule(x)->Ok_0 <= m <= x.len(),
    ensures
        digits_rule(x.take(m as int)) == digits_rule(x),
{
    lemma_digit_run_bound(x);
    lemma_digit_run_exact(x.take(m as int), digit_run(x));
}

proof fn lemma_fraction_take(x: Seq<char>, m: nat)
    requires
        fraction_rule(x) is Ok,
        fraction_rule(x)->Ok_0 <= m <= x.len(),
    ensures
        fraction_rule(x.take(m as int)) == fraction_rule(x),
{
    if x.len() > 0 && x[0] == '.' {
        assert(x.take(m as int).skip(1) == x.skip(1).take(m - 1));
        lemma_digits_take(x.skip(1), (m - 1) as nat);
    }
}

proof fn lemma_exponent_take(x: Seq<char>, m: nat)
    requires
        exponent_rule(x) is Ok,
        exponent_rule(x)->Ok_0 <= m <= x.len(),
    ensures
        exponent_rule(x.take(m as int)) == exponent_rule(x),
{
    if x.len() > 0 && is_exponent_marker(x[0]) {
        let sign: nat = if x.len() > 1 && is_additive(x[1]) { 1 } else { 0 };
        lemma_digit_run_bound(after(x, 1 + sign));
        assert(after(x.take(m as int), 1 + sign) == after(x, 1 + sign).take(m - 1 - sign));
        lemma_digits_take(after(x, 1 + sign), (m - 1 - sign) as nat);
    }
}

/// The number that a text begins with is a number by itself.
pub proof fn lemma_number_take(s: Seq<char>)
    requires
        number_len(s) is Ok,
    ensures
        number_len(s)->Ok_0 <= s.len(),
        number_len(s.take(number_len(s)->Ok_0 as int)) == number_len(s),
{
    lemma_number_chars(s);
    let n = number_len(s)->Ok_0;
    let w = s.take(n as int);
    let whole = digits_rule(s)->Ok_0;
    let part = fraction_rule(after(s, whole))->Ok_0;
    lemma_digits_take(s, n);
    assert(after(w, whole) == after(s, whole).take(n - whole));
    lemma_fraction_take(after(s, whole), (n - whole) as nat);
    assert(after(w, whole + part) == after(s, whole + part).take(n - whole - part));
    lemma_exponent_take(after(s, whole + part), (n - whole - part) as nat);
}

} // verus!
