//! Canonical phone numbers: North American numbers in E.164 form
//! (`+1` and ten digits), and the area code shown beside a contact.

use vstd::prelude::*;
use crate::text::{is_digit, push_char};

verus! {

/// Characters that may separate digit groups in a written number.
pub open spec fn is_separator(c: char) -> bool {
    c == ' ' || c == '-' || c == '(' || c == ')' || c == '.'
}

/// The digits of `s`, in order.
pub open spec fn digits_in(s: Seq<char>) -> Seq<char>
    decreases s.len(),
{
    if s.len() == 0 {
        Seq::empty()
    } else if is_digit(s.last()) {
        digits_in(s.drop_last()).push(s.last())
    } else {
        digits_in(s.drop_last())
    }
}

/// Only digits and separators.
pub open spec fn number_chars(s: Seq<char>) -> bool {
    forall|i: int| 0 <= i < s.len() ==> is_digit(#[trigger] s[i]) || is_separator(s[i])
}

/// The canonical form of a written number, or `None` where it is not a
/// North American number: an optional leading `+`, then digits and
/// separators only; ten digits get the country code `1`, eleven must
/// start with it; with a `+` the country code must be written.
pub open spec fn canonical_spec(s: Seq<char>) -> Option<Seq<char>> {
    let plus = s.len() > 0 && s[0] == '+';
    let body = if plus { s.drop_first() } else { s };
    let d = digits_in(body);
    if !number_chars(body) {
        None
    } else if d.len() == 11 && d[0] == '1' {
        Some(seq!['+'] + d)
    } else if d.len() == 10 && !plus {
        Some(seq!['+', '1'] + d)
    } else {
        None
    }
}

/// A canonical number: `+1` and ten digits.
pub open spec fn is_canonical(s: Seq<char>) -> bool {
    s.len() == 12 && s[0] == '+' && s[1] == '1' && forall|i: int|
        2 <= i < 12 ==> is_digit(#[trigger] s[i])
}

/// The area code of a canonical number: its three digits after `+1`.
pub open spec fn area_code_spec(s: Seq<char>) -> Seq<char> {
    s.subrange(2, 5)
}

proof fn lemma_digits_in_all_digits(s: Seq<char>)
    ensures
        forall|i: int| 0 <= i < digits_in(s).len() ==> is_digit(#[trigger] digits_in(s)[i]),
    decreases s.len(),
{
    if s.len() > 0 {
        lemma_digits_in_all_digits(s.drop_last());
        let d = digits_in(s.drop_last());
        assert forall|i: int| 0 <= i < digits_in(s).len() implies is_digit(#[trigger] digits_in(s)[i]) by {
            if i < d.len() {
                assert(digits_in(s)[i] == d[i]);
            }
        }
    }
}

proof fn lemma_canonical_is_canonical(s: Seq<char>)
    ensures
        canonical_spec(s) matches Some(c) ==> is_canonical(c),
{
    let plus = s.len() > 0 && s[0] == '+';
    let body = if plus { s.drop_first() } else { s };
    lemma_digits_in_all_digits(body);
    let d = digits_in(body);
    if canonical_spec(s) is Some {
        let c = canonical_spec(s)->0;
        assert forall|i: int| 2 <= i < 12 implies is_digit(#[trigger] c[i]) by {
            if d.len() == 11 {
                assert(c[i] == d[i - 1]);
            } else {
                assert(c[i] == d[i - 2]);
            }
        }
    }
}

/// Turns a written phone number into its canonical form.
pub fn canonicalize(s: &str) -> (r: Option<String>)
    ensures
        r matches Some(c) ==> canonical_spec(s@) == Some(c@) && is_canonical(c@),
        r is None ==> canonical_spec(s@) is None,
{
    proof {
        lemma_canonical_is_canonical(s@);
    }
    let n = s.unicode_len();
    let plus = n > 0 && s.get_char(0) == '+';
    let start: usize = if plus { 1 } else { 0 };
    let ghost body = if plus { s@.drop_first() } else { s@ };
    assert(body =~= s@.subrange(start as int, n as int));
    let mut d = String::new();
    let mut count: usize = 0;
    let mut i: usize = start;
    while i < n
        invariant
            n == s@.len(),
            start <= i <= n,
            body == s@.subrange(start as int, n as int),
            body == (if s@.len() > 0 && s@[0] == '+' { s@.drop_first() } else { s@ }),
            forall|j: int| 0 <= j < i - start ==> is_digit(#[trigger] body[j]) || is_separator(body[j]),
            d@ == digits_in(body.take(i - start)),
            count == d@.len(),
            count <= i,
        decreases n - i,
    {
        let c = s.get_char(i);
        assert(body[i - start] == c);
        assert(body.take(i + 1 - start).drop_last() =~= body.take(i - start));
        if '0' <= c && c <= '9' {
            push_char(&mut d, c);
            count = count + 1;
        } else if !(c == ' ' || c == '-' || c == '(' || c == ')' || c == '.') {
            assert(!number_chars(body));
            return None;
        }
        i = i + 1;
    }
    assert(body.take(n - start) =~= body);
    if count == 11 && d.as_str().get_char(0) == '1' {
        let mut r = String::new();
        push_char(&mut r, '+');
        r.append(d.as_str());
        assert(r@ =~= seq!['+'] + d@);
        Some(r)
    } else if count == 10 && !plus {
        let mut r = String::new();
        push_char(&mut r, '+');
        push_char(&mut r, '1');
        r.append(d.as_str());
        assert(r@ =~= seq!['+', '1'] + d@);
        Some(r)
    } else {
        None
    }
}

/// The area code of a canonical number.
pub fn area_code(s: &str) -> (r: String)
    requires
        is_canonical(s@),
    ensures
        r@ == area_code_spec(s@),
{
    let mut r = String::new();
    push_char(&mut r, s.get_char(2));
    push_char(&mut r, s.get_char(3));
    push_char(&mut r, s.get_char(4));
    assert(r@ =~= area_code_spec(s@));
    r
}

} // verus!
