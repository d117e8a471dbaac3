//! Floating-point values, held as the token that the text format writes.
//!
//! A float is one of the keywords `nan`, `inf`, `-inf`, or a decimal literal
//! `['-'] digits '.' digits`. The token is kept as it is written, so that
//! writing a value and scanning it again gives the same value; turning a
//! token into a machine float is left to the caller.
use vstd::prelude::*;
use crate::number::unsigned_part;
use crate::text::{chars_of, string_from_chars};

verus! {

/// `c` is one of `0` to `9`.
pub open spec fn is_decimal_digit(c: char) -> bool {
    '0' <= c <= '9'
}

/// `s` is not empty and holds decimal digits only.
pub open spec fn is_decimal_digits(s: Seq<char>) -> bool {
    s.len() > 0 && forall|i: int| 0 <= i < s.len() ==> is_decimal_digit(#[trigger] s[i])
}

/// `s` is a decimal literal: an optional `-`, digits, a `.`, digits.
pub open spec fn is_decimal_literal(s: Seq<char>) -> bool {
    let body = unsigned_part(s);
    exists|p: int|
        0 <= p < body.len() && #[trigger] body[p] == '.' && is_decimal_digits(body.subrange(0, p))
            && is_decimal_digits(body.skip(p + 1))
}

/// The token of the float that is not a number.
pub open spec fn nan_text() -> Seq<char> {
    seq!['n', 'a', 'n']
}

/// The token of positive infinity.
pub open spec fn infinity_text() -> Seq<char> {
    seq!['i', 'n', 'f']
}

/// The token of negative infinity.
pub open spec fn neg_infinity_text() -> Seq<char> {
    seq!['-', 'i', 'n', 'f']
}

/// `s` is a token that stands for a float.
pub open spec fn is_float_token(s: Seq<char>) -> bool {
    s == nan_text() || s == infinity_text() || s == neg_infinity_text() || is_decimal_literal(s)
}

/// Whether `token` is a decimal literal.
pub fn check_decimal_literal(token: &Vec<char>) -> (r: bool)
    ensures
        r == is_decimal_literal(token@),
{
    let n: usize = token.len();
    let start: usize = if n > 0 && token[0] == '-' { 1 } else { 0 };
    let ghost body = unsigned_part(token@);
    let mut i: usize = start;
    while i < n && token[i] >= '0' && token[i] <= '9'
        invariant
            start <= i <= n,
            n == token.len(),
            body == token@.skip(start as int),
            forall|j: int| 0 <= j < i - start ==> is_decimal_digit(#[trigger] body[j]),
        decreases n - i,
    {
        i += 1;
    }
    // `i` is the first place behind the sign that holds no digit.
    if i == start || i >= n || token[i] != '.' {
        proof {
            if is_decimal_literal(token@) {
                let p = choose|p: int|
                    0 <= p < body.len() && #[trigger] body[p] == '.' && is_decimal_digits(
                        body.subrange(0, p),
                    ) && is_decimal_digits(body.skip(p + 1));
                let k = i - start;
                if p < k {
                    assert(is_decimal_digit(body[p]));
                } else if p > k {
                    assert(body.subrange(0, p)[k] == body[k]);
                } else {
                    assert(body.subrange(0, p).len() > 0);
                }
            }
        }
        return false;
    }
    let dot: usize = i;
    i += 1;
    let first: usize = i;
    while i < n && token[i] >= '0' && token[i] <= '9'
        invariant
            start < first <= i <= n,
            n == token.len(),
            body == token@.skip(start as int),
            forall|j: int| first - start <= j < i - start ==> is_decimal_digit(#[trigger] body[j]),
        decreases n - i,
    {
        i += 1;
    }
    let ghost k = dot - start;
    if i == first || i < n {
        proof {
            if is_decimal_literal(token@) {
                let p = choose|p: int|
                    0 <= p < body.len() && #[trigger] body[p] == '.' && is_decimal_digits(
                        body.subrange(0, p),
                    ) && is_decimal_digits(body.skip(p + 1));
                if p < k {
                    assert(is_decimal_digit(body[p]));
                } else if p > k {
                    assert(body.subrange(0, p)[k] == body[k]);
                } else if i < n {
                    assert(body.skip(p + 1)[i - first] == body[i - start]);
                } else {
                    assert(body.skip(p + 1).len() == 0);
                }
            }
        }
        return false;
    }
    proof {
        assert(body[k] == '.');
        assert(is_decimal_digits(body.skip(k + 1))) by {
            assert forall|j: int| 0 <= j < body.skip(k + 1).len() implies is_decimal_digit(
                #[trigger] body.skip(k + 1)[j],
            ) by {
                assert(body.skip(k + 1)[j] == body[j + k + 1]);
            }
        }
    }
    true
}

/// Whether `token` stands for a float.
pub fn check_float_token(token: &Vec<char>) -> (r: bool)
    ensures
        r == is_float_token(token@),
{
    let n: usize = token.len();
    if n == 3 && token[0] == 'n' && token[1] == 'a' && token[2] == 'n' {
        assert(token@ =~= nan_text());
        return true;
    }
    if n == 3 && token[0] == 'i' && token[1] == 'n' && token[2] == 'f' {
        assert(token@ =~= infinity_text());
        return true;
    }
    if n == 4 && token[0] == '-' && token[1] == 'i' && token[2] == 'n' && token[3] == 'f' {
        assert(token@ =~= neg_infinity_text());
        return true;
    }
    check_decimal_literal(token)
}

/// A float of the text format: the token that writes it.
///
/// Two floats are equal where their tokens are: `nan` equals `nan`, and
/// `1.0` differs from `1.00`.
#[derive(Debug)]
pub struct CfuaFloat {
    text: String,
}

impl View for CfuaFloat {
    type V = Seq<char>;

    closed spec fn view(&self) -> Seq<char> {
        self.text@
    }
}

impl PartialEq for CfuaFloat {
    fn eq(&self, other: &Self) -> (r: bool) {
        self.text == other.text
    }
}

impl vstd::std_specs::cmp::PartialEqSpecImpl for CfuaFloat {
    open spec fn obeys_eq_spec() -> bool {
        true
    }

    open spec fn eq_spec(&self, other: &Self) -> bool {
        self@ == other@
    }
}

impl Clone for CfuaFloat {
    fn clone(&self) -> (r: Self)
        ensures
            r@ == self@,
    {
        proof {
            use_type_invariant(self);
        }
        CfuaFloat { text: self.text.clone() }
    }
}

impl CfuaFloat {
    /// The text that a float holds is always a token of a float.
    #[verifier::type_invariant]
    spec fn well_formed(&self) -> bool {
        is_float_token(self.text@)
    }

    /// The float that is not a number.
    pub fn nan() -> (r: Self)
        ensures
            r@ == nan_text(),
    {
        let mut token: Vec<char> = Vec::new();
        token.push('n');
        token.push('a');
        token.push('n');
        assert(token@ =~= nan_text());
        CfuaFloat { text: string_from_chars(&token) }
    }

    /// Positive infinity.
    pub fn infinity() -> (r: Self)
        ensures
            r@ == infinity_text(),
    {
        let mut token: Vec<char> = Vec::new();
        token.push('i');
        token.push('n');
        token.push('f');
        assert(token@ =~= infinity_text());
        CfuaFloat { text: string_from_chars(&token) }
    }

    /// Negative infinity.
    pub fn neg_infinity() -> (r: Self)
        ensures
            r@ == neg_infinity_text(),
    {
        let mut token: Vec<char> = Vec::new();
        token.push('-');
        token.push('i');
        token.push('n');
        token.push('f');
        assert(token@ =~= neg_infinity_text());
        CfuaFloat { text: string_from_chars(&token) }
    }

    /// The float that `token` writes, if it writes one.
    pub fn from_chars(token: &Vec<char>) -> (r: Option<Self>)
        ensures
            match r {
                Some(f) => is_float_token(token@) && f@ == token@,
                None => !is_float_token(token@),
            },
    {
        if check_float_token(token) {
            Some(CfuaFloat { text: string_from_chars(token) })
        } else {
            None
        }
    }

    /// The float that `text` writes, if it writes one: `nan`, `inf`, `-inf`
    /// or a decimal literal such as `-0.125`.
    pub fn from_text(text: &str) -> (r: Option<Self>)
        ensures
            match r {
                Some(f) => is_float_token(text@) && f@ == text@,
                None => !is_float_token(text@),
            },
    {
        let token = chars_of(text);
        Self::from_chars(&token)
    }

    /// The token that writes this float.
    pub fn text(&self) -> (r: String)
        ensures
            r@ == self@,
            is_float_token(r@),
    {
        proof {
            use_type_invariant(self);
        }
        self.text.clone()
    }

    /// Whether this is the float that is not a number.
    pub fn is_nan(&self) -> (r: bool)
        ensures
            r == (self@ == nan_text()),
    {
        let token = chars_of(self.text.as_str());
        let r = token.len() == 3 && token[0] == 'n' && token[1] == 'a' && token[2] == 'n';
        assert(r ==> token@ =~= nan_text());
        r
    }
}

} // verus!
