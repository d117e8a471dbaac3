//! Tokens: the text of a value that is not a string.
//!
//! A token is a keyword (`true`, `false`, `nan`, `inf`, `-inf`), a decimal
//! literal, or an integer literal. The keywords come first: no number is
//! spelled like one of them.
use vstd::prelude::*;
use crate::cfua::{CfuaType, Value};
use crate::float::{
    is_decimal_digit, is_decimal_digits, is_decimal_literal, is_float_token, infinity_text,
    nan_text, neg_infinity_text, CfuaFloat,
};
use crate::number::{
    integer_literal, integer_text, lemma_integer_text_round_trip, lemma_natural_text, natural_text,
    parse_integer, render_integer, unsigned_part,
};

verus! {

/// The token of the boolean `true`.
pub open spec fn true_text() -> Seq<char> {
    seq!['t', 'r', 'u', 'e']
}

/// The token of the boolean `false`.
pub open spec fn false_text() -> Seq<char> {
    seq!['f', 'a', 'l', 's', 'e']
}

/// The value that `token` writes, if it writes one.
pub open spec fn scalar_of_token(token: Seq<char>) -> Option<Value> {
    if token == true_text() {
        Some(Value::Bool(true))
    } else if token == false_text() {
        Some(Value::Bool(false))
    } else if is_float_token(token) {
        Some(Value::Float(token))
    } else {
        match integer_literal(token) {
            Some(i) => Some(Value::Integer(i)),
            None => None,
        }
    }
}

/// `value` is an integer, a float or a boolean: what a token can write.
pub open spec fn is_plain(value: Value) -> bool {
    value is Integer || value is Float || value is Bool
}

/// The token that writes `value`, for a `value` that is an integer, a
/// float or a boolean; no other value has one.
pub open spec fn token_of_scalar(value: Value) -> Seq<char> {
    match value {
        Value::Integer(i) => integer_text(i as int),
        Value::Float(token) => token,
        Value::Bool(b) => if b {
            true_text()
        } else {
            false_text()
        },
        _ => Seq::empty(),
    }
}

/// Reads a token: the value that it writes, or `None` where it writes none.
pub fn resolve_token(token: &Vec<char>) -> (r: Option<CfuaType>)
    ensures
        match r {
            Some(v) => scalar_of_token(token@) == Some(v@),
            None => scalar_of_token(token@) is None,
        },
{
    let n: usize = token.len();
    if n == 4 && token[0] == 't' && token[1] == 'r' && token[2] == 'u' && token[3] == 'e' {
        assert(token@ =~= true_text());
        return Some(CfuaType::Bool(true));
    }
    if n == 5 && token[0] == 'f' && token[1] == 'a' && token[2] == 'l' && token[3] == 's'
        && token[4] == 'e' {
        assert(token@ =~= false_text());
        return Some(CfuaType::Bool(false));
    }
    match CfuaFloat::from_chars(token) {
        Some(f) => Some(CfuaType::Float(f)),
        None => match parse_integer(token) {
            Some(i) => Some(CfuaType::Integer(i)),
            None => None,
        },
    }
}

/// Writes the token of `value`: that of an integer, a float or a boolean,
/// and nothing for any other value.
pub fn render_scalar(value: &CfuaType) -> (r: Vec<char>)
    ensures
        r@ == token_of_scalar(value@),
{
    match value {
        CfuaType::Integer(i) => render_integer(*i),
        CfuaType::Float(f) => {
            let text = f.text();
            crate::text::chars_of(text.as_str())
        },
        CfuaType::Bool(b) => {
            let mut out: Vec<char> = Vec::new();
            if *b {
                out.push('t');
                out.push('r');
                out.push('u');
                out.push('e');
            } else {
                out.push('f');
                out.push('a');
                out.push('l');
                out.push('s');
                out.push('e');
            }
            out
        },
        _ => Vec::new(),
    }
}

/// `c` may stand in a token: a digit, a lower-case letter, `-` or `.`.
pub open spec fn is_token_char(c: char) -> bool {
    is_decimal_digit(c) || ('a' <= c <= 'z') || c == '-' || c == '.'
}

/// `value` is an integer, a boolean, or a float whose token writes a float.
pub open spec fn is_valid_plain(value: Value) -> bool {
    match value {
        Value::Integer(_) => true,
        Value::Bool(_) => true,
        Value::Float(token) => is_float_token(token),
        _ => false,
    }
}

/// A decimal literal holds digits, at most one `-` in front, and a `.`.
pub proof fn lemma_decimal_literal_chars(s: Seq<char>)
    requires
        is_decimal_literal(s),
    ensures
        s.len() > 0,
        is_decimal_digit(s[0]) || s[0] == '-',
        forall|i: int| 0 <= i < s.len() ==> is_token_char(#[trigger] s[i]),
        exists|i: int| 0 <= i < s.len() && s[i] == '.',
{
    let body = unsigned_part(s);
    let p = choose|p: int|
        0 <= p < body.len() && #[trigger] body[p] == '.' && is_decimal_digits(body.subrange(0, p))
            && is_decimal_digits(body.skip(p + 1));
    let shift: int = if s.len() > 0 && s[0] == '-' {
        1
    } else {
        0
    };
    assert(body.subrange(0, p)[0] == body[0]);
    assert forall|i: int| 0 <= i < s.len() implies is_token_char(#[trigger] s[i]) by {
        let j = i - shift;
        if 0 <= j < p {
            assert(body.subrange(0, p)[j] == body[j]);
        } else if j > p {
            assert(body.skip(p + 1)[j - p - 1] == body[j]);
        }
    }
}

/// Reading the token of a value gives the value back, and the token is
/// made of token characters only.
pub proof fn lemma_token_round_trip(value: Value)
    requires
        is_valid_plain(value),
    ensures
        scalar_of_token(token_of_scalar(value)) == Some(value),
        token_of_scalar(value).len() > 0,
        forall|i: int|
            0 <= i < token_of_scalar(value).len() ==> is_token_char(
                #[trigger] token_of_scalar(value)[i],
            ),
{
    let t = token_of_scalar(value);
    match value {
        Value::Integer(i) => {
            lemma_integer_text_round_trip(i);
            if i < 0 {
                lemma_natural_text(-(i as int));
                let digits = natural_text(-(i as int));
                assert forall|k: int| 0 <= k < t.len() implies is_token_char(#[trigger] t[k]) by {
                    if k > 0 {
                        assert(t[k] == digits[k - 1]);
                    }
                }
            } else {
                lemma_natural_text(i as int);
            }
            assert(t != neg_infinity_text()) by {
                if t.len() > 1 {
                    assert(t[1] != 'i');
                }
            }
            if is_decimal_literal(t) {
                lemma_decimal_literal_chars(t);
                let k = choose|k: int| 0 <= k < t.len() && t[k] == '.';
                if i < 0 {
                    if k > 0 {
                        assert(t[k] == natural_text(-(i as int))[k - 1]);
                    }
                }
            }
        },
        Value::Float(token) => {
            if is_decimal_literal(token) {
                lemma_decimal_literal_chars(token);
            }
        },
        Value::Bool(b) => {
            assert(!is_float_token(t)) by {
                if is_decimal_literal(t) {
                    lemma_decimal_literal_chars(t);
                }
            }
        },
        _ => {},
    }
}

} // verus!
