//! Conversions between strings and character vectors.
//!
//! The scanner and the writer work on `Vec<char>`, whose view is the
//! `Seq<char>` that every contract in this crate speaks of.
use vstd::prelude::*;

verus! {

/// Appends one character to the end of a string.
///
/// Trusted: the body is a call of `String::push`, which std documents as
/// appending the given `char` to the end of the string. The contract says
/// exactly that and is not proved.
#[verifier::external_body]
pub(crate) fn push_char(s: &mut String, c: char)
    ensures
        final(s)@ == old(s)@.push(c),
{
    s.push(c)
}

/// The characters of `text`, in order.
pub fn chars_of(text: &str) -> (v: Vec<char>)
    ensures
        v@ == text@,
{
    let mut v: Vec<char> = Vec::new();
    for c in it: text.chars()
        invariant
            it.seq() == text@,
            0 <= it.index() <= text@.len(),
            v@ == text@.subrange(0, it.index() as int),
    {
        v.push(c);
    }
    v
}

/// Appends the characters of `chars` to `s`.
pub fn push_chars(s: &mut String, chars: &Vec<char>)
    ensures
        final(s)@ == old(s)@ + chars@,
{
    let mut i: usize = 0;
    while i < chars.len()
        invariant
            i <= chars.len(),
            s@ == old(s)@ + chars@.subrange(0, i as int),
        decreases chars.len() - i,
    {
        push_char(s, chars[i]);
        i += 1;
    }
}

/// The string made of the characters of `chars`.
pub fn string_from_chars(chars: &Vec<char>) -> (s: String)
    ensures
        s@ == chars@,
{
    let mut s = String::new();
    push_chars(&mut s, chars);
    s
}

/// The string made of the characters of `chars` from place `from` on.
pub(crate) fn string_from_tail(chars: &Vec<char>, from: usize) -> (s: String)
    requires
        from <= chars.len(),
    ensures
        s@ == chars@.skip(from as int),
{
    let mut s = String::new();
    let mut i: usize = from;
    while i < chars.len()
        invariant
            from <= i <= chars.len(),
            s@ == chars@.subrange(from as int, i as int),
        decreases chars.len() - i,
    {
        push_char(&mut s, chars[i]);
        i += 1;
    }
    s
}

} // verus!
