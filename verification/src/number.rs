//! Integer literals: `['-'] ['b' | 'h' | 'o'] digits`.
use vstd::prelude::*;

verus! {

/// The value of `c` as a digit in base 36, if it is a digit or a letter.
pub open spec fn digit_of(c: char) -> Option<int> {
    if '0' <= c <= '9' {
        Some(c as int - '0' as int)
    } else if 'a' <= c <= 'z' {
        Some(c as int - 'a' as int + 10)
    } else if 'A' <= c <= 'Z' {
        Some(c as int - 'A' as int + 10)
    } else {
        None
    }
}

/// `c` is a digit of the given radix.
pub open spec fn is_digit_in(c: char, radix: int) -> bool {
    digit_of(c) matches Some(d) && d < radix
}

/// Every character of `s` is a digit of the given radix.
pub open spec fn all_digits(s: Seq<char>, radix: int) -> bool {
    forall|i: int| 0 <= i < s.len() ==> is_digit_in(#[trigger] s[i], radix)
}

/// The number that the digits `s` write in the given radix, most
/// significant digit first.
pub open spec fn digits_value(s: Seq<char>, radix: int) -> int
    decreases s.len(),
{
    if s.len() == 0 {
        0
    } else {
        digits_value(s.drop_last(), radix) * radix + digit_of(s.last()).unwrap()
    }
}

/// The radix that a marker character selects.
pub open spec fn radix_of_marker(c: char) -> Option<int> {
    if c == 'b' {
        Some(2)
    } else if c == 'h' {
        Some(16)
    } else if c == 'o' {
        Some(8)
    } else {
        None
    }
}

/// `s` without its leading `-`, if it has one.
pub open spec fn unsigned_part(s: Seq<char>) -> Seq<char> {
    if s.len() > 0 && s[0] == '-' {
        s.skip(1)
    } else {
        s
    }
}

/// The radix of the literal `s`: that of the marker behind the sign, or 10.
pub open spec fn literal_radix(s: Seq<char>) -> int {
    let body = unsigned_part(s);
    if body.len() > 0 && radix_of_marker(body[0]) is Some {
        radix_of_marker(body[0]).unwrap()
    } else {
        10
    }
}

/// The digits of the literal `s`: what follows the sign and the marker.
pub open spec fn literal_digits(s: Seq<char>) -> Seq<char> {
    let body = unsigned_part(s);
    if body.len() > 0 && radix_of_marker(body[0]) is Some {
        body.skip(1)
    } else {
        body
    }
}

/// The signed number that the literal `s` writes, whether or not it fits.
pub open spec fn literal_value(s: Seq<char>) -> int {
    let magnitude = digits_value(literal_digits(s), literal_radix(s));
    if s.len() > 0 && s[0] == '-' {
        -magnitude
    } else {
        magnitude
    }
}

/// The integer that `s` denotes: an optional `-`, an optional radix marker
/// (`b` binary, `h` hexadecimal, `o` octal), then at least one digit of that
/// radix; `None` where `s` is not of that form or the number does not fit
/// in 64 bits.
pub open spec fn integer_literal(s: Seq<char>) -> Option<i64> {
    let digits = literal_digits(s);
    let value = literal_value(s);
    if digits.len() > 0 && all_digits(digits, literal_radix(s)) && i64::MIN <= value <= i64::MAX {
        Some(value as i64)
    } else {
        None
    }
}

/// The digits of a literal never write a negative number.
pub proof fn lemma_digits_value_nonnegative(s: Seq<char>, radix: int)
    requires
        1 <= radix,
        all_digits(s, radix),
    ensures
        0 <= digits_value(s, radix),
    decreases s.len(),
{
    if s.len() > 0 {
        lemma_digits_value_nonnegative(s.drop_last(), radix);
        assert(0 <= digits_value(s.drop_last(), radix) * radix) by (nonlinear_arith)
            requires
                0 <= digits_value(s.drop_last(), radix),
                1 <= radix,
        ;
    }
}

/// A prefix of a run of digits writes no more than the whole run.
pub proof fn lemma_digits_value_prefix(s: Seq<char>, radix: int, n: int)
    requires
        1 <= radix,
        all_digits(s, radix),
        0 <= n <= s.len(),
    ensures
        digits_value(s.subrange(0, n), radix) <= digits_value(s, radix),
    decreases s.len(),
{
    if n == s.len() {
        assert(s.subrange(0, n) =~= s);
    } else {
        let front = s.drop_last();
        lemma_digits_value_prefix(front, radix, n);
        lemma_digits_value_nonnegative(front, radix);
        assert(front.subrange(0, n) =~= s.subrange(0, n));
        assert(digits_value(front, radix) <= digits_value(front, radix) * radix)
            by (nonlinear_arith)
            requires
                0 <= digits_value(front, radix),
                1 <= radix,
        ;
    }
}

/// The value of `c` as a digit in base 36.
fn digit_value(c: char) -> (r: Option<u8>)
    ensures
        match r {
            Some(d) => digit_of(c) == Some(d as int),
            None => digit_of(c) is None,
        },
{
    if c >= '0' && c <= '9' {
        Some((c as u32 - '0' as u32) as u8)
    } else if c >= 'a' && c <= 'z' {
        Some((c as u32 - 'a' as u32 + 10) as u8)
    } else if c >= 'A' && c <= 'Z' {
        Some((c as u32 - 'A' as u32 + 10) as u8)
    } else {
        None
    }
}

/// Reads an integer literal: an optional `-`, an optional radix marker
/// (`b`, `h` or `o`) and the digits. `None` where `token` is no such literal
/// or the number does not fit in an `i64`.
pub fn parse_integer(token: &Vec<char>) -> (r: Option<i64>)
    ensures
        r == integer_literal(token@),
{
    let n: usize = token.len();
    let negative: bool = n > 0 && token[0] == '-';
    let mut start: usize = if negative { 1 } else { 0 };
    let mut radix: u8 = 10;
    if start < n {
        let marker: char = token[start];
        if marker == 'b' {
            radix = 2;
            start += 1;
        } else if marker == 'h' {
            radix = 16;
            start += 1;
        } else if marker == 'o' {
            radix = 8;
            start += 1;
        }
    }
    let ghost digits = token@.skip(start as int);
    assert(literal_digits(token@) =~= digits);
    if start >= n {
        return None;
    }
    let limit: u128 = if negative { 0x8000_0000_0000_0000 } else { 0x7fff_ffff_ffff_ffff };
    let mut acc: u128 = 0;
    let mut i: usize = start;
    while i < n
        invariant
            start <= i <= n,
            n == token.len(),
            digits == token@.skip(start as int),
            2 <= radix <= 16,
            limit <= 0x8000_0000_0000_0000,
            acc <= limit,
            all_digits(digits.subrange(0, i - start), radix as int),
            acc == digits_value(digits.subrange(0, i - start), radix as int),
            !all_digits(digits, radix as int) ==> integer_literal(token@) is None,
            all_digits(digits, radix as int) && digits_value(digits, radix as int) > limit
                ==> integer_literal(token@) is None,
        decreases n - i,
    {
        let ghost seen = digits.subrange(0, i - start);
        let ghost more = digits.subrange(0, i - start + 1);
        assert(more.drop_last() =~= seen);
        assert(more.last() == token@[i as int]);
        match digit_value(token[i]) {
            None => {
                return None;
            },
            Some(d) => {
                if d >= radix {
                    return None;
                }
                assert(acc * radix <= 0x8000_0000_0000_0000 * 16) by (nonlinear_arith)
                    requires
                        acc <= 0x8000_0000_0000_0000,
                        radix <= 16,
                ;
                let next: u128 = acc * (radix as u128) + (d as u128);
                assert(all_digits(more, radix as int)) by {
                    assert forall|j: int| 0 <= j < more.len() implies is_digit_in(
                        #[trigger] more[j],
                        radix as int,
                    ) by {
                        if j < seen.len() {
                            assert(more[j] == seen[j]);
                        }
                    }
                }
                if next > limit {
                    proof {
                        if all_digits(digits, radix as int) {
                            lemma_digits_value_prefix(digits, radix as int, i - start + 1);
                        }
                    }
                    return None;
                }
                acc = next;
            },
        }
        i += 1;
    }
    assert(digits.subrange(0, n - start) =~= digits);
    if negative {
        if acc == 0x8000_0000_0000_0000 {
            Some(i64::MIN)
        } else {
            Some(-(acc as i64))
        }
    } else {
        Some(acc as i64)
    }
}

/// The character that writes the decimal digit `d`.
pub open spec fn digit_char(d: int) -> char {
    (d + '0' as int) as char
}

/// The decimal digits of `n`, most significant first, without leading zeros.
pub open spec fn natural_text(n: int) -> Seq<char>
    decreases n,
{
    if n < 10 {
        seq![digit_char(n)]
    } else {
        natural_text(n / 10).push(digit_char(n % 10))
    }
}

/// The decimal text of `i`: a `-` for a negative number, then its digits.
pub open spec fn integer_text(i: int) -> Seq<char> {
    if i < 0 {
        seq!['-'] + natural_text(-i)
    } else {
        natural_text(i)
    }
}

/// Appends the decimal digits of `n` to `out`.
fn push_natural(out: &mut Vec<char>, n: u64)
    ensures
        final(out)@ == old(out)@ + natural_text(n as int),
    decreases n,
{
    if n >= 10 {
        push_natural(out, n / 10);
    }
    let d: u8 = (n % 10) as u8;
    let c: char = (d + 48) as char;
    out.push(c);
}

/// Writes `value` in decimal.
pub fn render_integer(value: i64) -> (r: Vec<char>)
    ensures
        r@ == integer_text(value as int),
{
    let mut out: Vec<char> = Vec::new();
    if value < 0 {
        out.push('-');
        let magnitude: u64 = (-(value as i128)) as u64;
        push_natural(&mut out, magnitude);
    } else {
        push_natural(&mut out, value as u64);
    }
    out
}

/// What holds of the decimal digits of a natural number: there is at least
/// one, each is a decimal digit, and together they write the number.
pub proof fn lemma_natural_text(n: int)
    requires
        0 <= n,
    ensures
        natural_text(n).len() > 0,
        forall|i: int| 0 <= i < natural_text(n).len() ==> '0' <= #[trigger] natural_text(n)[i] <= '9',
        all_digits(natural_text(n), 10),
        digits_value(natural_text(n), 10) == n,
    decreases n,
{
    let t = natural_text(n);
    if n < 10 {
        assert(digits_value(t.drop_last(), 10) == 0);
    } else {
        lemma_natural_text(n / 10);
        let front = natural_text(n / 10);
        assert(t.drop_last() =~= front);
        assert forall|i: int| 0 <= i < t.len() implies '0' <= #[trigger] t[i] <= '9' by {
            if i < front.len() {
                assert(t[i] == front[i]);
            }
        }
    }
    assert forall|i: int| 0 <= i < t.len() implies is_digit_in(#[trigger] t[i], 10) by {
        assert('0' <= t[i] <= '9');
    }
}

/// Reading the decimal text of an integer gives the integer back.
pub proof fn lemma_integer_text_round_trip(i: i64)
    ensures
        integer_literal(integer_text(i as int)) == Some(i),
{
    let t = integer_text(i as int);
    if i < 0 {
        lemma_natural_text(-(i as int));
        let digits = natural_text(-(i as int));
        assert(t.skip(1) =~= digits);
    } else {
        lemma_natural_text(i as int);
    }
}

} // verus!
