//! Decimal numerals: reading a `usize` the way `str::parse::<usize>` does,
//! and writing one the way `{}` formatting does.

use vstd::prelude::*;

verus! {

/// An ASCII decimal digit.
pub open spec fn is_digit(c: char) -> bool {
    '0' <= c && c <= '9'
}

/// The value of an ASCII decimal digit.
pub open spec fn digit_value(c: char) -> nat {
    (c as int - '0' as int) as nat
}

/// Every character of `s` is an ASCII decimal digit.
pub open spec fn all_digits(s: Seq<char>) -> bool {
    forall|i: int| 0 <= i < s.len() ==> is_digit(#[trigger] s[i])
}

/// The number that the digit string `s` denotes (most significant first).
pub open spec fn digits_value(s: Seq<char>) -> nat
    decreases s.len(),
{
    if s.len() == 0 {
        0
    } else {
        digits_value(s.drop_last()) * 10 + digit_value(s.last())
    }
}

/// The digits that follow an optional leading `+`.
pub open spec fn unsigned_digits(s: Seq<char>) -> Seq<char> {
    if s.len() > 0 && s[0] == '+' {
        s.drop_first()
    } else {
        s
    }
}

/// What `usize::from_str` gives for `s`: an optional `+`, then one or more
/// ASCII digits whose value fits in a `usize`; anything else is refused.
pub open spec fn parse_usize_spec(s: Seq<char>) -> Option<usize> {
    let d = unsigned_digits(s);
    if d.len() > 0 && all_digits(d) && digits_value(d) <= usize::MAX {
        Some(digits_value(d) as usize)
    } else {
        None
    }
}

/// The character of a digit value below ten.
pub open spec fn digit_char(d: nat) -> char {
    (('0' as nat) + d) as char
}

/// The shortest decimal numeral of `n`, as `{}` writes it.
pub open spec fn decimal_spec(n: nat) -> Seq<char>
    decreases n,
{
    if n < 10 {
        seq![digit_char(n)]
    } else {
        decimal_spec(n / 10).push(digit_char(n % 10))
    }
}

proof fn lemma_prefix_value_le(s: Seq<char>, i: int)
    requires
        0 <= i <= s.len(),
    ensures
        digits_value(s.take(i)) <= digits_value(s),
    decreases s.len() - i,
{
    if i < s.len() {
        lemma_prefix_value_le(s, i + 1);
        assert(s.take(i + 1).drop_last() == s.take(i));
    } else {
        assert(s.take(i) == s);
    }
}

/// Why a numeral does not read as a `usize` (the kinds of
/// `std::num::IntErrorKind` that unsigned numerals meet).
#[derive(Debug, Clone, Copy, PartialEq, Eq, Structural)]
pub enum NumberError {
    /// Nothing to read.
    Empty,
    /// A character that is no digit.
    InvalidDigit,
    /// A value past `usize::MAX`.
    PosOverflow,
}

/// The first failure met reading the digits `d` from position `i` on, `v`
/// being the value of the digits before it: a character that is no digit,
/// or a value past `usize::MAX`, whichever comes first.
pub open spec fn digits_failure(d: Seq<char>, i: int, v: nat) -> Option<NumberError>
    decreases d.len() - i,
{
    if i < 0 || i >= d.len() {
        None
    } else if !is_digit(d[i]) {
        Some(NumberError::InvalidDigit)
    } else if v * 10 + digit_value(d[i]) > usize::MAX {
        Some(NumberError::PosOverflow)
    } else {
        digits_failure(d, i + 1, v * 10 + digit_value(d[i]))
    }
}

/// Why `usize::from_str` refuses `s`, where it does: an empty string; a
/// lone sign; else the first failure reading the digits after an optional
/// `+`.
pub open spec fn number_error_spec(s: Seq<char>) -> NumberError {
    if s.len() == 0 {
        NumberError::Empty
    } else if unsigned_digits(s).len() == 0 {
        NumberError::InvalidDigit
    } else {
        match digits_failure(unsigned_digits(s), 0, 0) {
            Some(k) => k,
            None => NumberError::PosOverflow,
        }
    }
}

/// Reads `s` as a `usize`, with the rules of `str::parse::<usize>`, and
/// says why where it does not read.
pub fn parse_usize(s: &[char]) -> (res: Result<usize, NumberError>)
    ensures
        match res {
            Ok(v) => parse_usize_spec(s@) == Some(v),
            Err(k) => parse_usize_spec(s@) is None && k == number_error_spec(s@),
        },
{
    let start: usize = if s.len() > 0 && s[0] == '+' { 1 } else { 0 };
    let ghost d = unsigned_digits(s@);
    assert(d == s@.skip(start as int));
    if s.len() == 0 {
        return Err(NumberError::Empty);
    }
    if start >= s.len() {
        return Err(NumberError::InvalidDigit);
    }
    let mut value: usize = 0;
    let mut i: usize = start;
    while i < s.len()
        invariant
            start <= i <= s@.len(),
            d == unsigned_digits(s@),
            d == s@.skip(start as int),
            all_digits(d.take(i - start)),
            value == digits_value(d.take(i - start)),
            d.len() > 0,
            digits_failure(d, 0, 0) == digits_failure(d, i - start, value as nat),
        decreases s@.len() - i,
    {
        let c = s[i];
        assert(d[i - start] == c);
        assert(d.take(i - start + 1).drop_last() == d.take(i - start));
        if !('0' <= c && c <= '9') {
            assert(!is_digit(d[i - start]));
            return Err(NumberError::InvalidDigit);
        }
        let digit = (c as u32 - '0' as u32) as usize;
        let grown = match value.checked_mul(10) {
            Some(v) => v.checked_add(digit),
            None => None,
        };
        assert(digits_value(d.take(i - start + 1)) == value * 10 + digit);
        match grown {
            Some(v) => {
                value = v;
            },
            None => {
                proof {
                    lemma_prefix_value_le(d, i - start + 1);
                }
                assert(digits_value(d) > usize::MAX);
                return Err(NumberError::PosOverflow);
            },
        }
        i = i + 1;
    }
    assert(d.take(i - start) == d);
    Ok(value)
}

proof fn lemma_digit_char(d: nat)
    requires
        d < 10,
    ensures
        is_digit(digit_char(d)),
        digit_value(digit_char(d)) == d,
        digit_char(d) != '+',
{
}

/// The numeral of `n` is a non-empty digit string that denotes `n`.
pub proof fn lemma_decimal_digits(n: nat)
    ensures
        decimal_spec(n).len() > 0,
        all_digits(decimal_spec(n)),
        decimal_spec(n)[0] != '+',
        digits_value(decimal_spec(n)) == n,
    decreases n,
{
    lemma_digit_char(n % 10);
    if n >= 10 {
        lemma_decimal_digits(n / 10);
        let s = decimal_spec(n);
        assert(s.drop_last() == decimal_spec(n / 10));
        assert(s.last() == digit_char(n % 10));
        assert(digits_value(s) == digits_value(s.drop_last()) * 10 + digit_value(s.last()));
        assert(n == (n / 10) * 10 + n % 10);
        assert forall|i: int| 0 <= i < s.len() implies is_digit(#[trigger] s[i]) by {
            if i < s.len() - 1 {
                assert(s[i] == decimal_spec(n / 10)[i]);
            }
        }
    } else {
        let s = decimal_spec(n);
        assert(s.drop_last() =~= Seq::<char>::empty());
        assert(digits_value(s) == digits_value(s.drop_last()) * 10 + digit_value(s.last()));
    }
}

/// Writes `n` in decimal, as `{}` does.
pub fn format_usize(n: usize) -> (out: Vec<char>)
    ensures
        out@ == decimal_spec(n as nat),
    decreases n,
{
    if n < 10 {
        let mut out = Vec::new();
        out.push(char_of_digit(n));
        out
    } else {
        let mut out = format_usize(n / 10);
        out.push(char_of_digit(n % 10));
        out
    }
}

fn char_of_digit(d: usize) -> (c: char)
    requires
        d < 10,
    ensures
        c == digit_char(d as nat),
{
    if d == 0 { '0' }
    else if d == 1 { '1' }
    else if d == 2 { '2' }
    else if d == 3 { '3' }
    else if d == 4 { '4' }
    else if d == 5 { '5' }
    else if d == 6 { '6' }
    else if d == 7 { '7' }
    else if d == 8 { '8' }
    else { '9' }
}

/// Reading back what `format_usize` writes gives the number again.
pub proof fn law_parse_format_roundtrip(n: usize)
    ensures
        parse_usize_spec(decimal_spec(n as nat)) == Some(n),
{
    lemma_decimal_digits(n as nat);
}

} // verus!
