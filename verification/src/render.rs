//! The text the command line shows: tables, dump and search headers,
//! confirmations and error messages.

use vstd::prelude::*;

use crate::decimal::{decimal_spec, format_usize};
use crate::text::{chars_of, string_of};

verus! {

/// `n` copies of `c`.
pub open spec fn repeat_spec(c: char, n: nat) -> Seq<char> {
    Seq::new(n, |i: int| c)
}

/// `s` padded with spaces on the right to at least `w` characters, as the
/// `{:<w}` format does.
pub open spec fn pad_spec(s: Seq<char>, w: nat) -> Seq<char> {
    if s.len() >= w {
        s
    } else {
        s + repeat_spec(' ', (w - s.len()) as nat)
    }
}

/// Appends the characters of `s` to `out`.
pub fn push_all(out: &mut Vec<char>, s: &[char])
    ensures
        final(out)@ == old(out)@ + s@,
{
    let mut i: usize = 0;
    while i < s.len()
        invariant
            i <= s@.len(),
            out@ == old(out)@ + s@.take(i as int),
        decreases s@.len() - i,
    {
        out.push(s[i]);
        assert(s@.take(i + 1) == s@.take(i as int).push(s@[i as int]));
        i = i + 1;
    }
    assert(s@.take(s@.len() as int) == s@);
}

/// Appends the characters of `s` to `out`.
pub fn push_str(out: &mut Vec<char>, s: &str)
    ensures
        final(out)@ == old(out)@ + s@,
{
    let cs = chars_of(s);
    push_all(out, &cs);
}

/// Appends `n` copies of `c` to `out`.
pub fn push_repeat(out: &mut Vec<char>, c: char, n: usize)
    ensures
        final(out)@ == old(out)@ + repeat_spec(c, n as nat),
{
    let mut i: usize = 0;
    while i < n
        invariant
            i <= n,
            out@ == old(out)@ + repeat_spec(c, i as nat),
        decreases n - i,
    {
        out.push(c);
        assert(repeat_spec(c, (i + 1) as nat) =~= repeat_spec(c, i as nat).push(c));
        i = i + 1;
    }
}

/// Appends `s` padded with spaces to `w` characters.
pub fn push_padded(out: &mut Vec<char>, s: &[char], w: usize)
    ensures
        final(out)@ == old(out)@ + pad_spec(s@, w as nat),
{
    push_all(out, s);
    if s.len() < w {
        push_repeat(out, ' ', w - s.len());
    }
}

/// Appends the decimal numeral of `n`.
pub fn push_usize(out: &mut Vec<char>, n: usize)
    ensures
        final(out)@ == old(out)@ + decimal_spec(n as nat),
{
    let d = format_usize(n);
    push_all(out, &d);
}

/// A line of `n` dashes.
pub fn rule(n: usize) -> (out: String)
    ensures
        out@ == repeat_spec('-', n as nat),
{
    let mut v: Vec<char> = Vec::new();
    push_repeat(&mut v, '-', n);
    assert(v@ =~= repeat_spec('-', n as nat));
    string_of(&v)
}

} // verus!
