//! Splitting file contents into lines and picking the lines of a range.

use vstd::prelude::*;

use crate::text::{chars_of, slice_chars, string_of, views};

verus! {

/// The position of the first line feed in `s`, or its length if it has none.
pub open spec fn first_newline(s: Seq<char>) -> nat
    decreases s.len(),
{
    if s.len() == 0 {
        0
    } else if s[0] == '\n' {
        0
    } else {
        1 + first_newline(s.drop_first())
    }
}

/// A line without the carriage return that ends it, if any.
pub open spec fn strip_cr(l: Seq<char>) -> Seq<char> {
    if l.len() > 0 && l.last() == '\r' {
        l.drop_last()
    } else {
        l
    }
}

/// The lines of `s` as `str::lines` gives them: split after each line feed,
/// without the line feed and a carriage return right before it; a last line
/// without line feed is kept as it is, and no empty line follows a final
/// line feed.
pub open spec fn lines_spec(s: Seq<char>) -> Seq<Seq<char>>
    decreases s.len(),
{
    if s.len() == 0 {
        seq![]
    } else {
        let k = first_newline(s);
        if k < s.len() {
            seq![strip_cr(s.take(k as int))] + lines_spec(s.skip(k + 1int))
        } else {
            seq![s]
        }
    }
}


/// The first line feed of `t` is at `m` when none comes before and one
/// stands there (or `t` ends there).
pub proof fn lemma_first_newline(t: Seq<char>, m: int)
    requires
        0 <= m <= t.len(),
        forall|k: int| 0 <= k < m ==> t[k] != '\n',
        m == t.len() || t[m] == '\n',
    ensures
        first_newline(t) == m,
    decreases m,
{
    if m > 0 {
        lemma_first_newline(t.drop_first(), m - 1);
    }
}

/// The lines of `content`, as `str::lines` gives them.
pub fn split_lines(content: &str) -> (out: Vec<String>)
    ensures
        views(out@) == lines_spec(content@),
{
    let cs = chars_of(content);
    let n = cs.len();
    let mut out: Vec<String> = Vec::new();
    let mut i: usize = 0;
    assert(cs@.skip(0) == cs@);
    while i < n
        invariant
            n == cs@.len(),
            cs@ == content@,
            i <= n,
            views(out@) + lines_spec(cs@.skip(i as int)) == lines_spec(cs@),
        decreases n - i,
    {
        let mut j = i;
        while j < n && cs[j] != '\n'
            invariant
                i <= j <= n,
                n == cs@.len(),
                forall|k: int| i <= k < j ==> cs@[k] != '\n',
            decreases n - j,
        {
            j = j + 1;
        }
        let ghost t = cs@.skip(i as int);
        proof {
            lemma_first_newline(t, j - i);
        }
        let ghost prev = out@;
        if j < n {
            let end = if j > i && cs[j - 1] == '\r' { j - 1 } else { j };
            assert(cs@.subrange(i as int, end as int) == strip_cr(t.take(j - i)));
            out.push(string_of(&slice_chars(&cs, i, end)));
            assert(t.skip(j - i + 1) == cs@.skip(j + 1));
            i = j + 1;
        } else {
            out.push(string_of(&slice_chars(&cs, i, n)));
            assert(cs@.subrange(i as int, n as int) == t);
            assert(cs@.skip(n as int) =~= Seq::<char>::empty());
            i = n;
        }
        assert(views(out@) =~= views(prev).push(out@.last()@));
    }
    assert(cs@.skip(n as int) =~= Seq::<char>::empty());
    assert(views(out@) =~= lines_spec(cs@));
    out
}

/// The smaller of two integers.
pub open spec fn min(a: int, b: int) -> int {
    if a <= b {
        a
    } else {
        b
    }
}

/// The positions `[first, last)` of the lines shown for a range over `n`
/// lines, clamped to the lines there are: `L<start>-L<end>` shows lines
/// `start` to `end`, `L<start>` shows lines from `start` on, no range shows
/// all lines.
pub open spec fn shown_range(n: int, start: Option<usize>, end: Option<usize>) -> (int, int) {
    match (start, end) {
        (Some(s), Some(e)) => {
            let a = min(s - 1, n);
            let b = min(e as int, n);
            (a, if b < a { a } else { b })
        },
        (Some(s), None) => (min(s - 1, n), n),
        _ => (0, n),
    }
}

/// The lines of `lines` that a range shows.
pub fn select_lines(lines: &Vec<String>, start: Option<usize>, end: Option<usize>) -> (out: Vec<String>)
    requires
        start matches Some(s) ==> s >= 1,
    ensures
        views(out@) == views(lines@).subrange(
            shown_range(lines@.len() as int, start, end).0,
            shown_range(lines@.len() as int, start, end).1,
        ),
{
    let n = lines.len();
    let (a, b): (usize, usize) = match (start, end) {
        (Some(s), Some(e)) => {
            let a = if s - 1 <= n { s - 1 } else { n };
            let b = if e <= n { e } else { n };
            (a, if b < a { a } else { b })
        },
        (Some(s), None) => (if s - 1 <= n { s - 1 } else { n }, n),
        _ => (0, n),
    };
    let mut out: Vec<String> = Vec::new();
    let mut i = a;
    while i < b
        invariant
            a <= i <= b <= n,
            n == lines@.len(),
            views(out@) == views(lines@).subrange(a as int, i as int),
        decreases b - i,
    {
        let ghost prev = out@;
        let line = lines[i].clone();
        assert(line@ == lines@[i as int]@);
        out.push(line);
        assert(views(out@) =~= views(prev).push(lines@[i as int]@));
        assert(views(out@) =~= views(lines@).subrange(a as int, i + 1));
        i = i + 1;
    }
    out
}

} // verus!
