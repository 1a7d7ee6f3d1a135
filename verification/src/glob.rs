//! File-name patterns for `source add`: `*` stands for any run of
//! characters, `?` for any one character, every other character for itself,
//! and a name that begins with `.` is matched only by a pattern that begins
//! with `.`.

use vstd::prelude::*;

use crate::registry::{join_path, join_path_exec};
use crate::render::push_str;
use crate::text::{chars_of, find, find_exec, lacks, slice_chars, string_of, views};
use crate::uri::{file_uri, scheme_separator};

verus! {

/// Whether the pattern `p` from position `i` on matches the name `s` from
/// position `j` on.
pub open spec fn match_from(p: Seq<char>, s: Seq<char>, i: int, j: int) -> bool
    decreases p.len() - i, s.len() - j,
{
    if i >= p.len() {
        j == s.len()
    } else if p[i] == '*' {
        match_from(p, s, i + 1, j) || (j < s.len() && match_from(p, s, i, j + 1))
    } else {
        j < s.len() && (p[i] == '?' || p[i] == s[j]) && match_from(p, s, i + 1, j + 1)
    }
}

/// Whether the file-name pattern `p` matches the file name `s`.
pub open spec fn glob_matches_spec(p: Seq<char>, s: Seq<char>) -> bool {
    &&& (s.len() > 0 && s[0] == '.' ==> p.len() > 0 && p[0] == '.')
    &&& match_from(p, s, 0, 0)
}

/// `match_from` for every start in the name, pattern position `i`, given the
/// row for `i + 1`.
fn match_row(p: &Vec<char>, s: &Vec<char>, i: usize, next: &Vec<bool>) -> (cur: Vec<bool>)
    requires
        i < p@.len(),
        next@.len() == s@.len() + 1,
        forall|t: int| 0 <= t <= s@.len() ==> next@[t] == match_from(p@, s@, i + 1, t),
    ensures
        cur@.len() == s@.len() + 1,
        forall|t: int| 0 <= t <= s@.len() ==> cur@[t] == match_from(p@, s@, i as int, t),
{
    let m = s.len();
    let c = p[i];
    let mut cur: Vec<bool> = Vec::new();
    let mut k: usize = 0;
    while k < m
        invariant
            k <= m,
            m == s@.len(),
            cur@.len() == k,
        decreases m - k,
    {
        cur.push(false);
        k = k + 1;
    }
    cur.push(c == '*' && next[m]);
    assert(cur@[m as int] == match_from(p@, s@, i as int, m as int));
    let mut k: usize = m;
    while k > 0
        invariant
            k <= m,
            m == s@.len(),
            c == p@[i as int],
            i < p@.len(),
            cur@.len() == m + 1,
            next@.len() == m + 1,
            forall|t: int| 0 <= t <= m ==> next@[t] == match_from(p@, s@, i + 1, t),
            forall|t: int| k <= t <= m ==> cur@[t] == match_from(p@, s@, i as int, t),
        decreases k,
    {
        k = k - 1;
        let v = if c == '*' {
            next[k] || cur[k + 1]
        } else {
            (c == '?' || c == s[k]) && next[k + 1]
        };
        cur[k] = v;
        assert(cur@[k as int] == match_from(p@, s@, i as int, k as int));
    }
    cur
}

/// Whether the pattern `p` matches the whole name `s`, filling a table of
/// `match_from` from the end of the pattern back to its start.
fn match_whole(p: &Vec<char>, s: &Vec<char>) -> (b: bool)
    ensures
        b == match_from(p@, s@, 0, 0),
{
    let m = s.len();
    let mut next: Vec<bool> = Vec::new();
    let mut k: usize = 0;
    while k < m
        invariant
            k <= m,
            m == s@.len(),
            next@.len() == k,
            forall|t: int| 0 <= t < k ==> !next@[t],
        decreases m - k,
    {
        next.push(false);
        k = k + 1;
    }
    next.push(true);
    let mut i: usize = p.len();
    while i > 0
        invariant
            i <= p@.len(),
            next@.len() == s@.len() + 1,
            forall|t: int| 0 <= t <= s@.len() ==> next@[t] == match_from(p@, s@, i as int, t),
        decreases i,
    {
        i = i - 1;
        next = match_row(p, s, i, &next);
    }
    next[0]
}

/// Whether the file-name pattern `pattern` matches the file name `name`.
pub fn glob_matches(pattern: &str, name: &str) -> (b: bool)
    ensures
        b == glob_matches_spec(pattern@, name@),
{
    let p = chars_of(pattern);
    let s = chars_of(name);
    if s.len() > 0 && s[0] == '.' && !(p.len() > 0 && p[0] == '.') {
        return false;
    }
    match_whole(&p, &s)
}

/// The position of the last `/` in `s`.
pub open spec fn last_slash(s: Seq<char>) -> Option<int>
    decreases s.len(),
{
    if s.len() == 0 {
        None
    } else if s.last() == '/' {
        Some(s.len() - 1)
    } else {
        last_slash(s.drop_last())
    }
}

/// Whether `s` holds `*` or `?`.
pub open spec fn has_wildcard(s: Seq<char>) -> bool {
    !lacks(s, '*') || !lacks(s, '?')
}

/// Where the folder part of `arg` ends: just after its last `/`, or at the
/// start where it has none.
pub open spec fn folder_end(arg: Seq<char>) -> int {
    match last_slash(arg) {
        Some(k) => k + 1,
        None => 0,
    }
}

/// A `source add` argument that names files by a pattern: a path (no
/// `://`) whose last component holds `*` or `?` and whose folder part holds
/// neither. It is cut into the folder part (up to and with its last `/`;
/// empty for the current folder) and the file-name pattern.
pub open spec fn glob_parts_spec(arg: Seq<char>) -> Option<(Seq<char>, Seq<char>)> {
    let dir = arg.take(folder_end(arg));
    let pattern = arg.skip(folder_end(arg));
    if find(arg, scheme_separator()) is None && has_wildcard(pattern) && !has_wildcard(dir) {
        Some((dir, pattern))
    } else {
        None
    }
}

proof fn lemma_last_slash(s: Seq<char>)
    ensures
        match last_slash(s) {
            Some(k) => 0 <= k < s.len() && s[k] == '/' && forall|j: int| k < j < s.len() ==> s[j] != '/',
            None => lacks(s, '/'),
        },
    decreases s.len(),
{
    if s.len() > 0 && s.last() != '/' {
        let t = s.drop_last();
        lemma_last_slash(t);
        assert(s[s.len() - 1] != '/');
        assert forall|j: int| 0 <= j < t.len() implies t[j] == s[j] by {}
        if let Some(k) = last_slash(t) {
            assert forall|j: int| k < j < s.len() implies s[j] != '/' by {
                if j < t.len() {
                    assert(t[j] == s[j]);
                }
            }
        } else {
            assert forall|j: int| 0 <= j < s.len() implies s[j] != '/' by {
                if j < t.len() {
                    assert(t[j] == s[j]);
                }
            }
        }
    }
}

fn has_wildcard_exec(s: &[char]) -> (b: bool)
    ensures
        b == has_wildcard(s@),
{
    let mut i: usize = 0;
    while i < s.len()
        invariant
            i <= s@.len(),
            forall|j: int| 0 <= j < i ==> s@[j] != '*' && s@[j] != '?',
        decreases s@.len() - i,
    {
        if s[i] == '*' || s[i] == '?' {
            return true;
        }
        i = i + 1;
    }
    false
}

/// The folder part and the file-name pattern of a `source add` argument
/// that names files by a pattern, or `None` for any other argument.
pub fn glob_parts(arg: &str) -> (res: Option<(String, String)>)
    ensures
        match glob_parts_spec(arg@) {
            Some((d, p)) => res matches Some((dir, pattern)) && dir@ == d && pattern@ == p,
            None => res is None,
        },
{
    let a = chars_of(arg);
    let sep = vec![':', '/', '/'];
    assert(sep@ =~= scheme_separator());
    if find_exec(&a, &sep).is_some() {
        return None;
    }
    let mut k: usize = a.len();
    while k > 0 && a[k - 1] != '/'
        invariant
            k <= a@.len(),
            forall|j: int| k <= j < a@.len() ==> a@[j] != '/',
        decreases k,
    {
        k = k - 1;
    }
    proof {
        lemma_last_slash(a@);
        assert(folder_end(a@) == k);
    }
    let dir = slice_chars(&a, 0, k);
    let pattern = slice_chars(&a, k, a.len());
    assert(dir@ =~= a@.take(k as int));
    assert(pattern@ =~= a@.skip(k as int));
    if has_wildcard_exec(&pattern) && !has_wildcard_exec(&dir) {
        Some((string_of(&dir), string_of(&pattern)))
    } else {
        None
    }
}

/// Whether the file `name` is part of the expansion of `pattern`: the
/// pattern matches it, and it holds no `#`, which a `file://` URI would
/// read as the start of its line fragment (such a file is left out).
pub open spec fn expands_to(pattern: Seq<char>, name: Seq<char>) -> bool {
    glob_matches_spec(pattern, name) && lacks(name, '#')
}

fn lacks_exec(s: &[char], c: char) -> (b: bool)
    ensures
        b == lacks(s@, c),
{
    let mut i: usize = 0;
    while i < s.len()
        invariant
            i <= s@.len(),
            forall|j: int| 0 <= j < i ==> s@[j] != c,
        decreases s@.len() - i,
    {
        if s[i] == c {
            return false;
        }
        i = i + 1;
    }
    true
}

/// The `file://` URIs of the names in `names` that are part of the
/// expansion of `pattern`, each joined to the folder `dir`, in the order
/// of `names`.
pub open spec fn glob_uris_spec(dir: Seq<char>, pattern: Seq<char>, names: Seq<Seq<char>>) -> Seq<Seq<char>>
    decreases names.len(),
{
    if names.len() == 0 {
        Seq::empty()
    } else {
        let rest = glob_uris_spec(dir, pattern, names.drop_last());
        if expands_to(pattern, names.last()) {
            rest.push(file_uri(join_path(dir, names.last()), None, None))
        } else {
            rest
        }
    }
}

/// The `file://` URIs of the files in the folder `dir` (given as an
/// absolute path) whose names, listed in `names`, are part of the
/// expansion of `pattern`.
pub fn glob_uris(dir: &str, pattern: &str, names: &Vec<String>) -> (out: Vec<String>)
    ensures
        views(out@) == glob_uris_spec(dir@, pattern@, views(names@)),
{
    let d = chars_of(dir);
    let mut out: Vec<String> = Vec::new();
    let mut i: usize = 0;
    while i < names.len()
        invariant
            i <= names@.len(),
            d@ == dir@,
            views(out@) == glob_uris_spec(dir@, pattern@, views(names@).take(i as int)),
        decreases names@.len() - i,
    {
        let ghost before = out@;
        assert(views(names@).take(i + 1).drop_last() =~= views(names@).take(i as int));
        assert(views(names@).take(i + 1).last() == names@[i as int]@);
        let n = chars_of(names[i].as_str());
        if glob_matches(pattern, names[i].as_str()) && lacks_exec(&n, '#') {
            let mut u: Vec<char> = Vec::new();
            push_str(&mut u, "file://");
            let joined = join_path_exec(&d, &n);
            crate::render::push_all(&mut u, &joined);
            proof {
                reveal_strlit("file://");
            }
            assert(u@ =~= file_uri(join_path(dir@, names@[i as int]@), None, None));
            out.push(string_of(&u));
            assert(views(out@) =~= views(before).push(u@));
        }
        i = i + 1;
    }
    assert(views(names@).take(names@.len() as int) =~= views(names@));
    out
}

/// One of the listed names is part of the expansion of the pattern, and
/// `u` is the `file://`
/// URI of that name in the folder `dir`.
pub open spec fn names_matching_file(dir: Seq<char>, pattern: Seq<char>, names: Seq<Seq<char>>, u: Seq<char>) -> bool {
    exists|n: int| 0 <= n < names.len() && expands_to(pattern, #[trigger] names[n])
        && u == file_uri(join_path(dir, names[n]), None, None)
}

/// Every URI of a pattern's expansion names, in the folder, a file whose
/// name the pattern matches and which holds no `#`; every listed name of
/// that kind is named by one of them; and there are no more of them than names.
pub proof fn law_glob_names_matching_files(dir: Seq<char>, pattern: Seq<char>, names: Seq<Seq<char>>)
    ensures
        forall|k: int| 0 <= k < glob_uris_spec(dir, pattern, names).len() ==> names_matching_file(
            dir,
            pattern,
            names,
            #[trigger] glob_uris_spec(dir, pattern, names)[k],
        ),
        forall|n: int| 0 <= n < names.len() && expands_to(pattern, #[trigger] names[n])
            ==> glob_uris_spec(dir, pattern, names).contains(file_uri(join_path(dir, names[n]), None, None)),
        glob_uris_spec(dir, pattern, names).len() <= names.len(),
    decreases names.len(),
{
    if names.len() > 0 {
        let rest = names.drop_last();
        law_glob_names_matching_files(dir, pattern, rest);
        let r = glob_uris_spec(dir, pattern, rest);
        let out = glob_uris_spec(dir, pattern, names);
        assert forall|k: int| 0 <= k < out.len() implies names_matching_file(dir, pattern, names, #[trigger] out[k]) by {
            if k < r.len() {
                assert(out[k] == r[k]);
                assert(names_matching_file(dir, pattern, rest, r[k]));
                let n = choose|n: int| 0 <= n < rest.len() && expands_to(pattern, #[trigger] rest[n])
                    && r[k] == file_uri(join_path(dir, rest[n]), None, None);
                assert(names[n] == rest[n]);
            } else {
                assert(names[names.len() - 1] == names.last());
            }
        }
        assert forall|n: int| 0 <= n < names.len() && expands_to(pattern, #[trigger] names[n])
            implies out.contains(file_uri(join_path(dir, names[n]), None, None)) by {
            if n < rest.len() {
                assert(rest[n] == names[n]);
                let u = file_uri(join_path(dir, names[n]), None, None);
                assert(r.contains(u));
                let k = choose|k: int| 0 <= k < r.len() && r[k] == u;
                assert(out[k] == u);
            } else {
                assert(out[out.len() - 1] == file_uri(join_path(dir, names.last()), None, None));
            }
        }
    }
}

} // verus!

verus! {

/// `*` matches every run of characters from position `j` of `s` on.
proof fn lemma_star_from(s: Seq<char>, j: int)
    requires
        0 <= j <= s.len(),
    ensures
        match_from(seq!['*'], s, 0, j),
    decreases s.len() - j,
{
    let p = seq!['*'];
    assert(p.len() == 1 && p[0] == '*');
    assert(match_from(p, s, 1, j) == (j == s.len()));
    if j < s.len() {
        lemma_star_from(s, j + 1);
    }
}

/// A lone `*` matches every name, and every name that does not begin with
/// `.` is part of its expansion (unless it holds a `#`).
pub proof fn law_star_matches_any(s: Seq<char>)
    ensures
        match_from(seq!['*'], s, 0, 0),
        s.len() == 0 || s[0] != '.' ==> glob_matches_spec(seq!['*'], s),
{
    lemma_star_from(s, 0);
}

/// A lone `?` matches exactly the names of one character.
pub proof fn law_question_matches_one(s: Seq<char>)
    ensures
        match_from(seq!['?'], s, 0, 0) <==> s.len() == 1,
{
    let p = seq!['?'];
    assert(p.len() == 1 && p[0] == '?');
    assert(match_from(p, s, 1, 1) == (1 == s.len()));
}

/// From positions `i` and `j` on, a pattern without `*` or `?` matches
/// exactly the same characters.
proof fn lemma_literal_from(p: Seq<char>, s: Seq<char>, i: int, j: int)
    requires
        !has_wildcard(p),
        0 <= i <= p.len(),
        0 <= j <= s.len(),
    ensures
        match_from(p, s, i, j) <==> (p.len() - i == s.len() - j && p.skip(i) == s.skip(j)),
    decreases p.len() - i, s.len() - j,
{
    if i < p.len() {
        assert(p[i] != '*' && p[i] != '?');
        if j < s.len() {
            lemma_literal_from(p, s, i + 1, j + 1);
            if p.len() - i == s.len() - j && p.skip(i) == s.skip(j) {
                assert(p.skip(i)[0] == s.skip(j)[0]);
                assert(p.skip(i + 1) =~= p.skip(i).drop_first());
                assert(s.skip(j + 1) =~= s.skip(j).drop_first());
            }
            if p[i] == s[j] && p.len() - (i + 1) == s.len() - (j + 1) && p.skip(i + 1) == s.skip(j + 1) {
                assert(p.skip(i) =~= seq![p[i]] + p.skip(i + 1));
                assert(s.skip(j) =~= seq![s[j]] + s.skip(j + 1));
            }
        }
    } else {
        if j == s.len() {
            assert(p.skip(i) =~= s.skip(j));
        }
    }
}

/// A pattern without `*` or `?` matches exactly the name equal to it.
pub proof fn law_literal_matches_itself(p: Seq<char>, s: Seq<char>)
    requires
        !has_wildcard(p),
    ensures
        match_from(p, s, 0, 0) <==> s == p,
{
    lemma_literal_from(p, s, 0, 0);
    assert(p.skip(0) =~= p);
    assert(s.skip(0) =~= s);
}

/// Matching the second part of a concatenation is matching the second
/// pattern against the second name.
proof fn lemma_match_shift(p1: Seq<char>, p2: Seq<char>, s1: Seq<char>, s2: Seq<char>, a: int, b: int)
    requires
        0 <= a <= p2.len(),
        0 <= b <= s2.len(),
    ensures
        match_from(p1 + p2, s1 + s2, p1.len() + a, s1.len() + b) == match_from(p2, s2, a, b),
    decreases p2.len() - a, s2.len() - b,
{
    let p = p1 + p2;
    let s = s1 + s2;
    if a < p2.len() {
        assert(p[p1.len() + a] == p2[a]);
        if b < s2.len() {
            assert(s[s1.len() + b] == s2[b]);
            lemma_match_shift(p1, p2, s1, s2, a, b + 1);
            lemma_match_shift(p1, p2, s1, s2, a + 1, b + 1);
        }
        lemma_match_shift(p1, p2, s1, s2, a + 1, b);
    }
}

proof fn lemma_match_concat(p1: Seq<char>, p2: Seq<char>, s1: Seq<char>, s2: Seq<char>, i: int, j: int)
    requires
        0 <= i <= p1.len(),
        0 <= j <= s1.len(),
        match_from(p1, s1, i, j),
        match_from(p2, s2, 0, 0),
    ensures
        match_from(p1 + p2, s1 + s2, i, j),
    decreases p1.len() - i, s1.len() - j,
{
    let p = p1 + p2;
    let s = s1 + s2;
    if i == p1.len() {
        lemma_match_shift(p1, p2, s1, s2, 0, 0);
    } else {
        assert(p[i] == p1[i]);
        if p1[i] == '*' {
            if match_from(p1, s1, i + 1, j) {
                lemma_match_concat(p1, p2, s1, s2, i + 1, j);
            } else {
                lemma_match_concat(p1, p2, s1, s2, i, j + 1);
            }
        } else {
            assert(s[j] == s1[j]);
            lemma_match_concat(p1, p2, s1, s2, i + 1, j + 1);
        }
    }
}

/// Patterns compose: where `p1` matches `s1` and `p2` matches `s2`, the
/// pattern `p1 + p2` matches the name `s1 + s2`. With the laws above: a
/// trailing `*` takes any suffix, and `*.rs` matches every name that ends
/// with `.rs`.
pub proof fn law_match_concat(p1: Seq<char>, p2: Seq<char>, s1: Seq<char>, s2: Seq<char>)
    requires
        match_from(p1, s1, 0, 0),
        match_from(p2, s2, 0, 0),
    ensures
        match_from(p1 + p2, s1 + s2, 0, 0),
{
    lemma_match_concat(p1, p2, s1, s2, 0, 0);
}

/// `*` followed by a literal suffix matches every name that ends with it.
pub proof fn law_star_suffix(prefix: Seq<char>, suffix: Seq<char>)
    requires
        !has_wildcard(suffix),
    ensures
        match_from(seq!['*'] + suffix, prefix + suffix, 0, 0),
{
    lemma_star_from(prefix, 0);
    law_literal_matches_itself(suffix, suffix);
    lemma_match_concat(seq!['*'], suffix, prefix, suffix, 0, 0);
}

/// A name that begins with `.` is part of no expansion of a pattern that
/// does not begin with `.`, nor is a name that holds `#`; every other name
/// is part of the expansion of every pattern that matches it.
pub proof fn law_expansion_leaves_out_hidden_names(p: Seq<char>, s: Seq<char>)
    ensures
        s.len() > 0 && s[0] == '.' && (p.len() == 0 || p[0] != '.') ==> !expands_to(p, s),
        !lacks(s, '#') ==> !expands_to(p, s),
        (s.len() == 0 || s[0] != '.') && lacks(s, '#') ==> (expands_to(p, s) <==> match_from(p, s, 0, 0)),
{
}

} // verus!
