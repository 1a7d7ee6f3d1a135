//! Source URIs: `scheme://path`, optionally followed by a `#L<start>-L<end>`
//! or `#L<start>` line fragment.

use vstd::prelude::*;

use crate::decimal::{
    all_digits, decimal_spec, lemma_decimal_digits, law_parse_format_roundtrip, number_error_spec,
    parse_usize, parse_usize_spec, NumberError,
};
use crate::text::{
    chars_of, opt_view, drop_leading, drop_leading_exec, slice_chars, split_once, split_once_exec, string_of,
    trim, trim_spec, find, find_from, lacks, lemma_find_char_after,
    lemma_find_char_absent, lemma_trim_noop, is_white_space,
};

verus! {

/// A source URI taken apart.
#[derive(Debug, Clone, PartialEq, Eq)]
pub struct ParsedUri {
    pub scheme: String,
    pub path: Option<String>,
    pub line_start: Option<usize>,
    pub line_end: Option<usize>,
}

/// The mathematical value of a [`ParsedUri`].
pub struct UriModel {
    pub scheme: Seq<char>,
    pub path: Option<Seq<char>>,
    pub line_start: Option<usize>,
    pub line_end: Option<usize>,
}


impl View for ParsedUri {
    type V = UriModel;

    open spec fn view(&self) -> UriModel {
        UriModel {
            scheme: self.scheme@,
            path: opt_view(self.path),
            line_start: self.line_start,
            line_end: self.line_end,
        }
    }
}

/// The line number of a fragment that does not read as a number, and why.
#[derive(Debug, Clone, Copy, PartialEq, Eq, Structural)]
pub enum UriError {
    /// The number before `-` in `#L<start>-L<end>`.
    StartLine(NumberError),
    /// The number after `-L` in `#L<start>-L<end>`.
    EndLine(NumberError),
    /// The number in `#L<line>`.
    SingleLine(NumberError),
}

/// The scheme assumed where a URI has no `://`.
pub open spec fn file_scheme() -> Seq<char> {
    seq!['f', 'i', 'l', 'e']
}

/// The separator between scheme and path.
pub open spec fn scheme_separator() -> Seq<char> {
    seq![':', '/', '/']
}

/// A URI cut at its first `#` into the part before and the fragment after.
pub open spec fn base_and_fragment(uri: Seq<char>) -> (Seq<char>, Option<Seq<char>>) {
    match split_once(uri, seq!['#']) {
        Some((b, f)) => (b, Some(f)),
        None => (uri, None),
    }
}

/// The scheme and path of the part before the fragment.
pub open spec fn scheme_and_path(base: Seq<char>) -> (Seq<char>, Option<Seq<char>>) {
    match split_once(base, scheme_separator()) {
        Some((s, p)) => (s, Some(p)),
        None => (file_scheme(), None),
    }
}

/// The line range that a fragment names: after trimming white space, a
/// fragment that starts with `L` holds either `<start>-<end>` (with any
/// number of `L`s before `<end>`) or a single `<line>`; any other fragment
/// names no range.
pub open spec fn fragment_lines(frag: Seq<char>) -> Result<(Option<usize>, Option<usize>), UriError> {
    let f = trim_spec(frag);
    if f.len() > 0 && f[0] == 'L' {
        let range = f.drop_first();
        match split_once(range, seq!['-']) {
            Some((s, rest)) => match parse_usize_spec(s) {
                None => Err(UriError::StartLine(number_error_spec(s))),
                Some(a) => match parse_usize_spec(drop_leading(rest, 'L')) {
                    None => Err(UriError::EndLine(number_error_spec(drop_leading(rest, 'L')))),
                    Some(b) => Ok((Some(a), Some(b))),
                },
            },
            None => match parse_usize_spec(range) {
                None => Err(UriError::SingleLine(number_error_spec(range))),
                Some(a) => Ok((Some(a), None)),
            },
        }
    } else {
        Ok((None, None))
    }
}

/// What `parse_uri` gives for `uri`.
pub open spec fn parse_uri_spec(uri: Seq<char>) -> Result<UriModel, UriError> {
    let (base, frag) = base_and_fragment(uri);
    let (scheme, path) = scheme_and_path(base);
    let lines = match frag {
        Some(f) => fragment_lines(f),
        None => Ok((None, None)),
    };
    match lines {
        Ok((s, e)) => Ok(UriModel { scheme, path, line_start: s, line_end: e }),
        Err(err) => Err(err),
    }
}

/// The line range that a fragment names.
pub fn fragment_lines_exec(frag: &[char]) -> (res: Result<(Option<usize>, Option<usize>), UriError>)
    ensures
        res == fragment_lines(frag@),
{
    let f = trim(frag);
    if f.len() > 0 && f[0] == 'L' {
        let range = slice_chars(&f, 1, f.len());
        assert(range@ == f@.drop_first());
        let dash = vec!['-'];
        assert(dash@ =~= seq!['-']);
        match split_once_exec(&range, &dash) {
            Some((s, rest)) => match parse_usize(&s) {
                Err(k) => Err(UriError::StartLine(k)),
                Ok(a) => {
                    let digits = drop_leading_exec(&rest, 'L');
                    match parse_usize(&digits) {
                        Err(k) => Err(UriError::EndLine(k)),
                        Ok(b) => Ok((Some(a), Some(b))),
                    }
                },
            },
            None => match parse_usize(&range) {
                Err(k) => Err(UriError::SingleLine(k)),
                Ok(a) => Ok((Some(a), None)),
            },
        }
    } else {
        Ok((None, None))
    }
}

/// Takes a source URI apart: the part before the first `#` is cut at its
/// first `://` into scheme and path (scheme `file` and no path where there
/// is none); the fragment after `#` gives the line range.
pub fn parse_uri(uri: &str) -> (res: Result<ParsedUri, UriError>)
    ensures
        match (res, parse_uri_spec(uri@)) {
            (Ok(p), Ok(m)) => p@ == m,
            (Err(e), Err(f)) => e == f,
            _ => false,
        },
{
    let cs = chars_of(uri);
    let hash = vec!['#'];
    assert(hash@ =~= seq!['#']);
    let (base, fragment) = match split_once_exec(&cs, &hash) {
        Some((b, f)) => (b, Some(f)),
        None => (cs, None),
    };
    let sep = vec![':', '/', '/'];
    assert(sep@ =~= scheme_separator());
    let (scheme, path) = match split_once_exec(&base, &sep) {
        Some((s, p)) => (string_of(&s), Some(string_of(&p))),
        None => {
            let file = vec!['f', 'i', 'l', 'e'];
            assert(file@ =~= file_scheme());
            (string_of(&file), None)
        },
    };
    let lines = match fragment {
        Some(f) => fragment_lines_exec(&f),
        None => Ok((None, None)),
    };
    match lines {
        Ok((line_start, line_end)) => Ok(ParsedUri { scheme, path, line_start, line_end }),
        Err(e) => Err(e),
    }
}

/// The local file that a parsed URI names: its path where the scheme is
/// `file`, nothing otherwise.
pub fn uri_to_file_path(parsed: &ParsedUri) -> (res: Option<String>)
    ensures
        opt_view(res) == (if parsed@.scheme == file_scheme() {
            parsed@.path
        } else {
            None
        }),
{
    let scheme = chars_of(parsed.scheme.as_str());
    let is_file = scheme.len() == 4 && scheme[0] == 'f' && scheme[1] == 'i' && scheme[2] == 'l'
        && scheme[3] == 'e';
    assert(is_file == (scheme@ =~= file_scheme()));
    if is_file {
        match &parsed.path {
            Some(p) => Some(p.clone()),
            None => None,
        }
    } else {
        None
    }
}

} // verus!

verus! {

/// The URI of a local file, with the line fragment that `start` and `end`
/// call for: none, `#L<start>`, or `#L<start>-L<end>`.
pub open spec fn file_uri(path: Seq<char>, start: Option<usize>, end: Option<usize>) -> Seq<char> {
    let base = file_scheme() + scheme_separator() + path;
    match (start, end) {
        (Some(s), Some(e)) => base + seq!['#'] + (seq!['L'] + decimal_spec(s as nat) + seq![
            '-',
            'L',
        ] + decimal_spec(e as nat)),
        (Some(s), None) => base + seq!['#'] + (seq!['L'] + decimal_spec(s as nat)),
        _ => base,
    }
}

proof fn lemma_decimal_shape(n: nat)
    ensures
        decimal_spec(n).len() > 0,
        lacks(decimal_spec(n), '-'),
        lacks(decimal_spec(n), '#'),
        !is_white_space(decimal_spec(n).last()),
        decimal_spec(n)[0] != 'L',
        decimal_spec(n)[0] != '+',
        all_digits(decimal_spec(n)),
{
    lemma_decimal_digits(n);
    assert(decimal_spec(n).last() == decimal_spec(n)[decimal_spec(n).len() - 1]);
}

/// The scheme separator is found right after `file`.
proof fn lemma_scheme_split(path: Seq<char>)
    ensures
        scheme_and_path(file_scheme() + scheme_separator() + path) == (file_scheme(), Some(path)),
{
    let base = file_scheme() + scheme_separator() + path;
    let pat = scheme_separator();
    assert(base.subrange(0, 3) != pat) by {
        assert(base.subrange(0, 3)[0] != pat[0]);
    }
    assert(base.subrange(1, 4) != pat) by {
        assert(base.subrange(1, 4)[0] != pat[0]);
    }
    assert(base.subrange(2, 5) != pat) by {
        assert(base.subrange(2, 5)[0] != pat[0]);
    }
    assert(base.subrange(3, 6) != pat) by {
        assert(base.subrange(3, 6)[0] != pat[0]);
    }
    assert(base.subrange(4, 7) =~= pat);
    assert(find_from(base, pat, 4) == Some(4int));
    assert(find_from(base, pat, 3) == Some(4int));
    assert(find_from(base, pat, 2) == Some(4int));
    assert(find_from(base, pat, 1) == Some(4int));
    assert(find(base, pat) == Some(4int));
    assert(base.take(4) =~= file_scheme());
    assert(base.skip(7) =~= path);
}

/// A URI written in any of the three documented forms — whole file,
/// `#L<start>`, `#L<start>-L<end>` — reads back as the file, path and
/// line range it was written from.
pub proof fn law_file_uri_roundtrip(path: Seq<char>, start: Option<usize>, end: Option<usize>)
    requires
        lacks(path, '#'),
        start is None ==> end is None,
    ensures
        parse_uri_spec(file_uri(path, start, end)) == Ok::<UriModel, UriError>(
            UriModel { scheme: file_scheme(), path: Some(path), line_start: start, line_end: end },
        ),
{
    let base = file_scheme() + scheme_separator() + path;
    lemma_scheme_split(path);
    assert(lacks(base, '#')) by {
        assert forall|i: int| 0 <= i < base.len() implies base[i] != '#' by {
            if i >= 7 {
                assert(base[i] == path[i - 7]);
            }
        }
    }
    match (start, end) {
        (Some(s), Some(e)) => {
            let ds = decimal_spec(s as nat);
            let de = decimal_spec(e as nat);
            lemma_decimal_shape(s as nat);
            lemma_decimal_shape(e as nat);
            let frag = seq!['L'] + ds + seq!['-', 'L'] + de;
            lemma_find_char_after(base, '#', frag);
            assert((base + seq!['#'] + frag).take(base.len() as int) =~= base);
            assert((base + seq!['#'] + frag).skip(base.len() + 1int) =~= frag);
            assert(frag.last() == de.last());
            lemma_trim_noop(frag);
            let range = frag.drop_first();
            assert(range =~= ds + seq!['-'] + (seq!['L'] + de));
            lemma_find_char_after(ds, '-', seq!['L'] + de);
            assert(range.take(ds.len() as int) =~= ds);
            assert(range.skip(ds.len() + 1int) =~= seq!['L'] + de);
            assert((seq!['L'] + de).drop_first() =~= de);
            assert(drop_leading(seq!['L'] + de, 'L') == drop_leading(de, 'L'));
            law_parse_format_roundtrip(s);
            law_parse_format_roundtrip(e);
        },
        (Some(s), None) => {
            let ds = decimal_spec(s as nat);
            lemma_decimal_shape(s as nat);
            let frag = seq!['L'] + ds;
            lemma_find_char_after(base, '#', frag);
            assert((base + seq!['#'] + frag).take(base.len() as int) =~= base);
            assert((base + seq!['#'] + frag).skip(base.len() + 1int) =~= frag);
            assert(frag.last() == ds.last());
            lemma_trim_noop(frag);
            assert(frag.drop_first() =~= ds);
            lemma_find_char_absent(ds, '-');
            law_parse_format_roundtrip(s);
        },
        _ => {
            lemma_find_char_absent(base, '#');
        },
    }
}

} // verus!

verus! {

/// The fragment of a file URI written by [`file_uri`].
pub open spec fn line_fragment(start: Option<usize>, end: Option<usize>) -> Option<Seq<char>> {
    match (start, end) {
        (Some(s), Some(e)) => Some(seq!['L'] + decimal_spec(s as nat) + seq!['-', 'L'] + decimal_spec(e as nat)),
        (Some(s), None) => Some(seq!['L'] + decimal_spec(s as nat)),
        _ => None,
    }
}

/// A file URI cuts at its `#` into `file://<path>` and its line fragment.
pub proof fn lemma_file_uri_parts(path: Seq<char>, start: Option<usize>, end: Option<usize>)
    requires
        lacks(path, '#'),
    ensures
        base_and_fragment(file_uri(path, start, end)) == (
            file_scheme() + scheme_separator() + path,
            line_fragment(start, end),
        ),
{
    let base = file_scheme() + scheme_separator() + path;
    assert(lacks(base, '#')) by {
        assert forall|i: int| 0 <= i < base.len() implies base[i] != '#' by {
            if i >= 7 {
                assert(base[i] == path[i - 7]);
            }
        }
    }
    match line_fragment(start, end) {
        Some(frag) => {
            assert(file_uri(path, start, end) == base + seq!['#'] + frag);
            lemma_find_char_after(base, '#', frag);
            assert((base + seq!['#'] + frag).take(base.len() as int) =~= base);
            assert((base + seq!['#'] + frag).skip(base.len() + 1int) =~= frag);
        },
        None => {
            lemma_find_char_absent(base, '#');
        },
    }
}

} // verus!
