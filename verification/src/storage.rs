//! How a registry stores source URIs: a local file named by a `file://` URI
//! whose path is absolute and in canonical form is stored as a path relative
//! to the parent of the registry folder, starting with `./` or `../` (its
//! line fragment kept); anything else is stored as given. A stored URI of
//! that form is read back as such a relative path; any other URI is read as
//! it is written.

use vstd::prelude::*;

use crate::path::{
    canonical_path, canonical_path_exec, dot, dotdot, lemma_dot_prefix_resolves, lemma_relative_path_shape,
    law_relative_resolves_back, no_double_slash, relative_path, relative_path_exec, resolve_path,
    resolve_path_exec,
};
use crate::output::{display_path, display_path_spec};
use crate::decimal::{decimal_spec, lemma_decimal_digits};
use crate::text::{
    chars_of, opt_view, find, lacks, lemma_find, lemma_find_char_absent, lemma_find_char_after, occurs_at,
    split_once, split_once_exec, string_of,
};
use crate::uri::{
    base_and_fragment, file_scheme, file_uri, fragment_lines, law_file_uri_roundtrip,
    lemma_file_uri_parts, line_fragment, parse_uri, parse_uri_spec, scheme_separator, ParsedUri,
    UriError, UriModel,
};

verus! {

/// What a fragment adds to a URI: `#` and the fragment, or nothing.
pub open spec fn fragment_suffix(f: Option<Seq<char>>) -> Seq<char> {
    match f {
        Some(f) => seq!['#'] + f,
        None => Seq::empty(),
    }
}

/// The form of a stored local path: `.` or `..`, or a path that starts
/// with `./` or `../`.
pub open spec fn relative_form(b: Seq<char>) -> bool {
    ||| b == dot()
    ||| b == dotdot()
    ||| b.len() >= 2 && b[0] == '.' && b[1] == '/'
    ||| b.len() >= 3 && b[0] == '.' && b[1] == '.' && b[2] == '/'
}

/// A relative path in the stored form: as it is where it has that form,
/// else with `./` in front.
pub open spec fn marked(r: Seq<char>) -> Seq<char> {
    if relative_form(r) {
        r
    } else {
        seq!['.', '/'] + r
    }
}

/// The form in which a registry whose folder's parent is `base` stores
/// `uri`: a URI that does not parse is refused; a `file://` URI whose path
/// is an absolute path in canonical form is stored as that path relative to
/// `base` (itself in canonical form), in the stored form, followed by the
/// URI's fragment; any other URI is stored as given (a path with `.`, `..`
/// or repeated `/`s keeps its `file://` URI, so that the file system, not a
/// rewriting, reads it).
pub open spec fn stored_uri_spec(uri: Seq<char>, base: Seq<char>) -> Result<Seq<char>, UriError> {
    match parse_uri_spec(uri) {
        Err(e) => Err(e),
        Ok(m) => if m.scheme == file_scheme() && m.path is Some && canonical_path(m.path->0)
            && canonical_path(base) {
            Ok(marked(relative_path(base, m.path->0)) + fragment_suffix(base_and_fragment(uri).1))
        } else {
            Ok(uri)
        },
    }
}

/// What a stored URI names, read from the folder `base`: where the part
/// before the fragment holds no `://` and has the stored form of a local
/// path, it is that path resolved from `base`, with the line range of the
/// fragment; any other URI is read as any URI is (one without `://` names
/// no file).
pub open spec fn resolve_stored_spec(stored: Seq<char>, base: Seq<char>) -> Result<UriModel, UriError> {
    let (b, frag) = base_and_fragment(stored);
    if split_once(b, scheme_separator()) is Some || !relative_form(b) {
        parse_uri_spec(stored)
    } else {
        let lines = match frag {
            Some(f) => fragment_lines(f),
            None => Ok((None, None)),
        };
        match lines {
            Ok((s, e)) => Ok(
                UriModel {
                    scheme: file_scheme(),
                    path: Some(resolve_path(base, b)),
                    line_start: s,
                    line_end: e,
                },
            ),
            Err(err) => Err(err),
        }
    }
}

/// Whether `b` has the stored form of a local path.
fn relative_form_exec(b: &[char]) -> (r: bool)
    ensures
        r == relative_form(b@),
{
    let n = b.len();
    let r = (n == 1 && b[0] == '.') || (n == 2 && b[0] == '.' && b[1] == '.') || (n >= 2 && b[0]
        == '.' && b[1] == '/') || (n >= 3 && b[0] == '.' && b[1] == '.' && b[2] == '/');
    assert(n == 1 && b[0] == '.' ==> b@ =~= dot());
    assert(n == 2 && b[0] == '.' && b[1] == '.' ==> b@ =~= dotdot());
    assert(b@ == dot() ==> n == 1 && b@[0] == '.');
    assert(b@ == dotdot() ==> n == 2 && b@[0] == '.' && b@[1] == '.');
    r
}

/// The form in which a registry whose folder's parent is `base` stores `uri`.
pub fn store_uri(uri: &str, base: &str) -> (res: Result<String, UriError>)
    ensures
        match (res, stored_uri_spec(uri@, base@)) {
            (Ok(s), Ok(t)) => s@ == t,
            (Err(e), Err(f)) => e == f,
            _ => false,
        },
{
    match parse_uri(uri) {
        Err(e) => Err(e),
        Ok(parsed) => {
            let bc = chars_of(base);
            let is_file = match crate::uri::uri_to_file_path(&parsed) {
                Some(p) => {
                    let pc = chars_of(p.as_str());
                    if canonical_path_exec(&pc) && canonical_path_exec(&bc) {
                        Some(pc)
                    } else {
                        None
                    }
                },
                None => None,
            };
            match is_file {
                Some(pc) => {
                    let rel = relative_path_exec(&bc, &pc);
                    let mut out = if relative_form_exec(&rel) {
                        rel
                    } else {
                        let mut m = vec!['.', '/'];
                        crate::render::push_all(&mut m, &rel);
                        m
                    };
                    assert(out@ =~= marked(relative_path(base@, pc@)));
                    let cs = chars_of(uri);
                    let hash = vec!['#'];
                    assert(hash@ =~= seq!['#']);
                    match split_once_exec(&cs, &hash) {
                        Some((_, f)) => {
                            out.push('#');
                            crate::render::push_all(&mut out, &f);
                        },
                        None => {},
                    }
                    assert(out@ =~= marked(relative_path(base@, pc@)) + fragment_suffix(
                        base_and_fragment(uri@).1,
                    ));
                    Ok(string_of(&out))
                },
                None => Ok(string_of(&chars_of(uri))),
            }
        },
    }
}

/// What a stored URI names, read from the folder `base`.
pub fn resolve_stored(stored: &str, base: &str) -> (res: Result<ParsedUri, UriError>)
    ensures
        match (res, resolve_stored_spec(stored@, base@)) {
            (Ok(p), Ok(m)) => p@ == m,
            (Err(e), Err(f)) => e == f,
            _ => false,
        },
{
    let cs = chars_of(stored);
    let hash = vec!['#'];
    assert(hash@ =~= seq!['#']);
    let (b, frag) = match split_once_exec(&cs, &hash) {
        Some((b, f)) => (b, Some(f)),
        None => (cs, None),
    };
    let sep = vec![':', '/', '/'];
    assert(sep@ =~= scheme_separator());
    if split_once_exec(&b, &sep).is_some() || !relative_form_exec(&b) {
        return parse_uri(stored);
    }
    let lines = match frag {
        Some(f) => crate::uri::fragment_lines_exec(&f),
        None => Ok((None, None)),
    };
    match lines {
        Ok((line_start, line_end)) => {
            let bc = chars_of(base);
            let path = resolve_path_exec(&bc, &b);
            let file = vec!['f', 'i', 'l', 'e'];
            assert(file@ =~= file_scheme());
            Ok(
                ParsedUri {
                    scheme: string_of(&file),
                    path: Some(string_of(&path)),
                    line_start,
                    line_end,
                },
            )
        },
        Err(e) => Err(e),
    }
}

/// A local file added by its `file://` URI, in any of the three documented
/// forms, whose path is an absolute path in canonical form, is stored with
/// no two `/`s in a row (so with no `file://`), and is read back from the
/// stored form as the same path with the same line range — where the
/// registry folder's parent is in canonical form too.
pub proof fn law_stored_uri_resolves_back(
    base: Seq<char>,
    path: Seq<char>,
    start: Option<usize>,
    end: Option<usize>,
)
    requires
        lacks(path, '#'),
        start is None ==> end is None,
        canonical_path(base),
        canonical_path(path),
    ensures
        stored_uri_spec(file_uri(path, start, end), base) matches Ok(st) && no_double_slash(st)
            && base_and_fragment(st).1 == line_fragment(start, end)
            && resolve_stored_spec(st, base) == Ok::<UriModel, UriError>(
            UriModel { scheme: file_scheme(), path: Some(path), line_start: start, line_end: end },
        ),
{
    let uri = file_uri(path, start, end);
    law_file_uri_roundtrip(path, start, end);
    lemma_file_uri_parts(path, start, end);
    let frag = line_fragment(start, end);
    let rel = relative_path(base, path);
    lemma_relative_path_shape(base, path, '#');
    let mk = marked(rel);
    let st = mk + fragment_suffix(frag);
    assert(stored_uri_spec(uri, base) == Ok::<Seq<char>, UriError>(st));
    law_relative_resolves_back(base, path);
    // The stored path keeps the relative path's shape and names the same file.
    assert(lacks(mk, '#') && no_double_slash(mk) && relative_form(mk) && resolve_path(base, mk)
        == path) by {
        if !relative_form(rel) {
            lemma_dot_prefix_resolves(base, rel);
            assert(mk == seq!['.', '/'] + rel);
            assert(mk[0] == '.' && mk[1] == '/');
            assert forall|i: int| 0 <= i < mk.len() implies mk[i] != '#' by {
                if i >= 2 {
                    assert(mk[i] == rel[i - 2]);
                }
            }
            assert forall|j: int| 0 <= j && j + 1 < mk.len() implies !(#[trigger] mk[j] == '/' && mk[j
                + 1] == '/') by {
                if j >= 2 {
                    assert(mk[j] == rel[j - 2] && mk[j + 1] == rel[j - 1]);
                } else if j == 1 {
                    assert(mk[2] == rel[0]);
                }
            }
        }
    }
    assert(find(mk, scheme_separator()) is None) by {
        lemma_find(mk, scheme_separator());
        assert forall|j: int| 0 <= j implies !occurs_at(mk, scheme_separator(), j) by {
            if occurs_at(mk, scheme_separator(), j) {
                let w = mk.subrange(j, j + 3);
                assert(w[1] == '/' && w[2] == '/');
                assert(mk[j + 1] == '/' && mk[j + 2] == '/');
            }
        }
    }
    match frag {
        Some(f) => {
            lemma_find_char_after(mk, '#', f);
            assert(st == mk + seq!['#'] + f);
            assert(st.take(mk.len() as int) =~= mk);
            assert(st.skip(mk.len() + 1int) =~= f);
            // The fragment is `L`, digits and `-`: no `/`.
            assert(lacks(f, '/')) by {
                let s0 = start->0;
                lemma_decimal_digits(s0 as nat);
                if end is Some {
                    lemma_decimal_digits(end->0 as nat);
                }
                assert forall|i: int| 0 <= i < f.len() implies f[i] != '/' by {
                    let d0 = decimal_spec(s0 as nat);
                    if end is Some {
                        let d1 = decimal_spec(end->0 as nat);
                        assert(f == seq!['L'] + d0 + seq!['-', 'L'] + d1);
                        if 1 <= i < 1 + d0.len() {
                            assert(f[i] == d0[i - 1]);
                        } else if i >= 3 + d0.len() {
                            assert(f[i] == d1[i - 3 - d0.len()]);
                        }
                    } else {
                        assert(f == seq!['L'] + d0);
                        if i >= 1 {
                            assert(f[i] == d0[i - 1]);
                        }
                    }
                }
            }
            assert forall|j: int| 0 <= j && j + 1 < st.len() implies !(#[trigger] st[j] == '/' && st[j
                + 1] == '/') by {
                if j + 1 < mk.len() {
                    assert(st[j] == mk[j] && st[j + 1] == mk[j + 1]);
                } else if j + 1 == mk.len() {
                    assert(st[j + 1] == '#');
                } else if j == mk.len() {
                    assert(st[j] == '#');
                } else {
                    assert(st[j] == f[j - mk.len() - 1]);
                }
            }
        },
        None => {
            assert(st =~= mk);
            lemma_find_char_absent(mk, '#');
        },
    }
}

} // verus!

verus! {

/// How a stored URI is shown in lists: a local file by its resolved path
/// (with `~` for the home folder) followed by the fragment; anything else
/// as stored.
pub open spec fn display_uri_spec(stored: Seq<char>, base: Seq<char>, home: Option<Seq<char>>) -> Seq<char> {
    match resolve_stored_spec(stored, base) {
        Ok(m) => if m.scheme == file_scheme() && m.path is Some {
            display_path_spec(m.path->0, home) + fragment_suffix(base_and_fragment(stored).1)
        } else {
            stored
        },
        Err(_) => stored,
    }
}

/// How a stored URI is shown in lists.
pub fn display_uri(stored: &str, base: &str, home: &Option<String>) -> (out: String)
    ensures
        out@ == display_uri_spec(stored@, base@, opt_view(*home)),
{
    match resolve_stored(stored, base) {
        Ok(parsed) => match crate::uri::uri_to_file_path(&parsed) {
            Some(p) => {
                let shown = display_path(p.as_str(), home);
                let mut out = chars_of(shown.as_str());
                let cs = chars_of(stored);
                let hash = vec!['#'];
                assert(hash@ =~= seq!['#']);
                match split_once_exec(&cs, &hash) {
                    Some((_, f)) => {
                        out.push('#');
                        crate::render::push_all(&mut out, &f);
                    },
                    None => {},
                }
                assert(out@ =~= display_path_spec(parsed@.path->0, opt_view(*home)) + fragment_suffix(
                    base_and_fragment(stored@).1,
                ));
                string_of(&out)
            },
            None => string_of(&chars_of(stored)),
        },
        Err(_) => string_of(&chars_of(stored)),
    }
}

} // verus!
