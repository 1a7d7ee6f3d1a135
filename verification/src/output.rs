//! What `dump` and `search` show of the sources of a registry: which local
//! files they read, the headers they print and the lines they show.

use vstd::prelude::*;

use crate::decimal::decimal_spec;
use crate::registry::{
    matches_filter, matches_tags, sources_view, Registry, SourceModel,
};
use crate::render::{push_str, push_usize};
use crate::text::{chars_of, opt_view, slice_chars, string_of, views};
use crate::storage::{resolve_stored, resolve_stored_spec};
use crate::uri::{file_scheme, uri_to_file_path, UriError, UriModel};

verus! {

// ── Which files ───────────────────────────────────────────────

/// A local file to read for one source, with the source's line range.
#[derive(Debug, Clone, PartialEq, Eq)]
pub struct FileTarget {
    /// The position of the source in its registry.
    pub index: usize,
    pub path: String,
    pub line_start: Option<usize>,
    pub line_end: Option<usize>,
}

/// The mathematical value of a [`FileTarget`].
pub struct TargetModel {
    pub index: int,
    pub path: Seq<char>,
    pub line_start: Option<usize>,
    pub line_end: Option<usize>,
}

impl View for FileTarget {
    type V = TargetModel;

    open spec fn view(&self) -> TargetModel {
        TargetModel {
            index: self.index as int,
            path: self.path@,
            line_start: self.line_start,
            line_end: self.line_end,
        }
    }
}

/// The views of a list of targets.
pub open spec fn targets_view(v: Seq<FileTarget>) -> Seq<TargetModel> {
    v.map_values(|t: FileTarget| t@)
}

/// The files read for the sources from position `i` on, stored URIs read
/// from the folder `base`: each source that the tag filter selects is read
/// where its URI names a local file (scheme `file` with a path) and skipped
/// where it names none; the first selected source whose URI does not parse
/// stops the walk, with its position and the reason.
pub open spec fn targets_from(sources: Seq<SourceModel>, base: Seq<char>, filter: Seq<Seq<char>>, i: int) -> (Seq<TargetModel>, Option<(int, UriError)>)
    decreases sources.len() - i,
{
    if i < 0 || i >= sources.len() {
        (Seq::empty(), None)
    } else if !matches_tags(sources[i], filter) {
        targets_from(sources, base, filter, i + 1)
    } else {
        match resolve_stored_spec(sources[i].uri, base) {
            Err(e) => (Seq::empty(), Some((i, e))),
            Ok(m) => {
                let rest = targets_from(sources, base, filter, i + 1);
                if m.scheme == file_scheme() && m.path is Some {
                    (
                        seq![
                            TargetModel {
                                index: i,
                                path: m.path->0,
                                line_start: m.line_start,
                                line_end: m.line_end,
                            },
                        ] + rest.0,
                        rest.1,
                    )
                } else {
                    rest
                }
            },
        }
    }
}

/// The local files that `dump` and `search` read for the sources of `reg`
/// that `filter` selects, in order, and the first selected source whose
/// URI does not parse, if any (the files before it are still read).
pub fn file_targets(reg: &Registry, base: &str, filter: &Vec<String>) -> (res: (Vec<FileTarget>, Option<(usize, UriError)>))
    ensures
        targets_view(res.0@) == targets_from(reg@.sources, base@, views(filter@), 0).0,
        match (res.1, targets_from(reg@.sources, base@, views(filter@), 0).1) {
            (Some((i, e)), Some((j, f))) => i == j && e == f,
            (None, None) => true,
            _ => false,
        },
{
    let ghost sv = reg@.sources;
    let ghost f = views(filter@);
    let mut out: Vec<FileTarget> = Vec::new();
    let mut i: usize = 0;
    while i < reg.sources.len()
        invariant
            i <= reg@.sources.len(),
            sv == reg@.sources,
            sv == sources_view(reg.sources@),
            f == views(filter@),
            targets_from(sv, base@, f, 0) == (
                targets_view(out@) + targets_from(sv, base@, f, i as int).0,
                targets_from(sv, base@, f, i as int).1,
            ),
        decreases reg@.sources.len() - i,
    {
        let src = &reg.sources[i];
        assert(sv[i as int] == src@);
        if matches_filter(src, filter) {
            match resolve_stored(src.uri.as_str(), base) {
                Err(e) => {
                    return (out, Some((i, e)));
                },
                Ok(parsed) => {
                    match uri_to_file_path(&parsed) {
                        Some(path) => {
                            let ghost prev = out@;
                            let t = FileTarget {
                                index: i,
                                path,
                                line_start: parsed.line_start,
                                line_end: parsed.line_end,
                            };
                            out.push(t);
                            assert(targets_view(out@) =~= targets_view(prev).push(t@));
                            assert(targets_view(out@) + targets_from(sv, base@, f, i + 1).0 =~= targets_view(prev)
                                + (seq![t@] + targets_from(sv, base@, f, i + 1).0));
                        },
                        None => {},
                    }
                },
            }
        }
        i = i + 1;
    }
    assert(targets_view(out@) + Seq::<TargetModel>::empty() =~= targets_view(out@));
    (out, None)
}

// ── Dump ──────────────────────────────────────────────────────

/// A path shown with `~` in place of the home folder where it lies inside it.
/// Trailing slashes of the home folder do not count (`/home/u/` is `/home/u`).
pub open spec fn display_path_spec(path: Seq<char>, home: Option<Seq<char>>) -> Seq<char> {
    match home {
        Some(home) => {
            let h = drop_trailing_slashes(home);
            if h.len() > 0 && path.len() >= h.len() && path.take(h.len() as int) == h && (
        path.len() == h.len() || path[h.len() as int] == '/') {
            seq!['~'] + path.skip(h.len() as int)
        } else {
            path
        }},
        None => path,
    }
}

/// `s` without its trailing `/`s.
pub open spec fn drop_trailing_slashes(s: Seq<char>) -> Seq<char>
    decreases s.len(),
{
    if s.len() > 0 && s.last() == '/' {
        drop_trailing_slashes(s.drop_last())
    } else {
        s
    }
}

fn drop_trailing_slashes_exec(s: &[char]) -> (out: Vec<char>)
    ensures
        out@ == drop_trailing_slashes(s@),
{
    let mut b: usize = s.len();
    assert(s@.take(b as int) == s@);
    while b > 0 && s[b - 1] == '/'
        invariant
            b <= s@.len(),
            drop_trailing_slashes(s@) == drop_trailing_slashes(s@.take(b as int)),
        decreases b,
    {
        assert(s@.take(b as int).drop_last() == s@.take(b - 1));
        b = b - 1;
    }
    slice_chars(s, 0, b)
}

/// `path`, with `~` in place of the home folder where it lies inside it.
pub fn display_path(path: &str, home: &Option<String>) -> (out: String)
    ensures
        out@ == display_path_spec(path@, opt_view(*home)),
{
    let p = chars_of(path);
    match home {
        Some(h) => {
            let hfull = chars_of(h.as_str());
            let hc = drop_trailing_slashes_exec(&hfull);
            if hc.len() > 0 && p.len() >= hc.len() && (p.len() == hc.len() || p[hc.len()] == '/') {
                let head = slice_chars(&p, 0, hc.len());
                if crate::registry::same_chars(&head, &hc) {
                    let mut v: Vec<char> = Vec::new();
                    v.push('~');
                    let tail = slice_chars(&p, hc.len(), p.len());
                    crate::render::push_all(&mut v, &tail);
                    assert(v@ =~= seq!['~'] + p@.skip(hc@.len() as int));
                    return string_of(&v);
                }
            }
            string_of(&p)
        },
        None => string_of(&p),
    }
}

/// The range part of a dump header: ` [L<start>-L<end>]`, ` [L<start>+]`
/// or nothing.
pub open spec fn range_tag_spec(start: Option<usize>, end: Option<usize>) -> Seq<char> {
    match (start, end) {
        (Some(s), Some(e)) => " [L"@ + decimal_spec(s as nat) + "-L"@ + decimal_spec(e as nat)
            + "]"@,
        (Some(s), None) => " [L"@ + decimal_spec(s as nat) + "+]"@,
        _ => Seq::empty(),
    }
}

/// The header of a dumped source: `// <path>`, then its range in brackets
/// where it has one, then ` — <label>` where it has a label.
pub open spec fn dump_header_spec(path: Seq<char>, start: Option<usize>, end: Option<usize>, label: Option<Seq<char>>) -> Seq<char> {
    "// "@ + path + range_tag_spec(start, end) + match label {
        Some(l) => " — "@ + l,
        None => Seq::empty(),
    }
}

/// The header of a dumped source.
pub fn dump_header(path: &str, start: Option<usize>, end: Option<usize>, label: &Option<String>) -> (out: String)
    ensures
        out@ == dump_header_spec(path@, start, end, opt_view(*label)),
{
    let mut v: Vec<char> = Vec::new();
    push_str(&mut v, "// ");
    push_str(&mut v, path);
    let ghost base = v@;
    match (start, end) {
        (Some(s), Some(e)) => {
            push_str(&mut v, " [L");
            push_usize(&mut v, s);
            push_str(&mut v, "-L");
            push_usize(&mut v, e);
            push_str(&mut v, "]");
        },
        (Some(s), None) => {
            push_str(&mut v, " [L");
            push_usize(&mut v, s);
            push_str(&mut v, "+]");
        },
        _ => {},
    }
    assert(v@ =~= base + range_tag_spec(start, end));
    let ghost ranged = v@;
    match label {
        Some(l) => {
            push_str(&mut v, " — ");
            push_str(&mut v, l.as_str());
        },
        None => {},
    }
    assert(v@ =~= dump_header_spec(path@, start, end, opt_view(*label)));
    string_of(&v)
}

// ── Search ────────────────────────────────────────────────────

/// The `sed` script that cuts out a source's range before searching:
/// `<start>,<end>p`, `<start>,$p`, or none for a whole file.
pub open spec fn sed_script_spec(start: Option<usize>, end: Option<usize>) -> Option<Seq<char>> {
    match (start, end) {
        (Some(s), Some(e)) => Some(decimal_spec(s as nat) + ","@ + decimal_spec(e as nat) + "p"@),
        (Some(s), None) => Some(decimal_spec(s as nat) + ",$p"@),
        _ => None,
    }
}

/// The `sed` script for a source's range, if it has one.
pub fn sed_script(start: Option<usize>, end: Option<usize>) -> (out: Option<String>)
    ensures
        opt_view(out) == sed_script_spec(start, end),
{
    let mut v: Vec<char> = Vec::new();
    match (start, end) {
        (Some(s), Some(e)) => {
            push_usize(&mut v, s);
            push_str(&mut v, ",");
            push_usize(&mut v, e);
            push_str(&mut v, "p");
            assert(v@ =~= decimal_spec(s as nat) + ","@ + decimal_spec(e as nat) + "p"@);
            Some(string_of(&v))
        },
        (Some(s), None) => {
            push_usize(&mut v, s);
            push_str(&mut v, ",$p");
            assert(v@ =~= decimal_spec(s as nat) + ",$p"@);
            Some(string_of(&v))
        },
        _ => None,
    }
}

/// The header over the matches in one file: `── <path> (L<start>-L<end>) ──`,
/// `── <path> (L<start>+) ──` or `── <path> ──`.
pub open spec fn search_header_spec(path: Seq<char>, start: Option<usize>, end: Option<usize>) -> Seq<char> {
    match (start, end) {
        (Some(s), Some(e)) => "── "@ + path + " (L"@ + decimal_spec(s as nat) + "-L"@ + decimal_spec(
            e as nat,
        ) + ") ──"@,
        (Some(s), None) => "── "@ + path + " (L"@ + decimal_spec(s as nat) + "+) ──"@,
        _ => "── "@ + path + " ──"@,
    }
}

/// The header over the matches in one file.
pub fn search_header(path: &str, start: Option<usize>, end: Option<usize>) -> (out: String)
    ensures
        out@ == search_header_spec(path@, start, end),
{
    let mut v: Vec<char> = Vec::new();
    push_str(&mut v, "── ");
    push_str(&mut v, path);
    match (start, end) {
        (Some(s), Some(e)) => {
            push_str(&mut v, " (L");
            push_usize(&mut v, s);
            push_str(&mut v, "-L");
            push_usize(&mut v, e);
            push_str(&mut v, ") ──");
        },
        (Some(s), None) => {
            push_str(&mut v, " (L");
            push_usize(&mut v, s);
            push_str(&mut v, "+) ──");
        },
        _ => {
            push_str(&mut v, " ──");
        },
    }
    assert(v@ =~= search_header_spec(path@, start, end));
    string_of(&v)
}

} // verus!

verus! {

/// The file that the source at position `i` is read as, where the tag
/// filter selects it and its URI names a local file.
pub open spec fn source_target(sources: Seq<SourceModel>, base: Seq<char>, filter: Seq<Seq<char>>, i: int) -> Option<TargetModel> {
    if matches_tags(sources[i], filter) {
        match resolve_stored_spec(sources[i].uri, base) {
            Ok(m) => if m.scheme == file_scheme() && m.path is Some {
                Some(TargetModel { index: i, path: m.path->0, line_start: m.line_start, line_end: m.line_end })
            } else {
                None
            },
            Err(_) => None,
        }
    } else {
        None
    }
}

proof fn lemma_targets_from(sources: Seq<SourceModel>, base: Seq<char>, filter: Seq<Seq<char>>, n: int)
    requires
        0 <= n <= sources.len(),
        targets_from(sources, base, filter, n).1 is None,
    ensures
        forall|i: int| n <= i < sources.len() && (#[trigger] source_target(sources, base, filter, i)) is Some
            ==> targets_from(sources, base, filter, n).0.contains(source_target(sources, base, filter, i)->0),
        forall|k: int| 0 <= k < targets_from(sources, base, filter, n).0.len() ==> {
            let t = #[trigger] targets_from(sources, base, filter, n).0[k];
            n <= t.index < sources.len() && source_target(sources, base, filter, t.index) == Some(t)
        },
        forall|k: int, l: int| 0 <= k < l < targets_from(sources, base, filter, n).0.len() ==>
            (#[trigger] targets_from(sources, base, filter, n).0[k]).index
                < (#[trigger] targets_from(sources, base, filter, n).0[l]).index,
    decreases sources.len() - n,
{
    if n < sources.len() {
        lemma_targets_from(sources, base, filter, n + 1);
        let rest = targets_from(sources, base, filter, n + 1).0;
        let all = targets_from(sources, base, filter, n).0;
        if matches_tags(sources[n], filter) {
            let m = resolve_stored_spec(sources[n].uri, base)->Ok_0;
            if m.scheme == file_scheme() && m.path is Some {
                let t = source_target(sources, base, filter, n)->0;
                assert(all == seq![t] + rest);
                assert forall|i: int| n <= i < sources.len() && (#[trigger] source_target(sources, base, filter, i)) is Some
                    implies all.contains(source_target(sources, base, filter, i)->0) by {
                    if i == n {
                        assert(all[0] == t);
                    } else {
                        let u = source_target(sources, base, filter, i)->0;
                        let k = choose|k: int| 0 <= k < rest.len() && rest[k] == u;
                        assert(all[k + 1] == u);
                    }
                }
                assert forall|k: int| 0 <= k < all.len() implies {
                    let t2 = #[trigger] all[k];
                    n <= t2.index < sources.len() && source_target(sources, base, filter, t2.index) == Some(t2)
                } by {
                    if k > 0 {
                        assert(all[k] == rest[k - 1]);
                    }
                }
                assert forall|k: int, l: int| 0 <= k < l < all.len() implies (#[trigger] all[k]).index
                    < (#[trigger] all[l]).index by {
                    assert(all[l] == rest[l - 1]);
                    if k > 0 {
                        assert(all[k] == rest[k - 1]);
                    }
                }
            }
        }
    }
}

/// Where no selected source fails to parse, `dump` and `search` read every
/// selected source that names a local file, each at its own position (the
/// same file added twice is read twice), read nothing else, and read them
/// in the order of the sources.
pub proof fn law_every_local_source_is_read(sources: Seq<SourceModel>, base: Seq<char>, filter: Seq<Seq<char>>)
    requires
        targets_from(sources, base, filter, 0).1 is None,
    ensures
        forall|i: int| 0 <= i < sources.len() && (#[trigger] source_target(sources, base, filter, i)) is Some
            ==> targets_from(sources, base, filter, 0).0.contains(source_target(sources, base, filter, i)->0),
        forall|k: int| 0 <= k < targets_from(sources, base, filter, 0).0.len() ==> {
            let t = #[trigger] targets_from(sources, base, filter, 0).0[k];
            0 <= t.index < sources.len() && source_target(sources, base, filter, t.index) == Some(t)
        },
        forall|k: int, l: int| 0 <= k < l < targets_from(sources, base, filter, 0).0.len() ==>
            (#[trigger] targets_from(sources, base, filter, 0).0[k]).index
                < (#[trigger] targets_from(sources, base, filter, 0).0[l]).index,
{
    lemma_targets_from(sources, base, filter, 0);
}

} // verus!

verus! {

/// A `dump` header begins with `// ` and the path, and a source's label,
/// where it has one, ends the header after ` — `, whatever the line range.
pub proof fn law_dump_header_shows_label(path: Seq<char>, start: Option<usize>, end: Option<usize>, l: Seq<char>)
    ensures
        dump_header_spec(path, start, end, Some(l)) == dump_header_spec(path, start, end, None) + " — "@ + l,
        dump_header_spec(path, start, end, None).take(path.len() + 3int) == "// "@ + path,
{
    reveal_strlit("// ");
    let h = dump_header_spec(path, start, end, None);
    assert(h =~= "// "@ + path + range_tag_spec(start, end));
    assert(h.take(path.len() + 3int) =~= "// "@ + path);
}

/// Whether the tag filter selects the source at position `i` and its URI
/// does not parse.
pub open spec fn source_fails(sources: Seq<SourceModel>, base: Seq<char>, filter: Seq<Seq<char>>, i: int) -> bool {
    matches_tags(sources[i], filter) && resolve_stored_spec(sources[i].uri, base) is Err
}

proof fn lemma_targets_stop(sources: Seq<SourceModel>, base: Seq<char>, filter: Seq<Seq<char>>, n: int)
    requires
        0 <= n <= sources.len(),
    ensures
        match targets_from(sources, base, filter, n).1 {
            Some((i, e)) => n <= i < sources.len() && matches_tags(sources[i], filter)
                && resolve_stored_spec(sources[i].uri, base) == Err::<UriModel, UriError>(e)
                && forall|j: int| n <= j < i ==> !#[trigger] source_fails(sources, base, filter, j),
            None => forall|j: int| n <= j < sources.len() ==> !#[trigger] source_fails(sources, base, filter, j),
        },
    decreases sources.len() - n,
{
    if n < sources.len() {
        lemma_targets_stop(sources, base, filter, n + 1);
    }
}

/// `dump` and `search` stop at the first source that the tag filter selects
/// and whose URI does not parse, with its position and the reason; where no
/// selected source fails to parse, they do not stop.
pub proof fn law_first_bad_uri_stops(sources: Seq<SourceModel>, base: Seq<char>, filter: Seq<Seq<char>>)
    ensures
        match targets_from(sources, base, filter, 0).1 {
            Some((i, e)) => 0 <= i < sources.len() && matches_tags(sources[i], filter)
                && resolve_stored_spec(sources[i].uri, base) == Err::<UriModel, UriError>(e)
                && forall|j: int| 0 <= j < i ==> !#[trigger] source_fails(sources, base, filter, j),
            None => forall|j: int| 0 <= j < sources.len() ==> !#[trigger] source_fails(sources, base, filter, j),
        },
{
    lemma_targets_stop(sources, base, filter, 0);
}

} // verus!
