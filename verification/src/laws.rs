//! Properties that relate the registry operations to one another.

use vstd::prelude::*;

use crate::lines::{lemma_first_newline, lines_spec, shown_range, strip_cr};
use crate::decimal::decimal_spec;
use crate::output::sed_script_spec;
use crate::text::lacks;
use crate::output::{display_path_spec, targets_from, TargetModel};
use crate::path::{canonical_path, no_double_slash};
use crate::render::pad_spec;
use crate::report::{join_spec, label_or_dash, source_row_spec};
use crate::storage::{display_uri_spec, fragment_suffix, law_stored_uri_resolves_back, stored_uri_spec};
use crate::uri::{file_uri, line_fragment, UriError};
use crate::registry::{
    add_source_spec, is_deletable_name, join_path, registry_file, matches_tags, remove_source_spec, update_source_spec, RegistryError,
    RegistryModel, SourceModel,
};

verus! {

/// Removing the source that was just added gives back the registry as it
/// was, and the source.
pub proof fn law_remove_undoes_add(r: RegistryModel, s: SourceModel)
    ensures
        remove_source_spec(add_source_spec(r, s), r.sources.len() as int) == Ok::<
            (RegistryModel, SourceModel),
            RegistryError,
        >((r, s)),
{
    assert(r.sources.push(s).remove(r.sources.len() as int) =~= r.sources);
}

/// Removing a source moves every later source down by one position and
/// leaves the earlier ones where they were.
pub proof fn law_remove_reindexes(r: RegistryModel, index: int)
    requires
        0 <= index < r.sources.len(),
    ensures
        remove_source_spec(r, index) matches Ok((r2, removed)) && removed == r.sources[index]
            && r2.sources.len() == r.sources.len() - 1 && (forall|j: int|
            0 <= j < index ==> r2.sources[j] == r.sources[j]) && (forall|j: int|
            index <= j < r2.sources.len() ==> r2.sources[j] == r.sources[j + 1]),
{
}

/// An index at or past the number of sources is refused by both remove and
/// update, with the index and the number of sources.
pub proof fn law_out_of_range_refused(
    r: RegistryModel,
    index: int,
    label: Option<Seq<char>>,
    tags: Option<Seq<Seq<char>>>,
)
    requires
        r.sources.len() <= index <= usize::MAX,
    ensures
        remove_source_spec(r, index) == Err::<(RegistryModel, SourceModel), RegistryError>(
            RegistryError::IndexOutOfRange { index: index as usize, len: r.sources.len() as usize },
        ),
        update_source_spec(r, index, label, tags) == Err::<RegistryModel, RegistryError>(
            RegistryError::IndexOutOfRange { index: index as usize, len: r.sources.len() as usize },
        ),
{
}

/// An update that gives neither label nor tags changes nothing.
pub proof fn law_update_nothing_is_identity(r: RegistryModel, index: int)
    requires
        0 <= index < r.sources.len(),
    ensures
        update_source_spec(r, index, None, None) == Ok::<RegistryModel, RegistryError>(r),
{
    assert(r.sources.update(index, r.sources[index]) =~= r.sources);
}

/// An update of the label alone sets the label and keeps the tags, the URI,
/// the time of adding and every other source.
pub proof fn law_update_label_keeps_tags(r: RegistryModel, index: int, label: Seq<char>)
    requires
        0 <= index < r.sources.len(),
    ensures
        update_source_spec(r, index, Some(label), None) matches Ok(r2) && r2.sources.len()
            == r.sources.len() && r2.sources[index].label == Some(label)
            && r2.sources[index].tags == r.sources[index].tags && r2.sources[index].uri
            == r.sources[index].uri && r2.sources[index].added == r.sources[index].added && (
        forall|j: int| 0 <= j < r.sources.len() && j != index ==> r2.sources[j] == r.sources[j]),
{
}

/// An update of the tags alone replaces the tags (the old ones are gone,
/// not extended) and keeps the label, the URI and every other source.
pub proof fn law_update_tags_replaces(r: RegistryModel, index: int, tags: Seq<Seq<char>>)
    requires
        0 <= index < r.sources.len(),
    ensures
        update_source_spec(r, index, None, Some(tags)) matches Ok(r2) && r2.sources.len()
            == r.sources.len() && r2.sources[index].tags == tags && r2.sources[index].label
            == r.sources[index].label && r2.sources[index].uri == r.sources[index].uri && (forall|
            j: int,
        |
            0 <= j < r.sources.len() && j != index ==> r2.sources[j] == r.sources[j]),
{
}

/// An empty tag filter selects every source.
pub proof fn law_empty_filter_selects_all(s: SourceModel)
    ensures
        matches_tags(s, Seq::empty()),
{
}

/// A source's own tag selects it.
pub proof fn law_own_tag_selects(s: SourceModel, k: int)
    requires
        0 <= k < s.tags.len(),
    ensures
        matches_tags(s, seq![s.tags[k]]),
{
    assert(seq![s.tags[k]][0] == s.tags[k]);
}

/// The lines shown for a range always lie within the file, however far the
/// range reaches past its end, and a range `L<start>-L<end>` within the file
/// shows exactly `end - start + 1` lines.
pub proof fn law_shown_range_within_file(content: Seq<char>, start: Option<usize>, end: Option<usize>)
    requires
        start matches Some(s) ==> s >= 1,
    ensures
        0 <= shown_range(lines_spec(content).len() as int, start, end).0 <= shown_range(
            lines_spec(content).len() as int,
            start,
            end,
        ).1 <= lines_spec(content).len(),
        (start is Some && end is Some && start->0 <= end->0 && end->0 <= lines_spec(content).len())
            ==> shown_range(lines_spec(content).len() as int, start, end).1 - shown_range(
            lines_spec(content).len() as int,
            start,
            end,
        ).0 == end->0 - start->0 + 1,
{
}

/// The file of a registry whose name delete accepts lies directly inside the
/// registry folder: the path is the folder, a `/` where needed, and a file
/// name that holds no `/` and no `\` and ends with `.json` (so it is
/// neither `.` nor `..`).
pub proof fn law_registry_file_stays_in_folder(dir: Seq<char>, name: Seq<char>)
    requires
        is_deletable_name(name),
    ensures
        join_path(dir, registry_file(name)).take(dir.len() as int) == dir,
        lacks(registry_file(name), '/'),
        lacks(registry_file(name), '\\'),
        registry_file(name).len() >= 5,
        registry_file(name).skip(registry_file(name).len() - 5) == seq!['.', 'j', 's', 'o', 'n'],
{
    let f = registry_file(name);
    assert(f.skip(f.len() - 5) =~= seq!['.', 'j', 's', 'o', 'n']);
    assert(join_path(dir, f).take(dir.len() as int) =~= dir);
    assert forall|i: int| 0 <= i < f.len() implies f[i] != '/' && f[i] != '\\' by {
        if i < name.len() {
            assert(f[i] == name[i]);
        }
    }
}

/// Lines written one after another, each ended by a line feed.
pub open spec fn with_newlines(ls: Seq<Seq<char>>) -> Seq<char>
    decreases ls.len(),
{
    if ls.len() == 0 {
        Seq::empty()
    } else {
        ls[0] + seq!['\n'] + with_newlines(ls.drop_first())
    }
}

/// Lines written to a file, each ended by a line feed, are read back as the
/// same lines — as long as no line holds a line feed or ends with a
/// carriage return.
pub proof fn law_lines_read_back(ls: Seq<Seq<char>>)
    requires
        forall|i: int|
            0 <= i < ls.len() ==> lacks(#[trigger] ls[i], '\n') && (ls[i].len() == 0
                || ls[i].last() != '\r'),
    ensures
        lines_spec(with_newlines(ls)) == ls,
    decreases ls.len(),
{
    if ls.len() > 0 {
        let l0 = ls[0];
        let rest = with_newlines(ls.drop_first());
        let s = l0 + seq!['\n'] + rest;
        assert(s == with_newlines(ls));
        assert forall|k: int| 0 <= k < l0.len() implies s[k] != '\n' by {
            assert(lacks(ls[0], '\n'));
            assert(s[k] == l0[k]);
        }
        lemma_first_newline(s, l0.len() as int);
        assert(s.take(l0.len() as int) =~= l0);
        assert(s.skip(l0.len() + 1int) =~= rest);
        assert(strip_cr(l0) == l0);
        assert forall|i: int| 0 <= i < ls.drop_first().len() implies lacks(
            #[trigger] ls.drop_first()[i],
            '\n',
        ) && (ls.drop_first()[i].len() == 0 || ls.drop_first()[i].last() != '\r') by {
            assert(ls.drop_first()[i] == ls[i + 1]);
        }
        law_lines_read_back(ls.drop_first());
        assert(seq![l0] + ls.drop_first() =~= ls);
    }
}

/// The lines, as positions `[first, last)` in a file of `n` lines, that
/// `sed -n` prints for the address range `<start>,<end>` (or `<start>,$`
/// where there is no end), as sed documents it: from line `start` through
/// line `end`, only line `start` where `end` lies before it, nothing where
/// the file ends before `start`.
pub open spec fn sed_range(n: int, start: usize, end: Option<usize>) -> (int, int) {
    if start > n {
        (n, n)
    } else {
        match end {
            Some(e) => if e < start {
                (start - 1, start as int)
            } else {
                (start - 1, if e <= n { e as int } else { n })
            },
            None => (start - 1, n),
        }
    }
}

/// Search never looks at lines that dump does not show: the `sed` script
/// written for a source's range selects exactly the lines that dump shows
/// of it, for every range whose start is at least 1 and not after its end.
pub proof fn law_search_stays_within_dump(n: nat, start: usize, end: Option<usize>)
    requires
        start >= 1,
        end matches Some(e) ==> start <= e,
    ensures
        sed_script_spec(Some(start), end) == Some(match end {
            Some(e) => decimal_spec(start as nat) + ","@ + decimal_spec(e as nat) + "p"@,
            None => decimal_spec(start as nat) + ",$p"@,
        }),
        sed_range(n as int, start, end) == shown_range(n as int, Some(start), end),
{
}

} // verus!

verus! {

/// A local file added to a registry by its `file://` URI — its path, and
/// the parent `base` of the registry folder, absolute paths in canonical
/// form — is stored with no `file://` (no two `/`s in a row); `source list`
/// shows it as its path (`~` for the home folder) followed by its line
/// fragment; and `dump` and `search` read it, at its position, as that path
/// with that line range.
pub proof fn law_added_file_lists_back(
    r: RegistryModel,
    base: Seq<char>,
    path: Seq<char>,
    start: Option<usize>,
    end: Option<usize>,
    home: Option<Seq<char>>,
    label: Option<Seq<char>>,
    tags: Seq<Seq<char>>,
    added: Seq<char>,
)
    requires
        lacks(path, '#'),
        start is None ==> end is None,
        canonical_path(base),
        canonical_path(path),
    ensures
        stored_uri_spec(file_uri(path, start, end), base) matches Ok(st) && {
            let src = SourceModel { uri: st, label, tags, added };
            let n = r.sources.len();
            &&& no_double_slash(st)
            &&& display_uri_spec(st, base, home) == display_path_spec(path, home) + fragment_suffix(
                line_fragment(start, end),
            )
            &&& source_row_spec(n, src, base, home) == pad_spec(decimal_spec(n), 4) + " "@ + pad_spec(
                label_or_dash(label),
                15,
            ) + " "@ + pad_spec(join_spec(tags, ','), 10) + " "@ + display_path_spec(path, home)
                + fragment_suffix(line_fragment(start, end))
            &&& targets_from(add_source_spec(r, src).sources, base, Seq::empty(), n as int) == (
                seq![TargetModel { index: n as int, path, line_start: start, line_end: end }],
                None::<(int, UriError)>,
            )
        },
{
    law_stored_uri_resolves_back(base, path, start, end);
    let st = stored_uri_spec(file_uri(path, start, end), base)->Ok_0;
    let src = SourceModel { uri: st, label, tags, added };
    let n = r.sources.len();
    let srcs = add_source_spec(r, src).sources;
    assert(srcs[n as int] == src);
    assert(matches_tags(src, Seq::empty()));
    assert(targets_from(srcs, base, Seq::empty(), (n + 1) as int) == (Seq::<TargetModel>::empty(), None::<(int, UriError)>));
    assert(seq![TargetModel { index: n as int, path, line_start: start, line_end: end }] + Seq::<TargetModel>::empty()
        =~= seq![TargetModel { index: n as int, path, line_start: start, line_end: end }]);
}

} // verus!
