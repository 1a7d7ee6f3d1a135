//! Registries and their sources, and the rules by which sources are added,
//! removed, updated and selected, and by which a registry's file is named.

use vstd::prelude::*;

use crate::decimal::{all_digits, digit_value, is_digit};
use crate::text::{chars_of, find, find_exec, find_from, lacks, opt_view, slice_chars, string_of, views};
use crate::storage::{store_uri, stored_uri_spec};
use crate::uri::{parse_uri, parse_uri_spec, UriError};

verus! {

/// A URI-addressable knowledge source with optional label and tags.
#[derive(Debug, Clone)]
pub struct Source {
    pub uri: String,
    pub label: Option<String>,
    pub tags: Vec<String>,
    pub added: String,
}

/// A named collection of knowledge sources.
#[derive(Debug, Clone)]
pub struct Registry {
    pub name: String,
    pub description: Option<String>,
    pub created: String,
    pub sources: Vec<Source>,
}

/// The mathematical value of a [`Source`].
pub struct SourceModel {
    pub uri: Seq<char>,
    pub label: Option<Seq<char>>,
    pub tags: Seq<Seq<char>>,
    pub added: Seq<char>,
}

/// The mathematical value of a [`Registry`].
pub struct RegistryModel {
    pub name: Seq<char>,
    pub description: Option<Seq<char>>,
    pub created: Seq<char>,
    pub sources: Seq<SourceModel>,
}



impl View for Source {
    type V = SourceModel;

    open spec fn view(&self) -> SourceModel {
        SourceModel {
            uri: self.uri@,
            label: opt_view(self.label),
            tags: views(self.tags@),
            added: self.added@,
        }
    }
}

/// The views of a list of sources.
pub open spec fn sources_view(v: Seq<Source>) -> Seq<SourceModel> {
    v.map_values(|s: Source| s@)
}

impl View for Registry {
    type V = RegistryModel;

    open spec fn view(&self) -> RegistryModel {
        RegistryModel {
            name: self.name@,
            description: opt_view(self.description),
            created: self.created@,
            sources: sources_view(self.sources@),
        }
    }
}

/// Why a registry operation was refused.
#[derive(Debug, Clone, PartialEq, Eq)]
pub enum RegistryError {
    /// A source index at or past the number of sources.
    IndexOutOfRange { index: usize, len: usize },
    /// A name that `registry delete` refuses because it reads as a path.
    InvalidName,
    /// A URI that does not parse.
    InvalidUri(UriError),
    /// No registry file of that name.
    NotFound,
    /// The registry's path names something other than a regular file.
    NotAFile,
    /// The registry file does not hold a registry.
    Corrupt,
    /// The registry file holds a registry of another name.
    NameMismatch { found: String },
    /// A registry of that name exists already.
    AlreadyExists,
}

// ── Sources ────────────────────────────────────────────────────

/// The registry with `src` appended to its sources.
pub open spec fn add_source_spec(r: RegistryModel, src: SourceModel) -> RegistryModel {
    RegistryModel { sources: r.sources.push(src), ..r }
}

/// Removing the source at `index`: the registry without it, and the source.
pub open spec fn remove_source_spec(r: RegistryModel, index: int) -> Result<(RegistryModel, SourceModel), RegistryError> {
    if 0 <= index < r.sources.len() {
        Ok((RegistryModel { sources: r.sources.remove(index), ..r }, r.sources[index]))
    } else {
        Err(RegistryError::IndexOutOfRange { index: index as usize, len: r.sources.len() as usize })
    }
}

/// A source with its label replaced where a new one is given, and its tags
/// replaced (not extended) where new ones are given.
pub open spec fn updated_source(s: SourceModel, label: Option<Seq<char>>, tags: Option<Seq<Seq<char>>>) -> SourceModel {
    SourceModel {
        label: match label {
            Some(l) => Some(l),
            None => s.label,
        },
        tags: match tags {
            Some(t) => t,
            None => s.tags,
        },
        ..s
    }
}

/// Updating the metadata of the source at `index`.
pub open spec fn update_source_spec(r: RegistryModel, index: int, label: Option<Seq<char>>, tags: Option<Seq<Seq<char>>>) -> Result<RegistryModel, RegistryError> {
    if 0 <= index < r.sources.len() {
        Ok(RegistryModel {
            sources: r.sources.update(index, updated_source(r.sources[index], label, tags)),
            ..r
        })
    } else {
        Err(RegistryError::IndexOutOfRange { index: index as usize, len: r.sources.len() as usize })
    }
}

/// The view of an optional list of strings.
pub open spec fn tags_view(o: Option<Vec<String>>) -> Option<Seq<Seq<char>>> {
    match o {
        Some(t) => Some(views(t@)),
        None => None,
    }
}

/// Two ASCII digits at `i` and `i + 1` whose value lies in `lo..=hi`.
pub open spec fn two_digits_within(s: Seq<char>, i: int, lo: nat, hi: nat) -> bool {
    &&& is_digit(s[i])
    &&& is_digit(s[i + 1])
    &&& lo <= digit_value(s[i]) * 10 + digit_value(s[i + 1]) <= hi
}

/// The year of an RFC 3339 timestamp as `chrono` writes it: four digits,
/// or, outside 0 to 9999, a sign and at least four digits.
pub open spec fn year_shaped(y: Seq<char>) -> bool {
    ||| y.len() == 4 && all_digits(y)
    ||| y.len() >= 5 && (y[0] == '+' || y[0] == '-') && all_digits(y.skip(1))
}

/// The fraction of a second as `chrono` writes it: none, or `.` and 3, 6
/// or 9 digits.
pub open spec fn fraction_shaped(f: Seq<char>) -> bool {
    ||| f.len() == 0
    ||| (f.len() == 4 || f.len() == 7 || f.len() == 10) && f[0] == '.' && all_digits(f.skip(1))
}

/// The offset that `chrono` writes for UTC.
pub open spec fn utc_offset() -> Seq<char> {
    seq!['+', '0', '0', ':', '0', '0']
}

/// The rest of a timestamp whose year ends at `y`: `-`, month 01–12, `-`,
/// day 01–31, `T`, hour 00–23, `:`, minute 00–59, `:`, second 00–60, a
/// fraction, and `+00:00`.
pub open spec fn timestamp_after_year(s: Seq<char>, y: int) -> bool {
    &&& 0 <= y
    &&& s.len() >= y + 21
    &&& s[y] == '-' && two_digits_within(s, y + 1, 1, 12)
    &&& s[y + 3] == '-' && two_digits_within(s, y + 4, 1, 31)
    &&& s[y + 6] == 'T' && two_digits_within(s, y + 7, 0, 23)
    &&& s[y + 9] == ':' && two_digits_within(s, y + 10, 0, 59)
    &&& s[y + 12] == ':' && two_digits_within(s, y + 13, 0, 60)
    &&& fraction_shaped(s.subrange(y + 15, s.len() - 6))
    &&& s.skip(s.len() - 6) == utc_offset()
}

/// A UTC time in the RFC 3339 form that `chrono`'s `to_rfc3339` writes: the
/// year runs up to the first `-` after the first character, and the rest
/// follows it as `timestamp_after_year` states.
pub open spec fn is_utc_timestamp_shaped(s: Seq<char>) -> bool {
    match find_from(s, seq!['-'], 1) {
        Some(y) => year_shaped(s.take(y)) && timestamp_after_year(s, y),
        None => false,
    }
}

/// A timestamp of that form is at least 25 characters long, all ASCII.
pub proof fn lemma_timestamp_ascii(s: Seq<char>)
    requires
        is_utc_timestamp_shaped(s),
    ensures
        s.len() >= 25,
        forall|i: int| 0 <= i < s.len() ==> (#[trigger] s[i]) <= '\u{7f}',
{
    let y = find_from(s, seq!['-'], 1)->0;
    let yr = s.take(y);
    let f = s.subrange(y + 15, s.len() - 6);
    let off = s.skip(s.len() - 6);
    assert(y >= 4);
    assert forall|i: int| 0 <= i < s.len() implies (#[trigger] s[i]) <= '\u{7f}' by {
        if i < y {
            assert(yr[i] == s[i]);
            if i > 0 || yr.len() == 4 {
                if yr.len() == 4 {
                    assert(is_digit(yr[i]));
                } else {
                    assert(yr.skip(1)[i - 1] == yr[i]);
                    assert(is_digit(yr.skip(1)[i - 1]));
                }
            }
        } else if i < y + 15 {
        } else if i < s.len() - 6 {
            assert(f[i - y - 15] == s[i]);
            if i > y + 15 {
                assert(f.skip(1)[i - y - 16] == f[i - y - 15]);
                assert(is_digit(f.skip(1)[i - y - 16]));
            }
        } else {
            assert(off[i - (s.len() - 6)] == s[i]);
        }
    }
}

/// The current time as an RFC 3339 timestamp (`chrono::Utc::now` then
/// `DateTime::to_rfc3339`). Which time it is, is the machine's clock and is
/// not stated; what is claimed is the shape that `to_rfc3339` always writes
/// for UTC (`write_rfc3339` with `SecondsFormat::AutoSi`): year (four
/// digits, or a sign and at least four digits outside 0 to 9999), `-`,
/// month 01–12, `-`, day 01–31, `T`, hour 00–23, `:`, minute 00–59, `:`,
/// second 00–60 (60 for a leap second), no fraction or `.` and 3, 6 or 9
/// digits, then `+00:00`.
#[verifier::external_body]
fn now_rfc3339() -> (s: String)
    ensures
        is_utc_timestamp_shaped(s@),
{
    chrono::Utc::now().to_rfc3339()
}

impl Source {
    /// A source with the given fields.
    pub fn new(uri: String, label: Option<String>, tags: Vec<String>, added: String) -> (s: Source)
        ensures
            s.uri == uri,
            s.label == label,
            s.tags == tags,
            s.added == added,
    {
        Source { uri, label, tags, added }
    }
}

impl Registry {
    /// An empty registry with the given name and creation time, and no
    /// description.
    pub fn new(name: String, created: String) -> (r: Registry)
        ensures
            r@.name == name@,
            r@.description is None,
            r@.created == created@,
            r@.sources == Seq::<SourceModel>::empty(),
    {
        let r = Registry { name, description: None, created, sources: Vec::new() };
        assert(r@.sources =~= Seq::<SourceModel>::empty());
        r
    }

    /// An empty registry with the given description, created now.
    pub fn create(name: String, description: Option<String>) -> (r: Registry)
        ensures
            r@.name == name@,
            r@.description == opt_view(description),
            is_utc_timestamp_shaped(r@.created),
            r@.sources == Seq::<SourceModel>::empty(),
    {
        let mut r = Registry::new(name, now_rfc3339());
        r.description = description;
        r
    }

    /// Replaces the registry's description; nothing else changes.
    pub fn set_description(&mut self, description: String)
        ensures
            final(self)@ == (RegistryModel { description: Some(description@), ..old(self)@ }),
    {
        self.description = Some(description);
    }

    /// Appends a source with the given metadata and timestamp, once its URI
    /// parses; a URI that does not parse leaves the registry as it was.
    /// Returns the new source's index.
    pub fn add_source_at(&mut self, uri: String, label: Option<String>, tags: Vec<String>, added: String) -> (res: Result<usize, RegistryError>)
        ensures
            match parse_uri_spec(uri@) {
                Ok(_) => res == Ok::<usize, RegistryError>(old(self)@.sources.len() as usize)
                    && final(self)@ == add_source_spec(
                    old(self)@,
                    SourceModel {
                        uri: uri@,
                        label: opt_view(label),
                        tags: views(tags@),
                        added: added@,
                    },
                ),
                Err(e) => res == Err::<usize, RegistryError>(RegistryError::InvalidUri(e))
                    && final(self)@ == old(self)@,
            },
    {
        match parse_uri(uri.as_str()) {
            Err(e) => Err(RegistryError::InvalidUri(e)),
            Ok(_) => {
                let index = self.sources.len();
                let ghost before = self.sources@;
                self.sources.push(Source { uri, label, tags, added });
                assert(sources_view(self.sources@) =~= sources_view(before).push(
                    self.sources@.last()@,
                ));
                Ok(index)
            },
        }
    }

    /// Appends a source added at the time `added`, once its URI parses, in
    /// the form in which a registry whose folder's parent is `base` stores it
    /// (a local file by its path relative to `base`).
    pub fn add_source_timed(
        &mut self,
        uri: String,
        base: &str,
        label: Option<String>,
        tags: Vec<String>,
        added: String,
    ) -> (res: Result<usize, RegistryError>)
        ensures
            match stored_uri_spec(uri@, base@) {
                Ok(stored) => res == Ok::<usize, RegistryError>(old(self)@.sources.len() as usize)
                    && final(self)@ == add_source_spec(
                    old(self)@,
                    SourceModel { uri: stored, label: opt_view(label), tags: views(tags@), added: added@ },
                ),
                Err(e) => res == Err::<usize, RegistryError>(RegistryError::InvalidUri(e))
                    && final(self)@ == old(self)@,
            },
    {
        match store_uri(uri.as_str(), base) {
            Err(e) => Err(RegistryError::InvalidUri(e)),
            Ok(stored) => {
                let index = self.sources.len();
                let ghost before = self.sources@;
                self.sources.push(Source { uri: stored, label, tags, added });
                assert(sources_view(self.sources@) =~= sources_view(before).push(
                    self.sources@.last()@,
                ));
                Ok(index)
            },
        }
    }

    /// Appends a source added now, once its URI parses, in the form in which
    /// a registry whose folder's parent is `base` stores it (a local file by
    /// its path relative to `base`).
    pub fn add_source(&mut self, uri: String, base: &str, label: Option<String>, tags: Vec<String>) -> (res: Result<usize, RegistryError>)
        ensures
            match stored_uri_spec(uri@, base@) {
                Ok(stored) => res == Ok::<usize, RegistryError>(old(self)@.sources.len() as usize)
                    && final(self)@.name == old(self)@.name
                    && final(self)@.description == old(self)@.description
                    && final(self)@.created == old(self)@.created
                    && final(self)@.sources.len() == old(self)@.sources.len() + 1
                    && final(self)@.sources.drop_last() == old(self)@.sources
                    && final(self)@.sources.last().uri == stored
                    && final(self)@.sources.last().label == opt_view(label)
                    && final(self)@.sources.last().tags == views(tags@)
                    && is_utc_timestamp_shaped(final(self)@.sources.last().added),
                Err(e) => res == Err::<usize, RegistryError>(RegistryError::InvalidUri(e))
                    && final(self)@ == old(self)@,
            },
    {
        let added = now_rfc3339();
        let res = self.add_source_timed(uri, base, label, tags, added);
        proof {
            if res is Ok {
                assert(final(self)@.sources.drop_last() =~= old(self)@.sources);
            }
        }
        res
    }

    /// Appends a source added now for each URI of `uris`, in order and in
    /// the form in which a registry whose folder's parent is `base` stores
    /// it, each with `label` and `tags`. If one of the URIs does not parse,
    /// the first such is refused and nothing is added.
    pub fn add_sources(&mut self, uris: &Vec<String>, base: &str, label: &Option<String>, tags: &Vec<String>) -> (res: Result<usize, RegistryError>)
        ensures
            match stored_all(views(uris@), base@) {
                Ok(stored) => res == Ok::<usize, RegistryError>(uris@.len() as usize)
                    && final(self)@.name == old(self)@.name
                    && final(self)@.description == old(self)@.description
                    && final(self)@.created == old(self)@.created
                    && final(self)@.sources.len() == old(self)@.sources.len() + uris@.len()
                    && final(self)@.sources.take(old(self)@.sources.len() as int) == old(self)@.sources
                    && forall|j: int| old(self)@.sources.len() <= j < final(self)@.sources.len() ==> {
                        &&& (#[trigger] final(self)@.sources[j]).uri == stored[j - old(self)@.sources.len()]
                        &&& final(self)@.sources[j].label == opt_view(*label)
                        &&& final(self)@.sources[j].tags == views(tags@)
                        &&& is_utc_timestamp_shaped(final(self)@.sources[j].added)
                    },
                Err(e) => res == Err::<usize, RegistryError>(RegistryError::InvalidUri(e))
                    && final(self)@ == old(self)@,
            },
    {
        let mut stored: Vec<String> = Vec::new();
        let mut i: usize = 0;
        assert(views(uris@).take(0) =~= Seq::<Seq<char>>::empty());
        assert(views(stored@) =~= Seq::<Seq<char>>::empty());
        while i < uris.len()
            invariant
                i <= uris@.len(),
                stored@.len() == i,
                stored_all(views(uris@).take(i as int), base@) == Ok::<Seq<Seq<char>>, UriError>(views(stored@)),
            decreases uris@.len() - i,
        {
            assert(views(uris@).take(i + 1).drop_last() =~= views(uris@).take(i as int));
            assert(views(uris@).take(i + 1).last() == uris@[i as int]@);
            match store_uri(uris[i].as_str(), base) {
                Err(e) => {
                    proof {
                        lemma_stored_all_prefix_error(views(uris@), base@, i + 1);
                    }
                    return Err(RegistryError::InvalidUri(e));
                },
                Ok(st) => {
                    let ghost before = stored@;
                    stored.push(st);
                    assert(views(stored@) =~= views(before).push(stored@.last()@));
                },
            }
            i = i + 1;
        }
        assert(views(uris@).take(uris@.len() as int) =~= views(uris@));
        let ghost first = self.sources@.len();
        let mut k: usize = 0;
        while k < stored.len()
            invariant
                k <= stored@.len(),
                stored@.len() == uris@.len(),
                stored_all(views(uris@), base@) == Ok::<Seq<Seq<char>>, UriError>(views(stored@)),
                first == old(self)@.sources.len(),
                self@.name == old(self)@.name,
                self@.description == old(self)@.description,
                self@.created == old(self)@.created,
                self@.sources.len() == first + k,
                self@.sources.take(first as int) == old(self)@.sources,
                forall|j: int| first <= j < self@.sources.len() ==> {
                    &&& (#[trigger] self@.sources[j]).uri == stored@[j - first]@
                    &&& self@.sources[j].label == opt_view(*label)
                    &&& self@.sources[j].tags == views(tags@)
                    &&& is_utc_timestamp_shaped(self@.sources[j].added)
                },
            decreases stored@.len() - k,
        {
            let added = now_rfc3339();
            let uri = uris[k].clone();
            let copied_label = match label {
                Some(l) => Some(l.clone()),
                None => None,
            };
            let copied_tags = copy_strings(tags);
            proof {
                lemma_stored_all_each(views(uris@), base@, views(stored@), k as int);
            }
            let ghost before = self@;
            let res = self.add_source_timed(uri, base, copied_label, copied_tags, added);
            assert(res is Ok);
            assert(self@.sources.take(first as int) =~= before.sources.take(first as int));
            k = k + 1;
        }
        Ok(uris.len())
    }

    /// Removes the source at `index`, moving the later ones down by one.
    pub fn remove_source(&mut self, index: usize) -> (res: Result<Source, RegistryError>)
        ensures
            match remove_source_spec(old(self)@, index as int) {
                Ok((r, s)) => res matches Ok(removed) && removed@ == s && final(self)@ == r,
                Err(e) => res == Err::<Source, RegistryError>(e) && final(self)@ == old(self)@,
            },
    {
        let len = self.sources.len();
        if index >= len {
            return Err(RegistryError::IndexOutOfRange { index, len });
        }
        let ghost before = self.sources@;
        let removed = self.sources.remove(index);
        assert(sources_view(self.sources@) =~= sources_view(before).remove(index as int));
        Ok(removed)
    }

    /// Replaces the label and the tags of the source at `index` with those
    /// given; what is not given stays as it was.
    pub fn update_source(&mut self, index: usize, label: Option<String>, tags: Option<Vec<String>>) -> (res: Result<(), RegistryError>)
        ensures
            match update_source_spec(old(self)@, index as int, opt_view(label), tags_view(tags)) {
                Ok(r) => res is Ok && final(self)@ == r,
                Err(e) => res == Err::<(), RegistryError>(e) && final(self)@ == old(self)@,
            },
    {
        let len = self.sources.len();
        if index >= len {
            return Err(RegistryError::IndexOutOfRange { index, len });
        }
        let ghost before = self.sources@;
        let mut src = self.sources.remove(index);
        let ghost old_src = src@;
        if let Some(l) = label {
            src.label = Some(l);
        }
        if let Some(t) = tags {
            src.tags = t;
        }
        assert(src@ == updated_source(old_src, opt_view(label), tags_view(tags)));
        self.sources.insert(index, src);
        assert(self.sources@ =~= before.update(index as int, src));
        assert(sources_view(self.sources@) =~= sources_view(before).update(
            index as int,
            updated_source(before[index as int]@, opt_view(label), tags_view(tags)),
        ));
        Ok(())
    }
}

/// Every URI of `uris` in the form in which a registry whose folder's
/// parent is `base` stores it, or the error of the first that does not
/// parse.
pub open spec fn stored_all(uris: Seq<Seq<char>>, base: Seq<char>) -> Result<Seq<Seq<char>>, UriError>
    decreases uris.len(),
{
    if uris.len() == 0 {
        Ok(Seq::empty())
    } else {
        match stored_all(uris.drop_last(), base) {
            Err(e) => Err(e),
            Ok(prev) => match stored_uri_spec(uris.last(), base) {
                Err(e) => Err(e),
                Ok(s) => Ok(prev.push(s)),
            },
        }
    }
}

/// An error among the first `n` URIs is the error of the whole list.
proof fn lemma_stored_all_prefix_error(uris: Seq<Seq<char>>, base: Seq<char>, n: int)
    requires
        0 <= n <= uris.len(),
        stored_all(uris.take(n), base) is Err,
    ensures
        stored_all(uris, base) == stored_all(uris.take(n), base),
    decreases uris.len() - n,
{
    if n < uris.len() {
        assert(uris.take(n + 1).drop_last() =~= uris.take(n));
        lemma_stored_all_prefix_error(uris, base, n + 1);
    } else {
        assert(uris.take(n) =~= uris);
    }
}

/// Where every URI of the list is stored, each is stored as its own entry
/// of the result says.
proof fn lemma_stored_all_each(uris: Seq<Seq<char>>, base: Seq<char>, stored: Seq<Seq<char>>, k: int)
    requires
        stored_all(uris, base) == Ok::<Seq<Seq<char>>, UriError>(stored),
        0 <= k < uris.len(),
    ensures
        stored.len() == uris.len(),
        stored_uri_spec(uris[k], base) == Ok::<Seq<char>, UriError>(stored[k]),
    decreases uris.len(),
{
    let rest = uris.drop_last();
    let prev = stored_all(rest, base)->Ok_0;
    assert(stored == prev.push(stored_uri_spec(uris.last(), base)->Ok_0));
    if k < uris.len() - 1 {
        lemma_stored_all_each(rest, base, prev, k);
        assert(rest[k] == uris[k]);
    } else if rest.len() > 0 {
        lemma_stored_all_each(rest, base, prev, 0);
    } else {
        assert(prev.len() == 0);
    }
}

/// A copy of `v`, string by string.
fn copy_strings(v: &Vec<String>) -> (out: Vec<String>)
    ensures
        views(out@) == views(v@),
{
    let mut out: Vec<String> = Vec::new();
    let mut i: usize = 0;
    while i < v.len()
        invariant
            i <= v@.len(),
            views(out@) == views(v@).take(i as int),
        decreases v@.len() - i,
    {
        let ghost before = out@;
        let c = v[i].clone();
        assert(c@ == v@[i as int]@);
        out.push(c);
        assert(views(out@) =~= views(before).push(v@[i as int]@));
        assert(views(out@) =~= views(v@).take(i + 1));
        i = i + 1;
    }
    assert(views(v@).take(v@.len() as int) =~= views(v@));
    out
}

// ── Tag filtering ─────────────────────────────────────────────

/// A source is selected by a tag filter when the filter is empty or the
/// source carries one of its tags.
pub open spec fn matches_tags(s: SourceModel, filter: Seq<Seq<char>>) -> bool {
    filter.len() == 0 || exists|i: int, j: int|
        0 <= i < s.tags.len() && 0 <= j < filter.len() && s.tags[i] == filter[j]
}

fn has_any_tag(tags: &Vec<String>, filter: &Vec<String>) -> (b: bool)
    ensures
        b == exists|i: int, j: int|
            0 <= i < tags@.len() && 0 <= j < filter@.len() && tags@[i]@ == filter@[j]@,
{
    let mut i: usize = 0;
    while i < tags.len()
        invariant
            i <= tags@.len(),
            forall|a: int, b: int|
                0 <= a < i && 0 <= b < filter@.len() ==> tags@[a]@ != filter@[b]@,
        decreases tags@.len() - i,
    {
        let mut j: usize = 0;
        while j < filter.len()
            invariant
                i < tags@.len(),
                j <= filter@.len(),
                forall|a: int, b: int|
                    0 <= a < i && 0 <= b < filter@.len() ==> tags@[a]@ != filter@[b]@,
                forall|b: int| 0 <= b < j ==> tags@[i as int]@ != filter@[b]@,
            decreases filter@.len() - j,
        {
            if tags[i] == filter[j] {
                return true;
            }
            j = j + 1;
        }
        i = i + 1;
    }
    false
}

/// Whether the tag filter selects `src`.
pub fn matches_filter(src: &Source, filter: &Vec<String>) -> (b: bool)
    ensures
        b == matches_tags(src@, views(filter@)),
{
    let hit = filter.len() == 0 || has_any_tag(&src.tags, filter);
    let ghost s = src@;
    let ghost f = views(filter@);
    assert(hit == matches_tags(s, f)) by {
        if filter@.len() > 0 {
            if hit {
                let (a, b) = choose|a: int, b: int|
                    0 <= a < src.tags@.len() && 0 <= b < filter@.len() && src.tags@[a]@
                        == filter@[b]@;
                assert(s.tags[a] == f[b]);
            } else {
                assert forall|a: int, b: int|
                    0 <= a < s.tags.len() && 0 <= b < f.len() implies s.tags[a] != f[b] by {
                    assert(s.tags[a] == src.tags@[a]@);
                    assert(f[b] == filter@[b]@);
                }
            }
        }
    }
    hit
}

/// The indices, in order, of the sources that the tag filter selects.
pub fn select_by_tags(sources: &Vec<Source>, filter: &Vec<String>) -> (out: Vec<usize>)
    ensures
        forall|k: int| 0 <= k < out@.len() ==> out@[k] < sources@.len(),
        forall|k: int, l: int| 0 <= k < l < out@.len() ==> out@[k] < out@[l],
        forall|i: int|
            0 <= i < sources@.len() ==> (out@.contains(i as usize) <==> matches_tags(
                sources@[i]@,
                views(filter@),
            )),
{
    let mut out: Vec<usize> = Vec::new();
    let mut i: usize = 0;
    while i < sources.len()
        invariant
            i <= sources@.len(),
            forall|k: int| 0 <= k < out@.len() ==> out@[k] < i,
            forall|k: int, l: int| 0 <= k < l < out@.len() ==> out@[k] < out@[l],
            forall|m: int|
                0 <= m < i ==> (out@.contains(m as usize) <==> matches_tags(
                    sources@[m]@,
                    views(filter@),
                )),
        decreases sources@.len() - i,
    {
        let hit = matches_filter(&sources[i], filter);
        let ghost f = views(filter@);
        let ghost prev = out@;
        if hit {
            out.push(i);
        }
        assert forall|m: int| 0 <= m < i + 1 implies (out@.contains(m as usize) <==> matches_tags(
            sources@[m]@,
            f,
        )) by {
            if m < i {
                if prev.contains(m as usize) {
                    let k = choose|k: int| 0 <= k < prev.len() && prev[k] == m as usize;
                    assert(out@[k] == m as usize);
                }
                if out@.contains(m as usize) {
                    let k = choose|k: int| 0 <= k < out@.len() && out@[k] == m as usize;
                    if k < prev.len() {
                        assert(prev[k] == m as usize);
                    }
                }
            } else {
                if hit {
                    assert(out@[out@.len() - 1] == i);
                } else {
                    if out@.contains(m as usize) {
                        let k = choose|k: int| 0 <= k < out@.len() && out@[k] == m as usize;
                    }
                }
            }
        }
        i = i + 1;
    }
    out
}

} // verus!

verus! {

// ── Registry files ────────────────────────────────────────────

/// A name that `registry delete` accepts: it holds no `..`, no `/` and no
/// `\`, so nothing that reads as a path; its file lies directly inside the
/// registry folder.
pub open spec fn is_deletable_name(name: Seq<char>) -> bool {
    find(name, seq!['.', '.']) is None && lacks(name, '/') && lacks(name, '\\')
}

/// The file name of a registry: its name followed by `.json`.
pub open spec fn registry_file(name: Seq<char>) -> Seq<char> {
    name + seq!['.', 'j', 's', 'o', 'n']
}

/// `file` joined to the folder `dir` as `Path::join` does: an absolute `file`
/// stands alone; otherwise a `/` goes between them unless `dir` is empty or
/// ends with one.
pub open spec fn join_path(dir: Seq<char>, file: Seq<char>) -> Seq<char> {
    if file.len() > 0 && file[0] == '/' {
        file
    } else if dir.len() == 0 || dir.last() == '/' {
        dir + file
    } else {
        dir + seq!['/'] + file
    }
}

/// Whether `registry delete` accepts `name`.
pub fn is_deletable_name_exec(name: &[char]) -> (b: bool)
    ensures
        b == is_deletable_name(name@),
{
    let dots = vec!['.', '.'];
    assert(dots@ =~= seq!['.', '.']);
    if find_exec(name, &dots).is_some() {
        return false;
    }
    let mut i: usize = 0;
    while i < name.len()
        invariant
            i <= name@.len(),
            forall|j: int| 0 <= j < i ==> name@[j] != '/' && name@[j] != '\\',
        decreases name@.len() - i,
    {
        if name[i] == '/' || name[i] == '\\' {
            return false;
        }
        i = i + 1;
    }
    true
}

/// `file` joined to the folder `dir`, as `join_path` states.
pub fn join_path_exec(dir: &[char], file: &[char]) -> (out: Vec<char>)
    ensures
        out@ == join_path(dir@, file@),
{
    if file.len() > 0 && file[0] == '/' {
        let whole = slice_chars(file, 0, file.len());
        assert(whole@ =~= file@);
        return whole;
    }
    let mut out = slice_chars(dir, 0, dir.len());
    assert(out@ =~= dir@);
    if out.len() > 0 && out[out.len() - 1] != '/' {
        out.push('/');
    }
    crate::render::push_all(&mut out, file);
    assert(out@ =~= join_path(dir@, file@));
    out
}

/// The path of the registry file for `name` in the registry folder `dir`:
/// `<name>.json` joined to `dir`.
pub fn registry_path(dir: &str, name: &str) -> (p: String)
    ensures
        p@ == join_path(dir@, registry_file(name@)),
{
    let mut file = chars_of(name);
    file.push('.');
    file.push('j');
    file.push('s');
    file.push('o');
    file.push('n');
    assert(file@ =~= registry_file(name@));
    let d = chars_of(dir);
    string_of(&join_path_exec(&d, &file))
}

/// The path of the registry file that `registry delete` removes: a name
/// holding `..`, `/` or `\` is refused, so the file lies directly inside
/// `dir`.
pub fn delete_path(dir: &str, name: &str) -> (res: Result<String, RegistryError>)
    ensures
        is_deletable_name(name@) ==> (res matches Ok(p) && p@ == join_path(
            dir@,
            registry_file(name@),
        )),
        !is_deletable_name(name@) ==> res == Err::<String, RegistryError>(
            RegistryError::InvalidName,
        ),
{
    let n = chars_of(name);
    if !is_deletable_name_exec(&n) {
        return Err(RegistryError::InvalidName);
    }
    Ok(registry_path(dir, name))
}

/// What stands at a registry's path when it is to be deleted.
#[derive(Debug, Clone, PartialEq, Eq)]
pub enum DeleteTarget {
    /// Nothing.
    Missing,
    /// Something other than a regular file, such as a folder.
    NotAFile,
    /// A file that does not read as a registry.
    Unreadable,
    /// A registry file holding a registry of this name.
    Holds(String),
}

/// Whether a registry may be deleted: only a regular file that holds a
/// registry of the same name.
pub fn delete_verdict(name: &str, target: &DeleteTarget) -> (res: Result<(), RegistryError>)
    ensures
        match target {
            DeleteTarget::Missing => res == Err::<(), RegistryError>(RegistryError::NotFound),
            DeleteTarget::NotAFile => res == Err::<(), RegistryError>(RegistryError::NotAFile),
            DeleteTarget::Unreadable => res == Err::<(), RegistryError>(RegistryError::Corrupt),
            DeleteTarget::Holds(found) => if found@ == name@ {
                res is Ok
            } else {
                res matches Err(RegistryError::NameMismatch { found: f }) && f@ == found@
            },
        },
{
    match target {
        DeleteTarget::Missing => Err(RegistryError::NotFound),
        DeleteTarget::NotAFile => Err(RegistryError::NotAFile),
        DeleteTarget::Unreadable => Err(RegistryError::Corrupt),
        DeleteTarget::Holds(found) => {
            let a = chars_of(found.as_str());
            let b = chars_of(name);
            if same_chars(&a, &b) {
                Ok(())
            } else {
                Err(RegistryError::NameMismatch { found: found.clone() })
            }
        },
    }
}

/// Whether two character sequences are equal.
pub fn same_chars(a: &[char], b: &[char]) -> (r: bool)
    ensures
        r == (a@ == b@),
{
    if a.len() != b.len() {
        return false;
    }
    let mut i: usize = 0;
    while i < a.len()
        invariant
            i <= a@.len(),
            a@.len() == b@.len(),
            forall|j: int| 0 <= j < i ==> a@[j] == b@[j],
        decreases a@.len() - i,
    {
        if a[i] != b[i] {
            return false;
        }
        i = i + 1;
    }
    assert(a@ =~= b@);
    true
}

} // verus!

verus! {

/// A source is selected by a tag filter exactly when the filter is empty or
/// some tag of the source is one of the filter's tags, wherever it stands
/// in the filter.
pub proof fn law_filter_selects_by_any_tag(s: SourceModel, f: Seq<Seq<char>>)
    ensures
        matches_tags(s, f) <==> (f.len() == 0 || exists|t: Seq<char>| s.tags.contains(t) && f.contains(t)),
        forall|k: int| 0 <= k < s.tags.len() && f.contains(#[trigger] s.tags[k]) ==> matches_tags(s, f),
{
    if f.len() > 0 {
        if matches_tags(s, f) {
            let (i, j) = choose|i: int, j: int|
                0 <= i < s.tags.len() && 0 <= j < f.len() && s.tags[i] == f[j];
            assert(s.tags.contains(s.tags[i]) && f.contains(s.tags[i]));
        }
        if exists|t: Seq<char>| s.tags.contains(t) && f.contains(t) {
            let t = choose|t: Seq<char>| s.tags.contains(t) && f.contains(t);
            let i = choose|i: int| 0 <= i < s.tags.len() && s.tags[i] == t;
            let j = choose|j: int| 0 <= j < f.len() && f[j] == t;
            assert(s.tags[i] == f[j]);
        }
        assert forall|k: int| 0 <= k < s.tags.len() && f.contains(#[trigger] s.tags[k]) implies matches_tags(s, f) by {
            let j = choose|j: int| 0 <= j < f.len() && f[j] == s.tags[k];
            assert(s.tags[k] == f[j]);
        }
    }
}

/// Joining two non-empty tag filters selects what either of them selects:
/// `--tags core,util` selects the sources that `--tags core` or
/// `--tags util` selects.
pub proof fn law_filter_union(s: SourceModel, f: Seq<Seq<char>>, g: Seq<Seq<char>>)
    requires
        f.len() > 0,
        g.len() > 0,
    ensures
        matches_tags(s, f + g) <==> (matches_tags(s, f) || matches_tags(s, g)),
{
    let h = f + g;
    if matches_tags(s, h) {
        let (i, j) = choose|i: int, j: int|
            0 <= i < s.tags.len() && 0 <= j < h.len() && s.tags[i] == h[j];
        if j < f.len() {
            assert(h[j] == f[j]);
        } else {
            assert(h[j] == g[j - f.len()]);
        }
    }
    if matches_tags(s, f) {
        let (i, j) = choose|i: int, j: int|
            0 <= i < s.tags.len() && 0 <= j < f.len() && s.tags[i] == f[j];
        assert(h[j] == f[j]);
    }
    if matches_tags(s, g) {
        let (i, j) = choose|i: int, j: int|
            0 <= i < s.tags.len() && 0 <= j < g.len() && s.tags[i] == g[j];
        assert(h[j + f.len()] == g[j]);
    }
}

} // verus!
