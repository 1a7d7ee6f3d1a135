//! What each command prints: registry and source tables, confirmations,
//! and the messages of refused operations.

use vstd::prelude::*;

use crate::decimal::{decimal_spec, NumberError};
use crate::registry::{
    is_utc_timestamp_shaped, sources_view, Registry, RegistryError, RegistryModel, Source,
    SourceModel,
};
use crate::storage::{display_uri, display_uri_spec};
use crate::render::{pad_spec, push_all, push_padded, push_str, push_usize, repeat_spec, rule};
use crate::text::{chars_of, opt_view, slice_chars, string_of, views};
use crate::uri::UriError;

verus! {


// ── Registry list ─────────────────────────────────────────────

/// The heading of the registry list.
pub open spec fn registry_heading_spec() -> Seq<char> {
    pad_spec("Name"@, 20) + " "@ + pad_spec("Sources"@, 10) + " "@ + "Created"@
}

/// The heading of the registry list: name, source count, creation date.
pub fn registry_heading() -> (out: String)
    ensures
        out@ == registry_heading_spec(),
{
    let mut v: Vec<char> = Vec::new();
    let name = chars_of("Name");
    push_padded(&mut v, &name, 20);
    push_str(&mut v, " ");
    let sources = chars_of("Sources");
    push_padded(&mut v, &sources, 10);
    push_str(&mut v, " ");
    push_str(&mut v, "Created");
    string_of(&v)
}

/// One row of the registry list.
pub open spec fn registry_row_spec(name: Seq<char>, count: nat, date: Seq<char>) -> Seq<char> {
    pad_spec(name, 20) + " "@ + pad_spec(decimal_spec(count), 10) + " "@ + date
}

/// One row of the registry list: name, number of sources, and the date on
/// which it was created.
pub fn registry_row(name: &str, count: usize, date: &str) -> (out: String)
    ensures
        out@ == registry_row_spec(name@, count as nat, date@),
{
    let mut v: Vec<char> = Vec::new();
    let n = chars_of(name);
    push_padded(&mut v, &n, 20);
    push_str(&mut v, " ");
    let mut c: Vec<char> = Vec::new();
    push_usize(&mut c, count);
    assert(c@ =~= decimal_spec(count as nat));
    push_padded(&mut v, &c, 10);
    push_str(&mut v, " ");
    push_str(&mut v, date);
    string_of(&v)
}

/// The row of the registry list for `r`: its name, number of sources and
/// the date part of its creation time.
pub open spec fn registry_list_row_spec(r: RegistryModel) -> Seq<char> {
    registry_row_spec(r.name, r.sources.len(), date_part_spec(r.created)->0)
}

/// The registry list: a note where there are none, else a heading, a rule
/// of 52 dashes and one row per registry; each creation time must have a
/// date part (its first ten bytes).
pub fn registry_list(regs: &Vec<Registry>) -> (out: Vec<String>)
    requires
        forall|i: int| 0 <= i < regs@.len() ==> date_part_spec(#[trigger] regs@[i]@.created) is Some,
    ensures
        regs@.len() == 0 ==> views(out@) == seq!["No registries found."@],
        regs@.len() > 0 ==> views(out@) == seq![registry_heading_spec(), repeat_spec('-', 52)]
            + Seq::new(regs@.len(), |i: int| registry_list_row_spec(regs@[i]@)),
{
    let mut out: Vec<String> = Vec::new();
    if regs.len() == 0 {
        out.push(string_of(&chars_of("No registries found.")));
        assert(views(out@) =~= seq!["No registries found."@]);
        return out;
    }
    out.push(registry_heading());
    out.push(rule(52));
    let ghost head = seq![registry_heading_spec(), repeat_spec('-', 52)];
    let ghost rows = Seq::new(regs@.len(), |i: int| registry_list_row_spec(regs@[i]@));
    assert(views(out@) =~= head);
    let mut i: usize = 0;
    while i < regs.len()
        invariant
            i <= regs@.len(),
            forall|j: int| 0 <= j < regs@.len() ==> date_part_spec(#[trigger] regs@[j]@.created) is Some,
            rows == Seq::new(regs@.len(), |i: int| registry_list_row_spec(regs@[i]@)),
            views(out@) == head + rows.take(i as int),
        decreases regs@.len() - i,
    {
        let r = &regs[i];
        assert(date_part_spec(regs@[i as int]@.created) is Some);
        let date = match date_part(r.created.as_str()) {
            Some(d) => d,
            None => {
                assert(false);
                String::new()
            },
        };
        let ghost prev = out@;
        let row = registry_row(r.name.as_str(), r.sources.len(), date.as_str());
        assert(row@ == rows[i as int]);
        out.push(row);
        assert(views(out@) =~= views(prev).push(row@));
        assert(rows.take(i + 1) =~= rows.take(i as int).push(rows[i as int]));
        i = i + 1;
    }
    assert(rows.take(regs@.len() as int) =~= rows);
    out
}

} // verus!

verus! {

/// A label, or `-` where there is none.
pub open spec fn label_or_dash(l: Option<Seq<char>>) -> Seq<char> {
    match l {
        Some(x) => x,
        None => "-"@,
    }
}

fn push_label(out: &mut Vec<char>, label: &Option<String>, w: usize)
    ensures
        final(out)@ == old(out)@ + pad_spec(label_or_dash(opt_view(*label)), w as nat),
{
    match label {
        Some(l) => {
            let cs = chars_of(l.as_str());
            push_padded(out, &cs, w);
        },
        None => {
            let cs = chars_of("-");
            push_padded(out, &cs, w);
        },
    }
}

fn push_index(out: &mut Vec<char>, i: usize, w: usize)
    ensures
        final(out)@ == old(out)@ + pad_spec(decimal_spec(i as nat), w as nat),
{
    let mut c: Vec<char> = Vec::new();
    push_usize(&mut c, i);
    assert(c@ =~= decimal_spec(i as nat));
    push_padded(out, &c, w);
}

// ── Registry details ──────────────────────────────────────────

/// The heading of the source table of `registry show`.
pub open spec fn show_heading_spec() -> Seq<char> {
    pad_spec("Idx"@, 4) + " "@ + pad_spec("Label"@, 12) + " "@ + pad_spec("URI"@, 60)
}

/// One row of the source table of `registry show`: index, label or `-`,
/// and the URI as lists show it (stored URIs read from `base`).
pub open spec fn show_row_spec(i: nat, s: SourceModel, base: Seq<char>, home: Option<Seq<char>>) -> Seq<char> {
    pad_spec(decimal_spec(i), 4) + " "@ + pad_spec(label_or_dash(s.label), 12) + " "@
        + display_uri_spec(s.uri, base, home)
}

/// The rows of the source table of `registry show`.
pub open spec fn show_rows_spec(sources: Seq<SourceModel>, base: Seq<char>, home: Option<Seq<char>>) -> Seq<Seq<char>> {
    Seq::new(sources.len(), |i: int| show_row_spec(i as nat, sources[i], base, home))
}

/// The line that shows a registry's description, where it has one.
pub open spec fn description_lines(d: Option<Seq<char>>) -> Seq<Seq<char>> {
    match d {
        Some(d) => seq!["Description: "@ + d],
        None => Seq::empty(),
    }
}

/// What `registry show` prints: name, description where there is one,
/// creation time and number of sources, then, where there are sources, a blank line, a heading, a rule of 80
/// dashes and one row per source (index, label or `-`, URI as lists show it).
pub open spec fn show_spec(r: RegistryModel, base: Seq<char>, home: Option<Seq<char>>) -> Seq<Seq<char>> {
    let sources = r.sources;
    seq!["Registry: "@ + r.name] + description_lines(r.description) + seq![
        "Created:  "@ + r.created,
        "Sources:  "@ + decimal_spec(sources.len()),
    ] + if sources.len() == 0 {
        Seq::<Seq<char>>::empty()
    } else {
        seq![Seq::<char>::empty(), show_heading_spec(), repeat_spec('-', 80)] + show_rows_spec(
            sources,
            base,
            home,
        )
    }
}

/// The lines that `registry show` prints for `reg`, whose folder's parent
/// is `base`.
pub fn show_lines(reg: &Registry, base: &str, home: &Option<String>) -> (out: Vec<String>)
    ensures
        views(out@) == show_spec(reg@, base@, opt_view(*home)),
{
    let mut out: Vec<String> = Vec::new();
    let mut a: Vec<char> = Vec::new();
    push_str(&mut a, "Registry: ");
    push_str(&mut a, reg.name.as_str());
    out.push(string_of(&a));
    if let Some(d) = &reg.description {
        let mut e: Vec<char> = Vec::new();
        push_str(&mut e, "Description: ");
        push_str(&mut e, d.as_str());
        out.push(string_of(&e));
    }
    let mut b: Vec<char> = Vec::new();
    push_str(&mut b, "Created:  ");
    push_str(&mut b, reg.created.as_str());
    out.push(string_of(&b));
    let mut c: Vec<char> = Vec::new();
    push_str(&mut c, "Sources:  ");
    push_usize(&mut c, reg.sources.len());
    out.push(string_of(&c));
    let ghost top = seq!["Registry: "@ + reg@.name] + description_lines(reg@.description) + seq![
        "Created:  "@ + reg@.created,
        "Sources:  "@ + decimal_spec(reg@.sources.len()),
    ];
    assert(views(out@) =~= top);
    if reg.sources.len() == 0 {
        assert(views(out@) =~= show_spec(reg@, base@, opt_view(*home)));
        return out;
    }
    out.push(String::new());
    let mut h: Vec<char> = Vec::new();
    let idx = chars_of("Idx");
    push_padded(&mut h, &idx, 4);
    push_str(&mut h, " ");
    let lab = chars_of("Label");
    push_padded(&mut h, &lab, 12);
    push_str(&mut h, " ");
    let uri = chars_of("URI");
    push_padded(&mut h, &uri, 60);
    out.push(string_of(&h));
    out.push(rule(80));
    let ghost head = top + seq![Seq::<char>::empty(), show_heading_spec(), repeat_spec('-', 80)];
    assert(views(out@) =~= head);
    let mut i: usize = 0;
    while i < reg.sources.len()
        invariant
            i <= reg@.sources.len(),
            views(out@) == head + show_rows_spec(reg@.sources, base@, opt_view(*home)).take(i as int),
        decreases reg@.sources.len() - i,
    {
        let s = &reg.sources[i];
        let mut v: Vec<char> = Vec::new();
        push_index(&mut v, i, 4);
        push_str(&mut v, " ");
        push_label(&mut v, &s.label, 12);
        push_str(&mut v, " ");
        let shown = display_uri(s.uri.as_str(), base, home);
        push_str(&mut v, shown.as_str());
        let ghost prev = out@;
        let line = string_of(&v);
        assert(reg@.sources[i as int] == s@);
        assert(line@ == show_row_spec(i as nat, reg@.sources[i as int], base@, opt_view(*home)));
        out.push(line);
        assert(views(out@) =~= views(prev).push(line@));
        assert(show_rows_spec(reg@.sources, base@, opt_view(*home)).take(i + 1) =~= show_rows_spec(reg@.sources, base@, opt_view(*home)).take(
            i as int,
        ).push(line@));
        i = i + 1;
    }
    assert(show_rows_spec(reg@.sources, base@, opt_view(*home)).take(reg@.sources.len() as int) =~= show_rows_spec(
        reg@.sources,
        base@,
        opt_view(*home),
    ));
    out
}

// ── Source list ───────────────────────────────────────────────

/// `parts` joined with `sep` between them (`[String]::join`).
pub open spec fn join_spec(parts: Seq<Seq<char>>, sep: char) -> Seq<char>
    decreases parts.len(),
{
    if parts.len() == 0 {
        Seq::empty()
    } else if parts.len() == 1 {
        parts[0]
    } else {
        join_spec(parts.drop_last(), sep) + seq![sep] + parts.last()
    }
}

/// `parts` joined with `sep` between them.
pub fn join(parts: &Vec<String>, sep: char) -> (out: Vec<char>)
    ensures
        out@ == join_spec(views(parts@), sep),
{
    let mut out: Vec<char> = Vec::new();
    let mut i: usize = 0;
    while i < parts.len()
        invariant
            i <= parts@.len(),
            out@ == join_spec(views(parts@).take(i as int), sep),
        decreases parts@.len() - i,
    {
        let ghost before = views(parts@).take(i as int);
        let ghost after = views(parts@).take(i + 1);
        assert(after.drop_last() =~= before);
        if i > 0 {
            out.push(sep);
        }
        let cs = chars_of(parts[i].as_str());
        push_all(&mut out, &cs);
        assert(after.last() == parts@[i as int]@);
        if i == 0 {
            assert(out@ =~= after[0]);
        }
        i = i + 1;
    }
    assert(views(parts@).take(parts@.len() as int) =~= views(parts@));
    out
}

/// The heading of the source list.
pub open spec fn source_heading_spec() -> Seq<char> {
    pad_spec("Idx"@, 4) + " "@ + pad_spec("Label"@, 15) + " "@ + pad_spec("Tags"@, 10) + " "@
        + "URI"@
}

/// One row of the source list: index, label or `-`, tags joined by commas,
/// and the URI as lists show it.
pub open spec fn source_row_spec(i: nat, s: SourceModel, base: Seq<char>, home: Option<Seq<char>>) -> Seq<char> {
    pad_spec(decimal_spec(i), 4) + " "@ + pad_spec(label_or_dash(s.label), 15) + " "@ + pad_spec(
        join_spec(s.tags, ','),
        10,
    ) + " "@ + display_uri_spec(s.uri, base, home)
}

/// The rows of the source list.
pub open spec fn source_rows_spec(sources: Seq<SourceModel>, base: Seq<char>, home: Option<Seq<char>>) -> Seq<Seq<char>> {
    Seq::new(sources.len(), |i: int| source_row_spec(i as nat, sources[i], base, home))
}

/// What `source list` prints: a note where the registry has no sources,
/// else a heading, a rule of 90 dashes and one row per source (index,
/// label or `-`, tags joined by commas, URI).
pub open spec fn source_list_spec(registry: Seq<char>, sources: Seq<SourceModel>, base: Seq<char>, home: Option<Seq<char>>) -> Seq<Seq<char>> {
    if sources.len() == 0 {
        seq!["No sources in registry '"@ + registry + "'."@]
    } else {
        seq![source_heading_spec(), repeat_spec('-', 90)] + source_rows_spec(sources, base, home)
    }
}

/// The lines that `source list` prints for the sources of `registry`, whose
/// folder's parent is `base`.
pub fn source_list_lines(registry: &str, sources: &Vec<Source>, base: &str, home: &Option<String>) -> (out: Vec<String>)
    ensures
        views(out@) == source_list_spec(registry@, sources_view(sources@), base@, opt_view(*home)),
{
    let mut out: Vec<String> = Vec::new();
    if sources.len() == 0 {
        let mut v: Vec<char> = Vec::new();
        push_str(&mut v, "No sources in registry '");
        push_str(&mut v, registry);
        push_str(&mut v, "'.");
        out.push(string_of(&v));
        assert(views(out@) =~= source_list_spec(registry@, sources_view(sources@), base@, opt_view(*home)));
        return out;
    }
    let mut h: Vec<char> = Vec::new();
    let idx = chars_of("Idx");
    push_padded(&mut h, &idx, 4);
    push_str(&mut h, " ");
    let lab = chars_of("Label");
    push_padded(&mut h, &lab, 15);
    push_str(&mut h, " ");
    let tags = chars_of("Tags");
    push_padded(&mut h, &tags, 10);
    push_str(&mut h, " ");
    push_str(&mut h, "URI");
    out.push(string_of(&h));
    out.push(rule(90));
    let ghost head = seq![source_heading_spec(), repeat_spec('-', 90)];
    let ghost sv = sources_view(sources@);
    assert(views(out@) =~= head);
    let mut i: usize = 0;
    while i < sources.len()
        invariant
            i <= sources@.len(),
            sv == sources_view(sources@),
            views(out@) == head + source_rows_spec(sv, base@, opt_view(*home)).take(i as int),
        decreases sources@.len() - i,
    {
        let s = &sources[i];
        let mut v: Vec<char> = Vec::new();
        push_index(&mut v, i, 4);
        push_str(&mut v, " ");
        push_label(&mut v, &s.label, 15);
        push_str(&mut v, " ");
        let joined = join(&s.tags, ',');
        push_padded(&mut v, &joined, 10);
        push_str(&mut v, " ");
        let shown = display_uri(s.uri.as_str(), base, home);
        push_str(&mut v, shown.as_str());
        let ghost prev = out@;
        let line = string_of(&v);
        assert(sv[i as int] == s@);
        assert(line@ == source_row_spec(i as nat, sv[i as int], base@, opt_view(*home)));
        out.push(line);
        assert(views(out@) =~= views(prev).push(line@));
        assert(source_rows_spec(sv, base@, opt_view(*home)).take(i + 1) =~= source_rows_spec(sv, base@, opt_view(*home)).take(i as int).push(
            line@,
        ));
        i = i + 1;
    }
    assert(source_rows_spec(sv, base@, opt_view(*home)).take(sources@.len() as int) =~= source_rows_spec(sv, base@, opt_view(*home)));
    out
}

} // verus!

verus! {

// ── Confirmations ─────────────────────────────────────────────

/// `✓ Created registry '<name>'`.
pub fn created_message(name: &str) -> (out: String)
    ensures
        out@ == "✓ Created registry '"@ + name@ + "'"@,
{
    let mut v: Vec<char> = Vec::new();
    push_str(&mut v, "✓ Created registry '");
    push_str(&mut v, name);
    push_str(&mut v, "'");
    string_of(&v)
}

/// `✓ Deleted registry '<name>'`.
pub fn deleted_message(name: &str) -> (out: String)
    ensures
        out@ == "✓ Deleted registry '"@ + name@ + "'"@,
{
    let mut v: Vec<char> = Vec::new();
    push_str(&mut v, "✓ Deleted registry '");
    push_str(&mut v, name);
    push_str(&mut v, "'");
    string_of(&v)
}

/// `✓ Updated registry '<name>'`.
pub fn registry_updated_message(name: &str) -> (out: String)
    ensures
        out@ == "✓ Updated registry '"@ + name@ + "'"@,
{
    let mut v: Vec<char> = Vec::new();
    push_str(&mut v, "✓ Updated registry '");
    push_str(&mut v, name);
    push_str(&mut v, "'");
    string_of(&v)
}

/// `✓ Imported registry '<name>' (<count> sources)`.
pub fn imported_message(name: &str, count: usize) -> (out: String)
    ensures
        out@ == "✓ Imported registry '"@ + name@ + "' ("@ + decimal_spec(count as nat) + " sources)"@,
{
    let mut v: Vec<char> = Vec::new();
    push_str(&mut v, "✓ Imported registry '");
    push_str(&mut v, name);
    push_str(&mut v, "' (");
    push_usize(&mut v, count);
    push_str(&mut v, " sources)");
    string_of(&v)
}

/// `✓ Added source [<index>]`.
pub fn added_message(index: usize) -> (out: String)
    ensures
        out@ == "✓ Added source ["@ + decimal_spec(index as nat) + "]"@,
{
    let mut v: Vec<char> = Vec::new();
    push_str(&mut v, "✓ Added source [");
    push_usize(&mut v, index);
    push_str(&mut v, "]");
    string_of(&v)
}

/// `✓ Added <count> sources from glob`.
pub fn glob_added_message(count: usize) -> (out: String)
    ensures
        out@ == "✓ Added "@ + decimal_spec(count as nat) + " sources from glob"@,
{
    let mut v: Vec<char> = Vec::new();
    push_str(&mut v, "✓ Added ");
    push_usize(&mut v, count);
    push_str(&mut v, " sources from glob");
    string_of(&v)
}

/// `✓ Removed source: <uri>`.
pub fn removed_message(uri: &str) -> (out: String)
    ensures
        out@ == "✓ Removed source: "@ + uri@,
{
    let mut v: Vec<char> = Vec::new();
    push_str(&mut v, "✓ Removed source: ");
    push_str(&mut v, uri);
    string_of(&v)
}

/// `✓ Updated source [<index>]`.
pub fn updated_message(index: usize) -> (out: String)
    ensures
        out@ == "✓ Updated source ["@ + decimal_spec(index as nat) + "]"@,
{
    let mut v: Vec<char> = Vec::new();
    push_str(&mut v, "✓ Updated source [");
    push_usize(&mut v, index);
    push_str(&mut v, "]");
    string_of(&v)
}

// ── Refusals ──────────────────────────────────────────────────

/// What a `ParseIntError` of each kind displays.
pub open spec fn number_error_text(k: NumberError) -> Seq<char> {
    match k {
        NumberError::Empty => "cannot parse integer from empty string"@,
        NumberError::InvalidDigit => "invalid digit found in string"@,
        NumberError::PosOverflow => "number too large to fit in target type"@,
    }
}

/// The step of reading a URI that failed.
pub open spec fn uri_error_context(e: UriError) -> Seq<char> {
    match e {
        UriError::StartLine(_) => "parse start line"@,
        UriError::EndLine(_) => "parse end line"@,
        UriError::SingleLine(_) => "parse single line"@,
    }
}

/// Why the number of that step did not read.
pub open spec fn uri_error_kind(e: UriError) -> NumberError {
    match e {
        UriError::StartLine(k) => k,
        UriError::EndLine(k) => k,
        UriError::SingleLine(k) => k,
    }
}

/// The message `head` with the URI error `e` as its cause, in the form in
/// which an error chain is printed: `head`, a blank line, `Caused by:`, then
/// the failed step and the number error, numbered from 0.
pub open spec fn uri_error_spec(head: Seq<char>, e: UriError) -> Seq<char> {
    head + "\n\nCaused by:\n    0: "@ + uri_error_context(e) + "\n    1: "@ + number_error_text(
        uri_error_kind(e),
    )
}

fn push_uri_error(v: &mut Vec<char>, e: UriError)
    ensures
        final(v)@ == old(v)@ + "\n\nCaused by:\n    0: "@ + uri_error_context(e) + "\n    1: "@
            + number_error_text(uri_error_kind(e)),
{
    push_str(v, "\n\nCaused by:\n    0: ");
    let k = match e {
        UriError::StartLine(k) => {
            push_str(v, "parse start line");
            k
        },
        UriError::EndLine(k) => {
            push_str(v, "parse end line");
            k
        },
        UriError::SingleLine(k) => {
            push_str(v, "parse single line");
            k
        },
    };
    push_str(v, "\n    1: ");
    match k {
        NumberError::Empty => push_str(v, "cannot parse integer from empty string"),
        NumberError::InvalidDigit => push_str(v, "invalid digit found in string"),
        NumberError::PosOverflow => push_str(v, "number too large to fit in target type"),
    }
}

/// What `dump` and `search` print of a stored source `uri` that does not
/// read: `parse URI <uri>`, caused by `e`.
pub fn source_uri_error_message(uri: &str, e: UriError) -> (out: String)
    ensures
        out@ == uri_error_spec("parse URI "@ + uri@, e),
{
    let mut v: Vec<char> = Vec::new();
    push_str(&mut v, "parse URI ");
    push_str(&mut v, uri);
    push_uri_error(&mut v, e);
    string_of(&v)
}

/// The message of a refused registry operation on the registry `name`.
pub open spec fn error_spec(e: RegistryError, name: Seq<char>) -> Seq<char> {
    match e {
        RegistryError::IndexOutOfRange { index, len } => "Index "@ + decimal_spec(index as nat)
            + " out of range ("@ + decimal_spec(len as nat) + " sources)"@,
        RegistryError::InvalidName => "Invalid registry name '"@ + name
            + "': rejected, a name must not contain '..', '/' or '\\'"@,
        RegistryError::InvalidUri(u) => uri_error_spec("invalid URI format"@, u),
        RegistryError::NotFound => "Registry '"@ + name + "' not found"@,
        RegistryError::NotAFile => "Registry '"@ + name
            + "' refused: its path is not a file (a directory?)"@,
        RegistryError::Corrupt => "Registry '"@ + name
            + "' refused: the file is invalid or corrupt (parse error)"@,
        RegistryError::NameMismatch { found } => "Registry '"@ + name
            + "' refused: file content does not match (it holds '"@ + found@ + "')"@,
        RegistryError::AlreadyExists => "Registry '"@ + name + "' already exists"@,
    }
}

/// The message of a refused registry operation on the registry `name`.
pub fn error_message(e: &RegistryError, name: &str) -> (out: String)
    ensures
        out@ == error_spec(*e, name@),
{
    let mut v: Vec<char> = Vec::new();
    match e {
        RegistryError::IndexOutOfRange { index, len } => {
            push_str(&mut v, "Index ");
            push_usize(&mut v, *index);
            push_str(&mut v, " out of range (");
            push_usize(&mut v, *len);
            push_str(&mut v, " sources)");
        },
        RegistryError::InvalidName => {
            push_str(&mut v, "Invalid registry name '");
            push_str(&mut v, name);
            push_str(&mut v, "': rejected, a name must not contain '..', '/' or '\\'");
        },
        RegistryError::InvalidUri(u) => {
            push_str(&mut v, "invalid URI format");
            push_uri_error(&mut v, *u);
        },
        RegistryError::NotFound => {
            push_str(&mut v, "Registry '");
            push_str(&mut v, name);
            push_str(&mut v, "' not found");
        },
        RegistryError::NotAFile => {
            push_str(&mut v, "Registry '");
            push_str(&mut v, name);
            push_str(&mut v, "' refused: its path is not a file (a directory?)");
        },
        RegistryError::Corrupt => {
            push_str(&mut v, "Registry '");
            push_str(&mut v, name);
            push_str(&mut v, "' refused: the file is invalid or corrupt (parse error)");
        },
        RegistryError::NameMismatch { found } => {
            push_str(&mut v, "Registry '");
            push_str(&mut v, name);
            push_str(&mut v, "' refused: file content does not match (it holds '");
            push_str(&mut v, found.as_str());
            push_str(&mut v, "')");
        },
        RegistryError::AlreadyExists => {
            push_str(&mut v, "Registry '");
            push_str(&mut v, name);
            push_str(&mut v, "' already exists");
        },
    }
    string_of(&v)
}

} // verus!

verus! {

// ── Creation dates ────────────────────────────────────────────

/// The number of bytes that UTF-8 takes for `c`.
pub open spec fn utf8_width(c: char) -> nat {
    if c <= '\u{7f}' {
        1
    } else if c <= '\u{7ff}' {
        2
    } else if c <= '\u{ffff}' {
        3
    } else {
        4
    }
}

/// The number of bytes that UTF-8 takes for `s`.
pub open spec fn utf8_len(s: Seq<char>) -> nat
    decreases s.len(),
{
    if s.len() == 0 {
        0
    } else {
        utf8_len(s.drop_last()) + utf8_width(s.last())
    }
}

proof fn lemma_utf8_len_grows(s: Seq<char>, i: int, j: int)
    requires
        0 <= i <= j <= s.len(),
    ensures
        utf8_len(s.take(i)) + (j - i) <= utf8_len(s.take(j)),
    decreases j - i,
{
    if i < j {
        lemma_utf8_len_grows(s, i, j - 1);
        assert(s.take(j).drop_last() == s.take(j - 1));
    }
}

/// The date part of a creation time as the registry list shows it: its
/// first ten bytes (`&created[..10]`), which exist only where the first
/// characters take exactly ten bytes.
pub open spec fn date_part_spec(created: Seq<char>) -> Option<Seq<char>> {
    if exists|k: int| 0 <= k <= created.len() && utf8_len(#[trigger] created.take(k)) == 10 {
        Some(created.take(choose|k: int| 0 <= k <= created.len() && utf8_len(#[trigger] created.take(k)) == 10))
    } else {
        None
    }
}

fn utf8_width_exec(c: char) -> (w: usize)
    ensures
        w == utf8_width(c),
{
    if c <= '\u{7f}' {
        1
    } else if c <= '\u{7ff}' {
        2
    } else if c <= '\u{ffff}' {
        3
    } else {
        4
    }
}

/// The first ten bytes of `created`, or none where the tenth byte does not
/// end a character (or there are fewer than ten).
pub fn date_part(created: &str) -> (out: Option<String>)
    ensures
        opt_view(out) == date_part_spec(created@),
{
    let cs = chars_of(created);
    let mut bytes: usize = 0;
    let mut k: usize = 0;
    while k < cs.len() && bytes < 10
        invariant
            k <= cs@.len(),
            cs@ == created@,
            bytes == utf8_len(cs@.take(k as int)),
            bytes <= 13,
            forall|m: int| 0 <= m < k ==> utf8_len(#[trigger] cs@.take(m)) < 10,
        decreases cs@.len() - k,
    {
        assert(cs@.take(k + 1).drop_last() == cs@.take(k as int));
        bytes = bytes + utf8_width_exec(cs[k]);
        k = k + 1;
    }
    if bytes == 10 {
        proof {
            assert forall|m: int| 0 <= m <= cs@.len() && utf8_len(#[trigger] cs@.take(m)) == 10 implies m == k by {
                if m > k {
                    lemma_utf8_len_grows(cs@, k as int, m);
                    if m > k + 0 {
                        assert(utf8_len(cs@.take(k as int)) + (m - k) <= utf8_len(cs@.take(m)));
                    }
                }
            }
        }
        Some(string_of(&slice_chars(&cs, 0, k)))
    } else {
        proof {
            assert forall|m: int| 0 <= m <= cs@.len() implies utf8_len(#[trigger] cs@.take(m)) != 10 by {
                if m > k {
                    lemma_utf8_len_grows(cs@, k as int, m);
                } else if m < k {
                } else {
                }
            }
        }
        None
    }
}

/// Every timestamp that `Registry::create` writes has a date part.
pub proof fn law_created_has_date(created: Seq<char>)
    requires
        is_utc_timestamp_shaped(created),
    ensures
        date_part_spec(created) == Some(created.take(10)),
{
    crate::registry::lemma_timestamp_ascii(created);
    assert forall|m: int| 0 <= m <= created.len() implies utf8_len(#[trigger] created.take(m)) == m by {
        lemma_ascii_len(created, m);
    }
    assert(utf8_len(created.take(10)) == 10);
}

proof fn lemma_ascii_len(s: Seq<char>, m: int)
    requires
        0 <= m <= s.len(),
        forall|i: int| 0 <= i < s.len() ==> (#[trigger] s[i]) <= '\u{7f}',
    ensures
        utf8_len(s.take(m)) == m,
    decreases m,
{
    if m > 0 {
        lemma_ascii_len(s, m - 1);
        assert(s.take(m).drop_last() == s.take(m - 1));
    }
}

} // verus!
