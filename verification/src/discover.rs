//! Which registry folders are active. Folders given with `--folder`
//! override everything. Otherwise the `.krrc` file of the current folder
//! picks the mode: in single mode (the default) the one active folder is
//! the default one (`KR_FOLDER`, else `~/.kr`); in all
//! mode the current folder's `.kr`, the default folder and the folders that
//! `.krrc` lists are. The first active folder is where new registries go.

use vstd::prelude::*;

use crate::lines::{lines_spec, split_lines};
use crate::registry::same_chars;
use crate::render::push_str;
use crate::text::{chars_of, slice_chars, string_of, trim, trim_spec, views};

verus! {

/// How the active folders were chosen.
#[derive(Debug, Clone, Copy, PartialEq, Eq, Structural)]
pub enum Mode {
    /// One folder.
    Single,
    /// Every folder found, and those that `.krrc` lists.
    All,
    /// The folders given with `--folder`.
    Override,
}

/// What a `.krrc` file sets: a mode (`mode: single` or `mode: all`) and
/// folders (`- <path>` items).
#[derive(Debug, Clone)]
pub struct KrConfig {
    pub mode: Option<Mode>,
    pub folders: Vec<String>,
}

/// Whether `s` begins with `p`.
pub open spec fn has_prefix(s: Seq<char>, p: Seq<char>) -> bool {
    p.len() <= s.len() && s.take(p.len() as int) == p
}

/// The mode that one `.krrc` line sets: `mode:` followed by `single` or
/// `all`, blanks around either ignored.
pub open spec fn line_mode(l: Seq<char>) -> Option<Mode> {
    let t = trim_spec(l);
    if has_prefix(t, "mode:"@) {
        let v = trim_spec(t.skip(5));
        if v == "all"@ {
            Some(Mode::All)
        } else if v == "single"@ {
            Some(Mode::Single)
        } else {
            None
        }
    } else {
        None
    }
}

/// The folder that one `.krrc` line lists: `-` followed by a path, blanks
/// around either ignored.
pub open spec fn line_folder(l: Seq<char>) -> Option<Seq<char>> {
    let t = trim_spec(l);
    if has_prefix(t, "-"@) && trim_spec(t.skip(1)).len() > 0 {
        Some(trim_spec(t.skip(1)))
    } else {
        None
    }
}

/// The mode that the last line setting one sets.
pub open spec fn krrc_mode(lines: Seq<Seq<char>>) -> Option<Mode>
    decreases lines.len(),
{
    if lines.len() == 0 {
        None
    } else {
        match line_mode(lines.last()) {
            Some(m) => Some(m),
            None => krrc_mode(lines.drop_last()),
        }
    }
}

/// The folders that the lines list, in order.
pub open spec fn krrc_folders(lines: Seq<Seq<char>>) -> Seq<Seq<char>>
    decreases lines.len(),
{
    if lines.len() == 0 {
        Seq::empty()
    } else {
        let rest = krrc_folders(lines.drop_last());
        match line_folder(lines.last()) {
            Some(f) => rest.push(f),
            None => rest,
        }
    }
}

fn has_prefix_exec(s: &[char], p: &[char]) -> (b: bool)
    ensures
        b == has_prefix(s@, p@),
{
    if p.len() > s.len() {
        return false;
    }
    let head = slice_chars(s, 0, p.len());
    assert(head@ =~= s@.take(p@.len() as int));
    same_chars(&head, p)
}

fn line_mode_exec(l: &str) -> (m: Option<Mode>)
    ensures
        m == line_mode(l@),
{
    proof {
        reveal_strlit("mode:");
        reveal_strlit("all");
        reveal_strlit("single");
    }
    let lc = chars_of(l);
    let t = trim(&lc);
    let key = chars_of("mode:");
    if !has_prefix_exec(&t, &key) {
        return None;
    }
    let rest = slice_chars(&t, 5, t.len());
    assert(rest@ =~= t@.skip(5));
    let v = trim(&rest);
    if same_chars(&v, &chars_of("all")) {
        Some(Mode::All)
    } else if same_chars(&v, &chars_of("single")) {
        Some(Mode::Single)
    } else {
        None
    }
}

fn line_folder_exec(l: &str) -> (f: Option<String>)
    ensures
        match line_folder(l@) {
            Some(p) => f matches Some(s) && s@ == p,
            None => f is None,
        },
{
    proof {
        reveal_strlit("-");
    }
    let lc = chars_of(l);
    let t = trim(&lc);
    let dash = chars_of("-");
    if !has_prefix_exec(&t, &dash) {
        return None;
    }
    let rest = slice_chars(&t, 1, t.len());
    assert(rest@ =~= t@.skip(1));
    let v = trim(&rest);
    if v.len() == 0 {
        None
    } else {
        Some(string_of(&v))
    }
}

/// What the `.krrc` file holding `text` sets.
pub fn parse_krrc(text: &str) -> (c: KrConfig)
    ensures
        c.mode == krrc_mode(lines_spec(text@)),
        views(c.folders@) == krrc_folders(lines_spec(text@)),
{
    let lines = split_lines(text);
    let ghost ls = lines_spec(text@);
    let mut mode: Option<Mode> = None;
    let mut folders: Vec<String> = Vec::new();
    let mut i: usize = 0;
    assert(ls.take(0) =~= Seq::<Seq<char>>::empty());
    assert(views(folders@) =~= Seq::<Seq<char>>::empty());
    while i < lines.len()
        invariant
            i <= lines@.len(),
            views(lines@) == ls,
            mode == krrc_mode(ls.take(i as int)),
            views(folders@) == krrc_folders(ls.take(i as int)),
        decreases lines@.len() - i,
    {
        assert(ls.take(i + 1).drop_last() =~= ls.take(i as int));
        assert(ls.take(i + 1).last() == lines@[i as int]@);
        if let Some(m) = line_mode_exec(lines[i].as_str()) {
            mode = Some(m);
        }
        let ghost before = folders@;
        if let Some(f) = line_folder_exec(lines[i].as_str()) {
            folders.push(f);
            assert(views(folders@) =~= views(before).push(folders@.last()@));
        }
        i = i + 1;
    }
    assert(ls.take(lines@.len() as int) =~= ls);
    KrConfig { mode, folders }
}

/// `s` with `x` appended unless it holds `x` already.
pub open spec fn push_new(s: Seq<Seq<char>>, x: Seq<char>) -> Seq<Seq<char>> {
    if s.contains(x) {
        s
    } else {
        s.push(x)
    }
}

/// `s` with every repeat of an earlier item left out.
pub open spec fn dedup_spec(s: Seq<Seq<char>>) -> Seq<Seq<char>>
    decreases s.len(),
{
    if s.len() == 0 {
        Seq::empty()
    } else {
        push_new(dedup_spec(s.drop_last()), s.last())
    }
}

fn holds(v: &Vec<String>, x: &str) -> (b: bool)
    ensures
        b == views(v@).contains(x@),
{
    let xc = chars_of(x);
    let mut i: usize = 0;
    while i < v.len()
        invariant
            i <= v@.len(),
            xc@ == x@,
            forall|j: int| 0 <= j < i ==> v@[j]@ != x@,
        decreases v@.len() - i,
    {
        let c = chars_of(v[i].as_str());
        if same_chars(&c, &xc) {
            assert(views(v@)[i as int] == x@);
            return true;
        }
        i = i + 1;
    }
    assert forall|j: int| 0 <= j < views(v@).len() implies views(v@)[j] != x@ by {
        assert(views(v@)[j] == v@[j]@);
    }
    false
}

/// `v` with every repeat of an earlier folder left out.
fn dedup(v: &Vec<String>) -> (out: Vec<String>)
    ensures
        views(out@) == dedup_spec(views(v@)),
{
    let mut out: Vec<String> = Vec::new();
    let mut i: usize = 0;
    assert(views(v@).take(0) =~= Seq::<Seq<char>>::empty());
    assert(views(out@) =~= Seq::<Seq<char>>::empty());
    while i < v.len()
        invariant
            i <= v@.len(),
            views(out@) == dedup_spec(views(v@).take(i as int)),
        decreases v@.len() - i,
    {
        assert(views(v@).take(i + 1).drop_last() =~= views(v@).take(i as int));
        assert(views(v@).take(i + 1).last() == v@[i as int]@);
        if !holds(&out, v[i].as_str()) {
            let ghost before = out@;
            let c = v[i].clone();
            out.push(c);
            assert(views(out@) =~= views(before).push(v@[i as int]@));
        }
        i = i + 1;
    }
    assert(views(v@).take(v@.len() as int) =~= views(v@));
    out
}

/// The default folder: `KR_FOLDER` where it is set, else `~/.kr`.
pub open spec fn default_folder(env: Option<Seq<char>>, home_folder: Seq<char>) -> Seq<char> {
    match env {
        Some(e) => e,
        None => home_folder,
    }
}

/// The folders to consider, before repeats are left out, and the mode that
/// chose them. `flag` holds the folders given with `--folder`, `config` the
/// `.krrc` settings, `env` the `KR_FOLDER` variable, `local` the current
/// folder's `.kr` where it exists, and `home_folder` is `~/.kr`. In single
/// mode the one folder is the default folder.
pub open spec fn candidate_folders(
    flag: Seq<Seq<char>>,
    config_mode: Option<Mode>,
    config_folders: Seq<Seq<char>>,
    env: Option<Seq<char>>,
    local: Option<Seq<char>>,
    home_folder: Seq<char>,
) -> (Mode, Seq<Seq<char>>) {
    if flag.len() > 0 {
        (Mode::Override, flag)
    } else if config_mode == Some(Mode::All) {
        let found = match local {
            Some(l) => seq![l],
            None => Seq::empty(),
        };
        (Mode::All, found + seq![default_folder(env, home_folder)] + config_folders)
    } else {
        (Mode::Single, seq![default_folder(env, home_folder)])
    }
}

/// The active folders, each once, in order, and the mode that chose them.
pub fn active_folders(
    flag: &Vec<String>,
    config: &KrConfig,
    env: &Option<String>,
    local: &Option<String>,
    home_folder: &str,
) -> (res: (Mode, Vec<String>))
    ensures
        res.0 == candidate_folders(
            views(flag@),
            config.mode,
            views(config.folders@),
            crate::text::opt_view(*env),
            crate::text::opt_view(*local),
            home_folder@,
        ).0,
        views(res.1@) == dedup_spec(
            candidate_folders(
                views(flag@),
                config.mode,
                views(config.folders@),
                crate::text::opt_view(*env),
                crate::text::opt_view(*local),
                home_folder@,
            ).1,
        ),
{
    if flag.len() > 0 {
        return (Mode::Override, dedup(flag));
    }
    let mut all: Vec<String> = Vec::new();
    if config.mode == Some(Mode::All) {
        if let Some(l) = local {
            all.push(l.clone());
        }
        let d = match env {
            Some(e) => e.clone(),
            None => string_of(&chars_of(home_folder)),
        };
        all.push(d);
        let mut i: usize = 0;
        let ghost start = views(all@);
        while i < config.folders.len()
            invariant
                i <= config.folders@.len(),
                views(all@) == start + views(config.folders@).take(i as int),
            decreases config.folders@.len() - i,
        {
            let ghost before = all@;
            all.push(config.folders[i].clone());
            assert(views(all@) =~= views(before).push(config.folders@[i as int]@));
            assert(views(config.folders@).take(i + 1) =~= views(config.folders@).take(i as int).push(
                config.folders@[i as int]@,
            ));
            i = i + 1;
        }
        assert(views(config.folders@).take(config.folders@.len() as int) =~= views(config.folders@));
        proof {
            let found = match crate::text::opt_view(*local) {
                Some(l) => seq![l],
                None => Seq::<Seq<char>>::empty(),
            };
            assert(start =~= found + seq![default_folder(crate::text::opt_view(*env), home_folder@)]);
        }
        (Mode::All, dedup(&all))
    } else {
        let one = match env {
            Some(e) => e.clone(),
            None => string_of(&chars_of(home_folder)),
        };
        all.push(one);
        assert(views(all@) =~= seq![all@[0]@]);
        (Mode::Single, dedup(&all))
    }
}

/// The name of a mode as `discover` prints it.
pub open spec fn mode_name(m: Mode) -> Seq<char> {
    match m {
        Mode::Single => "single"@,
        Mode::All => "all"@,
        Mode::Override => "override"@,
    }
}

/// What `discover` prints: the mode, then the active folders, one per
/// line, indented by two blanks.
pub open spec fn discover_spec(m: Mode, folders: Seq<Seq<char>>) -> Seq<Seq<char>> {
    seq!["Mode: "@ + mode_name(m), "Active kr folders:"@] + folders.map_values(
        |f: Seq<char>| "  "@ + f,
    )
}

/// The lines that `discover` prints.
pub fn discover_lines(m: Mode, folders: &Vec<String>) -> (out: Vec<String>)
    ensures
        views(out@) == discover_spec(m, views(folders@)),
{
    let mut out: Vec<String> = Vec::new();
    let mut first: Vec<char> = Vec::new();
    push_str(&mut first, "Mode: ");
    match m {
        Mode::Single => push_str(&mut first, "single"),
        Mode::All => push_str(&mut first, "all"),
        Mode::Override => push_str(&mut first, "override"),
    }
    out.push(string_of(&first));
    let mut second: Vec<char> = Vec::new();
    push_str(&mut second, "Active kr folders:");
    out.push(string_of(&second));
    let ghost head = seq!["Mode: "@ + mode_name(m), "Active kr folders:"@];
    assert(views(out@) =~= head);
    let ghost rows = views(folders@).map_values(|f: Seq<char>| "  "@ + f);
    let mut i: usize = 0;
    while i < folders.len()
        invariant
            i <= folders@.len(),
            rows == views(folders@).map_values(|f: Seq<char>| "  "@ + f),
            views(out@) == head + rows.take(i as int),
        decreases folders@.len() - i,
    {
        let mut v: Vec<char> = Vec::new();
        push_str(&mut v, "  ");
        push_str(&mut v, folders[i].as_str());
        let ghost before = out@;
        out.push(string_of(&v));
        assert(views(out@) =~= views(before).push(rows[i as int]));
        assert(rows.take(i + 1) =~= rows.take(i as int).push(rows[i as int]));
        i = i + 1;
    }
    assert(rows.take(folders@.len() as int) =~= rows);
    out
}

/// The active folders hold each folder once, and exactly the folders that
/// were candidates.
pub proof fn law_active_folders_once(s: Seq<Seq<char>>)
    ensures
        forall|i: int, j: int| 0 <= i < j < dedup_spec(s).len() ==> dedup_spec(s)[i] != dedup_spec(s)[j],
        forall|x: Seq<char>| dedup_spec(s).contains(x) <==> s.contains(x),
    decreases s.len(),
{
    if s.len() > 0 {
        let rest = s.drop_last();
        law_active_folders_once(rest);
        let d = dedup_spec(rest);
        assert forall|x: Seq<char>| s.contains(x) <==> (rest.contains(x) || x == s.last()) by {
            if s.contains(x) {
                let k = choose|k: int| 0 <= k < s.len() && s[k] == x;
                if k < rest.len() {
                    assert(rest[k] == x);
                }
            }
            if rest.contains(x) {
                let k = choose|k: int| 0 <= k < rest.len() && rest[k] == x;
                assert(s[k] == x);
            }
            if x == s.last() {
                assert(s[s.len() - 1] == x);
            }
        }
        if !d.contains(s.last()) {
            let e = d.push(s.last());
            assert forall|x: Seq<char>| e.contains(x) <==> (d.contains(x) || x == s.last()) by {
                if e.contains(x) {
                    let k = choose|k: int| 0 <= k < e.len() && e[k] == x;
                    if k < d.len() {
                        assert(d[k] == x);
                    }
                }
                if d.contains(x) {
                    let k = choose|k: int| 0 <= k < d.len() && d[k] == x;
                    assert(e[k] == x);
                }
                if x == s.last() {
                    assert(e[e.len() - 1] == x);
                }
            }
            assert forall|i: int, j: int| 0 <= i < j < e.len() implies e[i] != e[j] by {
                if j == e.len() - 1 {
                    assert(e[i] == d[i]);
                }
            }
        }
    }
}

} // verus!

verus! {

/// Leaving out repeats keeps the first folder first.
proof fn lemma_dedup_first(s: Seq<Seq<char>>)
    requires
        s.len() > 0,
    ensures
        dedup_spec(s).len() > 0,
        dedup_spec(s)[0] == s[0],
    decreases s.len(),
{
    let rest = s.drop_last();
    if rest.len() > 0 {
        lemma_dedup_first(rest);
        assert(rest[0] == s[0]);
    } else {
        assert(dedup_spec(rest) =~= Seq::<Seq<char>>::empty());
    }
}

/// Which folders are active. With `--folder`, exactly the folders given
/// (mode `override`). Otherwise, where `.krrc` sets `mode: all`, the current
/// folder's `.kr` (first, where it exists, so that new registries go there),
/// the default folder (`KR_FOLDER`, else `~/.kr`) and the folders that
/// `.krrc` lists, and nothing else (mode `all`). Otherwise the default
/// folder alone (mode `single`).
pub proof fn law_active_folder_choice(
    flag: Seq<Seq<char>>,
    config_mode: Option<Mode>,
    config_folders: Seq<Seq<char>>,
    env: Option<Seq<char>>,
    local: Option<Seq<char>>,
    home_folder: Seq<char>,
)
    ensures
        ({
            let (m, c) = candidate_folders(flag, config_mode, config_folders, env, local, home_folder);
            let a = dedup_spec(c);
            let d = default_folder(env, home_folder);
            &&& flag.len() > 0 ==> m == Mode::Override && forall|x: Seq<char>| a.contains(x) <==> flag.contains(x)
            &&& flag.len() == 0 && config_mode == Some(Mode::All) ==> {
                &&& m == Mode::All
                &&& a.len() > 0
                &&& a[0] == match local {
                    Some(l) => l,
                    None => d,
                }
                &&& forall|x: Seq<char>| a.contains(x) <==> (local == Some(x) || x == d || config_folders.contains(x))
            }
            &&& flag.len() == 0 && config_mode != Some(Mode::All) ==> m == Mode::Single && a == seq![d]
        }),
{
    let (m, c) = candidate_folders(flag, config_mode, config_folders, env, local, home_folder);
    let d = default_folder(env, home_folder);
    law_active_folders_once(c);
    if flag.len() > 0 {
        assert(c == flag);
        assert forall|x: Seq<char>| dedup_spec(c).contains(x) <==> flag.contains(x) by {
            assert(dedup_spec(c).contains(x) <==> c.contains(x));
        }
    }
    if flag.len() == 0 {
        if config_mode == Some(Mode::All) {
            let found = match local {
                Some(l) => seq![l],
                None => Seq::<Seq<char>>::empty(),
            };
            assert(c == found + seq![d] + config_folders);
            lemma_dedup_first(c);
            assert(c[0] == match local {
                Some(l) => l,
                None => d,
            });
            assert forall|x: Seq<char>| c.contains(x) <==> (local == Some(x) || x == d || config_folders.contains(x)) by {
                if c.contains(x) {
                    let k = choose|k: int| 0 <= k < c.len() && c[k] == x;
                    if k < found.len() {
                        assert(found[k] == x);
                    } else if k == found.len() {
                        assert(x == d);
                    } else {
                        assert(config_folders[k - found.len() - 1] == x);
                    }
                }
                if local == Some(x) {
                    assert(c[0] == x);
                }
                if x == d {
                    assert(c[found.len() as int] == x);
                }
                if config_folders.contains(x) {
                    let k = choose|k: int| 0 <= k < config_folders.len() && config_folders[k] == x;
                    assert(c[found.len() + 1 + k] == x);
                }
            }
            let a = dedup_spec(c);
            assert(a[0] == c[0]);
            assert forall|x: Seq<char>| a.contains(x) <==> (local == Some(x) || x == d || config_folders.contains(x)) by {
                assert(a.contains(x) <==> c.contains(x));
            }
        } else {
            assert(dedup_spec(seq![d].drop_last()) =~= Seq::<Seq<char>>::empty());
            assert(dedup_spec(seq![d]) =~= seq![d]);
        }
    }
}

} // verus!
