//! File paths as lists of components: splitting, normalising, and writing
//! one path relative to a folder and resolving it back.

use vstd::prelude::*;

use crate::render::push_all;

verus! {

/// The position of the first `/` in `s`, or its length if it has none.
pub open spec fn first_slash(s: Seq<char>) -> nat
    decreases s.len(),
{
    if s.len() == 0 {
        0
    } else if s[0] == '/' {
        0
    } else {
        1 + first_slash(s.drop_first())
    }
}

/// The components of a path: the non-empty pieces between its `/`s.
pub open spec fn components(s: Seq<char>) -> Seq<Seq<char>>
    decreases s.len(),
{
    if s.len() == 0 {
        seq![]
    } else {
        let k = first_slash(s);
        if k == 0 {
            components(s.drop_first())
        } else if k < s.len() {
            seq![s.take(k as int)] + components(s.skip(k + 1int))
        } else {
            seq![s]
        }
    }
}

/// The component `.`.
pub open spec fn dot() -> Seq<char> {
    seq!['.']
}

/// The component `..`.
pub open spec fn dotdot() -> Seq<char> {
    seq!['.', '.']
}

/// Walking the components `xs` from the folder `acc`: `.` stays, `..` goes
/// up one folder (not above the root), any other name goes down into it.
pub open spec fn walk(acc: Seq<Seq<char>>, xs: Seq<Seq<char>>) -> Seq<Seq<char>>
    decreases xs.len(),
{
    if xs.len() == 0 {
        acc
    } else {
        let x = xs[0];
        let rest = xs.drop_first();
        if x == dot() {
            walk(acc, rest)
        } else if x == dotdot() {
            walk(if acc.len() > 0 { acc.drop_last() } else { acc }, rest)
        } else {
            walk(acc.push(x), rest)
        }
    }
}

/// Components joined with `/` between them.
pub open spec fn join_components(cs: Seq<Seq<char>>) -> Seq<char>
    decreases cs.len(),
{
    if cs.len() == 0 {
        Seq::empty()
    } else if cs.len() == 1 {
        cs[0]
    } else {
        cs[0] + seq!['/'] + join_components(cs.drop_first())
    }
}

/// The absolute path of a list of components.
pub open spec fn absolute(cs: Seq<Seq<char>>) -> Seq<char> {
    seq!['/'] + join_components(cs)
}

/// The absolute path that `rel` names from the folder `base`: `rel` itself
/// where it is absolute, else `base` then `rel`, with `.` and `..` walked.
pub open spec fn resolve_path(base: Seq<char>, rel: Seq<char>) -> Seq<char> {
    if rel.len() > 0 && rel[0] == '/' {
        absolute(walk(seq![], components(rel)))
    } else {
        absolute(walk(seq![], components(base) + components(rel)))
    }
}

/// The number of leading components that `a` and `b` share.
pub open spec fn common_len(a: Seq<Seq<char>>, b: Seq<Seq<char>>) -> nat
    decreases a.len(),
{
    if a.len() == 0 || b.len() == 0 || a[0] != b[0] {
        0
    } else {
        1 + common_len(a.drop_first(), b.drop_first())
    }
}

/// `n` copies of `..`.
pub open spec fn ups(n: nat) -> Seq<Seq<char>> {
    Seq::new(n, |i: int| dotdot())
}

/// The components that lead from the folder `base` to `path`: up out of
/// what `base` does not share with `path`, then down into the rest.
pub open spec fn relative_components(base: Seq<Seq<char>>, path: Seq<Seq<char>>) -> Seq<Seq<char>> {
    let k = common_len(base, path);
    ups((base.len() - k) as nat) + path.skip(k as int)
}

/// `path` written relative to the folder `base` (`.` for the folder itself).
pub open spec fn relative_path(base: Seq<char>, path: Seq<char>) -> Seq<char> {
    let r = relative_components(components(base), components(path));
    if r.len() == 0 {
        dot()
    } else {
        join_components(r)
    }
}

/// The views of a list of components.
pub open spec fn cviews(v: Seq<Vec<char>>) -> Seq<Seq<char>> {
    v.map_values(|c: Vec<char>| c@)
}

proof fn lemma_first_slash(t: Seq<char>, m: int)
    requires
        0 <= m <= t.len(),
        forall|k: int| 0 <= k < m ==> t[k] != '/',
        m == t.len() || t[m] == '/',
    ensures
        first_slash(t) == m,
    decreases m,
{
    if m > 0 {
        lemma_first_slash(t.drop_first(), m - 1);
    }
}

/// The components of `s`.
pub fn components_exec(s: &[char]) -> (out: Vec<Vec<char>>)
    ensures
        cviews(out@) == components(s@),
{
    let n = s.len();
    let mut out: Vec<Vec<char>> = Vec::new();
    let mut i: usize = 0;
    assert(s@.skip(0) == s@);
    while i < n
        invariant
            n == s@.len(),
            i <= n,
            cviews(out@) + components(s@.skip(i as int)) == components(s@),
        decreases n - i,
    {
        let ghost t = s@.skip(i as int);
        if s[i] == '/' {
            proof {
                lemma_first_slash(t, 0);
            }
            assert(t.drop_first() == s@.skip(i + 1));
            i = i + 1;
        } else {
            let mut j = i;
            while j < n && s[j] != '/'
                invariant
                    i <= j <= n,
                    n == s@.len(),
                    forall|k: int| i <= k < j ==> s@[k] != '/',
                decreases n - j,
            {
                j = j + 1;
            }
            proof {
                lemma_first_slash(t, j - i);
            }
            let ghost prev = out@;
            let piece = crate::text::slice_chars(s, i, j);
            assert(piece@ == t.take(j - i));
            out.push(piece);
            assert(cviews(out@) =~= cviews(prev).push(piece@));
            if j < n {
                assert(t.skip(j - i + 1) == s@.skip(j + 1));
                i = j + 1;
            } else {
                assert(t == piece@);
                assert(s@.skip(n as int) =~= Seq::<char>::empty());
                i = n;
            }
        }
    }
    assert(s@.skip(n as int) =~= Seq::<char>::empty());
    assert(cviews(out@) =~= components(s@));
    out
}

fn is_dot_exec(x: &Vec<char>) -> (b: bool)
    ensures
        b == (x@ == dot()),
{
    let r = x.len() == 1 && x[0] == '.';
    assert(r ==> x@ =~= dot());
    r
}

fn is_dotdot_exec(x: &Vec<char>) -> (b: bool)
    ensures
        b == (x@ == dotdot()),
{
    let r = x.len() == 2 && x[0] == '.' && x[1] == '.';
    assert(r ==> x@ =~= dotdot());
    r
}

fn clone_chars(x: &Vec<char>) -> (out: Vec<char>)
    ensures
        out@ == x@,
{
    crate::text::slice_chars(x, 0, x.len())
}

/// Walks the components `xs` from the folder `acc`.
pub fn walk_exec(acc: Vec<Vec<char>>, xs: &Vec<Vec<char>>) -> (out: Vec<Vec<char>>)
    ensures
        cviews(out@) == walk(cviews(acc@), cviews(xs@)),
{
    let mut acc = acc;
    let ghost a0 = cviews(acc@);
    let mut i: usize = 0;
    assert(cviews(xs@).skip(0) == cviews(xs@));
    while i < xs.len()
        invariant
            i <= xs@.len(),
            walk(a0, cviews(xs@)) == walk(cviews(acc@), cviews(xs@).skip(i as int)),
        decreases xs@.len() - i,
    {
        let ghost t = cviews(xs@).skip(i as int);
        assert(t[0] == xs@[i as int]@);
        assert(t.drop_first() == cviews(xs@).skip(i + 1));
        let ghost prev = acc@;
        if is_dot_exec(&xs[i]) {
        } else if is_dotdot_exec(&xs[i]) {
            if acc.len() > 0 {
                acc.pop();
                assert(cviews(acc@) =~= cviews(prev).drop_last());
            }
        } else {
            acc.push(clone_chars(&xs[i]));
            assert(cviews(acc@) =~= cviews(prev).push(xs@[i as int]@));
        }
        i = i + 1;
    }
    assert(cviews(xs@).skip(xs@.len() as int) =~= Seq::<Seq<char>>::empty());
    acc
}

/// The components `cs` joined with `/` between them.
pub fn join_components_exec(cs: &Vec<Vec<char>>) -> (out: Vec<char>)
    ensures
        out@ == join_components(cviews(cs@)),
{
    let mut out: Vec<char> = Vec::new();
    let n = cs.len();
    if n == 0 {
        return out;
    }
    let mut i: usize = n - 1;
    push_all(&mut out, &cs[i]);
    assert(cviews(cs@).skip(i as int) =~= seq![cs@[i as int]@]);
    while i > 0
        invariant
            0 <= i < n,
            n == cs@.len(),
            out@ == join_components(cviews(cs@).skip(i as int)),
        decreases i,
    {
        let mut v: Vec<char> = Vec::new();
        push_all(&mut v, &cs[i - 1]);
        v.push('/');
        push_all(&mut v, &out);
        let ghost t = cviews(cs@).skip(i - 1);
        assert(t.drop_first() =~= cviews(cs@).skip(i as int));
        assert(t[0] == cs@[i - 1]@);
        out = v;
        i = i - 1;
    }
    assert(cviews(cs@).skip(0) =~= cviews(cs@));
    out
}

/// The absolute path of the components `cs`.
pub fn absolute_exec(cs: &Vec<Vec<char>>) -> (out: Vec<char>)
    ensures
        out@ == absolute(cviews(cs@)),
{
    let mut out: Vec<char> = Vec::new();
    out.push('/');
    let j = join_components_exec(cs);
    push_all(&mut out, &j);
    assert(out@ =~= absolute(cviews(cs@)));
    out
}

/// The absolute path that `rel` names from the folder `base`.
pub fn resolve_path_exec(base: &[char], rel: &[char]) -> (out: Vec<char>)
    ensures
        out@ == resolve_path(base@, rel@),
{
    let rc = components_exec(rel);
    if rel.len() > 0 && rel[0] == '/' {
        let start: Vec<Vec<char>> = Vec::new();
        assert(cviews(start@) =~= Seq::<Seq<char>>::empty());
        let w = walk_exec(start, &rc);
        absolute_exec(&w)
    } else {
        let mut all = components_exec(base);
        let ghost b = cviews(all@);
        let mut i: usize = 0;
        while i < rc.len()
            invariant
                i <= rc@.len(),
                cviews(all@) == b + cviews(rc@).take(i as int),
            decreases rc@.len() - i,
        {
            let ghost prev = all@;
            all.push(clone_chars(&rc[i]));
            assert(cviews(all@) =~= cviews(prev).push(rc@[i as int]@));
            assert(cviews(rc@).take(i + 1) =~= cviews(rc@).take(i as int).push(rc@[i as int]@));
            i = i + 1;
        }
        assert(cviews(rc@).take(rc@.len() as int) =~= cviews(rc@));
        let start: Vec<Vec<char>> = Vec::new();
        assert(cviews(start@) =~= Seq::<Seq<char>>::empty());
        let w = walk_exec(start, &all);
        absolute_exec(&w)
    }
}

fn same(a: &Vec<char>, b: &Vec<char>) -> (r: bool)
    ensures
        r == (a@ == b@),
{
    crate::registry::same_chars(a, b)
}

/// `path` written relative to the folder `base`.
pub fn relative_path_exec(base: &[char], path: &[char]) -> (out: Vec<char>)
    ensures
        out@ == relative_path(base@, path@),
{
    let bc = components_exec(base);
    let pc = components_exec(path);
    let ghost bv = cviews(bc@);
    let ghost pv = cviews(pc@);
    let mut k: usize = 0;
    assert(bv.skip(0) == bv && pv.skip(0) == pv);
    while k < bc.len() && k < pc.len() && same(&bc[k], &pc[k])
        invariant
            k <= bc@.len(),
            k <= pc@.len(),
            bv == cviews(bc@),
            pv == cviews(pc@),
            common_len(bv, pv) == k + common_len(bv.skip(k as int), pv.skip(k as int)),
        decreases bc@.len() - k,
    {
        assert(bv.skip(k as int).drop_first() =~= bv.skip(k + 1));
        assert(pv.skip(k as int).drop_first() =~= pv.skip(k + 1));
        k = k + 1;
    }
    assert(common_len(bv.skip(k as int), pv.skip(k as int)) == 0) by {
        if k < bc@.len() && k < pc@.len() {
            assert(bv.skip(k as int)[0] == bv[k as int]);
            assert(pv.skip(k as int)[0] == pv[k as int]);
        }
    }
    let mut r: Vec<Vec<char>> = Vec::new();
    let mut i: usize = k;
    while i < bc.len()
        invariant
            k <= i <= bc@.len(),
            cviews(r@) == ups((i - k) as nat),
        decreases bc@.len() - i,
    {
        let ghost prev = r@;
        let dd = vec!['.', '.'];
        assert(dd@ =~= dotdot());
        r.push(dd);
        assert(cviews(r@) =~= cviews(prev).push(dotdot()));
        assert(cviews(r@) =~= ups((i + 1 - k) as nat));
        i = i + 1;
    }
    let mut j: usize = k;
    while j < pc.len()
        invariant
            k <= j <= pc@.len(),
            pv == cviews(pc@),
            cviews(r@) == ups((bc@.len() - k) as nat) + pv.subrange(k as int, j as int),
        decreases pc@.len() - j,
    {
        let ghost prev = r@;
        r.push(clone_chars(&pc[j]));
        assert(cviews(r@) =~= cviews(prev).push(pv[j as int]));
        assert(cviews(r@) =~= ups((bc@.len() - k) as nat) + pv.subrange(k as int, j + 1));
        j = j + 1;
    }
    assert(pv.subrange(k as int, pc@.len() as int) =~= pv.skip(k as int));
    if r.len() == 0 {
        let d = vec!['.'];
        assert(d@ =~= dot());
        d
    } else {
        join_components_exec(&r)
    }
}

} // verus!

verus! {

/// No component is `.` or `..`.
pub open spec fn plain(cs: Seq<Seq<char>>) -> bool {
    forall|i: int| 0 <= i < cs.len() ==> #[trigger] cs[i] != dot() && cs[i] != dotdot()
}

/// Every component is non-empty and holds no `/`.
pub open spec fn well_split(cs: Seq<Seq<char>>) -> bool {
    forall|i: int| 0 <= i < cs.len() ==> (#[trigger] cs[i]).len() > 0 && crate::text::lacks(cs[i], '/')
}

/// Components are non-empty and hold no `/`.
proof fn lemma_components_well_split(s: Seq<char>)
    ensures
        well_split(components(s)),
    decreases s.len(),
{
    if s.len() > 0 {
        let k = first_slash(s);
        lemma_first_slash_bounds(s);
        if k == 0 {
            lemma_components_well_split(s.drop_first());
        } else if k < s.len() {
            lemma_components_well_split(s.skip(k + 1int));
            let c = components(s);
            assert forall|i: int| 0 <= i < c.len() implies (#[trigger] c[i]).len() > 0
                && crate::text::lacks(c[i], '/') by {
                if i == 0 {
                    assert(c[0] == s.take(k as int));
                } else {
                    assert(c[i] == components(s.skip(k + 1int))[i - 1]);
                }
            }
        } else {
            let c = components(s);
            assert(c[0] == s);
        }
    }
}

proof fn lemma_first_slash_bounds(s: Seq<char>)
    ensures
        first_slash(s) <= s.len(),
        forall|j: int| 0 <= j < first_slash(s) ==> s[j] != '/',
        first_slash(s) < s.len() ==> s[first_slash(s) as int] == '/',
    decreases s.len(),
{
    if s.len() > 0 && s[0] != '/' {
        lemma_first_slash_bounds(s.drop_first());
        assert forall|j: int| 0 <= j < first_slash(s) implies s[j] != '/' by {
            if j > 0 {
                assert(s[j] == s.drop_first()[j - 1]);
            }
        }
    }
}

proof fn lemma_components_of_join(xs: Seq<Seq<char>>)
    requires
        xs.len() > 0,
        well_split(xs),
    ensures
        components(join_components(xs)) == xs,
        join_components(xs)[0] == xs[0][0],
    decreases xs.len(),
{
    let x0 = xs[0];
    if xs.len() == 1 {
        lemma_first_slash(x0, x0.len() as int);
        assert(components(x0) == seq![x0]);
        assert(seq![x0] =~= xs);
    } else {
        let rest = xs.drop_first();
        assert(well_split(rest)) by {
            assert forall|i: int| 0 <= i < rest.len() implies (#[trigger] rest[i]).len() > 0
                && crate::text::lacks(rest[i], '/') by {
                assert(rest[i] == xs[i + 1]);
            }
        }
        lemma_components_of_join(rest);
        let s = x0 + seq!['/'] + join_components(rest);
        assert(s == join_components(xs));
        lemma_first_slash(s, x0.len() as int);
        assert(s.take(x0.len() as int) =~= x0);
        assert(s.skip(x0.len() + 1int) =~= join_components(rest));
        assert(seq![x0] + rest =~= xs);
    }
}

proof fn lemma_walk_concat(acc: Seq<Seq<char>>, xs: Seq<Seq<char>>, ys: Seq<Seq<char>>)
    ensures
        walk(acc, xs + ys) == walk(walk(acc, xs), ys),
    decreases xs.len(),
{
    if xs.len() > 0 {
        assert((xs + ys)[0] == xs[0]);
        assert((xs + ys).drop_first() =~= xs.drop_first() + ys);
        let x = xs[0];
        let next = if x == dot() {
            acc
        } else if x == dotdot() {
            if acc.len() > 0 {
                acc.drop_last()
            } else {
                acc
            }
        } else {
            acc.push(x)
        };
        lemma_walk_concat(next, xs.drop_first(), ys);
    } else {
        assert(xs + ys =~= ys);
    }
}

proof fn lemma_walk_plain(acc: Seq<Seq<char>>, xs: Seq<Seq<char>>)
    requires
        plain(xs),
    ensures
        walk(acc, xs) == acc + xs,
    decreases xs.len(),
{
    if xs.len() > 0 {
        let rest = xs.drop_first();
        assert(xs[0] != dot() && xs[0] != dotdot());
        assert(plain(rest)) by {
            assert forall|i: int| 0 <= i < rest.len() implies #[trigger] rest[i] != dot()
                && rest[i] != dotdot() by {
                assert(rest[i] == xs[i + 1]);
            }
        }
        lemma_walk_plain(acc.push(xs[0]), rest);
        assert(acc.push(xs[0]) + rest =~= acc + xs);
    } else {
        assert(acc + xs =~= acc);
    }
}

proof fn lemma_walk_ups(acc: Seq<Seq<char>>, m: nat)
    requires
        m <= acc.len(),
    ensures
        walk(acc, ups(m)) == acc.take(acc.len() - m),
    decreases m,
{
    if m > 0 {
        let u = ups(m);
        assert(u[0] == dotdot());
        assert(u.drop_first() =~= ups((m - 1) as nat));
        assert(dotdot() != dot()) by {
            assert(dotdot().len() != dot().len());
        }
        lemma_walk_ups(acc.drop_last(), (m - 1) as nat);
        assert(acc.drop_last().take(acc.drop_last().len() - (m - 1)) =~= acc.take(acc.len() - m));
    } else {
        assert(ups(0) =~= Seq::<Seq<char>>::empty());
        assert(acc.take(acc.len() as int) =~= acc);
    }
}

/// The shared leading components are shared.
proof fn lemma_common_len(a: Seq<Seq<char>>, b: Seq<Seq<char>>)
    ensures
        common_len(a, b) <= a.len(),
        common_len(a, b) <= b.len(),
        a.take(common_len(a, b) as int) == b.take(common_len(a, b) as int),
    decreases a.len(),
{
    if a.len() == 0 || b.len() == 0 || a[0] != b[0] {
        assert(a.take(0) =~= b.take(0));
    } else {
        lemma_common_len(a.drop_first(), b.drop_first());
        let k = common_len(a, b);
        assert(a.take(k as int) =~= seq![a[0]] + a.drop_first().take(k - 1));
        assert(b.take(k as int) =~= seq![b[0]] + b.drop_first().take(k - 1));
    }
}

/// A path written relative to a folder resolves back, from that folder, to
/// the same path in absolute form (repeated and trailing `/`s dropped) —
/// for a folder and a path that hold no `.` or `..` components.
pub proof fn law_relative_resolves_back(base: Seq<char>, path: Seq<char>)
    requires
        plain(components(base)),
        plain(components(path)),
    ensures
        resolve_path(base, relative_path(base, path)) == absolute(components(path)),
{
    let b = components(base);
    let p = components(path);
    lemma_common_len(b, p);
    lemma_components_well_split(path);
    let k = common_len(b, p);
    let r = relative_components(b, p);
    let u = ups((b.len() - k) as nat);
    let pk = p.skip(k as int);
    lemma_walk_plain(Seq::empty(), b);
    assert(Seq::<Seq<char>>::empty() + b =~= b);
    lemma_walk_ups(b, (b.len() - k) as nat);
    assert(b.take(b.len() - (b.len() - k)) =~= b.take(k as int));
    assert(plain(pk)) by {
        assert forall|i: int| 0 <= i < pk.len() implies #[trigger] pk[i] != dot() && pk[i]
            != dotdot() by {
            assert(pk[i] == p[i + k]);
        }
    }
    lemma_walk_plain(b.take(k as int), pk);
    assert(p.take(k as int) + pk =~= p);
    if r.len() == 0 {
        let rel = dot();
        lemma_first_slash(rel, 1);
        assert(components(rel) == seq![rel]);
        lemma_walk_concat(Seq::empty(), b, seq![rel]);
        assert(seq![rel].drop_first() =~= Seq::<Seq<char>>::empty());
        assert(walk(b, seq![rel]) == walk(b, Seq::<Seq<char>>::empty()));
        assert(u.len() == 0 && pk.len() == 0);
        assert(b =~= b.take(k as int));
        assert(p =~= p.take(k as int));
    } else {
        assert(well_split(r)) by {
            assert forall|i: int| 0 <= i < r.len() implies (#[trigger] r[i]).len() > 0
                && crate::text::lacks(r[i], '/') by {
                if i < u.len() {
                    assert(r[i] == dotdot());
                    assert(dotdot()[0] == '.' && dotdot()[1] == '.');
                } else {
                    assert(r[i] == p[i - u.len() + k]);
                }
            }
        }
        lemma_components_of_join(r);
        let rel = join_components(r);
        assert(rel[0] == r[0][0]);
        assert(rel[0] != '/');
        lemma_walk_concat(Seq::empty(), b, r);
        lemma_walk_concat(b, u, pk);
        assert(r == u + pk);
    }
}

/// A character absent from a path is absent from its components.
pub proof fn lemma_components_lack(s: Seq<char>, c: char)
    requires
        crate::text::lacks(s, c),
    ensures
        forall|i: int| 0 <= i < components(s).len() ==> crate::text::lacks(#[trigger] components(s)[i], c),
    decreases s.len(),
{
    if s.len() > 0 {
        let k = first_slash(s);
        lemma_first_slash_bounds(s);
        if k == 0 {
            assert(crate::text::lacks(s.drop_first(), c)) by {
                assert forall|i: int| 0 <= i < s.drop_first().len() implies s.drop_first()[i] != c by {
                    assert(s.drop_first()[i] == s[i + 1]);
                }
            }
            lemma_components_lack(s.drop_first(), c);
            assert(components(s) == components(s.drop_first()));
        } else if k < s.len() {
            let t = s.skip(k + 1int);
            assert(crate::text::lacks(t, c)) by {
                assert forall|i: int| 0 <= i < t.len() implies t[i] != c by {
                    assert(t[i] == s[i + k + 1]);
                }
            }
            lemma_components_lack(t, c);
            let cs = components(s);
            assert forall|i: int| 0 <= i < cs.len() implies crate::text::lacks(#[trigger] cs[i], c) by {
                if i == 0 {
                    assert(cs[0] == s.take(k as int));
                    assert forall|j: int| 0 <= j < cs[0].len() implies cs[0][j] != c by {
                        assert(cs[0][j] == s[j]);
                    }
                } else {
                    assert(cs[i] == components(t)[i - 1]);
                }
            }
        } else {
            assert(components(s) == seq![s]);
            assert forall|i: int| 0 <= i < components(s).len() implies crate::text::lacks(
                #[trigger] components(s)[i],
                c,
            ) by {
                assert(components(s)[i] == s);
            }
        }
    }
}

/// Components joined with `/` hold no character that none of them holds
/// (other than `/`).
pub proof fn lemma_join_lacks(xs: Seq<Seq<char>>, c: char)
    requires
        c != '/',
        forall|i: int| 0 <= i < xs.len() ==> crate::text::lacks(#[trigger] xs[i], c),
    ensures
        crate::text::lacks(join_components(xs), c),
    decreases xs.len(),
{
    if xs.len() > 1 {
        let rest = xs.drop_first();
        assert forall|i: int| 0 <= i < rest.len() implies crate::text::lacks(#[trigger] rest[i], c) by {
            assert(rest[i] == xs[i + 1]);
        }
        lemma_join_lacks(rest, c);
        let j = join_components(xs);
        let x0 = xs[0];
        assert(j == x0 + seq!['/'] + join_components(rest));
        assert(crate::text::lacks(x0, c));
        assert forall|i: int| 0 <= i < j.len() implies j[i] != c by {
            if i < x0.len() {
                assert(j[i] == x0[i]);
            } else if i > x0.len() {
                assert(j[i] == join_components(rest)[i - x0.len() - 1]);
            }
        }
    } else if xs.len() == 1 {
        assert(crate::text::lacks(xs[0], c));
    }
}

/// Non-empty components without `/`, joined with `/`, never give two `/`s
/// in a row.
pub proof fn lemma_join_no_double_slash(xs: Seq<Seq<char>>)
    requires
        well_split(xs),
    ensures
        forall|j: int|
            0 <= j && j + 1 < join_components(xs).len() ==> !(#[trigger] join_components(xs)[j]
                == '/' && join_components(xs)[j + 1] == '/'),
    decreases xs.len(),
{
    if xs.len() == 1 {
        assert(crate::text::lacks(xs[0], '/'));
    } else if xs.len() > 1 {
        let rest = xs.drop_first();
        assert(well_split(rest)) by {
            assert forall|i: int| 0 <= i < rest.len() implies (#[trigger] rest[i]).len() > 0
                && crate::text::lacks(rest[i], '/') by {
                assert(rest[i] == xs[i + 1]);
            }
        }
        lemma_join_no_double_slash(rest);
        lemma_components_of_join(rest);
        let x0 = xs[0];
        let jr = join_components(rest);
        let j = join_components(xs);
        assert(j == x0 + seq!['/'] + jr);
        assert(crate::text::lacks(x0, '/'));
        assert(crate::text::lacks(rest[0], '/') && rest[0].len() > 0);
        assert forall|i: int| 0 <= i && i + 1 < j.len() implies !(#[trigger] j[i] == '/' && j[i
            + 1] == '/') by {
            if i < x0.len() {
                assert(j[i] == x0[i]);
            } else if i == x0.len() {
                assert(j[i + 1] == jr[0]);
                assert(jr[0] == rest[0][0]);
            } else {
                assert(j[i] == jr[i - x0.len() - 1]);
                assert(j[i + 1] == jr[i - x0.len()]);
            }
        }
    }
}

/// An absolute path already in canonical form: `/`, then non-empty
/// components joined by single `/`s, none of them `.` or `..`, with no
/// trailing `/` (the root is `/`).
pub open spec fn canonical_path(p: Seq<char>) -> bool {
    plain(components(p)) && absolute(components(p)) == p
}

/// Whether `p` is an absolute path in canonical form.
pub fn canonical_path_exec(p: &[char]) -> (b: bool)
    ensures
        b == canonical_path(p@),
{
    let cs = components_exec(p);
    let mut i: usize = 0;
    while i < cs.len()
        invariant
            i <= cs@.len(),
            cviews(cs@) == components(p@),
            forall|j: int| 0 <= j < i ==> #[trigger] cviews(cs@)[j] != dot() && cviews(cs@)[j] != dotdot(),
        decreases cs@.len() - i,
    {
        assert(cviews(cs@)[i as int] == cs@[i as int]@);
        if is_dot_exec(&cs[i]) || is_dotdot_exec(&cs[i]) {
            return false;
        }
        i = i + 1;
    }
    let a = absolute_exec(&cs);
    crate::registry::same_chars(&a, p)
}

/// No two `/`s stand next to each other.
pub open spec fn no_double_slash(s: Seq<char>) -> bool {
    forall|j: int| 0 <= j && j + 1 < s.len() ==> !(#[trigger] s[j] == '/' && s[j + 1] == '/')
}

/// A path written relative to a folder is non-empty, does not start with
/// `/`, has no two `/`s in a row, and holds no character other than `.` and
/// `/` that the path lacks — for a folder and a path without `.` or `..`
/// components.
pub proof fn lemma_relative_path_shape(base: Seq<char>, path: Seq<char>, c: char)
    requires
        plain(components(base)),
        plain(components(path)),
        crate::text::lacks(path, c),
        c != '.',
        c != '/',
    ensures
        relative_path(base, path).len() > 0,
        relative_path(base, path)[0] != '/',
        no_double_slash(relative_path(base, path)),
        crate::text::lacks(relative_path(base, path), c),
{
    let b = components(base);
    let p = components(path);
    let r = relative_components(b, p);
    let rel = relative_path(base, path);
    lemma_components_lack(path, c);
    if r.len() == 0 {
        assert(rel == dot());
    } else {
        lemma_components_well_split(path);
        let k = common_len(b, p);
        lemma_common_len(b, p);
        let u = ups((b.len() - k) as nat);
        assert(r == u + p.skip(k as int));
        assert forall|i: int| 0 <= i < r.len() implies (#[trigger] r[i]).len() > 0
            && crate::text::lacks(r[i], '/') && crate::text::lacks(r[i], c) by {
            if i < u.len() {
                assert(r[i] == dotdot());
                assert(dotdot()[0] == '.' && dotdot()[1] == '.');
            } else {
                assert(r[i] == p[i - u.len() + k]);
            }
        }
        lemma_join_lacks(r, c);
        lemma_join_no_double_slash(r);
        lemma_components_of_join(r);
        assert(rel[0] == r[0][0]);
        assert forall|j: int| 0 <= j && j + 1 < rel.len() implies !(#[trigger] rel[j] == '/' && rel[j + 1] == '/') by {
        }
    }
}

/// A relative path with `./` in front names what the path names.
pub proof fn lemma_dot_prefix_resolves(base: Seq<char>, r: Seq<char>)
    requires
        r.len() > 0,
        r[0] != '/',
    ensures
        resolve_path(base, seq!['.', '/'] + r) == resolve_path(base, r),
{
    let s = seq!['.', '/'] + r;
    lemma_first_slash(s, 1);
    assert(s.take(1) =~= dot());
    assert(s.skip(2) =~= r);
    assert(components(s) == seq![dot()] + components(r));
    let cb = components(base);
    lemma_walk_concat(Seq::empty(), cb, seq![dot()] + components(r));
    lemma_walk_concat(Seq::empty(), cb, components(r));
    let w = walk(Seq::empty(), cb);
    assert((seq![dot()] + components(r))[0] == dot());
    assert((seq![dot()] + components(r)).drop_first() =~= components(r));
    assert(walk(w, seq![dot()] + components(r)) == walk(w, components(r)));
}

} // verus!
