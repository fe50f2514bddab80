//! Paths compared as `Path` compares them: by their components, so that
//! `a//b`, `a/./b` and `a/b/` all name the same path as `a/b`.
use vstd::prelude::*;

use crate::sort::{
    key_lt, lemma_key_lt_irreflexive, lemma_key_lt_total, lemma_key_lt_transitive,
    lemma_seq_lt_irreflexive, Key,
};
use crate::text::{chars_lt, chars_of, seq_lt, views};

verus! {

broadcast use vstd::string::group_string_axioms;

// ---------------------------------------------------------------------------
// Components
// ---------------------------------------------------------------------------

/// The text of `s` between separators, in order: `a//b` has the parts
/// `a`, `` and `b`.
pub open spec fn split_parts(s: Seq<char>) -> Seq<Seq<char>>
    decreases s.len(),
{
    if s.len() == 0 {
        seq![Seq::<char>::empty()]
    } else {
        let rest = split_parts(s.drop_last());
        if s.last() == '/' {
            rest.push(Seq::<char>::empty())
        } else {
            rest.update(rest.len() - 1, rest.last().push(s.last()))
        }
    }
}

/// `.`
pub open spec fn is_dot(p: Seq<char>) -> bool {
    p.len() == 1 && p[0] == '.'
}

/// `..`
pub open spec fn is_dot_dot(p: Seq<char>) -> bool {
    p.len() == 2 && p[0] == '.' && p[1] == '.'
}

/// The component that part `k` makes, ranked as `Component` orders its
/// variants: the root 0, `.` 1, `..` 2, a name 3. Empty parts and `.` after
/// the first part make none.
pub open spec fn part_component(parts: Seq<Seq<char>>, k: int) -> Option<Key> {
    let p = parts[k];
    if p.len() == 0 {
        None
    } else if is_dot(p) {
        if k == 0 {
            Some((1u8, Seq::<char>::empty()))
        } else {
            None
        }
    } else if is_dot_dot(p) {
        Some((2u8, Seq::<char>::empty()))
    } else {
        Some((3u8, p))
    }
}

/// The components of the first `n` parts.
pub open spec fn parts_components(parts: Seq<Seq<char>>, n: int) -> Seq<Key>
    decreases n,
{
    if n <= 0 {
        Seq::empty()
    } else {
        parts_components(parts, n - 1) + match part_component(parts, n - 1) {
            Some(c) => seq![c],
            None => Seq::empty(),
        }
    }
}

/// The components of a `/`-separated path (`Path::components`).
pub open spec fn path_components(s: Seq<char>) -> Seq<Key> {
    (if s.len() > 0 && s[0] == '/' {
        seq![(0u8, Seq::<char>::empty())]
    } else {
        Seq::empty()
    }) + parts_components(split_parts(s), split_parts(s).len() as int)
}

/// Lexicographic order on component lists (`Path`'s `Ord`).
pub open spec fn comps_lt(a: Seq<Key>, b: Seq<Key>) -> bool
    decreases a.len(),
{
    if b.len() == 0 {
        false
    } else if a.len() == 0 {
        true
    } else if a[0] != b[0] {
        key_lt(a[0], b[0])
    } else {
        comps_lt(a.skip(1), b.skip(1))
    }
}

/// `a` sorts before `b` as a path.
pub open spec fn path_lt(a: Seq<char>, b: Seq<char>) -> bool {
    comps_lt(path_components(a), path_components(b))
}

/// `a` and `b` name the same path.
pub open spec fn same_path(a: Seq<char>, b: Seq<char>) -> bool {
    path_components(a) == path_components(b)
}

pub proof fn lemma_comps_lt_irreflexive(a: Seq<Key>)
    ensures
        !comps_lt(a, a),
    decreases a.len(),
{
    if a.len() > 0 {
        lemma_comps_lt_irreflexive(a.skip(1));
    }
}

pub proof fn lemma_comps_lt_transitive(a: Seq<Key>, b: Seq<Key>, c: Seq<Key>)
    requires
        comps_lt(a, b),
        comps_lt(b, c),
    ensures
        comps_lt(a, c),
    decreases a.len(),
{
    if a.len() > 0 && b.len() > 0 && c.len() > 0 {
        if a[0] == b[0] && b[0] == c[0] {
            lemma_comps_lt_transitive(a.skip(1), b.skip(1), c.skip(1));
        } else if a[0] != b[0] && b[0] != c[0] {
            lemma_key_lt_transitive(a[0], b[0], c[0]);
            if a[0] == c[0] {
                lemma_key_lt_irreflexive(a[0]);
            }
        }
    }
}

pub proof fn lemma_comps_lt_total(a: Seq<Key>, b: Seq<Key>)
    requires
        a != b,
    ensures
        comps_lt(a, b) || comps_lt(b, a),
    decreases a.len(),
{
    if a.len() == 0 && b.len() == 0 {
        assert(a =~= b);
    } else if a.len() > 0 && b.len() > 0 && a[0] == b[0] {
        if a.skip(1) == b.skip(1) {
            assert(a =~= seq![a[0]] + a.skip(1));
            assert(b =~= seq![b[0]] + b.skip(1));
        }
        lemma_comps_lt_total(a.skip(1), b.skip(1));
    } else if a.len() > 0 && b.len() > 0 {
        lemma_key_lt_total(a[0], b[0]);
    }
}

/// The path order is a strict order, total on paths that differ as paths.
pub proof fn lemma_path_order(x: Seq<char>, y: Seq<char>, z: Seq<char>)
    ensures
        !path_lt(x, x),
        path_lt(x, y) && path_lt(y, z) ==> path_lt(x, z),
        path_lt(x, y) ==> !same_path(x, y),
        !same_path(x, y) ==> path_lt(x, y) || path_lt(y, x),
{
    lemma_comps_lt_irreflexive(path_components(x));
    if path_lt(x, y) && path_lt(y, z) {
        lemma_comps_lt_transitive(path_components(x), path_components(y), path_components(z));
    }
    if !same_path(x, y) {
        lemma_comps_lt_total(path_components(x), path_components(y));
    }
}

// ---------------------------------------------------------------------------
// Computing components
// ---------------------------------------------------------------------------

/// The view of a list of parts.
pub open spec fn part_views(v: Seq<Vec<char>>) -> Seq<Seq<char>> {
    v.map_values(|p: Vec<char>| p@)
}

/// The view of a list of components.
pub open spec fn component_views(v: Seq<(u8, Vec<char>)>) -> Seq<Key> {
    v.map_values(|c: (u8, Vec<char>)| (c.0, c.1@))
}

proof fn lemma_split_nonempty(s: Seq<char>)
    ensures
        split_parts(s).len() >= 1,
    decreases s.len(),
{
    if s.len() > 0 {
        lemma_split_nonempty(s.drop_last());
    }
}

fn split_exec(v: &Vec<char>) -> (parts: Vec<Vec<char>>)
    ensures
        part_views(parts@) == split_parts(v@),
{
    let mut parts: Vec<Vec<char>> = Vec::new();
    parts.push(Vec::new());
    assert(part_views(parts@) =~= split_parts(v@.take(0)));
    let mut i: usize = 0;
    while i < v.len()
        invariant
            i <= v.len(),
            part_views(parts@) == split_parts(v@.take(i as int)),
        decreases v.len() - i,
    {
        proof {
            lemma_split_nonempty(v@.take(i as int));
            assert(v@.take(i + 1).drop_last() =~= v@.take(i as int));
            assert(v@.take(i + 1).last() == v@[i as int]);
        }
        let ghost before = part_views(parts@);
        if v[i] == '/' {
            parts.push(Vec::new());
            assert(part_views(parts@) =~= before.push(Seq::<char>::empty()));
        } else {
            let mut last = parts.pop().unwrap();
            last.push(v[i]);
            parts.push(last);
            assert(part_views(parts@) =~= before.update(
                before.len() - 1,
                before.last().push(v@[i as int]),
            ));
        }
        i += 1;
    }
    assert(v@.take(v@.len() as int) =~= v@);
    parts
}

/// The components of `s`, as `Path::components` gives them.
pub fn path_components_exec(s: &str) -> (r: Vec<(u8, Vec<char>)>)
    ensures
        component_views(r@) == path_components(s@),
{
    let v = chars_of(s);
    let parts = split_exec(&v);
    let mut r: Vec<(u8, Vec<char>)> = Vec::new();
    if v.len() > 0 && v[0] == '/' {
        r.push((0u8, Vec::new()));
    }
    let ghost head = component_views(r@);
    assert(head =~= (if s@.len() > 0 && s@[0] == '/' {
        seq![(0u8, Seq::<char>::empty())]
    } else {
        Seq::<Key>::empty()
    }));
    let mut k: usize = 0;
    while k < parts.len()
        invariant
            k <= parts@.len(),
            part_views(parts@) == split_parts(s@),
            component_views(r@) == head + parts_components(split_parts(s@), k as int),
        decreases parts.len() - k,
    {
        let ghost before = component_views(r@);
        let p = &parts[k];
        assert(p@ == split_parts(s@)[k as int]);
        if p.len() == 0 {
        } else if p.len() == 1 && p[0] == '.' {
            if k == 0 {
                r.push((1u8, Vec::new()));
                assert(component_views(r@) =~= before.push((1u8, Seq::<char>::empty())));
            }
        } else if p.len() == 2 && p[0] == '.' && p[1] == '.' {
            r.push((2u8, Vec::new()));
            assert(component_views(r@) =~= before.push((2u8, Seq::<char>::empty())));
        } else {
            r.push((3u8, p.clone()));
            assert(component_views(r@) =~= before.push((3u8, p@)));
        }
        proof {
            let c = part_component(split_parts(s@), k as int);
            assert(parts_components(split_parts(s@), k + 1) == parts_components(
                split_parts(s@),
                k as int,
            ) + match c {
                Some(c) => seq![c],
                None => Seq::<Key>::empty(),
            });
            assert(component_views(r@) =~= head + parts_components(split_parts(s@), k + 1));
        }
        k += 1;
    }
    r
}

fn chars_same(a: &Vec<char>, b: &Vec<char>) -> (r: bool)
    ensures
        r == (a@ == b@),
{
    if a.len() != b.len() {
        return false;
    }
    let mut i: usize = 0;
    while i < a.len()
        invariant
            a.len() == b.len(),
            i <= a.len(),
            forall|k: int| 0 <= k < i ==> a@[k] == b@[k],
        decreases a.len() - i,
    {
        if a[i] != b[i] {
            return false;
        }
        i += 1;
    }
    assert(a@ =~= b@);
    true
}

/// `x[i..]` sorts before `y[i..]`.
fn comps_less(x: &Vec<(u8, Vec<char>)>, y: &Vec<(u8, Vec<char>)>, i: usize) -> (r: bool)
    requires
        i <= x.len(),
        i <= y.len(),
    ensures
        r == comps_lt(component_views(x@).skip(i as int), component_views(y@).skip(i as int)),
    decreases x.len() - i,
{
    let ghost a = component_views(x@).skip(i as int);
    let ghost b = component_views(y@).skip(i as int);
    if i == y.len() {
        return false;
    }
    if i == x.len() {
        return true;
    }
    assert(a[0] == (x@[i as int].0, x@[i as int].1@));
    assert(b[0] == (y@[i as int].0, y@[i as int].1@));
    let same = x[i].0 == y[i].0 && chars_same(&x[i].1, &y[i].1);
    if !same {
        if x[i].0 != y[i].0 {
            return x[i].0 < y[i].0;
        }
        assert(x@[i as int].1@.skip(0) =~= x@[i as int].1@);
        assert(y@[i as int].1@.skip(0) =~= y@[i as int].1@);
        return chars_lt(&x[i].1, &y[i].1, 0);
    }
    assert(a.skip(1) =~= component_views(x@).skip(i + 1));
    assert(b.skip(1) =~= component_views(y@).skip(i + 1));
    comps_less(x, y, i + 1)
}

/// `a` sorts before `b` as a path.
pub fn str_path_lt(a: &str, b: &str) -> (r: bool)
    ensures
        r == path_lt(a@, b@),
{
    let x = path_components_exec(a);
    let y = path_components_exec(b);
    assert(component_views(x@).skip(0) =~= component_views(x@));
    assert(component_views(y@).skip(0) =~= component_views(y@));
    comps_less(&x, &y, 0)
}

/// `a` and `b` name the same path.
pub fn str_same_path(a: &str, b: &str) -> (r: bool)
    ensures
        r == same_path(a@, b@),
{
    let x = path_components_exec(a);
    let y = path_components_exec(b);
    if x.len() != y.len() {
        return false;
    }
    let mut i: usize = 0;
    while i < x.len()
        invariant
            x.len() == y.len(),
            i <= x.len(),
            component_views(x@) == path_components(a@),
            component_views(y@) == path_components(b@),
            forall|k: int| 0 <= k < i ==> component_views(x@)[k] == component_views(y@)[k],
        decreases x.len() - i,
    {
        if x[i].0 != y[i].0 || !chars_same(&x[i].1, &y[i].1) {
            assert(component_views(x@)[i as int] != component_views(y@)[i as int]);
            return false;
        }
        assert(component_views(x@)[i as int] == component_views(y@)[i as int]);
        i += 1;
    }
    assert(component_views(x@) =~= component_views(y@));
    true
}

// ---------------------------------------------------------------------------
// Sorted sets of paths
// ---------------------------------------------------------------------------

/// Strictly increasing as paths: a `BTreeSet<PathBuf>` as it walks itself.
pub open spec fn path_sorted(v: Seq<Seq<char>>) -> bool {
    forall|i: int, j: int| 0 <= i < j < v.len() ==> path_lt(#[trigger] v[i], #[trigger] v[j])
}

/// The paths (as component lists) that a list of path texts names.
pub open spec fn path_classes(v: Seq<Seq<char>>) -> Set<Seq<Key>> {
    v.map_values(|p: Seq<char>| path_components(p)).to_set()
}

/// Adds `s` to the sorted set of paths `v`, as `BTreeSet::insert` does: when
/// `v` already holds the same path, under whatever text, it is left alone.
pub fn insert_path(v: &mut Vec<String>, s: String)
    requires
        path_sorted(views(old(v)@)),
    ensures
        path_sorted(views(final(v)@)),
        path_classes(views(final(v)@)) == path_classes(views(old(v)@)).insert(path_components(s@)),
        views(final(v)@).to_set() == if path_classes(views(old(v)@)).contains(path_components(s@)) {
            views(old(v)@).to_set()
        } else {
            views(old(v)@).to_set().insert(s@)
        },
{
    let ghost old_v = views(v@);
    let ghost cs = old_v.map_values(|p: Seq<char>| path_components(p));
    let mut p: usize = 0;
    while p < v.len() && str_path_lt(v[p].as_str(), s.as_str())
        invariant
            p <= v.len(),
            views(v@) == old_v,
            forall|k: int| 0 <= k < p ==> path_lt(#[trigger] old_v[k], s@),
        decreases v.len() - p,
    {
        p += 1;
    }
    if p < v.len() && str_same_path(v[p].as_str(), s.as_str()) {
        proof {
            assert(cs[p as int] == path_components(s@));
            assert(path_classes(old_v).contains(path_components(s@)));
            assert(path_classes(old_v).insert(path_components(s@)) =~= path_classes(old_v));
        }
        return;
    }
    proof {
        if p < old_v.len() {
            lemma_path_order(old_v[p as int], s@, s@);
        }
        assert(!path_classes(old_v).contains(path_components(s@))) by {
            if path_classes(old_v).contains(path_components(s@)) {
                let k = choose|k: int| 0 <= k < cs.len() && cs[k] == path_components(s@);
                lemma_path_order(old_v[k], s@, s@);
                if k < p {
                    assert(path_lt(old_v[k], s@));
                } else if k > p {
                    assert(path_lt(old_v[p as int], old_v[k]));
                    lemma_path_order(s@, old_v[p as int], old_v[k]);
                    lemma_path_order(old_v[k], s@, old_v[p as int]);
                }
            }
        }
    }
    v.insert(p, s);
    let ghost new_v = views(v@);
    proof {
        assert(new_v =~= old_v.insert(p as int, s@));
        assert forall|i: int, j: int| 0 <= i < j < new_v.len() implies path_lt(
            #[trigger] new_v[i],
            #[trigger] new_v[j],
        ) by {
            if j < p {
            } else if j == p {
                assert(path_lt(old_v[i], s@));
            } else if i < p {
                assert(path_lt(old_v[i], s@));
                assert(path_lt(s@, old_v[p as int]));
                if p < j - 1 {
                    assert(path_lt(old_v[p as int], old_v[j - 1]));
                    lemma_path_order(s@, old_v[p as int], old_v[j - 1]);
                }
                lemma_path_order(old_v[i], s@, old_v[j - 1]);
            } else if i == p {
                if p < j - 1 {
                    assert(path_lt(old_v[p as int], old_v[j - 1]));
                    lemma_path_order(s@, old_v[p as int], old_v[j - 1]);
                }
            } else {
                assert(path_lt(old_v[i - 1], old_v[j - 1]));
            }
        }
        assert(new_v.to_set() =~= old_v.to_set().insert(s@)) by {
            assert forall|x: Seq<char>| new_v.to_set().contains(x) implies old_v.to_set().insert(
                s@,
            ).contains(x) by {
                let k = choose|k: int| 0 <= k < new_v.len() && new_v[k] == x;
                if k < p {
                    assert(old_v[k] == x);
                } else if k > p {
                    assert(old_v[k - 1] == x);
                }
            }
            assert forall|x: Seq<char>| old_v.to_set().insert(s@).contains(x) implies new_v.to_set().contains(
                x,
            ) by {
                if x == s@ {
                    assert(new_v[p as int] == x);
                } else {
                    let k = choose|k: int| 0 <= k < old_v.len() && old_v[k] == x;
                    if k < p {
                        assert(new_v[k] == x);
                    } else {
                        assert(new_v[k + 1] == x);
                    }
                }
            }
        }
        let ncs = new_v.map_values(|q: Seq<char>| path_components(q));
        assert(ncs =~= cs.insert(p as int, path_components(s@)));
        assert(path_classes(new_v) =~= path_classes(old_v).insert(path_components(s@))) by {
            assert forall|c: Seq<Key>| path_classes(new_v).contains(c) implies path_classes(
                old_v,
            ).insert(path_components(s@)).contains(c) by {
                let k = choose|k: int| 0 <= k < ncs.len() && ncs[k] == c;
                if k < p {
                    assert(cs[k] == c);
                } else if k > p {
                    assert(cs[k - 1] == c);
                }
            }
            assert forall|c: Seq<Key>| path_classes(old_v).insert(path_components(s@)).contains(
                c,
            ) implies path_classes(new_v).contains(c) by {
                if c == path_components(s@) {
                    assert(ncs[p as int] == c);
                } else {
                    let k = choose|k: int| 0 <= k < cs.len() && cs[k] == c;
                    if k < p {
                        assert(ncs[k] == c);
                    } else {
                        assert(ncs[k + 1] == c);
                    }
                }
            }
        }
    }
}

/// Distinct entries of a sorted set of paths name distinct paths, so it holds
/// as many paths as entries.
pub proof fn lemma_path_sorted_count(v: Seq<Seq<char>>)
    requires
        path_sorted(v),
    ensures
        path_classes(v).len() == v.len(),
{
    let cs = v.map_values(|p: Seq<char>| path_components(p));
    assert(cs.no_duplicates()) by {
        assert forall|i: int, j: int| 0 <= i < cs.len() && 0 <= j < cs.len() && i != j implies cs[i]
            != cs[j] by {
            if i < j {
                lemma_path_order(v[i], v[j], v[j]);
            } else {
                lemma_path_order(v[j], v[i], v[i]);
            }
        }
    }
    cs.unique_seq_to_set();
}

} // verus!
