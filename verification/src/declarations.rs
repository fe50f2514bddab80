//! The tool declarations of a catalog: every distinct tool block, with the
//! definition files and targets that declare it, in key order.
use vstd::prelude::*;

use crate::model::{copy_opt, role_text, ImageCatalog, ImageTarget, ToolRole, ToolRuntime};
use crate::sort::{lemma_seq_lt_irreflexive, lemma_seq_lt_total, lemma_seq_lt_transitive};
use crate::paths::{insert_path, path_classes, path_components, path_sorted, same_path};
use crate::sort::Key;
use crate::text::{is_prefix, owned, seq_lt, str_eq, str_lt, views};
use crate::tools::{
    derive_tag_suffix, parse_pinned_image_reference, parsed_as, pin_error, pinned_ok, ImageReference,
    ToolError,
};

verus! {

broadcast use vstd::string::group_string_axioms;

// ---------------------------------------------------------------------------
// Sorted sets of strings
// ---------------------------------------------------------------------------

/// Strictly increasing in code-point order: a set of strings as a
/// `BTreeSet<String>` walks it.
pub open spec fn strictly_sorted(v: Seq<Seq<char>>) -> bool {
    forall|i: int, j: int| 0 <= i < j < v.len() ==> seq_lt(#[trigger] v[i], #[trigger] v[j])
}

/// Adds `s` to the sorted set `v`.
pub fn insert_sorted(v: &mut Vec<String>, s: String)
    requires
        strictly_sorted(views(old(v)@)),
    ensures
        strictly_sorted(views(final(v)@)),
        views(final(v)@).to_set() == views(old(v)@).to_set().insert(s@),
{
    let ghost old_v = views(v@);
    let mut p: usize = 0;
    while p < v.len() && str_lt(v[p].as_str(), s.as_str())
        invariant
            p <= v.len(),
            views(v@) == old_v,
            forall|k: int| 0 <= k < p ==> seq_lt(#[trigger] old_v[k], s@),
        decreases v.len() - p,
    {
        p += 1;
    }
    if p < v.len() && str_eq(v[p].as_str(), s.as_str()) {
        assert(views(v@).to_set() =~= old_v.to_set().insert(s@)) by {
            assert(old_v[p as int] == s@);
        }
        return;
    }
    proof {
        if p < old_v.len() {
            lemma_seq_lt_total(old_v[p as int], s@);
        }
    }
    v.insert(p, s);
    let ghost new_v = views(v@);
    proof {
        assert(new_v =~= old_v.insert(p as int, s@));
        assert forall|i: int, j: int| 0 <= i < j < new_v.len() implies seq_lt(
            #[trigger] new_v[i],
            #[trigger] new_v[j],
        ) by {
            if j < p {
            } else if j == p {
                assert(seq_lt(old_v[i], s@));
            } else if i < p {
                assert(seq_lt(old_v[i], s@));
                assert(seq_lt(s@, old_v[p as int]));
                if p < j - 1 {
                    assert(seq_lt(old_v[p as int], old_v[j - 1]));
                    lemma_seq_lt_transitive(s@, old_v[p as int], old_v[j - 1]);
                }
                lemma_seq_lt_transitive(old_v[i], s@, old_v[j - 1]);
            } else if i == p {
                if p < j - 1 {
                    assert(seq_lt(old_v[p as int], old_v[j - 1]));
                    lemma_seq_lt_transitive(s@, old_v[p as int], old_v[j - 1]);
                }
            } else {
                assert(seq_lt(old_v[i - 1], old_v[j - 1]));
            }
        }
        assert(new_v.to_set() =~= old_v.to_set().insert(s@)) by {
            assert forall|x: Seq<char>| new_v.to_set().contains(x) implies old_v.to_set().insert(
                s@,
            ).contains(x) by {
                let k = choose|k: int| 0 <= k < new_v.len() && new_v[k] == x;
                if k < p {
                    assert(old_v[k] == x);
                } else if k > p {
                    assert(old_v[k - 1] == x);
                }
            }
            assert forall|x: Seq<char>| old_v.to_set().insert(s@).contains(x) implies new_v.to_set().contains(
                x,
            ) by {
                if x == s@ {
                    assert(new_v[p as int] == x);
                } else {
                    let k = choose|k: int| 0 <= k < old_v.len() && old_v[k] == x;
                    if k < p {
                        assert(new_v[k] == x);
                    } else {
                        assert(new_v[k + 1] == x);
                    }
                }
            }
        }
    }
}

// ---------------------------------------------------------------------------
// The key of a tool block
// ---------------------------------------------------------------------------

/// What tells two tool blocks apart: name, role, release, image and paths.
pub struct ToolKey {
    pub name: Seq<char>,
    pub role: Seq<char>,
    pub release: Seq<char>,
    pub image: Option<Seq<char>>,
    pub source_path: Seq<char>,
    pub target_path: Seq<char>,
}

/// `None` first, then by the string.
pub open spec fn opt_lt(a: Option<Seq<char>>, b: Option<Seq<char>>) -> bool {
    match a {
        None => b is Some,
        Some(x) => match b {
            Some(y) => seq_lt(x, y),
            None => false,
        },
    }
}

/// Field by field, in the order of the fields (the derived `Ord` of a struct).
pub open spec fn tool_key_lt(a: ToolKey, b: ToolKey) -> bool {
    if a.name != b.name {
        seq_lt(a.name, b.name)
    } else if a.role != b.role {
        seq_lt(a.role, b.role)
    } else if a.release != b.release {
        seq_lt(a.release, b.release)
    } else if a.image != b.image {
        opt_lt(a.image, b.image)
    } else if a.source_path != b.source_path {
        seq_lt(a.source_path, b.source_path)
    } else {
        seq_lt(a.target_path, b.target_path)
    }
}

proof fn lemma_seq_facts(x: Seq<char>, y: Seq<char>, z: Seq<char>)
    ensures
        !seq_lt(x, x),
        seq_lt(x, y) && seq_lt(y, z) ==> seq_lt(x, z),
        seq_lt(x, y) ==> !seq_lt(y, x),
        x != y ==> seq_lt(x, y) || seq_lt(y, x),
{
    lemma_seq_lt_irreflexive(x);
    if seq_lt(x, y) && seq_lt(y, z) {
        lemma_seq_lt_transitive(x, y, z);
    }
    if seq_lt(x, y) && seq_lt(y, x) {
        lemma_seq_lt_transitive(x, y, x);
    }
    if x != y {
        lemma_seq_lt_total(x, y);
    }
}

proof fn lemma_opt_facts(x: Option<Seq<char>>, y: Option<Seq<char>>, z: Option<Seq<char>>)
    ensures
        !opt_lt(x, x),
        opt_lt(x, y) && opt_lt(y, z) ==> opt_lt(x, z),
        opt_lt(x, y) ==> !opt_lt(y, x),
        x != y ==> opt_lt(x, y) || opt_lt(y, x),
{
    if x is Some && y is Some && z is Some {
        lemma_seq_facts(x->0, y->0, z->0);
    }
    if x is Some {
        lemma_seq_lt_irreflexive(x->0);
    }
    if x is Some && y is Some {
        lemma_seq_facts(x->0, y->0, y->0);
    }
}

/// The key order is a strict total order.
pub proof fn lemma_tool_key_order(a: ToolKey, b: ToolKey, c: ToolKey)
    ensures
        !tool_key_lt(a, a),
        tool_key_lt(a, b) && tool_key_lt(b, c) ==> tool_key_lt(a, c),
        a != b ==> tool_key_lt(a, b) || tool_key_lt(b, a),
{
    lemma_seq_facts(a.name, b.name, c.name);
    lemma_seq_facts(a.role, b.role, c.role);
    lemma_seq_facts(a.release, b.release, c.release);
    lemma_opt_facts(a.image, b.image, c.image);
    lemma_seq_facts(a.source_path, b.source_path, c.source_path);
    lemma_seq_facts(a.target_path, b.target_path, c.target_path);
    lemma_seq_facts(b.name, a.name, c.name);
    lemma_seq_facts(b.role, a.role, c.role);
    lemma_seq_facts(b.release, a.release, c.release);
    lemma_opt_facts(b.image, a.image, c.image);
    lemma_seq_facts(b.source_path, a.source_path, c.source_path);
    lemma_seq_facts(b.target_path, a.target_path, c.target_path);
}

/// The key of a tool block of a target.
pub open spec fn tool_key(t: ToolRuntime) -> ToolKey {
    ToolKey {
        name: t.name@,
        role: role_text(t.role),
        release: t.release@,
        image: match t.image {
            Some(s) => Some(s@),
            None => None,
        },
        source_path: t.source_path@,
        target_path: t.target_path@,
    }
}

/// The key of a tool block, held for comparisons.
pub struct DeclKey {
    pub name: String,
    pub role: String,
    pub release: String,
    pub image: Option<String>,
    pub source_path: String,
    pub target_path: String,
}

impl View for DeclKey {
    type V = ToolKey;

    open spec fn view(&self) -> ToolKey {
        ToolKey {
            name: self.name@,
            role: self.role@,
            release: self.release@,
            image: match self.image {
                Some(s) => Some(s@),
                None => None,
            },
            source_path: self.source_path@,
            target_path: self.target_path@,
        }
    }
}

fn key_of_tool(t: &ToolRuntime) -> (k: DeclKey)
    ensures
        k@ == tool_key(*t),
{
    DeclKey {
        name: t.name.clone(),
        role: owned(t.role.as_str()),
        release: t.release.clone(),
        image: copy_opt(&t.image),
        source_path: t.source_path.clone(),
        target_path: t.target_path.clone(),
    }
}

fn opt_eq(a: &Option<String>, b: &Option<String>) -> (r: bool)
    ensures
        r == (match a {
            Some(s) => Some(s@),
            None => None::<Seq<char>>,
        } == match b {
            Some(s) => Some(s@),
            None => None::<Seq<char>>,
        }),
{
    match (a, b) {
        (Some(x), Some(y)) => str_eq(x.as_str(), y.as_str()),
        (None, None) => true,
        _ => false,
    }
}

fn opt_less(a: &Option<String>, b: &Option<String>) -> (r: bool)
    ensures
        r == opt_lt(
            match a {
                Some(s) => Some(s@),
                None => None::<Seq<char>>,
            },
            match b {
                Some(s) => Some(s@),
                None => None::<Seq<char>>,
            },
        ),
{
    match (a, b) {
        (Some(x), Some(y)) => str_lt(x.as_str(), y.as_str()),
        (None, Some(_)) => true,
        _ => false,
    }
}

/// Equal keys.
fn key_same(a: &DeclKey, b: &DeclKey) -> (r: bool)
    ensures
        r == (a@ == b@),
{
    str_eq(a.name.as_str(), b.name.as_str()) && str_eq(a.role.as_str(), b.role.as_str())
        && str_eq(a.release.as_str(), b.release.as_str()) && opt_eq(&a.image, &b.image)
        && str_eq(a.source_path.as_str(), b.source_path.as_str()) && str_eq(
        a.target_path.as_str(),
        b.target_path.as_str(),
    )
}

/// `a` sorts before `b`.
fn key_before(a: &DeclKey, b: &DeclKey) -> (r: bool)
    ensures
        r == tool_key_lt(a@, b@),
{
    if !str_eq(a.name.as_str(), b.name.as_str()) {
        str_lt(a.name.as_str(), b.name.as_str())
    } else if !str_eq(a.role.as_str(), b.role.as_str()) {
        str_lt(a.role.as_str(), b.role.as_str())
    } else if !str_eq(a.release.as_str(), b.release.as_str()) {
        str_lt(a.release.as_str(), b.release.as_str())
    } else if !opt_eq(&a.image, &b.image) {
        opt_less(&a.image, &b.image)
    } else if !str_eq(a.source_path.as_str(), b.source_path.as_str()) {
        str_lt(a.source_path.as_str(), b.source_path.as_str())
    } else {
        str_lt(a.target_path.as_str(), b.target_path.as_str())
    }
}

// ---------------------------------------------------------------------------
// Declarations
// ---------------------------------------------------------------------------

/// One distinct tool block, with everything that declares it.
#[derive(Debug)]
pub struct ToolDeclaration {
    pub name: String,
    pub role: ToolRole,
    pub release: String,
    pub image: Option<String>,
    pub source_path: String,
    pub target_path: String,
    /// The image tag after the release, when the tag starts with the release.
    pub tag_suffix: Option<String>,
    pub image_ref: Option<ImageReference>,
    /// The definition files that declare the block, in path order, each once.
    pub definition_files: Vec<String>,
    /// The targets that carry the block, sorted, each once.
    pub target_ids: Vec<String>,
}

/// The key of a declaration.
pub open spec fn decl_key(d: ToolDeclaration) -> ToolKey {
    ToolKey {
        name: d.name@,
        role: role_text(d.role),
        release: d.release@,
        image: match d.image {
            Some(s) => Some(s@),
            None => None,
        },
        source_path: d.source_path@,
        target_path: d.target_path@,
    }
}

/// Tool `j` of target `i`.
pub open spec fn tool_at(targets: Seq<ImageTarget>, i: int, j: int) -> ToolRuntime {
    targets[i].tools@[j]
}

/// `(i, j)` names a tool block of a target.
pub open spec fn is_occurrence(targets: Seq<ImageTarget>, i: int, j: int) -> bool {
    0 <= i < targets.len() && 0 <= j < targets[i].tools@.len()
}

/// The tool blocks that a list of declarations accounts for.
pub open spec fn counted(
    targets: Seq<ImageTarget>,
    scope: spec_fn(int, int) -> bool,
    i: int,
    j: int,
) -> bool {
    is_occurrence(targets, i, j) && scope(i, j)
}

/// The keys of the counted tool blocks.
pub open spec fn keys_in(targets: Seq<ImageTarget>, scope: spec_fn(int, int) -> bool) -> Set<ToolKey> {
    Set::new(
        |k: ToolKey|
            exists|i: int, j: int|
                #[trigger] counted(targets, scope, i, j) && tool_key(tool_at(targets, i, j)) == k,
    )
}

/// `(a, b)` comes before `(i, j)`, walking targets and then their tools.
pub open spec fn earlier(a: int, b: int, i: int, j: int) -> bool {
    a < i || (a == i && b < j)
}

/// Tool block `(i, j)` is counted, has key `k`, and no earlier counted block
/// with key `k` has a definition file that names the same path.
pub open spec fn first_of_path(
    targets: Seq<ImageTarget>,
    scope: spec_fn(int, int) -> bool,
    k: ToolKey,
    i: int,
    j: int,
) -> bool {
    &&& counted(targets, scope, i, j)
    &&& tool_key(tool_at(targets, i, j)) == k
    &&& forall|a: int, b: int|
        #[trigger] counted(targets, scope, a, b) && earlier(a, b, i, j) && tool_key(
            tool_at(targets, a, b),
        ) == k ==> !same_path(targets[a].definition_file@, targets[i].definition_file@)
}

/// The definition files of the counted tool blocks with key `k`, one text per
/// path: the first that names it (what a `BTreeSet<PathBuf>` keeps).
pub open spec fn files_in(
    targets: Seq<ImageTarget>,
    scope: spec_fn(int, int) -> bool,
    k: ToolKey,
) -> Set<Seq<char>> {
    Set::new(
        |f: Seq<char>|
            exists|i: int, j: int|
                #[trigger] first_of_path(targets, scope, k, i, j) && targets[i].definition_file@ == f,
    )
}

/// The paths of the definition files of the counted tool blocks with key `k`.
pub open spec fn file_paths_in(
    targets: Seq<ImageTarget>,
    scope: spec_fn(int, int) -> bool,
    k: ToolKey,
) -> Set<Seq<Key>> {
    Set::new(
        |c: Seq<Key>|
            exists|i: int, j: int|
                #[trigger] counted(targets, scope, i, j) && tool_key(tool_at(targets, i, j)) == k
                    && path_components(targets[i].definition_file@) == c,
    )
}

/// The ids of the targets of the counted tool blocks with key `k`.
pub open spec fn ids_in(
    targets: Seq<ImageTarget>,
    scope: spec_fn(int, int) -> bool,
    k: ToolKey,
) -> Set<Seq<char>> {
    Set::new(
        |f: Seq<char>|
            exists|i: int, j: int|
                #[trigger] counted(targets, scope, i, j) && tool_key(tool_at(targets, i, j)) == k
                    && targets[i].id@ == f,
    )
}

/// The image parts and tag suffix follow from the image and the release.
pub open spec fn decl_fields_ok(d: ToolDeclaration) -> bool {
    match d.image {
        None => d.image_ref is None && d.tag_suffix is None,
        Some(x) => match d.image_ref {
            Some(r) => {
                &&& exists|a: int, s: int, c: int| #[trigger] parsed_as(x@, r, a, s, c)
                &&& (d.tag_suffix is Some <==> is_prefix(d.release@, r.tag@))
                &&& (d.tag_suffix matches Some(t) ==> d.release@ + t@ == r.tag@)
            },
            None => false,
        },
    }
}

/// `d` gathers the counted tool blocks with its key.
pub open spec fn declaration_of(
    targets: Seq<ImageTarget>,
    scope: spec_fn(int, int) -> bool,
    d: ToolDeclaration,
) -> bool {
    &&& keys_in(targets, scope).contains(decl_key(d))
    &&& path_sorted(views(d.definition_files@))
    &&& views(d.definition_files@).to_set() == files_in(targets, scope, decl_key(d))
    &&& path_classes(views(d.definition_files@)) == file_paths_in(targets, scope, decl_key(d))
    &&& strictly_sorted(views(d.target_ids@))
    &&& views(d.target_ids@).to_set() == ids_in(targets, scope, decl_key(d))
    &&& decl_fields_ok(d)
}

/// `ds` has one declaration per key of the counted tool blocks, in key order.
pub open spec fn declared(
    targets: Seq<ImageTarget>,
    ds: Seq<ToolDeclaration>,
    scope: spec_fn(int, int) -> bool,
) -> bool {
    &&& forall|k: int, l: int|
        0 <= k < l < ds.len() ==> tool_key_lt(decl_key(#[trigger] ds[k]), decl_key(#[trigger] ds[l]))
    &&& forall|k: int| 0 <= k < ds.len() ==> declaration_of(targets, scope, #[trigger] ds[k])
    &&& forall|key: ToolKey|
        #[trigger] keys_in(targets, scope).contains(key) ==> exists|k: int|
            0 <= k < ds.len() && decl_key(#[trigger] ds[k]) == key
}

/// Every tool block of every target.
pub open spec fn everywhere() -> spec_fn(int, int) -> bool {
    |i: int, j: int| true
}

/// The tool blocks before tool `j` of target `i`.
pub open spec fn upto(i: int, j: int) -> spec_fn(int, int) -> bool {
    |a: int, b: int| a < i || (a == i && b < j)
}

/// Scopes that agree on every tool block count the same.
proof fn lemma_same_scope(
    targets: Seq<ImageTarget>,
    ds: Seq<ToolDeclaration>,
    s1: spec_fn(int, int) -> bool,
    s2: spec_fn(int, int) -> bool,
)
    requires
        forall|i: int, j: int| is_occurrence(targets, i, j) ==> s1(i, j) == s2(i, j),
        declared(targets, ds, s1),
    ensures
        declared(targets, ds, s2),
{
    assert forall|i: int, j: int| counted(targets, s1, i, j) == counted(targets, s2, i, j) by {}
    assert(keys_in(targets, s1) =~= keys_in(targets, s2)) by {
        assert forall|k: ToolKey| keys_in(targets, s1).contains(k) implies keys_in(targets, s2).contains(k) by {
            let (i, j) = choose|i: int, j: int|
                #[trigger] counted(targets, s1, i, j) && tool_key(tool_at(targets, i, j)) == k;
            assert(counted(targets, s2, i, j));
        }
        assert forall|k: ToolKey| keys_in(targets, s2).contains(k) implies keys_in(targets, s1).contains(k) by {
            let (i, j) = choose|i: int, j: int|
                #[trigger] counted(targets, s2, i, j) && tool_key(tool_at(targets, i, j)) == k;
            assert(counted(targets, s1, i, j));
        }
    }
    assert forall|k: ToolKey, i: int, j: int|
        first_of_path(targets, s1, k, i, j) == first_of_path(targets, s2, k, i, j) by {
        if first_of_path(targets, s1, k, i, j) {
            assert forall|a: int, b: int|
                #[trigger] counted(targets, s2, a, b) && earlier(a, b, i, j) && tool_key(
                    tool_at(targets, a, b),
                ) == k implies !same_path(targets[a].definition_file@, targets[i].definition_file@) by {
                assert(counted(targets, s1, a, b));
            }
        }
        if first_of_path(targets, s2, k, i, j) {
            assert forall|a: int, b: int|
                #[trigger] counted(targets, s1, a, b) && earlier(a, b, i, j) && tool_key(
                    tool_at(targets, a, b),
                ) == k implies !same_path(targets[a].definition_file@, targets[i].definition_file@) by {
                assert(counted(targets, s2, a, b));
            }
        }
    }
    assert forall|k: ToolKey| #[trigger] files_in(targets, s1, k) == files_in(targets, s2, k) by {
        assert forall|f: Seq<char>| files_in(targets, s1, k).contains(f) implies files_in(targets, s2, k).contains(f) by {
            let (i, j) = choose|i: int, j: int|
                #[trigger] first_of_path(targets, s1, k, i, j) && targets[i].definition_file@ == f;
            assert(first_of_path(targets, s2, k, i, j));
        }
        assert forall|f: Seq<char>| files_in(targets, s2, k).contains(f) implies files_in(targets, s1, k).contains(f) by {
            let (i, j) = choose|i: int, j: int|
                #[trigger] first_of_path(targets, s2, k, i, j) && targets[i].definition_file@ == f;
            assert(first_of_path(targets, s1, k, i, j));
        }
        assert(files_in(targets, s1, k) =~= files_in(targets, s2, k));
    }
    assert forall|k: ToolKey| #[trigger] file_paths_in(targets, s1, k) == file_paths_in(targets, s2, k) by {
        assert forall|c: Seq<Key>| file_paths_in(targets, s1, k).contains(c) implies file_paths_in(targets, s2, k).contains(c) by {
            let (i, j) = choose|i: int, j: int|
                #[trigger] counted(targets, s1, i, j) && tool_key(tool_at(targets, i, j)) == k
                    && path_components(targets[i].definition_file@) == c;
            assert(counted(targets, s2, i, j));
        }
        assert forall|c: Seq<Key>| file_paths_in(targets, s2, k).contains(c) implies file_paths_in(targets, s1, k).contains(c) by {
            let (i, j) = choose|i: int, j: int|
                #[trigger] counted(targets, s2, i, j) && tool_key(tool_at(targets, i, j)) == k
                    && path_components(targets[i].definition_file@) == c;
            assert(counted(targets, s1, i, j));
        }
        assert(file_paths_in(targets, s1, k) =~= file_paths_in(targets, s2, k));
    }
    assert forall|k: ToolKey| #[trigger] ids_in(targets, s1, k) == ids_in(targets, s2, k) by {
        assert forall|f: Seq<char>| ids_in(targets, s1, k).contains(f) implies ids_in(targets, s2, k).contains(f) by {
            let (i, j) = choose|i: int, j: int|
                #[trigger] counted(targets, s1, i, j) && tool_key(tool_at(targets, i, j)) == k
                    && targets[i].id@ == f;
            assert(counted(targets, s2, i, j));
        }
        assert forall|f: Seq<char>| ids_in(targets, s2, k).contains(f) implies ids_in(targets, s1, k).contains(f) by {
            let (i, j) = choose|i: int, j: int|
                #[trigger] counted(targets, s2, i, j) && tool_key(tool_at(targets, i, j)) == k
                    && targets[i].id@ == f;
            assert(counted(targets, s1, i, j));
        }
        assert(ids_in(targets, s1, k) =~= ids_in(targets, s2, k));
    }
    assert forall|k: int| 0 <= k < ds.len() implies declaration_of(targets, s2, #[trigger] ds[k]) by {
        assert(declaration_of(targets, s1, ds[k]));
        assert(files_in(targets, s1, decl_key(ds[k])) == files_in(targets, s2, decl_key(ds[k])));
        assert(file_paths_in(targets, s1, decl_key(ds[k])) == file_paths_in(targets, s2, decl_key(ds[k])));
        assert(ids_in(targets, s1, decl_key(ds[k])) == ids_in(targets, s2, decl_key(ds[k])));
    }
}

/// Counting one more tool block adds its key, its file and its target.
proof fn lemma_scope_step(targets: Seq<ImageTarget>, i: int, j: int)
    requires
        is_occurrence(targets, i, j),
    ensures
        keys_in(targets, upto(i, j + 1)) == keys_in(targets, upto(i, j)).insert(
            tool_key(tool_at(targets, i, j)),
        ),
        forall|k: ToolKey|
            #[trigger] files_in(targets, upto(i, j + 1), k) == if k == tool_key(tool_at(targets, i, j))
                && !file_paths_in(targets, upto(i, j), k).contains(
                path_components(targets[i].definition_file@),
            ) {
                files_in(targets, upto(i, j), k).insert(targets[i].definition_file@)
            } else {
                files_in(targets, upto(i, j), k)
            },
        forall|k: ToolKey|
            #[trigger] file_paths_in(targets, upto(i, j + 1), k) == if k == tool_key(
                tool_at(targets, i, j),
            ) {
                file_paths_in(targets, upto(i, j), k).insert(
                    path_components(targets[i].definition_file@),
                )
            } else {
                file_paths_in(targets, upto(i, j), k)
            },
        forall|k: ToolKey|
            #[trigger] ids_in(targets, upto(i, j + 1), k) == if k == tool_key(tool_at(targets, i, j)) {
                ids_in(targets, upto(i, j), k).insert(targets[i].id@)
            } else {
                ids_in(targets, upto(i, j), k)
            },
{
    let s1 = upto(i, j);
    let s2 = upto(i, j + 1);
    let tk = tool_key(tool_at(targets, i, j));
    assert(counted(targets, s2, i, j));
    assert forall|a: int, b: int| counted(targets, s2, a, b) implies counted(targets, s1, a, b) || (a
        == i && b == j) by {}
    assert forall|a: int, b: int| counted(targets, s1, a, b) implies counted(targets, s2, a, b) by {}
    assert(keys_in(targets, s2) =~= keys_in(targets, s1).insert(tk)) by {
        assert forall|k: ToolKey| keys_in(targets, s2).contains(k) implies keys_in(targets, s1).insert(
            tk,
        ).contains(k) by {
            let (a, b) = choose|a: int, b: int|
                #[trigger] counted(targets, s2, a, b) && tool_key(tool_at(targets, a, b)) == k;
            if !(a == i && b == j) {
                assert(counted(targets, s1, a, b));
            }
        }
        assert forall|k: ToolKey| keys_in(targets, s1).insert(tk).contains(k) implies keys_in(
            targets,
            s2,
        ).contains(k) by {
            if k != tk {
                let (a, b) = choose|a: int, b: int|
                    #[trigger] counted(targets, s1, a, b) && tool_key(tool_at(targets, a, b)) == k;
                assert(counted(targets, s2, a, b));
            }
        }
    }
    let f0 = targets[i].definition_file@;
    let c0 = path_components(f0);
    assert forall|k: ToolKey, a: int, b: int|
        !(a == i && b == j) && first_of_path(targets, s2, k, a, b) implies first_of_path(
        targets,
        s1,
        k,
        a,
        b,
    ) by {
        assert(counted(targets, s1, a, b));
        assert forall|c: int, d: int|
            #[trigger] counted(targets, s1, c, d) && earlier(c, d, a, b) && tool_key(
                tool_at(targets, c, d),
            ) == k implies !same_path(targets[c].definition_file@, targets[a].definition_file@) by {
            assert(counted(targets, s2, c, d));
        }
    }
    assert forall|k: ToolKey, a: int, b: int| first_of_path(targets, s1, k, a, b) implies first_of_path(
        targets,
        s2,
        k,
        a,
        b,
    ) by {
        assert(counted(targets, s2, a, b));
        assert forall|c: int, d: int|
            #[trigger] counted(targets, s2, c, d) && earlier(c, d, a, b) && tool_key(
                tool_at(targets, c, d),
            ) == k implies !same_path(targets[c].definition_file@, targets[a].definition_file@) by {
            assert(counted(targets, s1, c, d));
        }
    }
    assert(first_of_path(targets, s2, tk, i, j) <==> !file_paths_in(targets, s1, tk).contains(c0)) by {
        if first_of_path(targets, s2, tk, i, j) && file_paths_in(targets, s1, tk).contains(c0) {
            let (a, b) = choose|a: int, b: int|
                #[trigger] counted(targets, s1, a, b) && tool_key(tool_at(targets, a, b)) == tk
                    && path_components(targets[a].definition_file@) == c0;
            assert(counted(targets, s2, a, b));
        }
        if !file_paths_in(targets, s1, tk).contains(c0) {
            assert forall|a: int, b: int|
                #[trigger] counted(targets, s2, a, b) && earlier(a, b, i, j) && tool_key(
                    tool_at(targets, a, b),
                ) == tk implies !same_path(targets[a].definition_file@, f0) by {
                assert(counted(targets, s1, a, b));
                if same_path(targets[a].definition_file@, f0) {
                    assert(file_paths_in(targets, s1, tk).contains(c0));
                }
            }
        }
    }
    assert forall|k: ToolKey|
        #[trigger] files_in(targets, s2, k) == if k == tk && !file_paths_in(targets, s1, k).contains(
            c0,
        ) {
            files_in(targets, s1, k).insert(f0)
        } else {
            files_in(targets, s1, k)
        } by {
        let want = if k == tk && !file_paths_in(targets, s1, k).contains(c0) {
            files_in(targets, s1, k).insert(f0)
        } else {
            files_in(targets, s1, k)
        };
        assert forall|f: Seq<char>| files_in(targets, s2, k).contains(f) implies want.contains(f) by {
            let (a, b) = choose|a: int, b: int|
                #[trigger] first_of_path(targets, s2, k, a, b) && targets[a].definition_file@ == f;
            if !(a == i && b == j) {
                assert(first_of_path(targets, s1, k, a, b));
            }
        }
        assert forall|f: Seq<char>| want.contains(f) implies files_in(targets, s2, k).contains(f) by {
            if k == tk && !file_paths_in(targets, s1, k).contains(c0) && f == f0 {
                assert(first_of_path(targets, s2, k, i, j));
            } else {
                let (a, b) = choose|a: int, b: int|
                    #[trigger] first_of_path(targets, s1, k, a, b) && targets[a].definition_file@ == f;
                assert(first_of_path(targets, s2, k, a, b));
            }
        }
        assert(files_in(targets, s2, k) =~= want);
    }
    assert forall|k: ToolKey|
        #[trigger] file_paths_in(targets, s2, k) == if k == tk {
            file_paths_in(targets, s1, k).insert(c0)
        } else {
            file_paths_in(targets, s1, k)
        } by {
        let want = if k == tk {
            file_paths_in(targets, s1, k).insert(c0)
        } else {
            file_paths_in(targets, s1, k)
        };
        assert forall|c: Seq<Key>| file_paths_in(targets, s2, k).contains(c) implies want.contains(c) by {
            let (a, b) = choose|a: int, b: int|
                #[trigger] counted(targets, s2, a, b) && tool_key(tool_at(targets, a, b)) == k
                    && path_components(targets[a].definition_file@) == c;
            if !(a == i && b == j) {
                assert(counted(targets, s1, a, b));
            }
        }
        assert forall|c: Seq<Key>| want.contains(c) implies file_paths_in(targets, s2, k).contains(c) by {
            if k == tk && c == c0 {
                assert(counted(targets, s2, i, j));
            } else {
                let (a, b) = choose|a: int, b: int|
                    #[trigger] counted(targets, s1, a, b) && tool_key(tool_at(targets, a, b)) == k
                        && path_components(targets[a].definition_file@) == c;
                assert(counted(targets, s2, a, b));
            }
        }
        assert(file_paths_in(targets, s2, k) =~= want);
    }
    assert forall|k: ToolKey|
        #[trigger] ids_in(targets, s2, k) == if k == tk {
            ids_in(targets, s1, k).insert(targets[i].id@)
        } else {
            ids_in(targets, s1, k)
        } by {
        let want = if k == tk {
            ids_in(targets, s1, k).insert(targets[i].id@)
        } else {
            ids_in(targets, s1, k)
        };
        assert forall|f: Seq<char>| ids_in(targets, s2, k).contains(f) implies want.contains(f) by {
            let (a, b) = choose|a: int, b: int|
                #[trigger] counted(targets, s2, a, b) && tool_key(tool_at(targets, a, b)) == k
                    && targets[a].id@ == f;
            if !(a == i && b == j) {
                assert(counted(targets, s1, a, b));
            }
        }
        assert forall|f: Seq<char>| want.contains(f) implies ids_in(targets, s2, k).contains(f) by {
            if k == tk && f == targets[i].id@ {
            } else {
                let (a, b) = choose|a: int, b: int|
                    #[trigger] counted(targets, s1, a, b) && tool_key(tool_at(targets, a, b)) == k
                        && targets[a].id@ == f;
                assert(counted(targets, s2, a, b));
            }
        }
        assert(ids_in(targets, s2, k) =~= want);
    }
}

/// A tool block whose key is declared already adds its file and target to
/// that declaration.
proof fn lemma_merge_step(
    targets: Seq<ImageTarget>,
    ds: Seq<ToolDeclaration>,
    p: int,
    d2: ToolDeclaration,
    i: int,
    j: int,
)
    requires
        is_occurrence(targets, i, j),
        declared(targets, ds, upto(i, j)),
        0 <= p < ds.len(),
        decl_key(ds[p]) == tool_key(tool_at(targets, i, j)),
        decl_key(d2) == decl_key(ds[p]),
        decl_fields_ok(d2),
        path_sorted(views(d2.definition_files@)),
        path_classes(views(d2.definition_files@)) == path_classes(
            views(ds[p].definition_files@),
        ).insert(path_components(targets[i].definition_file@)),
        views(d2.definition_files@).to_set() == if path_classes(
            views(ds[p].definition_files@),
        ).contains(path_components(targets[i].definition_file@)) {
            views(ds[p].definition_files@).to_set()
        } else {
            views(ds[p].definition_files@).to_set().insert(targets[i].definition_file@)
        },
        strictly_sorted(views(d2.target_ids@)),
        views(d2.target_ids@).to_set() == views(ds[p].target_ids@).to_set().insert(targets[i].id@),
    ensures
        declared(targets, ds.update(p, d2), upto(i, j + 1)),
{
    let s1 = upto(i, j);
    let s2 = upto(i, j + 1);
    let tk = tool_key(tool_at(targets, i, j));
    let nd = ds.update(p, d2);
    lemma_scope_step(targets, i, j);
    assert forall|k: int, l: int| 0 <= k < l < nd.len() implies tool_key_lt(
        decl_key(#[trigger] nd[k]),
        decl_key(#[trigger] nd[l]),
    ) by {
        assert(tool_key_lt(decl_key(ds[k]), decl_key(ds[l])));
    }
    assert forall|k: int| 0 <= k < nd.len() implies declaration_of(targets, s2, #[trigger] nd[k]) by {
        assert(declaration_of(targets, s1, ds[k]));
        if k != p {
            if decl_key(ds[k]) == tk {
                if k < p {
                    assert(tool_key_lt(decl_key(ds[k]), decl_key(ds[p])));
                } else {
                    assert(tool_key_lt(decl_key(ds[p]), decl_key(ds[k])));
                }
                lemma_tool_key_order(tk, tk, tk);
            }
            assert(files_in(targets, s2, decl_key(ds[k])) == files_in(targets, s1, decl_key(ds[k])));
            assert(file_paths_in(targets, s2, decl_key(ds[k])) == file_paths_in(
                targets,
                s1,
                decl_key(ds[k]),
            ));
            assert(ids_in(targets, s2, decl_key(ds[k])) == ids_in(targets, s1, decl_key(ds[k])));
        } else {
            assert(file_paths_in(targets, s1, tk) == path_classes(views(ds[p].definition_files@)));
            assert(file_paths_in(targets, s2, tk) == file_paths_in(targets, s1, tk).insert(
                path_components(targets[i].definition_file@),
            ));
            assert(ids_in(targets, s2, tk) == ids_in(targets, s1, tk).insert(targets[i].id@));
        }
    }
    assert forall|key: ToolKey| #[trigger] keys_in(targets, s2).contains(key) implies exists|k: int|
        0 <= k < nd.len() && decl_key(#[trigger] nd[k]) == key by {
        if key == tk {
            assert(decl_key(nd[p]) == key);
        } else {
            assert(keys_in(targets, s1).contains(key));
            let k = choose|k: int| 0 <= k < ds.len() && decl_key(#[trigger] ds[k]) == key;
            assert(decl_key(nd[k]) == key);
        }
    }
}

/// A tool block with a new key becomes a declaration of its own, at the
/// place its key sorts to.
proof fn lemma_insert_step(
    targets: Seq<ImageTarget>,
    ds: Seq<ToolDeclaration>,
    p: int,
    d2: ToolDeclaration,
    i: int,
    j: int,
)
    requires
        is_occurrence(targets, i, j),
        declared(targets, ds, upto(i, j)),
        0 <= p <= ds.len(),
        decl_key(d2) == tool_key(tool_at(targets, i, j)),
        forall|k: int| 0 <= k < p ==> tool_key_lt(decl_key(#[trigger] ds[k]), decl_key(d2)),
        p < ds.len() ==> tool_key_lt(decl_key(d2), decl_key(ds[p])),
        decl_fields_ok(d2),
        views(d2.definition_files@) == seq![targets[i].definition_file@],
        views(d2.target_ids@) == seq![targets[i].id@],
    ensures
        declared(targets, ds.insert(p, d2), upto(i, j + 1)),
{
    let s1 = upto(i, j);
    let s2 = upto(i, j + 1);
    let tk = tool_key(tool_at(targets, i, j));
    let nd = ds.insert(p, d2);
    lemma_scope_step(targets, i, j);
    lemma_tool_key_order(tk, tk, tk);
    assert forall|k: int| 0 <= k < ds.len() implies decl_key(#[trigger] ds[k]) != tk by {
        if k < p {
            assert(tool_key_lt(decl_key(ds[k]), tk));
        } else if k == p {
        } else {
            assert(tool_key_lt(decl_key(ds[p]), decl_key(ds[k])));
            lemma_tool_key_order(tk, decl_key(ds[p]), decl_key(ds[k]));
        }
    }
    assert(!keys_in(targets, s1).contains(tk)) by {
        if keys_in(targets, s1).contains(tk) {
            let k = choose|k: int| 0 <= k < ds.len() && decl_key(#[trigger] ds[k]) == tk;
        }
    }
    assert(files_in(targets, s1, tk) =~= Set::empty()) by {
        assert forall|f: Seq<char>| !files_in(targets, s1, tk).contains(f) by {
            if files_in(targets, s1, tk).contains(f) {
                let (a, b) = choose|a: int, b: int|
                    #[trigger] first_of_path(targets, s1, tk, a, b) && targets[a].definition_file@ == f;
                assert(keys_in(targets, s1).contains(tk));
            }
        }
    }
    assert(file_paths_in(targets, s1, tk) =~= Set::empty()) by {
        assert forall|c: Seq<Key>| !file_paths_in(targets, s1, tk).contains(c) by {
            if file_paths_in(targets, s1, tk).contains(c) {
                let (a, b) = choose|a: int, b: int|
                    #[trigger] counted(targets, s1, a, b) && tool_key(tool_at(targets, a, b)) == tk
                        && path_components(targets[a].definition_file@) == c;
                assert(keys_in(targets, s1).contains(tk));
            }
        }
    }
    assert(ids_in(targets, s1, tk) =~= Set::empty()) by {
        assert forall|f: Seq<char>| !ids_in(targets, s1, tk).contains(f) by {
            if ids_in(targets, s1, tk).contains(f) {
                let (a, b) = choose|a: int, b: int|
                    #[trigger] counted(targets, s1, a, b) && tool_key(tool_at(targets, a, b)) == tk
                        && targets[a].id@ == f;
                assert(keys_in(targets, s1).contains(tk));
            }
        }
    }
    assert forall|k: int, l: int| 0 <= k < l < nd.len() implies tool_key_lt(
        decl_key(#[trigger] nd[k]),
        decl_key(#[trigger] nd[l]),
    ) by {
        if l < p {
            assert(tool_key_lt(decl_key(ds[k]), decl_key(ds[l])));
        } else if l == p {
        } else if k < p {
            assert(tool_key_lt(decl_key(ds[k]), tk));
            assert(tool_key_lt(tk, decl_key(ds[p])));
            if p < l - 1 {
                assert(tool_key_lt(decl_key(ds[p]), decl_key(ds[l - 1])));
                lemma_tool_key_order(tk, decl_key(ds[p]), decl_key(ds[l - 1]));
            }
            lemma_tool_key_order(decl_key(ds[k]), tk, decl_key(ds[l - 1]));
        } else if k == p {
            if p < l - 1 {
                assert(tool_key_lt(decl_key(ds[p]), decl_key(ds[l - 1])));
                lemma_tool_key_order(tk, decl_key(ds[p]), decl_key(ds[l - 1]));
            }
        } else {
            assert(tool_key_lt(decl_key(ds[k - 1]), decl_key(ds[l - 1])));
        }
    }
    assert forall|k: int| 0 <= k < nd.len() implies declaration_of(targets, s2, #[trigger] nd[k]) by {
        if k == p {
            assert(views(d2.definition_files@).to_set() =~= files_in(targets, s2, tk)) by {
                assert(files_in(targets, s2, tk) == Set::<Seq<char>>::empty().insert(
                    targets[i].definition_file@,
                ));
                assert(views(d2.definition_files@).to_set().contains(targets[i].definition_file@)) by {
                    assert(views(d2.definition_files@)[0] == targets[i].definition_file@);
                }
            }
            assert(path_classes(views(d2.definition_files@)) =~= file_paths_in(targets, s2, tk)) by {
                let cs = views(d2.definition_files@).map_values(|q: Seq<char>| path_components(q));
                assert(cs =~= seq![path_components(targets[i].definition_file@)]);
                assert(file_paths_in(targets, s2, tk) == Set::<Seq<Key>>::empty().insert(
                    path_components(targets[i].definition_file@),
                ));
                assert(cs.to_set().contains(path_components(targets[i].definition_file@))) by {
                    assert(cs[0] == path_components(targets[i].definition_file@));
                }
            }
            assert(views(d2.target_ids@).to_set() =~= ids_in(targets, s2, tk)) by {
                assert(ids_in(targets, s2, tk) == Set::<Seq<char>>::empty().insert(targets[i].id@));
                assert(views(d2.target_ids@).to_set().contains(targets[i].id@)) by {
                    assert(views(d2.target_ids@)[0] == targets[i].id@);
                }
            }
        } else {
            let o = if k < p {
                k
            } else {
                k - 1
            };
            assert(nd[k] == ds[o]);
            assert(declaration_of(targets, s1, ds[o]));
            assert(decl_key(ds[o]) != tk);
            assert(files_in(targets, s2, decl_key(ds[o])) == files_in(targets, s1, decl_key(ds[o])));
            assert(file_paths_in(targets, s2, decl_key(ds[o])) == file_paths_in(
                targets,
                s1,
                decl_key(ds[o]),
            ));
            assert(ids_in(targets, s2, decl_key(ds[o])) == ids_in(targets, s1, decl_key(ds[o])));
        }
    }
    assert forall|key: ToolKey| #[trigger] keys_in(targets, s2).contains(key) implies exists|k: int|
        0 <= k < nd.len() && decl_key(#[trigger] nd[k]) == key by {
        if key == tk {
            assert(decl_key(nd[p]) == key);
        } else {
            assert(keys_in(targets, s1).contains(key));
            let k = choose|k: int| 0 <= k < ds.len() && decl_key(#[trigger] ds[k]) == key;
            if k < p {
                assert(decl_key(nd[k]) == key);
            } else {
                assert(decl_key(nd[k + 1]) == key);
            }
        }
    }
}

/// Tool `j` of target `i` names an image that is not pinned by digest.
pub open spec fn bad_image(targets: Seq<ImageTarget>, i: int, j: int) -> bool {
    is_occurrence(targets, i, j) && match tool_at(targets, i, j).image {
        Some(x) => !pinned_ok(x@),
        None => false,
    }
}

/// `(i, j)` is the first such tool block, walking targets and then their tools.
pub open spec fn first_bad(targets: Seq<ImageTarget>, i: int, j: int) -> bool {
    &&& bad_image(targets, i, j)
    &&& forall|a: int, b: int| (a < i || (a == i && b < j)) ==> !#[trigger] bad_image(targets, a, b)
}

/// The error for the image of tool `j` of target `i`.
pub open spec fn unsupported_error(targets: Seq<ImageTarget>, i: int, j: int, e: ToolError) -> bool {
    &&& e matches ToolError::UnsupportedImageReference { target, tool, reason }
    &&& e->target@ == targets[i].id@
    &&& e->tool@ == tool_at(targets, i, j).name@
    &&& match tool_at(targets, i, j).image {
        Some(x) => pin_error(x@, *e->reason),
        None => false,
    }
}

/// The tool declarations of the catalog, one per distinct tool block, in key
/// order. Fails on the first tool image that is not pinned by digest.
pub fn tool_declarations(catalog: &ImageCatalog) -> (r: Result<Vec<ToolDeclaration>, ToolError>)
    ensures
        r is Err <==> exists|i: int, j: int| bad_image(catalog.targets@, i, j),
        r matches Err(e) ==> exists|i: int, j: int|
            first_bad(catalog.targets@, i, j) && unsupported_error(catalog.targets@, i, j, e),
        r matches Ok(ds) ==> declared(catalog.targets@, ds@, everywhere()),
{
    let targets = &catalog.targets;
    let ghost ts = targets@;
    let mut decls: Vec<ToolDeclaration> = Vec::new();
    let mut keys: Vec<DeclKey> = Vec::new();
    proof {
        assert(keys_in(ts, upto(0, 0)) =~= Set::empty());
    }
    let mut i: usize = 0;
    while i < targets.len()
        invariant
            ts == targets@,
            ts == catalog.targets@,
            i <= ts.len(),
            keys.len() == decls.len(),
            forall|k: int| 0 <= k < keys.len() ==> (#[trigger] keys@[k])@ == decl_key(decls@[k]),
            declared(ts, decls@, upto(i as int, 0)),
            forall|a: int, b: int| a < i ==> !#[trigger] bad_image(ts, a, b),
        decreases ts.len() - i,
    {
        let t = &targets[i];
        let mut j: usize = 0;
        while j < t.tools.len()
            invariant
                ts == targets@,
                ts == catalog.targets@,
                i < ts.len(),
                *t == ts[i as int],
                j <= t.tools@.len(),
                keys.len() == decls.len(),
                forall|k: int| 0 <= k < keys.len() ==> (#[trigger] keys@[k])@ == decl_key(decls@[k]),
                declared(ts, decls@, upto(i as int, j as int)),
                forall|a: int, b: int| (a < i || (a == i && b < j)) ==> !#[trigger] bad_image(ts, a, b),
            decreases t.tools@.len() - j,
        {
            let tool = &t.tools[j];
            assert(tool_at(ts, i as int, j as int) == *tool);
            let image_ref = match &tool.image {
                Some(x) => match parse_pinned_image_reference(x.as_str()) {
                    Ok(img) => Some(img),
                    Err(e) => {
                        let err = ToolError::UnsupportedImageReference {
                            target: t.id.clone(),
                            tool: tool.name.clone(),
                            reason: Box::new(e),
                        };
                        assert(first_bad(ts, i as int, j as int));
                        assert(unsupported_error(ts, i as int, j as int, err));
                        assert(bad_image(ts, i as int, j as int));
                        return Err(err);
                    },
                },
                None => None,
            };
            let tag_suffix = match &image_ref {
                Some(img) => match derive_tag_suffix(tool.release.as_str(), img.tag.as_str()) {
                    Ok(suffix) => Some(suffix),
                    Err(_) => None,
                },
                None => None,
            };
            let key = key_of_tool(tool);
            let mut p: usize = 0;
            while p < keys.len() && key_before(&keys[p], &key)
                invariant
                    p <= keys.len(),
                    keys.len() == decls.len(),
                    forall|k: int| 0 <= k < keys.len() ==> (#[trigger] keys@[k])@ == decl_key(decls@[k]),
                    forall|k: int| 0 <= k < p ==> tool_key_lt(decl_key(#[trigger] decls@[k]), key@),
                decreases keys.len() - p,
            {
                assert(keys@[p as int]@ == decl_key(decls@[p as int]));
                p += 1;
            }
            let ghost old_ds = decls@;
            if p < keys.len() && key_same(&keys[p], &key) {
                assert(keys@[p as int]@ == decl_key(decls@[p as int]));
                let mut d = decls.remove(p);
                insert_path(&mut d.definition_files, t.definition_file.clone());
                insert_sorted(&mut d.target_ids, t.id.clone());
                proof {
                    assert(declaration_of(ts, upto(i as int, j as int), old_ds[p as int]));
                }
                decls.insert(p, d);
                proof {
                    assert(decls@ =~= old_ds.update(p as int, d));
                    lemma_merge_step(ts, old_ds, p as int, d, i as int, j as int);
                }
            } else {
                proof {
                    if p < keys.len() {
                        assert(keys@[p as int]@ == decl_key(decls@[p as int]));
                        lemma_tool_key_order(key@, keys@[p as int]@, key@);
                    }
                }
                let mut files: Vec<String> = Vec::new();
                files.push(t.definition_file.clone());
                let mut ids: Vec<String> = Vec::new();
                ids.push(t.id.clone());
                let d = ToolDeclaration {
                    name: tool.name.clone(),
                    role: tool.role,
                    release: tool.release.clone(),
                    image: copy_opt(&tool.image),
                    source_path: tool.source_path.clone(),
                    target_path: tool.target_path.clone(),
                    tag_suffix,
                    image_ref,
                    definition_files: files,
                    target_ids: ids,
                };
                proof {
                    assert(views(d.definition_files@) =~= seq![t.definition_file@]);
                    assert(views(d.target_ids@) =~= seq![t.id@]);
                    assert(decl_fields_ok(d));
                }
                let ghost old_keys = keys@;
                decls.insert(p, d);
                keys.insert(p, key);
                proof {
                    lemma_insert_step(ts, old_ds, p as int, d, i as int, j as int);
                    assert forall|k: int| 0 <= k < keys.len() implies (#[trigger] keys@[k])@ == decl_key(
                        decls@[k],
                    ) by {
                        if k > p {
                            assert(keys@[k] == old_keys[k - 1]);
                        }
                    }
                }
            }
            j += 1;
        }
        proof {
            lemma_same_scope(ts, decls@, upto(i as int, t.tools@.len() as int), upto(i + 1, 0));
        }
        i += 1;
    }
    proof {
        lemma_same_scope(ts, decls@, upto(ts.len() as int, 0), everywhere());
    }
    Ok(decls)
}

/// Some tool block of the catalog has this name.
pub open spec fn known_tool(targets: Seq<ImageTarget>, n: Seq<char>) -> bool {
    exists|i: int, j: int| is_occurrence(targets, i, j) && #[trigger] tool_at(targets, i, j).name@ == n
}

/// A requested name that no tool block has.
pub open spec fn unknown_name(targets: Seq<ImageTarget>, names: Seq<Seq<char>>, n: Seq<char>) -> bool {
    names.contains(n) && !known_tool(targets, n)
}

/// The least unknown requested name, in code-point order.
pub open spec fn least_unknown(targets: Seq<ImageTarget>, names: Seq<Seq<char>>, n: Seq<char>) -> bool {
    &&& unknown_name(targets, names, n)
    &&& forall|m: Seq<char>| #[trigger] unknown_name(targets, names, m) ==> !seq_lt(m, n)
}

/// The tool blocks with a requested name; all of them when none is requested.
pub open spec fn named(targets: Seq<ImageTarget>, names: Seq<Seq<char>>) -> spec_fn(int, int) -> bool {
    |i: int, j: int| names.len() == 0 || names.contains(tool_at(targets, i, j).name@)
}

/// A declaration with a requested name gathers the same blocks among the
/// requested ones as among all.
proof fn lemma_named_declaration(targets: Seq<ImageTarget>, names: Seq<Seq<char>>, d: ToolDeclaration)
    requires
        declaration_of(targets, everywhere(), d),
        names.contains(d.name@),
    ensures
        declaration_of(targets, named(targets, names), d),
{
    let all = everywhere();
    let some = named(targets, names);
    let key = decl_key(d);
    assert forall|i: int, j: int|
        counted(targets, all, i, j) && tool_key(tool_at(targets, i, j)) == key implies counted(
        targets,
        some,
        i,
        j,
    ) by {
        assert(tool_at(targets, i, j).name@ == d.name@);
    }
    assert(keys_in(targets, some).contains(key)) by {
        let (i, j) = choose|i: int, j: int|
            #[trigger] counted(targets, all, i, j) && tool_key(tool_at(targets, i, j)) == key;
        assert(counted(targets, some, i, j));
    }
    assert forall|i: int, j: int|
        first_of_path(targets, all, key, i, j) == first_of_path(targets, some, key, i, j) by {
        if first_of_path(targets, all, key, i, j) {
            assert(counted(targets, some, i, j));
            assert forall|a: int, b: int|
                #[trigger] counted(targets, some, a, b) && earlier(a, b, i, j) && tool_key(
                    tool_at(targets, a, b),
                ) == key implies !same_path(targets[a].definition_file@, targets[i].definition_file@) by {
                assert(counted(targets, all, a, b));
            }
        }
        if first_of_path(targets, some, key, i, j) {
            assert(counted(targets, all, i, j));
            assert forall|a: int, b: int|
                #[trigger] counted(targets, all, a, b) && earlier(a, b, i, j) && tool_key(
                    tool_at(targets, a, b),
                ) == key implies !same_path(targets[a].definition_file@, targets[i].definition_file@) by {
                assert(counted(targets, some, a, b));
            }
        }
    }
    assert(files_in(targets, some, key) =~= files_in(targets, all, key)) by {
        assert forall|f: Seq<char>| files_in(targets, all, key).contains(f) implies files_in(
            targets,
            some,
            key,
        ).contains(f) by {
            let (i, j) = choose|i: int, j: int|
                #[trigger] first_of_path(targets, all, key, i, j) && targets[i].definition_file@ == f;
            assert(first_of_path(targets, some, key, i, j));
        }
        assert forall|f: Seq<char>| files_in(targets, some, key).contains(f) implies files_in(
            targets,
            all,
            key,
        ).contains(f) by {
            let (i, j) = choose|i: int, j: int|
                #[trigger] first_of_path(targets, some, key, i, j) && targets[i].definition_file@ == f;
            assert(first_of_path(targets, all, key, i, j));
        }
    }
    assert(file_paths_in(targets, some, key) =~= file_paths_in(targets, all, key)) by {
        assert forall|c: Seq<Key>| file_paths_in(targets, all, key).contains(c) implies file_paths_in(
            targets,
            some,
            key,
        ).contains(c) by {
            let (i, j) = choose|i: int, j: int|
                #[trigger] counted(targets, all, i, j) && tool_key(tool_at(targets, i, j)) == key
                    && path_components(targets[i].definition_file@) == c;
            assert(counted(targets, some, i, j));
        }
        assert forall|c: Seq<Key>| file_paths_in(targets, some, key).contains(c) implies file_paths_in(
            targets,
            all,
            key,
        ).contains(c) by {
            let (i, j) = choose|i: int, j: int|
                #[trigger] counted(targets, some, i, j) && tool_key(tool_at(targets, i, j)) == key
                    && path_components(targets[i].definition_file@) == c;
            assert(counted(targets, all, i, j));
        }
    }
    assert(ids_in(targets, some, key) =~= ids_in(targets, all, key)) by {
        assert forall|f: Seq<char>| ids_in(targets, all, key).contains(f) implies ids_in(
            targets,
            some,
            key,
        ).contains(f) by {
            let (i, j) = choose|i: int, j: int|
                #[trigger] counted(targets, all, i, j) && tool_key(tool_at(targets, i, j)) == key
                    && targets[i].id@ == f;
            assert(counted(targets, some, i, j));
        }
        assert forall|f: Seq<char>| ids_in(targets, some, key).contains(f) implies ids_in(
            targets,
            all,
            key,
        ).contains(f) by {
            let (i, j) = choose|i: int, j: int|
                #[trigger] counted(targets, some, i, j) && tool_key(tool_at(targets, i, j)) == key
                    && targets[i].id@ == f;
            assert(counted(targets, all, i, j));
        }
    }
}

/// Some declaration has the name `n`.
fn has_name(ds: &Vec<ToolDeclaration>, n: &str) -> (r: bool)
    ensures
        r == exists|k: int| 0 <= k < ds@.len() && (#[trigger] ds@[k]).name@ == n@,
{
    let mut k: usize = 0;
    while k < ds.len()
        invariant
            k <= ds@.len(),
            forall|m: int| 0 <= m < k ==> (#[trigger] ds@[m]).name@ != n@,
        decreases ds.len() - k,
    {
        if str_eq(ds[k].name.as_str(), n) {
            return true;
        }
        k += 1;
    }
    false
}

/// The declarations of the requested tools, or of all tools when none is
/// requested. A requested name that no tool has is an error: the least such
/// name is reported.
pub fn selected_declarations(catalog: &ImageCatalog, names: &Vec<String>) -> (r: Result<
    Vec<ToolDeclaration>,
    ToolError,
>)
    ensures
        (exists|i: int, j: int| bad_image(catalog.targets@, i, j)) ==> (r matches Err(e)
            && exists|i: int, j: int|
            first_bad(catalog.targets@, i, j) && unsupported_error(catalog.targets@, i, j, e)),
        !(exists|i: int, j: int| bad_image(catalog.targets@, i, j)) && (exists|n: Seq<char>|
            unknown_name(catalog.targets@, views(names@), n)) ==> (r matches Err(
            ToolError::UnknownTool(n),
        ) && least_unknown(catalog.targets@, views(names@), n@)),
        !(exists|i: int, j: int| bad_image(catalog.targets@, i, j)) && !(exists|n: Seq<char>|
            unknown_name(catalog.targets@, views(names@), n)) ==> (r matches Ok(ds) && declared(
            catalog.targets@,
            ds@,
            named(catalog.targets@, views(names@)),
        )),
{
    let ghost ts = catalog.targets@;
    let ghost ns = views(names@);
    let mut all = match tool_declarations(catalog) {
        Ok(ds) => ds,
        Err(e) => {
            return Err(e);
        },
    };
    let ghost orig = all@;
    proof {
        assert forall|n: Seq<char>| #[trigger] known_tool(ts, n) <==> exists|k: int|
            0 <= k < orig.len() && (#[trigger] orig[k]).name@ == n by {
            if known_tool(ts, n) {
                let (i, j) = choose|i: int, j: int|
                    is_occurrence(ts, i, j) && #[trigger] tool_at(ts, i, j).name@ == n;
                assert(counted(ts, everywhere(), i, j));
                assert(keys_in(ts, everywhere()).contains(tool_key(tool_at(ts, i, j))));
                let k = choose|k: int|
                    0 <= k < orig.len() && decl_key(#[trigger] orig[k]) == tool_key(tool_at(ts, i, j));
                assert(orig[k].name@ == n);
            }
            if exists|k: int| 0 <= k < orig.len() && (#[trigger] orig[k]).name@ == n {
                let k = choose|k: int| 0 <= k < orig.len() && (#[trigger] orig[k]).name@ == n;
                assert(declaration_of(ts, everywhere(), orig[k]));
                let (i, j) = choose|i: int, j: int|
                    #[trigger] counted(ts, everywhere(), i, j) && tool_key(tool_at(ts, i, j))
                        == decl_key(orig[k]);
                assert(tool_at(ts, i, j).name@ == n);
            }
        }
    }
    if names.len() == 0 {
        proof {
            lemma_same_scope(ts, all@, everywhere(), named(ts, ns));
            assert forall|n: Seq<char>| !unknown_name(ts, ns, n) by {}
        }
        return Ok(all);
    }
    let mut least: Option<usize> = None;
    let mut k: usize = 0;
    while k < names.len()
        invariant
            k <= names@.len(),
            ns == views(names@),
            orig == all@,
            forall|n: Seq<char>| #[trigger] known_tool(ts, n) <==> exists|k: int|
                0 <= k < orig.len() && (#[trigger] orig[k]).name@ == n,
            match least {
                Some(u) => u < k && unknown_name(ts, ns, ns[u as int]) && forall|m: int|
                    0 <= m < k && #[trigger] unknown_name(ts, ns, ns[m]) ==> !seq_lt(ns[m], ns[u as int]),
                None => forall|m: int| 0 <= m < k ==> !#[trigger] unknown_name(ts, ns, ns[m]),
            },
        decreases names.len() - k,
    {
        assert(ns[k as int] == names@[k as int]@);
        assert(ns.contains(ns[k as int]));
        if !has_name(&all, names[k].as_str()) {
            assert(!known_tool(ts, ns[k as int]));
            match least {
                None => {
                    proof {
                        lemma_seq_lt_irreflexive(ns[k as int]);
                    }
                    least = Some(k);
                },
                Some(u) => {
                    if str_lt(names[k].as_str(), names[u].as_str()) {
                        proof {
                            assert forall|m: int|
                                0 <= m <= k && #[trigger] unknown_name(ts, ns, ns[m]) implies !seq_lt(
                                ns[m],
                                ns[k as int],
                            ) by {
                                lemma_seq_facts(ns[m], ns[k as int], ns[u as int]);
                                lemma_seq_facts(ns[k as int], ns[u as int], ns[m]);
                                if m < k {
                                    assert(!seq_lt(ns[m], ns[u as int]));
                                }
                            }
                        }
                        least = Some(k);
                    } else {
                    }
                },
            }
        } else {
            assert(known_tool(ts, ns[k as int]));
        }
        k += 1;
    }
    match least {
        Some(u) => {
            proof {
                assert forall|m: Seq<char>| #[trigger] unknown_name(ts, ns, m) implies !seq_lt(
                    m,
                    ns[u as int],
                ) by {
                    let x = choose|x: int| 0 <= x < ns.len() && ns[x] == m;
                    assert(unknown_name(ts, ns, ns[x]));
                }
            }
            return Err(ToolError::UnknownTool(names[u].clone()));
        },
        None => {
            proof {
                assert forall|n: Seq<char>| !unknown_name(ts, ns, n) by {
                    if unknown_name(ts, ns, n) {
                        let x = choose|x: int| 0 <= x < ns.len() && ns[x] == n;
                        assert(unknown_name(ts, ns, ns[x]));
                    }
                }
            }
        },
    }
    let ghost some = named(ts, ns);
    let total = all.len();
    assert(orig.len() == total);
    let mut out: Vec<ToolDeclaration> = Vec::new();
    let mut idx: usize = 0;
    while all.len() > 0
        invariant
            ns == views(names@),
            ns.len() > 0,
            some == named(ts, ns),
            declared(ts, orig, everywhere()),
            idx + all@.len() == orig.len(),
            orig.len() <= usize::MAX,
            all@ == orig.skip(idx as int),
            forall|m: int| 0 <= m < out@.len() ==> declaration_of(ts, some, #[trigger] out@[m]),
            forall|m: int, l: int|
                0 <= m < l < out@.len() ==> tool_key_lt(
                    decl_key(#[trigger] out@[m]),
                    decl_key(#[trigger] out@[l]),
                ),
            forall|m: int, l: int|
                0 <= m < out@.len() && idx <= l < orig.len() ==> tool_key_lt(
                    decl_key(#[trigger] out@[m]),
                    decl_key(#[trigger] orig[l]),
                ),
            forall|l: int|
                0 <= l < idx && ns.contains(#[trigger] orig[l].name@) ==> exists|m: int|
                    0 <= m < out@.len() && out@[m] == orig[l],
        decreases all.len(),
    {
        let ghost before_out = out@;
        let d = all.remove(0);
        assert(d == orig[idx as int]);
        assert(all@ =~= orig.skip(idx + 1));
        let keep = {
            let mut found = false;
            let mut q: usize = 0;
            while q < names.len()
                invariant
                    q <= names@.len(),
                    ns == views(names@),
                    found == exists|m: int| 0 <= m < q && ns[m] == d.name@,
                decreases names.len() - q,
            {
                assert(ns[q as int] == names@[q as int]@);
                if str_eq(names[q].as_str(), d.name.as_str()) {
                    found = true;
                }
                q += 1;
            }
            found
        };
        assert(keep == ns.contains(d.name@));
        if keep {
            proof {
                assert(declaration_of(ts, everywhere(), orig[idx as int]));
                lemma_named_declaration(ts, ns, d);
            }
            out.push(d);
            proof {
                assert forall|m: int, l: int|
                    0 <= m < out@.len() && idx + 1 <= l < orig.len() implies tool_key_lt(
                    decl_key(#[trigger] out@[m]),
                    decl_key(#[trigger] orig[l]),
                ) by {
                    if m == out@.len() - 1 {
                        assert(tool_key_lt(decl_key(orig[idx as int]), decl_key(orig[l])));
                    } else {
                        assert(out@[m] == before_out[m]);
                    }
                }
                assert forall|m: int, l: int|
                    0 <= m < l < out@.len() implies tool_key_lt(
                    decl_key(#[trigger] out@[m]),
                    decl_key(#[trigger] out@[l]),
                ) by {
                    if l == out@.len() - 1 {
                        assert(out@[m] == before_out[m]);
                        assert(tool_key_lt(decl_key(before_out[m]), decl_key(orig[idx as int])));
                    }
                }
                assert forall|l: int|
                    0 <= l < idx + 1 && ns.contains(#[trigger] orig[l].name@) implies exists|m: int|
                    0 <= m < out@.len() && out@[m] == orig[l] by {
                    if l == idx {
                        assert(out@[out@.len() - 1] == orig[l]);
                    } else {
                        let m = choose|m: int| 0 <= m < before_out.len() && before_out[m] == orig[l];
                        assert(out@[m] == orig[l]);
                    }
                }
            }
        }
        idx += 1;
    }
    proof {
        assert forall|key: ToolKey| #[trigger] keys_in(ts, some).contains(key) implies exists|m: int|
            0 <= m < out@.len() && decl_key(#[trigger] out@[m]) == key by {
            let (i, j) = choose|i: int, j: int|
                #[trigger] counted(ts, some, i, j) && tool_key(tool_at(ts, i, j)) == key;
            assert(counted(ts, everywhere(), i, j));
            assert(keys_in(ts, everywhere()).contains(key));
            let l = choose|l: int| 0 <= l < orig.len() && decl_key(#[trigger] orig[l]) == key;
            assert(ns.contains(orig[l].name@));
            let m = choose|m: int| 0 <= m < out@.len() && out@[m] == orig[l];
            assert(decl_key(out@[m]) == key);
        }
    }
    Ok(out)
}

impl ToolDeclaration {
    /// `registry/repository:tag` of the pinned image, else the image as
    /// written.
    pub fn image_tag_reference(&self) -> (r: Option<String>)
        ensures
            match self.image_ref {
                Some(img) => r matches Some(s) && s@ == img.registry@ + "/"@ + img.repository@
                    + ":"@ + img.tag@,
                None => match self.image {
                    Some(x) => r matches Some(s) && s@ == x@,
                    None => r is None,
                },
            },
    {
        match &self.image_ref {
            Some(img) => Some(img.tag_reference()),
            None => copy_opt(&self.image),
        }
    }
}

/// Every tool block that a list of declarations accounts for has exactly one
/// declaration with its key, and that declaration lists the block's target
/// and a definition file that names the same path as the block's.
pub proof fn lemma_block_declared_once(
    targets: Seq<ImageTarget>,
    ds: Seq<ToolDeclaration>,
    scope: spec_fn(int, int) -> bool,
    i: int,
    j: int,
)
    requires
        declared(targets, ds, scope),
        counted(targets, scope, i, j),
    ensures
        exists|k: int|
            0 <= k < ds.len() && decl_key(#[trigger] ds[k]) == tool_key(tool_at(targets, i, j))
                && (exists|g: Seq<char>|
                views(ds[k].definition_files@).contains(g) && same_path(
                    g,
                    targets[i].definition_file@,
                )) && views(ds[k].target_ids@).contains(targets[i].id@),
        forall|k: int, l: int|
            0 <= k < ds.len() && 0 <= l < ds.len() && decl_key(#[trigger] ds[k]) == tool_key(
                tool_at(targets, i, j),
            ) && decl_key(#[trigger] ds[l]) == tool_key(tool_at(targets, i, j)) ==> k == l,
{
    let tk = tool_key(tool_at(targets, i, j));
    assert(keys_in(targets, scope).contains(tk));
    let k = choose|k: int| 0 <= k < ds.len() && decl_key(#[trigger] ds[k]) == tk;
    assert(declaration_of(targets, scope, ds[k]));
    let c = path_components(targets[i].definition_file@);
    assert(file_paths_in(targets, scope, tk).contains(c));
    let fs = views(ds[k].definition_files@);
    let cs = fs.map_values(|q: Seq<char>| path_components(q));
    assert(cs.to_set().contains(c));
    let m = choose|m: int| 0 <= m < cs.len() && cs[m] == c;
    assert(fs.contains(fs[m]) && same_path(fs[m], targets[i].definition_file@));
    assert(ids_in(targets, scope, tk).contains(targets[i].id@));
    assert forall|a: int, b: int|
        0 <= a < ds.len() && 0 <= b < ds.len() && decl_key(#[trigger] ds[a]) == tk && decl_key(
            #[trigger] ds[b],
        ) == tk implies a == b by {
        lemma_tool_key_order(tk, tk, tk);
        if a < b {
            assert(tool_key_lt(decl_key(ds[a]), decl_key(ds[b])));
        } else if b < a {
            assert(tool_key_lt(decl_key(ds[b]), decl_key(ds[a])));
        }
    }
}

} // verus!
