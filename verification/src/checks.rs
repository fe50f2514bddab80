//! Checking tool declarations against the registry's tags, and planning and
//! applying the updates that follow. The registry requests themselves are
//! made by the caller: these functions take what they returned.
use vstd::prelude::*;

use crate::declarations::{earlier, ToolDeclaration};
use crate::paths::{
    insert_path, lemma_path_sorted_count, path_classes, path_components, path_sorted, same_path,
    str_same_path,
};
use crate::sort::Key;
use crate::model::{copy_opt, copy_strings, opt_view, role_text};
use crate::summary::{plural, plural_of, render_summary, render_summary_text, SyncSummary};
use crate::text::{decimal, decimal_string, owned, push_str, str_eq, views};
use crate::tools::{
    block_edit, edit_error, is_short_digest, short_digest, update_tool_block, ImageReference,
    PlannedToolUpdate, ToolError,
};
use crate::versions::{
    candidate_view, candidates, select_release, selection_ok, stable_of, version_string,
    version_text, CandidateVersion, Selection, StableVersion, ToolStatus,
};

verus! {

broadcast use vstd::string::group_string_axioms;

/// The only registry whose tags `tool update` can list.
pub open spec fn supported_registry() -> Seq<char> {
    "ghcr.io"@
}

/// What a check of one declaration asks the registry about.
#[derive(Debug)]
pub struct CheckPlan {
    /// The repository whose tags are listed.
    pub repository: String,
    /// The variant suffix that a matching tag ends with.
    pub suffix: String,
    /// The release the declaration pins now.
    pub current: StableVersion,
}

/// The checks a declaration must pass before its registry is asked: it is
/// image-backed, on `ghcr.io`, its tag starts with its release, and its
/// release is a stable version.
pub fn prepare_check(d: &ToolDeclaration) -> (r: Result<CheckPlan, ToolError>)
    ensures
        match d.image_ref {
            None => r matches Err(ToolError::NotImageBacked(n)) && n@ == d.name@,
            Some(img) => if img.registry@ != supported_registry() {
                r matches Err(ToolError::UnsupportedRegistry { name, registry }) && name@ == d.name@
                    && registry@ == img.registry@
            } else {
                match d.tag_suffix {
                    None => r matches Err(ToolError::MissingTagSuffix { name, tag, release })
                        && name@ == d.name@ && tag@ == img.tag@ && release@ == d.release@,
                    Some(sfx) => match stable_of(d.release@) {
                        None => r matches Err(ToolError::UnstableRelease { name, release })
                            && name@ == d.name@ && release@ == d.release@,
                        Some(v) => r matches Ok(plan) && plan.repository@ == img.repository@
                            && plan.suffix@ == sfx@ && plan.current == v,
                    },
                }
            },
        },
{
    proof {
        reveal_strlit("ghcr.io");
    }
    let img = match &d.image_ref {
        Some(img) => img,
        None => {
            return Err(ToolError::NotImageBacked(d.name.clone()));
        },
    };
    if !str_eq(img.registry.as_str(), "ghcr.io") {
        return Err(
            ToolError::UnsupportedRegistry { name: d.name.clone(), registry: img.registry.clone() },
        );
    }
    let suffix = match &d.tag_suffix {
        Some(s) => s,
        None => {
            return Err(
                ToolError::MissingTagSuffix {
                    name: d.name.clone(),
                    tag: img.tag.clone(),
                    release: d.release.clone(),
                },
            );
        },
    };
    let current = match crate::versions::parse_stable(d.release.as_str()) {
        Some(v) => v,
        None => {
            return Err(
                ToolError::UnstableRelease { name: d.name.clone(), release: d.release.clone() },
            );
        },
    };
    Ok(CheckPlan { repository: img.repository.clone(), suffix: suffix.clone(), current })
}

/// Picks the release to compare with among the registry's `tags`; no tag of
/// a stable release with the suffix is an error.
pub fn choose_release(
    d: &ToolDeclaration,
    plan: &CheckPlan,
    tags: &Vec<String>,
    allow_major: bool,
) -> (r: Result<Selection, ToolError>)
    ensures
        candidates(views(tags@), plan.suffix@).len() == 0 <==> r is Err,
        r matches Err(e) ==> (e matches ToolError::NoMatchingTags { name, suffix } && name@
            == d.name@ && suffix@ == plan.suffix@),
        r matches Ok(s) ==> selection_ok(
            candidates(views(tags@), plan.suffix@),
            plan.current,
            allow_major,
            s.status,
            candidate_view(s.latest),
        ),
{
    match select_release(tags, plan.suffix.as_str(), plan.current, allow_major) {
        Some(s) => Ok(s),
        None => Err(
            ToolError::NoMatchingTags { name: d.name.clone(), suffix: plan.suffix.clone() },
        ),
    }
}

/// The digest of the chosen release when it is the current one (the pinned
/// digest); otherwise the registry must be asked for it.
pub fn reusable_digest(plan: &CheckPlan, image: &ImageReference, selection: &Selection) -> (r:
    Option<String>)
    ensures
        r is Some <==> selection.latest.version == plan.current,
        r matches Some(x) ==> x@ == image.digest@,
{
    if selection.latest.version == plan.current {
        Some(image.digest.clone())
    } else {
        None
    }
}

/// The result of checking one tool.
#[derive(Debug)]
pub struct ToolCheck {
    pub name: String,
    pub status: ToolStatus,
    pub current_release: String,
    pub latest_release: String,
    pub current_image: String,
    pub latest_image: String,
    pub current_digest: String,
    pub latest_digest: String,
    pub update_release: Option<String>,
    pub update_image: Option<String>,
    pub definition_files: Vec<String>,
}

/// `registry/repository:tag@digest` for another tag and digest.
pub open spec fn retagged(image: ImageReference, tag: Seq<char>, digest: Seq<char>) -> Seq<char> {
    image.registry@ + "/"@ + image.repository@ + ":"@ + tag + "@"@ + digest
}

/// Puts a check together from the declaration, the chosen release and its
/// digest. An update is proposed only when one is available.
pub fn finish_check(d: &ToolDeclaration, selection: &Selection, latest_digest: &str) -> (r:
    ToolCheck)
    requires
        d.image is Some,
        d.image_ref is Some,
    ensures
        r.name@ == d.name@,
        r.status == selection.status,
        r.current_release@ == d.release@,
        r.latest_release@ == version_text(selection.latest.version),
        r.current_image@ == d.image->0@,
        r.latest_image@ == retagged(d.image_ref->0, selection.latest.tag@, latest_digest@),
        r.current_digest@ == d.image_ref->0.digest@,
        r.latest_digest@ == latest_digest@,
        r.update_release is Some <==> selection.status == ToolStatus::UpdateAvailable,
        r.update_image is Some <==> selection.status == ToolStatus::UpdateAvailable,
        r.update_release matches Some(x) ==> x@ == r.latest_release@,
        r.update_image matches Some(x) ==> x@ == r.latest_image@,
        views(r.definition_files@) == views(d.definition_files@),
{
    let img = d.image_ref.as_ref().unwrap();
    let current_image = d.image.as_ref().unwrap().clone();
    let latest_release = version_string(selection.latest.version);
    let latest_image = img.with_tag_and_digest(selection.latest.tag.as_str(), latest_digest);
    let (update_release, update_image) = if selection.status == ToolStatus::UpdateAvailable {
        (Some(latest_release.clone()), Some(latest_image.clone()))
    } else {
        (None, None)
    };
    ToolCheck {
        name: d.name.clone(),
        status: selection.status,
        current_release: d.release.clone(),
        latest_release,
        current_image,
        latest_image,
        current_digest: img.digest.clone(),
        latest_digest: owned(latest_digest),
        update_release,
        update_image,
        definition_files: copy_strings(&d.definition_files),
    }
}

impl ToolCheck {
    /// A release newer than the current one exists, taken or not.
    pub fn has_newer_version(&self) -> (r: bool)
        ensures
            r == (self.status != ToolStatus::Current),
    {
        self.status != ToolStatus::Current
    }
}

/// Some check found a newer release.
pub fn any_newer(checks: &Vec<ToolCheck>) -> (r: bool)
    ensures
        r == exists|k: int| 0 <= k < checks@.len() && (#[trigger] checks@[k]).status != ToolStatus::Current,
{
    let mut k: usize = 0;
    while k < checks.len()
        invariant
            k <= checks@.len(),
            forall|m: int| 0 <= m < k ==> (#[trigger] checks@[m]).status == ToolStatus::Current,
        decreases checks.len() - k,
    {
        if checks[k].has_newer_version() {
            return true;
        }
        k += 1;
    }
    false
}

// ---------------------------------------------------------------------------
// Planned updates
// ---------------------------------------------------------------------------

/// The text of a planned update.
pub struct UpdateView {
    pub name: Seq<char>,
    pub old_release: Seq<char>,
    pub new_release: Seq<char>,
    pub old_image: Seq<char>,
    pub new_image: Seq<char>,
    pub definition_files: Seq<Seq<char>>,
}

impl View for PlannedToolUpdate {
    type V = UpdateView;

    open spec fn view(&self) -> UpdateView {
        UpdateView {
            name: self.name@,
            old_release: self.old_release@,
            new_release: self.new_release@,
            old_image: self.old_image@,
            new_image: self.new_image@,
            definition_files: views(self.definition_files@),
        }
    }
}

/// The update a check proposes, if it proposes one.
pub open spec fn planned_update(c: ToolCheck) -> Option<UpdateView> {
    match (c.update_release, c.update_image) {
        (Some(rel), Some(img)) => Some(
            UpdateView {
                name: c.name@,
                old_release: c.current_release@,
                new_release: rel@,
                old_image: c.current_image@,
                new_image: img@,
                definition_files: views(c.definition_files@),
            },
        ),
        _ => None,
    }
}

impl PlannedToolUpdate {
    /// The update a check proposes: from the current release and image to
    /// the proposed ones, in the same definition files.
    pub fn from_check(check: &ToolCheck) -> (r: Option<PlannedToolUpdate>)
        ensures
            match r {
                Some(u) => planned_update(*check) == Some(u@),
                None => planned_update(*check) is None,
            },
    {
        let new_release = match &check.update_release {
            Some(x) => x.clone(),
            None => {
                return None;
            },
        };
        let new_image = match &check.update_image {
            Some(x) => x.clone(),
            None => {
                return None;
            },
        };
        Some(
            PlannedToolUpdate {
                name: check.name.clone(),
                old_release: check.current_release.clone(),
                new_release,
                old_image: check.current_image.clone(),
                new_image,
                definition_files: copy_strings(&check.definition_files),
            },
        )
    }
}

/// The updates the checks propose, in order.
pub fn planned_updates(checks: &Vec<ToolCheck>) -> (r: Vec<PlannedToolUpdate>)
    ensures
        r@.map_values(|u: PlannedToolUpdate| u@) == checks@.filter_map(
            |c: ToolCheck| planned_update(c),
        ),
{
    let mut r: Vec<PlannedToolUpdate> = Vec::new();
    let mut k: usize = 0;
    while k < checks.len()
        invariant
            k <= checks@.len(),
            r@.map_values(|u: PlannedToolUpdate| u@) == checks@.take(k as int).filter_map(
                |c: ToolCheck| planned_update(c),
            ),
        decreases checks.len() - k,
    {
        let ghost before = r@;
        proof {
            assert(checks@.take(k + 1).drop_last() =~= checks@.take(k as int));
            assert(checks@.take(k + 1).last() == checks@[k as int]);
        }
        match PlannedToolUpdate::from_check(&checks[k]) {
            Some(u) => {
                r.push(u);
                assert(r@.map_values(|u: PlannedToolUpdate| u@) =~= before.map_values(
                    |u: PlannedToolUpdate| u@,
                ) + seq![u@]);
            },
            None => {},
        }
        k += 1;
    }
    assert(checks@.take(checks@.len() as int) =~= checks@);
    r
}

/// File `m` of update `k` exists.
pub open spec fn is_file_slot(us: Seq<PlannedToolUpdate>, k: int, m: int) -> bool {
    0 <= k < us.len() && 0 <= m < us[k].definition_files@.len()
}

/// File `m` of update `k`.
pub open spec fn file_at(us: Seq<PlannedToolUpdate>, k: int, m: int) -> Seq<char> {
    us[k].definition_files@[m]@
}

/// File `m` of update `k` is the first, walking the updates and then their
/// files, that names its path.
pub open spec fn first_touch(us: Seq<PlannedToolUpdate>, k: int, m: int) -> bool {
    &&& is_file_slot(us, k, m)
    &&& forall|a: int, b: int|
        #[trigger] is_file_slot(us, a, b) && earlier(a, b, k, m) ==> !same_path(
            file_at(us, a, b),
            file_at(us, k, m),
        )
}

/// The files the updates touch, one text per path: the first that names it
/// (what a `BTreeSet<PathBuf>` collected from them keeps), among the files
/// before file `m` of update `k`.
pub open spec fn touched_before(us: Seq<PlannedToolUpdate>, k: int, m: int) -> Set<Seq<char>> {
    Set::new(
        |f: Seq<char>|
            exists|a: int, b: int|
                #[trigger] first_touch(us, a, b) && earlier(a, b, k, m) && file_at(us, a, b) == f,
    )
}

/// The paths of the files before file `m` of update `k`.
pub open spec fn paths_before(us: Seq<PlannedToolUpdate>, k: int, m: int) -> Set<Seq<Key>> {
    Set::new(
        |c: Seq<Key>|
            exists|a: int, b: int|
                #[trigger] is_file_slot(us, a, b) && earlier(a, b, k, m) && path_components(
                    file_at(us, a, b),
                ) == c,
    )
}

/// The files the updates touch, one text per path.
pub open spec fn touched_files(us: Seq<PlannedToolUpdate>) -> Set<Seq<char>> {
    touched_before(us, us.len() as int, 0)
}

/// The paths the updates touch.
pub open spec fn touched_paths(us: Seq<PlannedToolUpdate>) -> Set<Seq<Key>> {
    paths_before(us, us.len() as int, 0)
}

/// Counting file `m` of update `k` as well.
proof fn lemma_touch_step(us: Seq<PlannedToolUpdate>, k: int, m: int)
    requires
        is_file_slot(us, k, m),
    ensures
        paths_before(us, k, m + 1) == paths_before(us, k, m).insert(path_components(file_at(us, k, m))),
        touched_before(us, k, m + 1) == if paths_before(us, k, m).contains(
            path_components(file_at(us, k, m)),
        ) {
            touched_before(us, k, m)
        } else {
            touched_before(us, k, m).insert(file_at(us, k, m))
        },
{
    let f0 = file_at(us, k, m);
    let c0 = path_components(f0);
    assert(paths_before(us, k, m + 1) =~= paths_before(us, k, m).insert(c0)) by {
        assert forall|c: Seq<Key>| paths_before(us, k, m + 1).contains(c) implies paths_before(
            us,
            k,
            m,
        ).insert(c0).contains(c) by {
            let (a, b) = choose|a: int, b: int|
                #[trigger] is_file_slot(us, a, b) && earlier(a, b, k, m + 1) && path_components(
                    file_at(us, a, b),
                ) == c;
            if !(a == k && b == m) {
                assert(earlier(a, b, k, m));
            }
        }
        assert forall|c: Seq<Key>| paths_before(us, k, m).insert(c0).contains(c) implies paths_before(
            us,
            k,
            m + 1,
        ).contains(c) by {
            if c == c0 {
                assert(is_file_slot(us, k, m) && earlier(k, m, k, m + 1));
            } else {
                let (a, b) = choose|a: int, b: int|
                    #[trigger] is_file_slot(us, a, b) && earlier(a, b, k, m) && path_components(
                        file_at(us, a, b),
                    ) == c;
                assert(earlier(a, b, k, m + 1));
            }
        }
    }
    assert(first_touch(us, k, m) <==> !paths_before(us, k, m).contains(c0)) by {
        if first_touch(us, k, m) && paths_before(us, k, m).contains(c0) {
            let (a, b) = choose|a: int, b: int|
                #[trigger] is_file_slot(us, a, b) && earlier(a, b, k, m) && path_components(
                    file_at(us, a, b),
                ) == c0;
        }
        if !paths_before(us, k, m).contains(c0) {
            assert forall|a: int, b: int|
                #[trigger] is_file_slot(us, a, b) && earlier(a, b, k, m) implies !same_path(
                file_at(us, a, b),
                f0,
            ) by {
                if same_path(file_at(us, a, b), f0) {
                    assert(paths_before(us, k, m).contains(c0));
                }
            }
        }
    }
    let want = if paths_before(us, k, m).contains(c0) {
        touched_before(us, k, m)
    } else {
        touched_before(us, k, m).insert(f0)
    };
    assert(touched_before(us, k, m + 1) =~= want) by {
        assert forall|f: Seq<char>| touched_before(us, k, m + 1).contains(f) implies want.contains(f) by {
            let (a, b) = choose|a: int, b: int|
                #[trigger] first_touch(us, a, b) && earlier(a, b, k, m + 1) && file_at(us, a, b) == f;
            if !(a == k && b == m) {
                assert(earlier(a, b, k, m));
            }
        }
        assert forall|f: Seq<char>| want.contains(f) implies touched_before(us, k, m + 1).contains(f) by {
            if !paths_before(us, k, m).contains(c0) && f == f0 {
                assert(first_touch(us, k, m) && earlier(k, m, k, m + 1));
            } else {
                let (a, b) = choose|a: int, b: int|
                    #[trigger] first_touch(us, a, b) && earlier(a, b, k, m) && file_at(us, a, b) == f;
                assert(earlier(a, b, k, m + 1));
            }
        }
    }
}

/// After the last file of update `k` comes the first of update `k + 1`.
proof fn lemma_touch_next(us: Seq<PlannedToolUpdate>, k: int)
    requires
        0 <= k < us.len(),
    ensures
        paths_before(us, k + 1, 0) == paths_before(us, k, us[k].definition_files@.len() as int),
        touched_before(us, k + 1, 0) == touched_before(us, k, us[k].definition_files@.len() as int),
{
    let n = us[k].definition_files@.len() as int;
    assert forall|a: int, b: int| is_file_slot(us, a, b) implies (earlier(a, b, k + 1, 0) <==> earlier(
        a,
        b,
        k,
        n,
    )) by {}
    assert(paths_before(us, k + 1, 0) =~= paths_before(us, k, n)) by {
        assert forall|c: Seq<Key>| paths_before(us, k + 1, 0).contains(c) implies paths_before(
            us,
            k,
            n,
        ).contains(c) by {
            let (a, b) = choose|a: int, b: int|
                #[trigger] is_file_slot(us, a, b) && earlier(a, b, k + 1, 0) && path_components(
                    file_at(us, a, b),
                ) == c;
        }
        assert forall|c: Seq<Key>| paths_before(us, k, n).contains(c) implies paths_before(
            us,
            k + 1,
            0,
        ).contains(c) by {
            let (a, b) = choose|a: int, b: int|
                #[trigger] is_file_slot(us, a, b) && earlier(a, b, k, n) && path_components(
                    file_at(us, a, b),
                ) == c;
        }
    }
    assert(touched_before(us, k + 1, 0) =~= touched_before(us, k, n)) by {
        assert forall|f: Seq<char>| touched_before(us, k + 1, 0).contains(f) implies touched_before(
            us,
            k,
            n,
        ).contains(f) by {
            let (a, b) = choose|a: int, b: int|
                #[trigger] first_touch(us, a, b) && earlier(a, b, k + 1, 0) && file_at(us, a, b) == f;
        }
        assert forall|f: Seq<char>| touched_before(us, k, n).contains(f) implies touched_before(
            us,
            k + 1,
            0,
        ).contains(f) by {
            let (a, b) = choose|a: int, b: int|
                #[trigger] first_touch(us, a, b) && earlier(a, b, k, n) && file_at(us, a, b) == f;
        }
    }
}

/// The files the updates touch, in path order, one text per path.
pub fn files_to_update(updates: &Vec<PlannedToolUpdate>) -> (r: Vec<String>)
    ensures
        path_sorted(views(r@)),
        views(r@).to_set() == touched_files(updates@),
        path_classes(views(r@)) == touched_paths(updates@),
{
    let ghost us = updates@;
    let mut r: Vec<String> = Vec::new();
    let mut k: usize = 0;
    proof {
        assert(views(r@).to_set() =~= touched_before(us, 0, 0)) by {
            assert forall|f: Seq<char>| !touched_before(us, 0, 0).contains(f) by {}
        }
        assert(path_classes(views(r@)) =~= paths_before(us, 0, 0)) by {
            assert forall|c: Seq<Key>| !paths_before(us, 0, 0).contains(c) by {}
        }
    }
    while k < updates.len()
        invariant
            us == updates@,
            k <= us.len(),
            path_sorted(views(r@)),
            views(r@).to_set() == touched_before(us, k as int, 0),
            path_classes(views(r@)) == paths_before(us, k as int, 0),
        decreases updates.len() - k,
    {
        let u = &updates[k];
        let mut m: usize = 0;
        while m < u.definition_files.len()
            invariant
                us == updates@,
                k < us.len(),
                *u == us[k as int],
                m <= u.definition_files@.len(),
                path_sorted(views(r@)),
                views(r@).to_set() == touched_before(us, k as int, m as int),
                path_classes(views(r@)) == paths_before(us, k as int, m as int),
            decreases u.definition_files@.len() - m,
        {
            proof {
                lemma_touch_step(us, k as int, m as int);
                assert(file_at(us, k as int, m as int) == u.definition_files@[m as int]@);
            }
            insert_path(&mut r, u.definition_files[m].clone());
            m += 1;
        }
        proof {
            lemma_touch_next(us, k as int);
        }
        k += 1;
    }
    r
}

/// How many distinct paths the updates touch.
pub fn updated_file_count(updates: &Vec<PlannedToolUpdate>) -> (r: usize)
    ensures
        r == touched_paths(updates@).len(),
{
    let files = files_to_update(updates);
    proof {
        lemma_path_sorted_count(views(files@));
    }
    files.len()
}

// ---------------------------------------------------------------------------
// Applying updates to one definition file
// ---------------------------------------------------------------------------

/// The update is declared in definition file `f`: one of its files names
/// the same path (`BTreeSet<PathBuf>::contains`).
pub open spec fn touches(u: PlannedToolUpdate, f: Seq<char>) -> bool {
    path_classes(views(u.definition_files@)).contains(path_components(f))
}

/// `contents` of file `f` after the updates declared in it, in order; `None`
/// when one of them cannot be made.
pub open spec fn apply_edits(contents: Seq<char>, f: Seq<char>, us: Seq<PlannedToolUpdate>) -> Option<
    Seq<char>,
>
    decreases us.len(),
{
    if us.len() == 0 {
        Some(contents)
    } else {
        match apply_edits(contents, f, us.drop_last()) {
            None => None,
            Some(c) => if touches(us.last(), f) {
                block_edit(c, us.last())
            } else {
                Some(c)
            },
        }
    }
}

/// Update `k` is the first that cannot be made, and `e` says why.
pub open spec fn fails_at(
    contents: Seq<char>,
    f: Seq<char>,
    us: Seq<PlannedToolUpdate>,
    k: int,
    e: ToolError,
) -> bool {
    &&& 0 <= k < us.len()
    &&& touches(us[k], f)
    &&& apply_edits(contents, f, us.take(k)) matches Some(c) && block_edit(c, us[k]) is None
        && edit_error(c, us[k], e)
}

fn touches_exec(u: &PlannedToolUpdate, f: &str) -> (r: bool)
    ensures
        r == touches(*u, f@),
{
    let ghost fs = views(u.definition_files@);
    let ghost cs = fs.map_values(|p: Seq<char>| path_components(p));
    let mut k: usize = 0;
    while k < u.definition_files.len()
        invariant
            k <= u.definition_files@.len(),
            fs == views(u.definition_files@),
            cs == fs.map_values(|p: Seq<char>| path_components(p)),
            forall|m: int| 0 <= m < k ==> cs[m] != path_components(f@),
        decreases u.definition_files@.len() - k,
    {
        if str_same_path(u.definition_files[k].as_str(), f) {
            assert(cs[k as int] == path_components(f@));
            return true;
        }
        k += 1;
    }
    assert(!cs.to_set().contains(path_components(f@))) by {
        if cs.to_set().contains(path_components(f@)) {
            let m = choose|m: int| 0 <= m < cs.len() && cs[m] == path_components(f@);
        }
    }
    false
}

/// The new text of definition file `file`: each update declared in it
/// applied in turn. The first that cannot be made is the error.
pub fn apply_updates_to_file(contents: &str, file: &str, updates: &Vec<PlannedToolUpdate>) -> (r:
    Result<String, ToolError>)
    ensures
        match apply_edits(contents@, file@, updates@) {
            Some(s) => r matches Ok(t) && t@ == s,
            None => r matches Err(e) && exists|k: int| #[trigger] fails_at(contents@, file@, updates@, k, e),
        },
{
    let mut cur = owned(contents);
    let mut k: usize = 0;
    assert(updates@.take(0) =~= Seq::<PlannedToolUpdate>::empty());
    while k < updates.len()
        invariant
            k <= updates@.len(),
            apply_edits(contents@, file@, updates@.take(k as int)) == Some(cur@),
        decreases updates.len() - k,
    {
        proof {
            assert(updates@.take(k + 1).drop_last() =~= updates@.take(k as int));
            assert(updates@.take(k + 1).last() == updates@[k as int]);
        }
        if touches_exec(&updates[k], file) {
            match update_tool_block(cur.as_str(), &updates[k]) {
                Ok(t) => {
                    cur = t;
                },
                Err(e) => {
                    proof {
                        assert(fails_at(contents@, file@, updates@, k as int, e));
                        lemma_edits_fail_after(contents@, file@, updates@, k + 1);
                    }
                    return Err(e);
                },
            }
        }
        k += 1;
    }
    assert(updates@.take(updates@.len() as int) =~= updates@);
    Ok(cur)
}

/// Once an update fails, so does every longer run.
proof fn lemma_edits_fail_after(contents: Seq<char>, f: Seq<char>, us: Seq<PlannedToolUpdate>, k: int)
    requires
        0 < k <= us.len(),
        apply_edits(contents, f, us.take(k)) is None,
    ensures
        apply_edits(contents, f, us) is None,
    decreases us.len() - k,
{
    if k < us.len() {
        assert(us.take(k + 1).drop_last() =~= us.take(k));
        lemma_edits_fail_after(contents, f, us, k + 1);
    } else {
        assert(us.take(k) =~= us);
    }
}

// ---------------------------------------------------------------------------
// Messages and table rows
// ---------------------------------------------------------------------------

/// What `tool update` says when it has nothing to apply.
pub open spec fn idle_text(newer: bool) -> Seq<char> {
    if newer {
        "no tool updates applied; use --allow-major to include major updates"@
    } else {
        "all tools are current"@
    }
}

/// What `tool update` says when it has nothing to apply.
pub fn idle_message(checks: &Vec<ToolCheck>) -> (r: &'static str)
    ensures
        r@ == idle_text(
            exists|k: int| 0 <= k < checks@.len() && (#[trigger] checks@[k]).status != ToolStatus::Current,
        ),
{
    if any_newer(checks) {
        "no tool updates applied; use --allow-major to include major updates"
    } else {
        "all tools are current"
    }
}

/// What `tool update` says after applying updates and rendering.
pub open spec fn updated_text(count: nat, files: nat, summary: SyncSummary) -> Seq<char> {
    "updated "@ + decimal(count) + " tool declaration"@ + plural_of(count) + " across "@ + decimal(
        files,
    ) + " image definition file"@ + plural_of(files) + "; "@ + render_summary_text(summary)
}

/// What `tool update` says after applying updates and rendering.
pub fn updated_message(updates: &Vec<PlannedToolUpdate>, summary: SyncSummary) -> (r: String)
    ensures
        r@ == updated_text(updates@.len(), touched_paths(updates@).len(), summary),
{
    let files = updated_file_count(updates);
    let mut r = owned("updated ");
    push_str(&mut r, decimal_string(updates.len() as u64).as_str());
    push_str(&mut r, " tool declaration");
    push_str(&mut r, plural(updates.len()));
    push_str(&mut r, " across ");
    push_str(&mut r, decimal_string(files as u64).as_str());
    push_str(&mut r, " image definition file");
    push_str(&mut r, plural(files));
    push_str(&mut r, "; ");
    push_str(&mut r, render_summary(summary).as_str());
    r
}

/// The row of `tool list` for a declaration.
pub fn declaration_row(d: &ToolDeclaration) -> (r: Vec<String>)
    ensures
        views(r@).len() == 7,
        views(r@)[0] == d.name@,
        views(r@)[1] == role_text(d.role),
        views(r@)[2] == d.release@,
        views(r@)[3] == match d.image_ref {
            Some(img) => img.registry@ + "/"@ + img.repository@ + ":"@ + img.tag@,
            None => match d.image {
                Some(x) => x@,
                None => "-"@,
            },
        },
        match d.image_ref {
            Some(img) => is_short_digest(img.digest@, views(r@)[4]),
            None => views(r@)[4] == "-"@,
        },
        views(r@)[5] == decimal(d.definition_files@.len()),
        views(r@)[6] == decimal(d.target_ids@.len()),
{
    let mut r: Vec<String> = Vec::new();
    r.push(d.name.clone());
    r.push(owned(d.role.as_str()));
    r.push(d.release.clone());
    r.push(
        match d.image_tag_reference() {
            Some(s) => s,
            None => owned("-"),
        },
    );
    r.push(
        match &d.image_ref {
            Some(img) => short_digest(img.digest.as_str()),
            None => owned("-"),
        },
    );
    r.push(decimal_string(d.definition_files.len() as u64));
    r.push(decimal_string(d.target_ids.len() as u64));
    r
}

/// The row of `tool outdated` for a check.
pub fn check_row(c: &ToolCheck) -> (r: Vec<String>)
    ensures
        views(r@).len() == 6,
        views(r@)[0] == c.name@,
        views(r@)[1] == c.current_release@,
        views(r@)[2] == c.latest_release@,
        views(r@)[3] == match c.status {
            ToolStatus::Current => "current"@,
            ToolStatus::UpdateAvailable => "update-available"@,
            ToolStatus::MajorSkipped => "major-skipped"@,
        },
        is_short_digest(c.current_digest@, views(r@)[4]),
        is_short_digest(c.latest_digest@, views(r@)[5]),
{
    let mut r: Vec<String> = Vec::new();
    r.push(c.name.clone());
    r.push(c.current_release.clone());
    r.push(c.latest_release.clone());
    r.push(owned(c.status.as_str()));
    r.push(short_digest(c.current_digest.as_str()));
    r.push(short_digest(c.latest_digest.as_str()));
    r
}

/// Applying updates one batch after another is applying them all at once:
/// the second batch starts from the text the first one produced, so every
/// earlier edit stays in place.
pub proof fn lemma_apply_edits_compose(
    contents: Seq<char>,
    f: Seq<char>,
    us: Seq<PlannedToolUpdate>,
    vs: Seq<PlannedToolUpdate>,
)
    ensures
        apply_edits(contents, f, us + vs) == match apply_edits(contents, f, us) {
            Some(c) => apply_edits(c, f, vs),
            None => None,
        },
    decreases vs.len(),
{
    if vs.len() == 0 {
        assert(us + vs =~= us);
    } else {
        let w = us + vs;
        assert(w.drop_last() =~= us + vs.drop_last());
        assert(w.last() == vs.last());
        lemma_apply_edits_compose(contents, f, us, vs.drop_last());
        match apply_edits(contents, f, us) {
            Some(c) => {
                assert(apply_edits(c, f, vs) == match apply_edits(c, f, vs.drop_last()) {
                    None => None,
                    Some(d) => if touches(vs.last(), f) {
                        block_edit(d, vs.last())
                    } else {
                        Some(d)
                    },
                });
            },
            None => {},
        }
    }
}

/// A single update edits the tool's block in the text it is given when it
/// is declared in the file, and leaves the text as it is otherwise.
pub proof fn lemma_apply_one_edit(contents: Seq<char>, f: Seq<char>, u: PlannedToolUpdate)
    ensures
        apply_edits(contents, f, seq![u]) == if touches(u, f) {
            block_edit(contents, u)
        } else {
            Some(contents)
        },
{
    let e = Seq::<PlannedToolUpdate>::empty();
    assert(seq![u].drop_last() =~= e);
    assert(seq![u].last() == u);
    assert(apply_edits(contents, f, e) == Some(contents));
}

/// A definition file that no update is declared in is left as it was.
pub proof fn lemma_untouched_file_unchanged(
    contents: Seq<char>,
    f: Seq<char>,
    us: Seq<PlannedToolUpdate>,
)
    requires
        forall|k: int| 0 <= k < us.len() ==> !touches(#[trigger] us[k], f),
    ensures
        apply_edits(contents, f, us) == Some(contents),
    decreases us.len(),
{
    if us.len() > 0 {
        let d = us.drop_last();
        assert forall|k: int| 0 <= k < d.len() implies !touches(#[trigger] d[k], f) by {
            assert(d[k] == us[k]);
        }
        lemma_untouched_file_unchanged(contents, f, d);
        assert(!touches(us[us.len() - 1], f));
    }
}

} // verus!
