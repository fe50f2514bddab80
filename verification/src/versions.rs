//! Release versions of bundled tools, through the `semver` crate, and the
//! choice of the release a tool moves to.
use vstd::prelude::*;

use crate::text::{decimal, decimal_string, is_suffix, push_str, strip_suffix, views};

verus! {

broadcast use vstd::string::group_string_axioms;

/// How `semver::Version::parse` reads `text`: its major, minor and patch
/// numbers, its pre-release text and its build metadata text. The SemVer
/// grammar is the `semver` crate's; it is named here, not restated.
pub uninterp spec fn semver_parse(text: Seq<char>) -> Option<(u64, u64, u64, Seq<char>, Seq<char>)>;

/// A version as `semver` parsed it.
#[derive(Debug)]
pub struct ParsedVersion {
    pub major: u64,
    pub minor: u64,
    pub patch: u64,
    /// The pre-release identifiers, as written (empty when there are none).
    pub pre: String,
    /// The build metadata, as written (empty when there is none).
    pub build: String,
}

/// Parses `text` with `semver::Version::parse` and keeps its numbers and
/// the text of its pre-release and build parts.
#[verifier::external_body]
fn parse_semver(text: &str) -> (r: Option<ParsedVersion>)
    ensures
        match r {
            Some(v) => semver_parse(text@) == Some((v.major, v.minor, v.patch, v.pre@, v.build@)),
            None => semver_parse(text@) is None,
        },
{
    match semver::Version::parse(text) {
        Ok(v) => Some(
            ParsedVersion {
                major: v.major,
                minor: v.minor,
                patch: v.patch,
                pre: v.pre.as_str().to_string(),
                build: v.build.as_str().to_string(),
            },
        ),
        Err(_) => None,
    }
}

/// A stable release: no pre-release, no build metadata.
#[derive(Debug, Clone, Copy, PartialEq, Eq, Structural)]
pub struct StableVersion {
    pub major: u64,
    pub minor: u64,
    pub patch: u64,
}

/// The stable version that `text` names, if it names one.
pub open spec fn stable_of(text: Seq<char>) -> Option<StableVersion> {
    match semver_parse(text) {
        Some((a, b, c, pre, build)) => if pre.len() == 0 && build.len() == 0 {
            Some(StableVersion { major: a, minor: b, patch: c })
        } else {
            None
        },
        None => None,
    }
}

/// The stable version of a parsed one: none when it has a pre-release or
/// build metadata.
pub fn stable_from(v: &ParsedVersion) -> (r: Option<StableVersion>)
    ensures
        r == if v.pre@.len() == 0 && v.build@.len() == 0 {
            Some(StableVersion { major: v.major, minor: v.minor, patch: v.patch })
        } else {
            None
        },
{
    if v.pre.as_str().is_empty() && v.build.as_str().is_empty() {
        Some(StableVersion { major: v.major, minor: v.minor, patch: v.patch })
    } else {
        None
    }
}

/// Parses a stable version.
pub fn parse_stable(text: &str) -> (r: Option<StableVersion>)
    ensures
        r == stable_of(text@),
{
    match parse_semver(text) {
        Some(v) => stable_from(&v),
        None => None,
    }
}

/// Version order: by major, then minor, then patch. For stable versions this
/// is SemVer precedence.
pub open spec fn version_lt(a: StableVersion, b: StableVersion) -> bool {
    a.major < b.major || (a.major == b.major && (a.minor < b.minor || (a.minor == b.minor
        && a.patch < b.patch)))
}

/// `a` is older than `b`.
pub fn older(a: StableVersion, b: StableVersion) -> (r: bool)
    ensures
        r == version_lt(a, b),
{
    a.major < b.major || (a.major == b.major && (a.minor < b.minor || (a.minor == b.minor
        && a.patch < b.patch)))
}

/// SemVer precedence of stable versions: the major number decides; with
/// equal majors the minor number decides, whatever the patches; with equal
/// majors and minors the patch number decides. Exactly one of `a < b`,
/// `a == b`, `b < a` holds, and the order is transitive.
pub proof fn lemma_version_precedence(a: StableVersion, b: StableVersion, c: StableVersion)
    ensures
        a.major < b.major ==> version_lt(a, b),
        a.major > b.major ==> !version_lt(a, b),
        a.major == b.major && a.minor < b.minor ==> version_lt(a, b),
        a.major == b.major && a.minor > b.minor ==> !version_lt(a, b),
        a.major == b.major && a.minor == b.minor ==> (version_lt(a, b) <==> a.patch < b.patch),
        !version_lt(a, a),
        a != b ==> (version_lt(a, b) <==> !version_lt(b, a)),
        version_lt(a, b) && version_lt(b, c) ==> version_lt(a, c),
{
}

/// `major.minor.patch`.
pub open spec fn version_text(v: StableVersion) -> Seq<char> {
    decimal(v.major as nat) + "."@ + decimal(v.minor as nat) + "."@ + decimal(v.patch as nat)
}

/// `major.minor.patch` (how `semver` displays a stable version).
pub fn version_string(v: StableVersion) -> (r: String)
    ensures
        r@ == version_text(v),
{
    let mut r = decimal_string(v.major);
    push_str(&mut r, ".");
    push_str(&mut r, decimal_string(v.minor).as_str());
    push_str(&mut r, ".");
    push_str(&mut r, decimal_string(v.patch).as_str());
    r
}

/// A registry tag that names a stable release of a tool.
#[derive(Debug)]
pub struct CandidateVersion {
    pub version: StableVersion,
    pub tag: String,
}

/// The stable version a tag names, once the variant suffix is removed.
pub open spec fn candidate_of(tag: Seq<char>, suffix: Seq<char>) -> Option<StableVersion> {
    if is_suffix(suffix, tag) {
        stable_of(tag.take(tag.len() - suffix.len()))
    } else {
        None
    }
}

/// The tags that name stable releases with the suffix, in order.
pub open spec fn candidates(tags: Seq<Seq<char>>, suffix: Seq<char>) -> Seq<(StableVersion, Seq<char>)>
    decreases tags.len(),
{
    if tags.len() == 0 {
        Seq::empty()
    } else {
        let rest = candidates(tags.drop_last(), suffix);
        match candidate_of(tags.last(), suffix) {
            Some(v) => rest.push((v, tags.last())),
            None => rest,
        }
    }
}

/// The view of a candidate.
pub open spec fn candidate_view(c: CandidateVersion) -> (StableVersion, Seq<char>) {
    (c.version, c.tag@)
}

/// The registry tags that name stable releases ending in `suffix`.
pub fn matching_versions(tags: &Vec<String>, suffix: &str) -> (r: Vec<CandidateVersion>)
    ensures
        r@.map_values(|c: CandidateVersion| candidate_view(c)) == candidates(views(tags@), suffix@),
{
    let mut r: Vec<CandidateVersion> = Vec::new();
    let mut i: usize = 0;
    while i < tags.len()
        invariant
            i <= tags.len(),
            r@.map_values(|c: CandidateVersion| candidate_view(c)) == candidates(
                views(tags@.take(i as int)),
                suffix@,
            ),
        decreases tags.len() - i,
    {
        let tag = &tags[i];
        let ghost before = r@;
        proof {
            let t = views(tags@.take(i + 1));
            assert(t.drop_last() =~= views(tags@.take(i as int)));
            assert(t.last() == tag@);
        }
        match strip_suffix(tag.as_str(), suffix) {
            Some(text) => {
                match parse_stable(text.as_str()) {
                    Some(v) => {
                        r.push(CandidateVersion { version: v, tag: tag.clone() });
                        assert(r@.map_values(|c: CandidateVersion| candidate_view(c)) =~= before.map_values(
                            |c: CandidateVersion| candidate_view(c),
                        ).push((v, tag@)));
                    },
                    None => {},
                }
            },
            None => {},
        }
        i += 1;
    }
    assert(tags@.take(tags.len() as int) =~= tags@);
    r
}

/// Candidate `i` is the newest of `cs` among those that `ok` admits, and the
/// last one of that version.
pub open spec fn is_last_newest(
    cs: Seq<(StableVersion, Seq<char>)>,
    ok: spec_fn(StableVersion) -> bool,
    i: int,
) -> bool {
    &&& 0 <= i < cs.len()
    &&& ok(cs[i].0)
    &&& forall|j: int| 0 <= j < cs.len() && ok(cs[j].0) ==> !version_lt(cs[i].0, #[trigger] cs[j].0)
    &&& forall|j: int| i < j < cs.len() && ok(cs[j].0) ==> version_lt(#[trigger] cs[j].0, cs[i].0)
}

/// No candidate is admitted.
pub open spec fn none_admitted(cs: Seq<(StableVersion, Seq<char>)>, ok: spec_fn(StableVersion) -> bool) -> bool {
    forall|j: int| 0 <= j < cs.len() ==> !ok(#[trigger] cs[j].0)
}

/// Every version.
pub open spec fn any_version() -> spec_fn(StableVersion) -> bool {
    |v: StableVersion| true
}

/// The versions an update may move to from `current`.
pub open spec fn admitted(current: StableVersion, allow_major: bool) -> spec_fn(StableVersion) -> bool {
    |v: StableVersion| allow_major || v.major == current.major
}

/// The index of the newest admitted candidate (the last of equal ones), if any.
fn newest_index(
    cs: &Vec<CandidateVersion>,
    current: StableVersion,
    allow_major: bool,
    restrict: bool,
) -> (r: Option<usize>)
    ensures
        ({
            let vs = cs@.map_values(|c: CandidateVersion| candidate_view(c));
            let ok = if restrict { admitted(current, allow_major) } else { any_version() };
            match r {
                Some(i) => is_last_newest(vs, ok, i as int),
                None => none_admitted(vs, ok),
            }
        }),
{
    let ghost vs = cs@.map_values(|c: CandidateVersion| candidate_view(c));
    let ghost ok = if restrict { admitted(current, allow_major) } else { any_version() };
    let mut best: Option<usize> = None;
    let mut i: usize = 0;
    while i < cs.len()
        invariant
            i <= cs.len(),
            vs == cs@.map_values(|c: CandidateVersion| candidate_view(c)),
            ok == if restrict { admitted(current, allow_major) } else { any_version() },
            match best {
                Some(b) => is_last_newest(vs.take(i as int), ok, b as int),
                None => none_admitted(vs.take(i as int), ok),
            },
        decreases cs.len() - i,
    {
        let v = cs[i].version;
        let accepted = !restrict || allow_major || v.major == current.major;
        assert(vs[i as int].0 == v);
        assert(accepted == ok(v));
        let ghost pre = vs.take(i as int);
        let ghost post = vs.take(i + 1);
        assert(post =~= pre.push(vs[i as int]));
        if accepted {
            match best {
                None => {
                    best = Some(i);
                },
                Some(b) => {
                    if !older(v, cs[b].version) {
                        best = Some(i);
                        proof {
                            assert(vs[b as int].0 == cs@[b as int].version);
                            assert forall|j: int| 0 <= j < post.len() && ok(post[j].0) implies !version_lt(
                                post[i as int].0,
                                #[trigger] post[j].0,
                            ) by {
                                if j < i {
                                    assert(post[j] == pre[j]);
                                    assert(!version_lt(pre[b as int].0, pre[j].0));
                                }
                            }
                        }
                    } else {
                        proof {
                            assert(vs[b as int].0 == cs@[b as int].version);
                            assert forall|j: int| 0 <= j < post.len() && ok(post[j].0) implies !version_lt(
                                post[b as int].0,
                                #[trigger] post[j].0,
                            ) by {
                                if j < i {
                                    assert(post[j] == pre[j]);
                                }
                            }
                        }
                    }
                },
            }
        }
        proof {
            match best {
                Some(b) => {
                    assert forall|j: int| b < j < post.len() && ok(post[j].0) implies version_lt(
                        #[trigger] post[j].0,
                        post[b as int].0,
                    ) by {
                        if j < i {
                            assert(post[j] == pre[j]);
                        }
                    }
                    assert forall|j: int| 0 <= j < post.len() && ok(post[j].0) implies !version_lt(
                        post[b as int].0,
                        #[trigger] post[j].0,
                    ) by {
                        if j < i {
                            assert(post[j] == pre[j]);
                        }
                    }
                },
                None => {
                    assert forall|j: int| 0 <= j < post.len() implies !ok(#[trigger] post[j].0) by {
                        if j < i {
                            assert(post[j] == pre[j]);
                        }
                    }
                },
            }
        }
        i += 1;
    }
    assert(vs.take(cs.len() as int) =~= vs);
    best
}

/// How a tool stands against its registry.
#[derive(Debug, Clone, Copy, PartialEq, Eq, Structural)]
pub enum ToolStatus {
    Current,
    UpdateAvailable,
    /// A newer release exists, but only in another major version.
    MajorSkipped,
}

impl ToolStatus {
    /// The kebab-case name of the status.
    pub fn as_str(self) -> (r: &'static str)
        ensures
            r@ == match self {
                ToolStatus::Current => "current"@,
                ToolStatus::UpdateAvailable => "update-available"@,
                ToolStatus::MajorSkipped => "major-skipped"@,
            },
    {
        match self {
            ToolStatus::Current => "current",
            ToolStatus::UpdateAvailable => "update-available",
            ToolStatus::MajorSkipped => "major-skipped",
        }
    }
}

/// The verdict on a tool: its status and the release it is compared with.
#[derive(Debug)]
pub struct Selection {
    pub status: ToolStatus,
    pub latest: CandidateVersion,
}

/// The newest candidate decides: if it is not newer than `current`, the tool
/// is current; else the newest admitted candidate newer than `current` is the
/// update; else the update is skipped for being in another major version.
pub open spec fn selection_ok(
    cs: Seq<(StableVersion, Seq<char>)>,
    current: StableVersion,
    allow_major: bool,
    status: ToolStatus,
    latest: (StableVersion, Seq<char>),
) -> bool {
    exists|n: int|
        #![trigger is_last_newest(cs, any_version(), n)]
        is_last_newest(cs, any_version(), n) && if !version_lt(current, cs[n].0) {
            status == ToolStatus::Current && latest == cs[n]
        } else if exists|a: int|
            is_last_newest(cs, admitted(current, allow_major), a) && version_lt(current, cs[a].0) {
            status == ToolStatus::UpdateAvailable && exists|a: int|
                is_last_newest(cs, admitted(current, allow_major), a) && latest == cs[a]
        } else {
            status == ToolStatus::MajorSkipped && latest == cs[n]
        }
}

/// Chooses what a tool moves to among the registry's tags.
pub fn select_release(
    tags: &Vec<String>,
    suffix: &str,
    current: StableVersion,
    allow_major: bool,
) -> (r: Option<Selection>)
    ensures
        ({
            let cs = candidates(views(tags@), suffix@);
            &&& r is None <==> cs.len() == 0
            &&& r matches Some(s) ==> selection_ok(
                cs,
                current,
                allow_major,
                s.status,
                candidate_view(s.latest),
            )
        }),
{
    let versions = matching_versions(tags, suffix);
    let ghost cs = versions@.map_values(|c: CandidateVersion| candidate_view(c));
    let n = match newest_index(&versions, current, allow_major, false) {
        Some(n) => n,
        None => {
            proof {
                if cs.len() > 0 {
                    assert(any_version()(cs[0].0));
                }
            }
            return None;
        },
    };
    let a = newest_index(&versions, current, allow_major, true);
    let newest = versions[n].version;
    assert(cs[n as int] == candidate_view(versions@[n as int]));
    if !older(current, newest) {
        let latest = CandidateVersion { version: newest, tag: versions[n].tag.clone() };
        return Some(Selection { status: ToolStatus::Current, latest });
    }
    match a {
        Some(a) => {
            assert(cs[a as int] == candidate_view(versions@[a as int]));
            if older(current, versions[a].version) {
                let latest = CandidateVersion {
                    version: versions[a].version,
                    tag: versions[a].tag.clone(),
                };
                return Some(Selection { status: ToolStatus::UpdateAvailable, latest });
            }
            proof {
                assert forall|b: int|
                    is_last_newest(cs, admitted(current, allow_major), b) implies !version_lt(
                    current,
                    cs[b].0,
                ) by {
                    lemma_newest_unique_version(cs, admitted(current, allow_major), a as int, b);
                }
            }
        },
        None => {},
    }
    let latest = CandidateVersion { version: newest, tag: versions[n].tag.clone() };
    Some(Selection { status: ToolStatus::MajorSkipped, latest })
}

/// Two newest candidates have the same version.
proof fn lemma_newest_unique_version(
    cs: Seq<(StableVersion, Seq<char>)>,
    ok: spec_fn(StableVersion) -> bool,
    a: int,
    b: int,
)
    requires
        is_last_newest(cs, ok, a),
        is_last_newest(cs, ok, b),
    ensures
        cs[a].0 == cs[b].0,
{
    assert(!version_lt(cs[a].0, cs[b].0));
    assert(!version_lt(cs[b].0, cs[a].0));
}

/// What a verdict guarantees. `Current`: no candidate is newer than the
/// current release. `UpdateAvailable`: the release moved to is newer than
/// the current one, in the same major version unless majors are allowed,
/// and no admitted candidate is newer than it. `MajorSkipped`: majors are not
/// allowed, a newer candidate exists, and none in the current major is newer.
/// For `Current` and `MajorSkipped` the release compared with is the newest
/// candidate; when skipped, it is newer than the current release and in
/// another major version.
pub proof fn lemma_selection_guarantees(
    cs: Seq<(StableVersion, Seq<char>)>,
    current: StableVersion,
    allow_major: bool,
    status: ToolStatus,
    latest: (StableVersion, Seq<char>),
)
    requires
        selection_ok(cs, current, allow_major, status, latest),
    ensures
        cs.contains(latest),
        status == ToolStatus::Current ==> forall|j: int|
            0 <= j < cs.len() ==> !version_lt(current, #[trigger] cs[j].0),
        status != ToolStatus::UpdateAvailable ==> forall|j: int|
            0 <= j < cs.len() ==> !version_lt(latest.0, #[trigger] cs[j].0),
        status == ToolStatus::MajorSkipped ==> version_lt(current, latest.0)
            && latest.0.major != current.major,
        status == ToolStatus::UpdateAvailable ==> {
            &&& version_lt(current, latest.0)
            &&& (allow_major || latest.0.major == current.major)
            &&& forall|j: int|
                0 <= j < cs.len() && (allow_major || cs[j].0.major == current.major) ==> !version_lt(
                    latest.0,
                    #[trigger] cs[j].0,
                )
        },
        status == ToolStatus::MajorSkipped ==> {
            &&& !allow_major
            &&& exists|j: int| 0 <= j < cs.len() && version_lt(current, #[trigger] cs[j].0)
            &&& forall|j: int|
                0 <= j < cs.len() && cs[j].0.major == current.major ==> !version_lt(
                    current,
                    #[trigger] cs[j].0,
                )
        },
{
    let n = choose|n: int| #[trigger] is_last_newest(cs, any_version(), n) && if !version_lt(current, cs[n].0) {
        status == ToolStatus::Current && latest == cs[n]
    } else if exists|a: int|
        is_last_newest(cs, admitted(current, allow_major), a) && version_lt(current, cs[a].0) {
        status == ToolStatus::UpdateAvailable && exists|a: int|
            is_last_newest(cs, admitted(current, allow_major), a) && latest == cs[a]
    } else {
        status == ToolStatus::MajorSkipped && latest == cs[n]
    };
    let ok = admitted(current, allow_major);
    assert forall|j: int| 0 <= j < cs.len() implies !version_lt(cs[n].0, #[trigger] cs[j].0) by {
        assert(any_version()(cs[j].0));
    }
    if !version_lt(current, cs[n].0) {
        assert(cs[n] == latest);
    } else if exists|a: int| is_last_newest(cs, ok, a) && version_lt(current, cs[a].0) {
        let a1 = choose|a: int| is_last_newest(cs, ok, a) && version_lt(current, cs[a].0);
        let a2 = choose|a: int| is_last_newest(cs, ok, a) && latest == cs[a];
        lemma_newest_unique_version(cs, ok, a1, a2);
        assert(cs[a2] == latest);
        assert forall|j: int|
            0 <= j < cs.len() && (allow_major || cs[j].0.major == current.major) implies !version_lt(
            latest.0,
            #[trigger] cs[j].0,
        ) by {
            assert(ok(cs[j].0));
        }
    } else {
        assert(cs[n] == latest);
        assert(!allow_major) by {
            if allow_major {
                assert(ok(cs[n].0));
                assert(is_last_newest(cs, ok, n)) by {
                    assert forall|j: int| 0 <= j < cs.len() && ok(cs[j].0) implies !version_lt(
                        cs[n].0,
                        #[trigger] cs[j].0,
                    ) by {}
                    assert forall|j: int| n < j < cs.len() && ok(cs[j].0) implies version_lt(
                        #[trigger] cs[j].0,
                        cs[n].0,
                    ) by {
                        assert(any_version()(cs[j].0));
                    }
                }
            }
        }
        assert forall|j: int|
            0 <= j < cs.len() && cs[j].0.major == current.major implies !version_lt(
            current,
            #[trigger] cs[j].0,
        ) by {
            if version_lt(current, cs[j].0) {
                assert(ok(cs[j].0));
                lemma_newest_admitted_exists(cs, ok, j);
                let a = choose|a: int| is_last_newest(cs, ok, a);
                assert(!version_lt(cs[a].0, cs[j].0));
            }
        }
    }
}

/// A candidate that `ok` admits means there is a newest admitted one.
proof fn lemma_newest_admitted_exists(cs: Seq<(StableVersion, Seq<char>)>, ok: spec_fn(StableVersion) -> bool, j: int)
    requires
        0 <= j < cs.len(),
        ok(cs[j].0),
    ensures
        exists|a: int| is_last_newest(cs, ok, a),
    decreases cs.len(),
{
    let last = cs.len() - 1;
    let d = cs.drop_last();
    if j == last && (forall|k: int| 0 <= k < last ==> !#[trigger] ok(cs[k].0)) {
        assert(is_last_newest(cs, ok, last));
    } else {
        let j2 = if j < last {
            j
        } else {
            choose|k: int| 0 <= k < last && #[trigger] ok(cs[k].0)
        };
        assert(d[j2] == cs[j2]);
        lemma_newest_admitted_exists(d, ok, j2);
        let b = choose|a: int| is_last_newest(d, ok, a);
        assert(d[b] == cs[b]);
        if ok(cs[last].0) && !version_lt(cs[last].0, cs[b].0) {
            assert(is_last_newest(cs, ok, last)) by {
                assert forall|k: int| 0 <= k < cs.len() && ok(cs[k].0) implies !version_lt(
                    cs[last].0,
                    #[trigger] cs[k].0,
                ) by {
                    if k < last {
                        assert(d[k] == cs[k]);
                        assert(!version_lt(d[b].0, d[k].0));
                    }
                }
            }
        } else {
            assert(is_last_newest(cs, ok, b)) by {
                assert forall|k: int| 0 <= k < cs.len() && ok(cs[k].0) implies !version_lt(
                    cs[b].0,
                    #[trigger] cs[k].0,
                ) by {
                    if k < last {
                        assert(d[k] == cs[k]);
                    }
                }
                assert forall|k: int| b < k < cs.len() && ok(cs[k].0) implies version_lt(
                    #[trigger] cs[k].0,
                    cs[b].0,
                ) by {
                    if k < last {
                        assert(d[k] == cs[k]);
                    }
                }
            }
        }
    }
}

} // verus!
