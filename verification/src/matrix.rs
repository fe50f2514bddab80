//! The CI build matrix: one entry per target, or per target and platform.
use vstd::prelude::*;

use crate::cli::MatrixArgs;
use crate::commands::{platform_arch, platform_runner, platform_runner_of, platform_suffix, CommandError};
use crate::model::{
    copy_opt, copy_strings, opt_view, status_text, ImageCatalog, ImageStatus, ImageTarget,
};
use crate::text::{owned, views};

verus! {

broadcast use vstd::string::group_string_axioms;

/// One entry of the build matrix.
#[derive(Debug)]
pub struct MatrixEntry {
    pub id: String,
    pub family: String,
    pub line: String,
    pub version: String,
    pub distro: Option<String>,
    pub package: String,
    pub publish: bool,
    pub status: String,
    pub releasable: bool,
    pub context: String,
    pub dockerfile: String,
    pub base_image: String,
    pub platforms: Vec<String>,
    pub canonical: Vec<String>,
    pub alias: Vec<String>,
    pub platform: Option<String>,
    pub arch: Option<String>,
    pub runner: Option<String>,
}

/// `e` describes target `t`, for `platform` if one is given.
pub open spec fn describes(e: MatrixEntry, t: ImageTarget, platform: Option<Seq<char>>) -> bool {
    &&& e.id@ == t.id@
    &&& e.family@ == t.family@
    &&& e.line@ == t.line@
    &&& e.version@ == t.version@
    &&& opt_view(e.distro) == opt_view(t.distro)
    &&& e.package@ == t.package@
    &&& e.publish == t.publish
    &&& e.status@ == status_text(t.status)
    &&& e.releasable == t@.is_releasable()
    &&& e.context@ == t.context@
    &&& e.dockerfile@ == t.dockerfile@
    &&& e.base_image@ == t.base_image@
    &&& views(e.platforms@) == views(t.platforms@)
    &&& views(e.canonical@) == views(t.canonical_tags@)
    &&& views(e.alias@) == views(t.alias_tags@)
    &&& opt_view(e.platform) == platform
    &&& opt_view(e.arch) == match platform {
        Some(p) => platform_arch(p),
        None => None,
    }
    &&& opt_view(e.runner) == match platform {
        Some(p) => platform_runner_of(p),
        None => None,
    }
}

/// The matrix entry of a target, for one platform or for all of them.
pub fn entry(target: &ImageTarget, platform: Option<&String>) -> (r: Result<
    MatrixEntry,
    CommandError,
>)
    ensures
        match platform {
            Some(p) => match platform_arch(p@) {
                Some(_) => (r matches Ok(e) && describes(e, *target, Some(p@))),
                None => (r matches Err(CommandError::UnsupportedPlatform(q)) && q@ == p@),
            },
            None => (r matches Ok(e) && describes(e, *target, None)),
        },
{
    let (platform, arch, runner) = match platform {
        Some(p) => {
            let a = platform_suffix(p.as_str())?;
            let b = platform_runner(p.as_str())?;
            (Some(p.clone()), Some(owned(a)), Some(owned(b)))
        },
        None => (None, None, None),
    };
    Ok(
        MatrixEntry {
            id: target.id.clone(),
            family: target.family.clone(),
            line: target.line.clone(),
            version: target.version.clone(),
            distro: copy_opt(&target.distro),
            package: target.package.clone(),
            publish: target.publish,
            status: owned(target.status_label()),
            releasable: target.is_releasable(),
            context: target.context.clone(),
            dockerfile: target.dockerfile.clone(),
            base_image: target.base_image.clone(),
            platforms: copy_strings(&target.platforms),
            canonical: copy_strings(&target.canonical_tags),
            alias: copy_strings(&target.alias_tags),
            platform,
            arch,
            runner,
        },
    )
}

/// The targets the matrix covers: every target with `--all`, else the
/// releasable ones.
pub open spec fn matrix_targets(targets: Seq<ImageTarget>, all: bool) -> Seq<ImageTarget> {
    targets.filter(|t: ImageTarget| all || t@.is_releasable())
}

/// Every (target, platform) pair, target by target.
pub open spec fn platform_pairs(targets: Seq<ImageTarget>) -> Seq<(ImageTarget, Seq<char>)>
    decreases targets.len(),
{
    if targets.len() == 0 {
        Seq::empty()
    } else {
        platform_pairs(targets.drop_last()) + views(targets.last().platforms@).map_values(
            |p: Seq<char>| (targets.last(), p),
        )
    }
}

/// The build matrix. Per platform, it fails on the first platform that is not
/// released natively.
pub fn matrix_entries(catalog: &ImageCatalog, args: &MatrixArgs) -> (r: Result<
    Vec<MatrixEntry>,
    CommandError,
>)
    ensures
        ({
            let sel = matrix_targets(catalog.targets@, args.all);
            if args.per_platform {
                let pairs = platform_pairs(sel);
                &&& r is Err <==> exists|i: int|
                    0 <= i < pairs.len() && platform_arch(#[trigger] pairs[i].1) is None
                &&& r matches Err(e) ==> exists|i: int|
                    0 <= i < pairs.len() && platform_arch(#[trigger] pairs[i].1) is None && (forall|
                        j: int,
                    | 0 <= j < i ==> platform_arch(pairs[j].1) is Some) && (e matches CommandError::UnsupportedPlatform(
                        q,
                    ) && q@ == pairs[i].1)
                &&& r matches Ok(v) ==> v@.len() == pairs.len() && forall|k: int|
                    0 <= k < v@.len() ==> describes(#[trigger] v@[k], pairs[k].0, Some(pairs[k].1))
            } else {
                r matches Ok(v) && v@.len() == sel.len() && forall|k: int|
                    0 <= k < v@.len() ==> describes(#[trigger] v@[k], sel[k], None)
            }
        }),
{
    let ghost sel = matrix_targets(catalog.targets@, args.all);
    let mut entries: Vec<MatrixEntry> = Vec::new();
    let ghost mut done: Seq<ImageTarget> = Seq::empty();
    let mut i: usize = 0;
    while i < catalog.targets.len()
        invariant
            i <= catalog.targets.len(),
            sel == matrix_targets(catalog.targets@, args.all),
            done == matrix_targets(catalog.targets@.take(i as int), args.all),
            args.per_platform ==> {
                let pairs = platform_pairs(done);
                &&& entries@.len() == pairs.len()
                &&& forall|j: int| 0 <= j < pairs.len() ==> platform_arch(#[trigger] pairs[j].1) is Some
                &&& forall|k: int|
                    0 <= k < entries@.len() ==> describes(
                        #[trigger] entries@[k],
                        pairs[k].0,
                        Some(pairs[k].1),
                    )
            },
            !args.per_platform ==> entries@.len() == done.len() && forall|k: int|
                0 <= k < entries@.len() ==> describes(#[trigger] entries@[k], done[k], None),
        decreases catalog.targets.len() - i,
    {
        let t = &catalog.targets[i];
        let keep = args.all || t.is_releasable();
        proof {
            let pred = |t: ImageTarget| args.all || t@.is_releasable();
            assert(catalog.targets@.take(i + 1) =~= catalog.targets@.take(i as int).push(*t));
            catalog.targets@.take(i as int).lemma_filter_push(*t, pred);
        }
        if keep {
            let ghost old_done = done;
            proof {
                done = done.push(*t);
                assert(done.drop_last() =~= old_done);
            }
            if args.per_platform {
                let ghost before = entries@;
                let ghost prefix = platform_pairs(old_done);
                let ghost extra = views(t.platforms@).map_values(|p: Seq<char>| (*t, p));
                assert(platform_pairs(done) == prefix + extra);
                let mut j: usize = 0;
                while j < t.platforms.len()
                    invariant
                        j <= t.platforms.len(),
                        i < catalog.targets.len(),
                        *t == catalog.targets@[i as int],
                        args.per_platform,
                        done == matrix_targets(catalog.targets@.take(i + 1), args.all),
                        prefix == platform_pairs(old_done),
                        platform_pairs(done) == prefix + extra,
                        extra == views(t.platforms@).map_values(|p: Seq<char>| (*t, p)),
                        entries@.len() == prefix.len() + j,
                        forall|q: int| 0 <= q < prefix.len() ==> platform_arch(#[trigger] prefix[q].1) is Some,
                        forall|q: int| 0 <= q < j ==> platform_arch(t.platforms@[q]@) is Some,
                        forall|k: int|
                            0 <= k < prefix.len() ==> describes(
                                #[trigger] entries@[k],
                                prefix[k].0,
                                Some(prefix[k].1),
                            ),
                        forall|k: int|
                            0 <= k < j ==> describes(
                                #[trigger] entries@[prefix.len() + k],
                                *t,
                                Some(t.platforms@[k]@),
                            ),
                    decreases t.platforms.len() - j,
                {
                    match entry(t, Some(&t.platforms[j])) {
                        Ok(e) => {
                            entries.push(e);
                        },
                        Err(e) => {
                            proof {
                                let pairs = platform_pairs(matrix_targets(catalog.targets@, args.all));
                                lemma_pairs_prefix(catalog.targets@, args.all, i as int + 1);
                                let idx = prefix.len() + j;
                                assert(platform_pairs(done)[idx] == (*t, t.platforms@[j as int]@));
                                assert(pairs[idx] == platform_pairs(done)[idx]);
                                assert forall|q: int| 0 <= q < idx implies platform_arch(
                                    pairs[q].1,
                                ) is Some by {
                                    assert(pairs[q] == platform_pairs(done)[q]);
                                    if q >= prefix.len() {
                                        assert(platform_pairs(done)[q] == (
                                            *t,
                                            t.platforms@[q - prefix.len()]@,
                                        ));
                                    } else {
                                        assert(platform_pairs(done)[q] == prefix[q]);
                                    }
                                }
                            }
                            return Err(e);
                        },
                    }
                    j += 1;
                }
                proof {
                    assert forall|q: int| 0 <= q < platform_pairs(done).len() implies platform_arch(
                        #[trigger] platform_pairs(done)[q].1,
                    ) is Some by {
                        if q >= prefix.len() {
                            assert(platform_pairs(done)[q] == (*t, t.platforms@[q - prefix.len()]@));
                        } else {
                            assert(platform_pairs(done)[q] == prefix[q]);
                        }
                    }
                    assert forall|k: int| 0 <= k < entries@.len() implies describes(
                        #[trigger] entries@[k],
                        platform_pairs(done)[k].0,
                        Some(platform_pairs(done)[k].1),
                    ) by {
                        if k >= prefix.len() {
                            assert(platform_pairs(done)[k] == (*t, t.platforms@[k - prefix.len()]@));
                            assert(describes(
                                entries@[prefix.len() + (k - prefix.len())],
                                *t,
                                Some(t.platforms@[k - prefix.len()]@),
                            ));
                        } else {
                            assert(platform_pairs(done)[k] == prefix[k]);
                        }
                    }
                }
            } else {
                match entry(t, None) {
                    Ok(e) => {
                        entries.push(e);
                    },
                    Err(_) => {
                        assert(false);
                        return Err(CommandError::NoReleasableTargets);
                    },
                }
            }
        }
        i += 1;
    }
    proof {
        assert(catalog.targets@.take(catalog.targets.len() as int) =~= catalog.targets@);
    }
    Ok(entries)
}

/// Taking more targets only extends the pairs.
proof fn lemma_pairs_prefix(targets: Seq<ImageTarget>, all: bool, n: int)
    requires
        0 <= n <= targets.len(),
    ensures
        platform_pairs(matrix_targets(targets, all)).len() >= platform_pairs(
            matrix_targets(targets.take(n), all),
        ).len(),
        forall|q: int|
            0 <= q < platform_pairs(matrix_targets(targets.take(n), all)).len() ==> #[trigger] platform_pairs(
                matrix_targets(targets, all),
            )[q] == platform_pairs(matrix_targets(targets.take(n), all))[q],
    decreases targets.len() - n,
{
    if n < targets.len() {
        lemma_pairs_prefix(targets, all, n + 1);
        let pred = |t: ImageTarget| all || t@.is_releasable();
        assert(targets.take(n + 1) =~= targets.take(n).push(targets[n]));
        targets.take(n).lemma_filter_push(targets[n], pred);
        let a = matrix_targets(targets.take(n), all);
        let b = matrix_targets(targets.take(n + 1), all);
        if pred(targets[n]) {
            assert(b.drop_last() =~= a);
        } else {
            assert(b == a);
        }
    } else {
        assert(targets.take(n) =~= targets);
    }
}

/// Every pair lists a target of the list, with one of that target's platforms.
proof fn lemma_pairs_from(ts: Seq<ImageTarget>, q: int)
    requires
        0 <= q < platform_pairs(ts).len(),
    ensures
        exists|k: int|
            0 <= k < ts.len() && #[trigger] ts[k] == platform_pairs(ts)[q].0 && views(
                ts[k].platforms@,
            ).contains(platform_pairs(ts)[q].1),
    decreases ts.len(),
{
    let d = ts.drop_last();
    let n = platform_pairs(d).len();
    if q < n {
        lemma_pairs_from(d, q);
        let k = choose|k: int|
            0 <= k < d.len() && #[trigger] d[k] == platform_pairs(d)[q].0 && views(
                d[k].platforms@,
            ).contains(platform_pairs(d)[q].1);
        assert(ts[k] == d[k]);
    } else {
        let last = ts.last();
        let ps = views(last.platforms@);
        assert(platform_pairs(ts)[q] == (last, ps[q - n]));
        assert(ts[ts.len() - 1] == last);
    }
}

/// The default release matrix, per target or per platform, holds only
/// targets that are published and stable.
pub proof fn lemma_default_matrix_releasable(targets: Seq<ImageTarget>, k: int, q: int)
    ensures
        0 <= k < matrix_targets(targets, false).len() ==> matrix_targets(targets, false)[k].publish
            && matrix_targets(targets, false)[k].status == ImageStatus::Stable,
        0 <= q < platform_pairs(matrix_targets(targets, false)).len() ==> platform_pairs(
            matrix_targets(targets, false),
        )[q].0.publish && platform_pairs(matrix_targets(targets, false))[q].0.status
            == ImageStatus::Stable,
{
    let all = false;
    let pred = |t: ImageTarget| all || t@.is_releasable();
    let sel = matrix_targets(targets, all);
    assert forall|m: int| 0 <= m < sel.len() implies (#[trigger] sel[m]).publish && sel[m].status
        == ImageStatus::Stable by {
        targets.lemma_filter_pred(pred, m);
    }
    if 0 <= q < platform_pairs(sel).len() {
        lemma_pairs_from(sel, q);
    }
}

} // verus!
