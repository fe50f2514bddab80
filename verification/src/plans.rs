//! What `build`, `release` and `manifest` ask Docker to do.
use vstd::prelude::*;

use crate::commands::{
    platform_arch, platform_suffix, reference, registry_cache_from, registry_cache_to,
    tag_with_suffix, CommandError,
};
use crate::discovery::{join_path, join_path_exec};
use crate::docker::{DockerBuild, DockerManifest};
use crate::model::{
    copy_opt, copy_strings, first_with_id, releasable, ImageCatalog, ImageTarget,
};
use crate::text::{is_blank, owned, push_str, str_eq, str_is_blank, views};

verus! {

broadcast use vstd::string::group_string_axioms;

/// The targets a release or manifest run covers: the named target, which must
/// be releasable, or every releasable target; never none.
pub fn select_release_targets<'a>(catalog: &'a ImageCatalog, image_id: &Option<String>) -> (r:
    Result<Vec<&'a ImageTarget>, CommandError>)
    ensures
        match image_id {
            Some(id) => {
                &&& (forall|i: int|
                    0 <= i < catalog.targets.len() ==> catalog.targets@[i].id@ != id@) ==> (r matches Err(
                    CommandError::UnknownImage(x),
                ) && x@ == id@)
                &&& forall|i: int|
                    first_with_id(catalog.targets@, id@, i) ==> if catalog.targets@[i]@.is_releasable() {
                        (r matches Ok(v) && v@.len() == 1 && *v@[0] == catalog.targets@[i])
                    } else {
                        (r matches Err(CommandError::NotReleasable { id: x, publish, status }) && x
                            == catalog.targets@[i].id && publish == catalog.targets@[i].publish
                            && status == catalog.targets@[i].status)
                    }
            },
            None => if releasable(catalog.targets@).len() == 0 {
                r matches Err(CommandError::NoReleasableTargets)
            } else {
                (r matches Ok(v) && v@.map_values(|t: &ImageTarget| *t) == releasable(
                    catalog.targets@,
                ))
            },
        },
{
    match image_id {
        Some(id) => {
            match catalog.target(id.as_str()) {
                None => Err(CommandError::UnknownImage(id.clone())),
                Some(t) => {
                    proof {
                        let i = choose|i: int|
                            first_with_id(catalog.targets@, id@, i) && *t == catalog.targets@[i];
                        assert forall|j: int| first_with_id(catalog.targets@, id@, j) implies j
                            == i by {
                            if j < i {
                                assert(catalog.targets@[j].id@ != id@);
                            } else if j > i {
                                assert(catalog.targets@[i].id@ != id@);
                            }
                        }
                    }
                    if !t.is_releasable() {
                        return Err(
                            CommandError::NotReleasable {
                                id: t.id.clone(),
                                publish: t.publish,
                                status: t.status,
                            },
                        );
                    }
                    let mut v: Vec<&ImageTarget> = Vec::new();
                    v.push(t);
                    Ok(v)
                },
            }
        },
        None => {
            let v = catalog.release_targets();
            if v.len() == 0 {
                assert(v@.map_values(|t: &ImageTarget| *t).len() == 0);
                return Err(CommandError::NoReleasableTargets);
            }
            Ok(v)
        },
    }
}

/// The suffix that per-platform release tags carry.
pub open spec fn release_suffix_of(platform: Option<String>, tag_suffix: Option<String>) -> Result<
    Option<Seq<char>>,
    (),
> {
    match (platform, tag_suffix) {
        (Some(p), Some(s)) => if is_blank(s@) || platform_arch(p@) is None {
            Err(())
        } else {
            Ok(Some(s@))
        },
        (Some(p), None) => match platform_arch(p@) {
            Some(a) => Ok(Some(a)),
            None => Err(()),
        },
        (None, Some(_)) => Err(()),
        (None, None) => Ok(None),
    }
}

/// The tag suffix of a release: the explicit one, which needs a supported
/// `--platform` and may not be blank; else the platform's architecture; else
/// none when no platform is given.
pub fn release_tag_suffix(platform: &Option<String>, tag_suffix: &Option<String>) -> (r: Result<
    Option<String>,
    CommandError,
>)
    ensures
        match r {
            Ok(Some(s)) => release_suffix_of(*platform, *tag_suffix) == Ok::<
                Option<Seq<char>>,
                (),
            >(Some(s@)),
            Ok(None) => release_suffix_of(*platform, *tag_suffix) == Ok::<Option<Seq<char>>, ()>(
                None,
            ),
            Err(e) => release_suffix_of(*platform, *tag_suffix) is Err && match (
                *platform,
                *tag_suffix,
            ) {
                (Some(p), Some(s)) => if is_blank(s@) {
                    e is EmptyTagSuffix
                } else {
                    (e matches CommandError::UnsupportedPlatform(q) && q@ == p@)
                },
                (Some(p), None) => (e matches CommandError::UnsupportedPlatform(q) && q@ == p@),
                _ => e is TagSuffixWithoutPlatform,
            },
        },
{
    match (platform, tag_suffix) {
        (Some(p), Some(s)) => {
            if str_is_blank(s.as_str()) {
                return Err(CommandError::EmptyTagSuffix);
            }
            platform_suffix(p.as_str())?;
            Ok(Some(s.clone()))
        },
        (Some(p), None) => {
            let a = platform_suffix(p.as_str())?;
            Ok(Some(owned(a)))
        },
        (None, Some(_)) => Err(CommandError::TagSuffixWithoutPlatform),
        (None, None) => Ok(None),
    }
}

/// The file a release writes its build metadata to.
pub open spec fn metadata_path(id: Seq<char>, suffix: Option<Seq<char>>) -> Seq<char> {
    join_path(
        "target/keeline-release-metadata"@,
        match suffix {
            Some(s) => id + "-"@ + s + ".json"@,
            None => id + ".json"@,
        },
    )
}

/// The optional view of an optional string.
pub open spec fn opt_seq(o: Option<String>) -> Option<Seq<char>> {
    match o {
        Some(s) => Some(s@),
        None => None,
    }
}

/// `target/keeline-release-metadata/<id>[-<suffix>].json`.
pub fn metadata_file(target: &ImageTarget, tag_suffix: &Option<String>) -> (r: String)
    ensures
        r@ == metadata_path(target.id@, opt_seq(*tag_suffix)),
{
    let mut name = target.id.clone();
    if let Some(s) = tag_suffix {
        push_str(&mut name, "-");
        push_str(&mut name, s.as_str());
    }
    push_str(&mut name, ".json");
    join_path_exec("target/keeline-release-metadata", name.as_str())
}

/// The tag a release pushes for `tag`.
pub open spec fn release_tag(repository: Seq<char>, tag: Seq<char>, suffix: Option<Seq<char>>) -> Seq<
    char,
> {
    match suffix {
        Some(s) => repository + ":"@ + tag + "-"@ + s,
        None => repository + ":"@ + tag,
    }
}

/// The build cache tag of a release.
pub open spec fn cache_tag_of(suffix: Option<Seq<char>>) -> Seq<char> {
    match suffix {
        Some(s) => "buildcache-"@ + s,
        None => "buildcache"@,
    }
}

/// The pushed build of one target: every tag (with the suffix, if any), the
/// requested platform or all of the target's, registry caches, SBOM,
/// provenance and a metadata file.
pub fn release_request(
    target: &ImageTarget,
    owner: &str,
    platform: &Option<String>,
    tag_suffix: &Option<String>,
    args: &Vec<(String, String)>,
) -> (r: Result<DockerBuild, CommandError>)
    ensures
        match platform {
            Some(p) => !views(target.platforms@).contains(p@) <==> r is Err,
            None => r is Ok,
        },
        r matches Err(e) ==> (platform matches Some(p) && (e matches CommandError::PlatformNotSupported {
            id,
            platform: q,
        } && id == target.id && q == p)),
        r matches Ok(b) ==> {
            let repository = "ghcr.io/"@ + owner@ + "/"@ + target.package@;
            let suffix = opt_seq(*tag_suffix);
            let cache = cache_tag_of(suffix);
            &&& b.context == target.context
            &&& b.dockerfile == target.dockerfile
            &&& b.build_args@ == args@
            &&& views(b.cache_from@) == seq!["type=registry,ref="@ + repository + ":"@ + cache]
            &&& views(b.cache_to@) == seq![
                "type=registry,ref="@ + repository + ":"@ + cache + ",mode=max"@,
            ]
            &&& (b.metadata_file matches Some(m) && m@ == metadata_path(target.id@, suffix))
            &&& views(b.tags@) == target@.all_tags().map_values(
                |t: Seq<char>| release_tag(repository, t, suffix),
            )
            &&& b.tags@.len() == target.canonical_tags@.len() + target.alias_tags@.len()
            &&& forall|k: int|
                0 <= k < target.canonical_tags@.len() ==> (#[trigger] b.tags@[k])@ == release_tag(
                    repository,
                    target.canonical_tags@[k]@,
                    suffix,
                )
            &&& forall|k: int|
                0 <= k < target.alias_tags@.len() ==> b.tags@[target.canonical_tags@.len() + k]@
                    == release_tag(repository, (#[trigger] target.alias_tags@[k])@, suffix)
            &&& views(b.platforms@) == match platform {
                Some(p) => seq![p@],
                None => views(target.platforms@),
            }
            &&& b.sbom && b.provenance && b.push && !b.load
        },
{
    let platforms = match platform {
        Some(p) => {
            let mut found = false;
            let mut i: usize = 0;
            while i < target.platforms.len()
                invariant
                    i <= target.platforms.len(),
                    found <==> exists|j: int| 0 <= j < i && target.platforms@[j]@ == p@,
                decreases target.platforms.len() - i,
            {
                if str_eq(target.platforms[i].as_str(), p.as_str()) {
                    found = true;
                }
                i += 1;
            }
            proof {
                if views(target.platforms@).contains(p@) {
                    let j = choose|j: int|
                        0 <= j < target.platforms@.len() && views(target.platforms@)[j] == p@;
                    assert(target.platforms@[j]@ == p@);
                }
                if found {
                    let j = choose|j: int| 0 <= j < i && target.platforms@[j]@ == p@;
                    assert(views(target.platforms@)[j] == p@);
                }
            }
            if !found {
                return Err(
                    CommandError::PlatformNotSupported { id: target.id.clone(), platform: p.clone() },
                );
            }
            let mut v: Vec<String> = Vec::new();
            v.push(p.clone());
            assert(views(v@) =~= seq![p@]);
            v
        },
        None => copy_strings(&target.platforms),
    };
    let repository = target.repository(owner);
    let cache_tag = match tag_suffix {
        Some(s) => {
            let mut c = owned("buildcache-");
            push_str(&mut c, s.as_str());
            c
        },
        None => owned("buildcache"),
    };
    let all = target.all_tags();
    let mut tags: Vec<String> = Vec::new();
    let mut i: usize = 0;
    while i < all.len()
        invariant
            i <= all.len(),
            views(all@) == target@.all_tags(),
            repository@ == "ghcr.io/"@ + owner@ + "/"@ + target.package@,
            tags@.len() == i,
            forall|k: int|
                0 <= k < i ==> #[trigger] tags@[k]@ == release_tag(
                    repository@,
                    all@[k]@,
                    opt_seq(*tag_suffix),
                ),
        decreases all.len() - i,
    {
        let t = match tag_suffix {
            Some(s) => reference(repository.as_str(), tag_with_suffix(all[i].as_str(), s.as_str()).as_str()),
            None => reference(repository.as_str(), all[i].as_str()),
        };
        tags.push(t);
        i += 1;
    }
    proof {
        assert(views(tags@) =~= target@.all_tags().map_values(
            |t: Seq<char>| release_tag(repository@, t, opt_seq(*tag_suffix)),
        )) by {
            assert forall|k: int| 0 <= k < tags@.len() implies views(tags@)[k] == target@.all_tags().map_values(
                |t: Seq<char>| release_tag(repository@, t, opt_seq(*tag_suffix)),
            )[k] by {
                assert(views(all@)[k] == all@[k]@);
            }
        }
    }
    proof {
        let nc = target.canonical_tags@.len() as int;
        assert(views(all@) == views(target.canonical_tags@) + views(target.alias_tags@));
        assert forall|k: int| 0 <= k < nc implies (#[trigger] tags@[k])@ == release_tag(
            repository@,
            target.canonical_tags@[k]@,
            opt_seq(*tag_suffix),
        ) by {
            assert(views(all@)[k] == all@[k]@);
        }
        assert forall|k: int| 0 <= k < target.alias_tags@.len() implies tags@[nc + k]@
            == release_tag(repository@, (#[trigger] target.alias_tags@[k])@, opt_seq(*tag_suffix)) by {
            assert(views(all@)[nc + k] == all@[nc + k]@);
        }
    }
    let mut copied: Vec<(String, String)> = Vec::new();
    let mut j: usize = 0;
    while j < args.len()
        invariant
            j <= args.len(),
            copied@ == args@.take(j as int),
        decreases args.len() - j,
    {
        let (a, b) = &args[j];
        copied.push((a.clone(), b.clone()));
        j += 1;
        assert(copied@ =~= args@.take(j as int));
    }
    assert(args@.take(args.len() as int) =~= args@);
    Ok(
        DockerBuild {
            context: target.context.clone(),
            dockerfile: target.dockerfile.clone(),
            build_args: copied,
            cache_from: registry_cache_from(repository.as_str(), cache_tag.as_str()),
            cache_to: registry_cache_to(repository.as_str(), cache_tag.as_str()),
            metadata_file: Some(metadata_file(target, tag_suffix)),
            tags,
            platforms,
            sbom: true,
            provenance: true,
            push: true,
            load: false,
        },
    )
}

/// The first platform of `platforms` that is not released natively, if any.
pub open spec fn first_unsupported(platforms: Seq<String>, i: int) -> bool {
    0 <= i < platforms.len() && platform_arch(platforms[i]@) is None && forall|j: int|
        0 <= j < i ==> platform_arch(platforms[j]@) is Some
}

/// `ghcr.io/<owner>/<package>:<tag>`.
pub open spec fn manifest_tag(owner: Seq<char>, package: Seq<char>, tag: Seq<char>) -> Seq<char> {
    "ghcr.io/"@ + owner + "/"@ + package + ":"@ + tag
}

/// The manifests of one target: for every tag, the multi-platform tag made
/// from the per-platform tags that `release --platform` pushed. Fails on the
/// first platform that is not released natively.
pub fn manifest_requests(target: &ImageTarget, owner: &str) -> (r: Result<
    Vec<DockerManifest>,
    CommandError,
>)
    ensures
        r is Err <==> exists|i: int| first_unsupported(target.platforms@, i),
        r matches Err(e) ==> exists|i: int|
            first_unsupported(target.platforms@, i) && (e matches CommandError::UnsupportedPlatform(
                p,
            ) && p@ == target.platforms@[i]@),
        r matches Ok(ms) ==> ms@.len() == target@.all_tags().len(),
        r matches Ok(ms) ==> ms@.len() == target.canonical_tags@.len() + target.alias_tags@.len(),
        r matches Ok(ms) ==> forall|k: int|
            0 <= k < target.canonical_tags@.len() ==> views(#[trigger] ms@[k].tags@) == seq![
                manifest_tag(owner@, target.package@, target.canonical_tags@[k]@),
            ],
        r matches Ok(ms) ==> forall|k: int|
            0 <= k < target.alias_tags@.len() ==> views(
                ms@[target.canonical_tags@.len() + k].tags@,
            ) == seq![manifest_tag(owner@, target.package@, (#[trigger] target.alias_tags@[k])@)],
        r matches Ok(ms) ==> forall|k: int|
            0 <= k < ms@.len() ==> views(#[trigger] ms@[k].tags@) == seq![
                manifest_tag(owner@, target.package@, target@.all_tags()[k]),
            ],
        r matches Ok(ms) ==> forall|k: int|
            0 <= k < ms@.len() ==> views(#[trigger] ms@[k].sources@) == target.platforms@.map_values(
                |p: String|
                    manifest_tag(owner@, target.package@, target@.all_tags()[k]) + "-"@ + platform_arch(
                        p@,
                    )->0,
            ),
{
    let repository = target.repository(owner);
    let mut suffixes: Vec<&'static str> = Vec::new();
    let mut i: usize = 0;
    while i < target.platforms.len()
        invariant
            i <= target.platforms.len(),
            suffixes@.len() == i,
            forall|j: int|
                0 <= j < i ==> platform_arch(target.platforms@[j]@) == Some(
                    (#[trigger] suffixes@[j])@,
                ),
        decreases target.platforms.len() - i,
    {
        match platform_suffix(target.platforms[i].as_str()) {
            Ok(s) => {
                suffixes.push(s);
            },
            Err(e) => {
                assert forall|j: int| 0 <= j < i implies platform_arch(target.platforms@[j]@) is Some by {
                    assert(platform_arch(target.platforms@[j]@) == Some(suffixes@[j]@));
                }
                assert(first_unsupported(target.platforms@, i as int));
                return Err(e);
            },
        }
        i += 1;
    }
    proof {
        assert forall|j: int| !first_unsupported(target.platforms@, j) by {
            if 0 <= j < target.platforms@.len() {
                assert(platform_arch(target.platforms@[j]@) == Some(suffixes@[j]@));
            }
        }
    }
    let all = target.all_tags();
    let mut ms: Vec<DockerManifest> = Vec::new();
    let mut k: usize = 0;
    while k < all.len()
        invariant
            k <= all.len(),
            views(all@) == target@.all_tags(),
            repository@ == "ghcr.io/"@ + owner@ + "/"@ + target.package@,
            suffixes@.len() == target.platforms@.len(),
            forall|j: int|
                0 <= j < suffixes@.len() ==> platform_arch(target.platforms@[j]@) == Some(
                    (#[trigger] suffixes@[j])@,
                ),
            ms@.len() == k,
            forall|q: int|
                0 <= q < k ==> views(#[trigger] ms@[q].tags@) == seq![
                    repository@ + ":"@ + all@[q]@,
                ] && views(ms@[q].sources@) == target.platforms@.map_values(
                    |p: String| repository@ + ":"@ + all@[q]@ + "-"@ + platform_arch(p@)->0,
                ),
        decreases all.len() - k,
    {
        let tag = &all[k];
        let mut sources: Vec<String> = Vec::new();
        let mut j: usize = 0;
        while j < suffixes.len()
            invariant
                j <= suffixes.len(),
                suffixes@.len() == target.platforms@.len(),
                forall|j: int|
                    0 <= j < suffixes@.len() ==> platform_arch(target.platforms@[j]@) == Some(
                        (#[trigger] suffixes@[j])@,
                    ),
                sources@.len() == j,
                forall|q: int|
                    0 <= q < j ==> (#[trigger] sources@[q])@ == repository@ + ":"@ + tag@ + "-"@
                        + suffixes@[q]@,
            decreases suffixes.len() - j,
        {
            sources.push(reference(repository.as_str(), tag_with_suffix(tag.as_str(), suffixes[j]).as_str()));
            j += 1;
        }
        let mut tags: Vec<String> = Vec::new();
        tags.push(reference(repository.as_str(), tag.as_str()));
        proof {
            assert(views(tags@) =~= seq![repository@ + ":"@ + all@[k as int]@]);
            assert forall|q: int| 0 <= q < sources@.len() implies views(sources@)[q]
                == target.platforms@.map_values(
                |p: String| repository@ + ":"@ + all@[k as int]@ + "-"@ + platform_arch(p@)->0,
            )[q] by {
                assert(platform_arch(target.platforms@[q]@) == Some(suffixes@[q]@));
            }
            assert(views(sources@) =~= target.platforms@.map_values(
                |p: String| repository@ + ":"@ + all@[k as int]@ + "-"@ + platform_arch(p@)->0,
            ));
        }
        ms.push(DockerManifest { tags, sources });
        k += 1;
    }
    proof {
        assert forall|q: int| 0 <= q < ms@.len() implies views(#[trigger] ms@[q].tags@) == seq![
            manifest_tag(owner@, target.package@, target@.all_tags()[q]),
        ] by {
            assert(views(all@)[q] == all@[q]@);
            assert(repository@ + ":"@ + all@[q]@ =~= manifest_tag(owner@, target.package@, all@[q]@));
        }
        assert forall|q: int| 0 <= q < ms@.len() implies views(#[trigger] ms@[q].sources@)
            == target.platforms@.map_values(
            |p: String|
                manifest_tag(owner@, target.package@, target@.all_tags()[q]) + "-"@ + platform_arch(
                    p@,
                )->0,
        ) by {
            assert(views(all@)[q] == all@[q]@);
            assert(views(ms@[q].tags@) == seq![repository@ + ":"@ + all@[q]@]);
            let base = repository@ + ":"@ + all@[q]@;
            assert(base =~= manifest_tag(owner@, target.package@, all@[q]@));
            assert(target.platforms@.map_values(
                |p: String| repository@ + ":"@ + all@[q]@ + "-"@ + platform_arch(p@)->0,
            ) =~= target.platforms@.map_values(
                |p: String|
                    manifest_tag(owner@, target.package@, target@.all_tags()[q]) + "-"@ + platform_arch(
                        p@,
                    )->0,
            ));
        }
        assert(views(all@).len() == all@.len());
        let nc = target.canonical_tags@.len() as int;
        assert(target@.all_tags() == views(target.canonical_tags@) + views(target.alias_tags@));
        assert forall|k: int| 0 <= k < target.alias_tags@.len() implies views(
            ms@[nc + k].tags@,
        ) == seq![manifest_tag(owner@, target.package@, (#[trigger] target.alias_tags@[k])@)] by {
            assert(target@.all_tags()[nc + k] == target.alias_tags@[k]@);
        }
    }
    Ok(ms)
}

/// The local build of one target: loaded into the local Docker, tagged with
/// the primary tag under `ghcr.io/<owner>/` or `keeline-local/`, for the
/// requested platform if any.
pub fn build_request(
    target: &ImageTarget,
    owner: &Option<String>,
    platform: &Option<String>,
    args: Vec<(String, String)>,
) -> (b: DockerBuild)
    requires
        target.canonical_tags.len() > 0,
    ensures
        b.context == target.context,
        b.dockerfile == target.dockerfile,
        b.build_args == args,
        b.cache_from@.len() == 0,
        b.cache_to@.len() == 0,
        b.metadata_file is None,
        views(b.tags@) == seq![
            match owner {
                Some(o) => "ghcr.io/"@ + o@ + "/"@ + target.package@,
                None => "keeline-local/"@ + target.package@,
            } + ":"@ + target.canonical_tags@[0]@,
        ],
        views(b.platforms@) == match platform {
            Some(p) => seq![p@],
            None => Seq::<Seq<char>>::empty(),
        },
        !b.sbom && !b.provenance && !b.push && b.load,
{
    let repository = match owner {
        Some(o) => {
            let mut r = owned("ghcr.io/");
            push_str(&mut r, o.as_str());
            push_str(&mut r, "/");
            push_str(&mut r, target.package.as_str());
            r
        },
        None => {
            let mut r = owned("keeline-local/");
            push_str(&mut r, target.package.as_str());
            r
        },
    };
    let mut tags: Vec<String> = Vec::new();
    tags.push(reference(repository.as_str(), target.primary_tag()));
    let mut platforms: Vec<String> = Vec::new();
    if let Some(p) = platform {
        platforms.push(p.clone());
    }
    assert(views(platforms@) =~= match platform {
        Some(p) => seq![p@],
        None => Seq::<Seq<char>>::empty(),
    });
    assert(views(tags@) =~= seq![repository@ + ":"@ + target.canonical_tags@[0]@]);
    DockerBuild {
        context: target.context.clone(),
        dockerfile: target.dockerfile.clone(),
        build_args: args,
        cache_from: Vec::new(),
        cache_to: Vec::new(),
        metadata_file: None,
        tags,
        platforms,
        sbom: false,
        provenance: false,
        push: false,
        load: true,
    }
}

} // verus!
