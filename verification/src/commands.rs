//! What the release commands share: platform names, tags, registry caches and
//! the OCI labels of built images.
use vstd::prelude::*;

use crate::model::{ImageStatus, ImageTarget};
use crate::text::{
    is_prefix, owned, push_str, str_eq, strip_prefix, trim_end_all, trim_end_matches, views,
};

verus! {

broadcast use vstd::string::group_string_axioms;

/// Why a command refused its arguments.
#[derive(Debug)]
pub enum CommandError {
    /// Only `linux/amd64` and `linux/arm64` are built natively.
    UnsupportedPlatform(String),
    /// No target has this id.
    UnknownImage(String),
    /// The target is not published or not stable.
    NotReleasable { id: String, publish: bool, status: ImageStatus },
    /// Nothing was selected for release.
    NoReleasableTargets,
    /// `--tag-suffix` is blank.
    EmptyTagSuffix,
    /// `--tag-suffix` without `--platform`.
    TagSuffixWithoutPlatform,
    /// The target does not list the requested platform.
    PlatformNotSupported { id: String, platform: String },
    /// `render --stdout` selected more or fewer than one target.
    StdoutNeedsOneImage,
}

/// The architecture suffix of a natively released platform.
pub open spec fn platform_arch(platform: Seq<char>) -> Option<Seq<char>> {
    if platform == "linux/amd64"@ {
        Some("amd64"@)
    } else if platform == "linux/arm64"@ {
        Some("arm64"@)
    } else {
        None
    }
}

/// The CI runner that builds a platform natively.
pub open spec fn platform_runner_of(platform: Seq<char>) -> Option<Seq<char>> {
    if platform == "linux/amd64"@ {
        Some("ubuntu-latest"@)
    } else if platform == "linux/arm64"@ {
        Some("ubuntu-24.04-arm"@)
    } else {
        None
    }
}

/// The architecture suffix of a natively released platform.
pub fn platform_suffix(platform: &str) -> (r: Result<&'static str, CommandError>)
    ensures
        match platform_arch(platform@) {
            Some(a) => r matches Ok(s) && s@ == a,
            None => r matches Err(CommandError::UnsupportedPlatform(p)) && p@ == platform@,
        },
{
    if str_eq(platform, "linux/amd64") {
        Ok("amd64")
    } else if str_eq(platform, "linux/arm64") {
        Ok("arm64")
    } else {
        Err(CommandError::UnsupportedPlatform(owned(platform)))
    }
}

/// The CI runner that builds a platform natively.
pub fn platform_runner(platform: &str) -> (r: Result<&'static str, CommandError>)
    ensures
        match platform_runner_of(platform@) {
            Some(a) => r matches Ok(s) && s@ == a,
            None => r matches Err(CommandError::UnsupportedPlatform(p)) && p@ == platform@,
        },
{
    if str_eq(platform, "linux/amd64") {
        Ok("ubuntu-latest")
    } else if str_eq(platform, "linux/arm64") {
        Ok("ubuntu-24.04-arm")
    } else {
        Err(CommandError::UnsupportedPlatform(owned(platform)))
    }
}

/// `<tag>-<suffix>`.
pub fn tag_with_suffix(tag: &str, suffix: &str) -> (r: String)
    ensures
        r@ == tag@ + "-"@ + suffix@,
{
    let mut r = owned(tag);
    push_str(&mut r, "-");
    push_str(&mut r, suffix);
    r
}

/// `<repository>:<tag>`.
pub fn reference(repository: &str, tag: &str) -> (r: String)
    ensures
        r@ == repository@ + ":"@ + tag@,
{
    let mut r = owned(repository);
    push_str(&mut r, ":");
    push_str(&mut r, tag);
    r
}

/// The registry cache a build reads from.
pub fn registry_cache_from(repository: &str, cache_tag: &str) -> (r: Vec<String>)
    ensures
        views(r@) == seq!["type=registry,ref="@ + repository@ + ":"@ + cache_tag@],
{
    let mut s = owned("type=registry,ref=");
    push_str(&mut s, repository);
    push_str(&mut s, ":");
    push_str(&mut s, cache_tag);
    let mut r: Vec<String> = Vec::new();
    r.push(s);
    assert(views(r@) =~= seq!["type=registry,ref="@ + repository@ + ":"@ + cache_tag@]);
    r
}

/// The registry cache a build writes to, with every layer.
pub fn registry_cache_to(repository: &str, cache_tag: &str) -> (r: Vec<String>)
    ensures
        views(r@) == seq!["type=registry,ref="@ + repository@ + ":"@ + cache_tag@ + ",mode=max"@],
{
    let mut s = owned("type=registry,ref=");
    push_str(&mut s, repository);
    push_str(&mut s, ":");
    push_str(&mut s, cache_tag);
    push_str(&mut s, ",mode=max");
    let mut r: Vec<String> = Vec::new();
    r.push(s);
    assert(views(r@) =~= seq![
        "type=registry,ref="@ + repository@ + ":"@ + cache_tag@ + ",mode=max"@,
    ]);
    r
}

/// A git remote as an `https://github.com/...` URL without `.git`.
pub open spec fn normalized_git_url(url: Seq<char>) -> Seq<char> {
    if is_prefix("git@github.com:"@, url) {
        "https://github.com/"@ + trim_end_all(url.skip("git@github.com:"@.len() as int), ".git"@)
    } else if is_prefix("https://github.com/"@, url) {
        "https://github.com/"@ + trim_end_all(
            url.skip("https://github.com/"@.len() as int),
            ".git"@,
        )
    } else {
        trim_end_all(url, ".git"@)
    }
}

/// A git remote as an `https://github.com/...` URL without `.git`.
pub fn normalize_git_url(url: String) -> (r: String)
    ensures
        r@ == normalized_git_url(url@),
{
    if let Some(rest) = strip_prefix(url.as_str(), "git@github.com:") {
        let mut r = owned("https://github.com/");
        push_str(&mut r, trim_end_matches(rest.as_str(), ".git").as_str());
        return r;
    }
    if let Some(rest) = strip_prefix(url.as_str(), "https://github.com/") {
        let mut r = owned("https://github.com/");
        push_str(&mut r, trim_end_matches(rest.as_str(), ".git").as_str());
        return r;
    }
    trim_end_matches(url.as_str(), ".git")
}

/// Where the image's source lives: `KEELINE_IMAGE_SOURCE`, else the GitHub
/// server and repository of the CI run, else the `origin` remote, else an
/// unknown repository.
pub open spec fn image_source_of(
    source: Option<String>,
    server: Option<String>,
    repository: Option<String>,
    remote: Option<String>,
) -> Seq<char> {
    match source {
        Some(s) => s@,
        None => match (server, repository) {
            (Some(a), Some(b)) => a@ + "/"@ + b@,
            _ => match remote {
                Some(u) => normalized_git_url(u@),
                None => "https://github.com/unknown/unknown"@,
            },
        },
    }
}

/// Chooses the image's source URL from what the environment and git offered.
pub fn resolve_image_source(
    source: Option<String>,
    server: Option<String>,
    repository: Option<String>,
    remote: Option<String>,
) -> (r: String)
    ensures
        r@ == image_source_of(source, server, repository, remote),
{
    match source {
        Some(s) => s,
        None => match (server, repository) {
            (Some(a), Some(b)) => {
                let mut r = a;
                push_str(&mut r, "/");
                push_str(&mut r, b.as_str());
                r
            },
            _ => match remote {
                Some(u) => normalize_git_url(u),
                None => owned("https://github.com/unknown/unknown"),
            },
        },
    }
}

/// The revision the image is built from: `KEELINE_IMAGE_REVISION`, else the
/// CI commit, else `HEAD`, else `unknown`.
pub fn resolve_image_revision(
    revision: Option<String>,
    sha: Option<String>,
    head: Option<String>,
) -> (r: String)
    ensures
        r@ == match (revision, sha, head) {
            (Some(a), _, _) => a@,
            (None, Some(b), _) => b@,
            (None, None, Some(c)) => c@,
            (None, None, None) => "unknown"@,
        },
{
    match revision {
        Some(a) => a,
        None => match sha {
            Some(b) => b,
            None => match head {
                Some(c) => c,
                None => owned("unknown"),
            },
        },
    }
}

/// The image's license: `KEELINE_IMAGE_LICENSES`, else `Apache-2.0`.
pub fn resolve_image_licenses(licenses: Option<String>) -> (r: String)
    ensures
        r@ == match licenses {
            Some(l) => l@,
            None => "Apache-2.0"@,
        },
{
    match licenses {
        Some(l) => l,
        None => owned("Apache-2.0"),
    }
}

/// The build arguments that label an image with its source, revision and license.
pub fn build_args(source: String, revision: String, licenses: String) -> (r: Vec<(String, String)>)
    ensures
        r@.len() == 3,
        r@[0].0@ == "KEELINE_IMAGE_SOURCE"@ && r@[0].1 == source,
        r@[1].0@ == "KEELINE_IMAGE_REVISION"@ && r@[1].1 == revision,
        r@[2].0@ == "KEELINE_IMAGE_LICENSES"@ && r@[2].1 == licenses,
{
    let mut r: Vec<(String, String)> = Vec::new();
    r.push((owned("KEELINE_IMAGE_SOURCE"), source));
    r.push((owned("KEELINE_IMAGE_REVISION"), revision));
    r.push((owned("KEELINE_IMAGE_LICENSES"), licenses));
    r
}

} // verus!
