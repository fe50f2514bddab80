//! The rules a catalog must satisfy before anything is rendered, built or
//! released. Each rule is checked in a fixed order and the first rule that
//! fails is reported.
use vstd::prelude::*;

use crate::model::{ImageCatalog, ImageTarget, SourceArchive};
use crate::pattern::{regex_compiles, regex_is_match, Pattern};
use crate::text::{
    contains_seq, contains_str, has_prefix, has_suffix, is_blank, is_prefix, is_suffix, owned,
    push_str, str_eq, str_is_blank, views,
};

verus! {

broadcast use vstd::string::group_string_axioms;

/// Where a set of archives belongs.
#[derive(Debug, Clone, Copy, PartialEq, Eq, Structural)]
pub enum ArchiveKind {
    Init,
    Healthcheck,
    /// The upstream source archives of a Java image.
    Source,
}

/// A rule that one image target breaks.
#[derive(Debug)]
pub enum Issue {
    UnsupportedSchema(u32),
    DuplicateId,
    InvalidPackage,
    InvalidFamily,
    PackageFamilyMismatch,
    NoCanonicalTag,
    NoPlatform,
    InvalidBaseImage,
    InvalidBuilderImage(String),
    MissingTitle,
    MissingDescription,
    MissingCommand,
    InvalidPlatform(String),
    MissingInit,
    InitProvider,
    InitRelease,
    InitBinaryPath,
    MissingInitEntrypoint,
    InitEntrypointMismatch,
    MissingHealthcheck,
    HealthcheckProvider,
    HealthcheckRelease,
    HealthcheckBinaryPath,
    NoToolSource(ArchiveKind),
    BothToolSources(ArchiveKind),
    InvalidToolImage(ArchiveKind, String),
    UnpinnedToolImage(ArchiveKind),
    MissingInstallPackages(ArchiveKind),
    RepeatedArchive(ArchiveKind, String),
    UnsupportedArchivePlatform(ArchiveKind, String),
    InsecureArchiveUrl(ArchiveKind, String),
    InvalidArchiveChecksum(ArchiveKind, String),
    MissingArchive(ArchiveKind, String),
    SourceNotAllowed,
    DebianSource,
    DebianJava,
    ScratchSource,
    ScratchJava,
    ScratchBaseImage,
    ScratchBuilderImage,
    JavaMissingSource,
    JavaMissingRuntime,
    JavaProvider,
    JavaSourceRelease,
    JavaGpgKey,
    JavaNoArchives,
    JavaHome,
    JavaBuilderPackages,
    JavaRuntimePackages,
    JavaLang,
    JavaLanguage,
    JavaLcAll,
    JavaVerifyCommands,
    JavaLocalesPackage,
    RepeatedTag(String),
    BannedTag(String),
    InvalidCanonicalTag(String),
    InvalidAliasTag(String),
    DuplicatePublishedTag(String),
    DefaultSuffix,
}

/// Why a catalog was rejected.
#[derive(Debug)]
pub enum ValidationError {
    /// The images directory does not exist.
    MissingRoot,
    /// No `image.toml` was found.
    NoTargets,
    /// One of the catalog's regular expressions does not compile.
    InvalidPattern(String),
    /// A target breaks a rule.
    Target { id: String, package: String, definition_file: String, issue: Issue },
}

// ---------------------------------------------------------------------------
// Patterns
// ---------------------------------------------------------------------------

pub const PACKAGE: usize = 0;
pub const FAMILY: usize = 1;
pub const IMAGE_REFERENCE: usize = 2;
pub const PLATFORM: usize = 3;
pub const DEBIAN_CANONICAL: usize = 4;
pub const DEBIAN_ALIAS: usize = 5;
pub const JAVA_CANONICAL: usize = 6;
pub const GENERIC_TAG: usize = 7;
pub const SHA256: usize = 8;

/// The source text of the catalog's pattern number `k`.
pub open spec fn pattern_source(k: int) -> Seq<char> {
    if k == 0 {
        r"^keeline-[a-z0-9-]+$"@
    } else if k == 1 {
        r"^[a-z0-9]+$"@
    } else if k == 2 {
        r"^(?:scratch|[a-z0-9./_-]+:[A-Za-z0-9._-]+(?:@sha256:[a-f0-9]{64})?)$"@
    } else if k == 3 {
        r"^[a-z0-9]+/[a-z0-9]+$"@
    } else if k == 4 {
        r"^[0-9]+(?:\.[0-9]+)?(?:-[a-z0-9]+)?$"@
    } else if k == 5 {
        r"^[a-z][a-z0-9]*(?:-[a-z0-9]+)?$"@
    } else if k == 6 {
        r"^(?:jdk|jre|runtime)-[0-9]+(?:(?:\.[0-9]+)*|u[0-9]+)?-[a-z0-9]+(?:-[a-z0-9]+)?$"@
    } else if k == 7 {
        r"^[a-z0-9][a-z0-9.-]*$"@
    } else {
        r"^[a-f0-9]{64}$"@
    }
}

/// The source text of pattern number `k`.
fn pattern_text(k: usize) -> (r: &'static str)
    requires
        k < 9,
    ensures
        r@ == pattern_source(k as int),
{
    if k == 0 {
        r"^keeline-[a-z0-9-]+$"
    } else if k == 1 {
        r"^[a-z0-9]+$"
    } else if k == 2 {
        r"^(?:scratch|[a-z0-9./_-]+:[A-Za-z0-9._-]+(?:@sha256:[a-f0-9]{64})?)$"
    } else if k == 3 {
        r"^[a-z0-9]+/[a-z0-9]+$"
    } else if k == 4 {
        r"^[0-9]+(?:\.[0-9]+)?(?:-[a-z0-9]+)?$"
    } else if k == 5 {
        r"^[a-z][a-z0-9]*(?:-[a-z0-9]+)?$"
    } else if k == 6 {
        r"^(?:jdk|jre|runtime)-[0-9]+(?:(?:\.[0-9]+)*|u[0-9]+)?-[a-z0-9]+(?:-[a-z0-9]+)?$"
    } else if k == 7 {
        r"^[a-z0-9][a-z0-9.-]*$"
    } else {
        r"^[a-f0-9]{64}$"
    }
}

/// Does pattern number `k` match `s`?
pub open spec fn matches(k: int, s: Seq<char>) -> bool {
    regex_is_match(pattern_source(k), s)
}

/// The first pattern that does not compile, if any.
pub open spec fn first_bad_pattern(n: int) -> Option<int>
    decreases n,
{
    if n <= 0 {
        None
    } else {
        match first_bad_pattern(n - 1) {
            Some(k) => Some(k),
            None => if !regex_compiles(pattern_source(n - 1)) {
                Some(n - 1)
            } else {
                None
            },
        }
    }
}

/// The catalog's compiled patterns, in the order of `pattern_source`.
pub struct CatalogPatterns {
    patterns: Vec<Pattern>,
}

impl CatalogPatterns {
    #[verifier::type_invariant]
    spec fn compiled(&self) -> bool {
        &&& self.patterns@.len() == 9
        &&& forall|k: int| 0 <= k < 9 ==> #[trigger] self.patterns@[k]@ == pattern_source(k)
    }

    /// Compiles every pattern, stopping at the first that does not compile.
    pub fn compile() -> (r: Result<CatalogPatterns, ValidationError>)
        ensures
            match first_bad_pattern(9) {
                Some(k) => r matches Err(ValidationError::InvalidPattern(p)) && p@ == pattern_source(k),
                None => r is Ok,
            },
    {
        let mut patterns: Vec<Pattern> = Vec::new();
        let mut k: usize = 0;
        while k < 9
            invariant
                k <= 9,
                patterns@.len() == k,
                forall|j: int| 0 <= j < k ==> #[trigger] patterns@[j]@ == pattern_source(j),
                first_bad_pattern(k as int) is None,
            decreases 9 - k,
        {
            let text = pattern_text(k);
            match Pattern::new(text) {
                Ok(p) => {
                    patterns.push(p);
                },
                Err(_) => {
                    proof {
                        lemma_first_bad_pattern_stays(k as int + 1, 9);
                    }
                    return Err(ValidationError::InvalidPattern(owned(text)));
                },
            }
            k += 1;
        }
        Ok(CatalogPatterns { patterns })
    }

    /// Does pattern number `k` match `s`?
    pub fn is_match(&self, k: usize, s: &str) -> (r: bool)
        requires
            k < 9,
        ensures
            r == matches(k as int, s@),
    {
        proof {
            use_type_invariant(self);
        }
        self.patterns[k].is_match(s)
    }
}

proof fn lemma_first_bad_pattern_stays(n: int, m: int)
    requires
        0 < n <= m,
        first_bad_pattern(n) is Some,
    ensures
        first_bad_pattern(m) == first_bad_pattern(n),
    decreases m - n,
{
    if n < m {
        lemma_first_bad_pattern_stays(n, m - 1);
    }
}

// ---------------------------------------------------------------------------
// The first failing check among an indexed family of checks
// ---------------------------------------------------------------------------

/// The index of the first `i < n` whose check reports an issue.
pub open spec fn first_index(f: spec_fn(int) -> Option<Issue>, n: int) -> Option<int>
    decreases n,
{
    if n <= 0 {
        None
    } else {
        match first_index(f, n - 1) {
            Some(i) => Some(i),
            None => if f(n - 1) is Some {
                Some(n - 1)
            } else {
                None
            },
        }
    }
}

/// The issue of the first `i < n` whose check reports one.
pub open spec fn first_issue(f: spec_fn(int) -> Option<Issue>, n: int) -> Option<Issue> {
    match first_index(f, n) {
        Some(i) => f(i),
        None => None,
    }
}

/// `a` if it reports an issue, else `b`.
pub open spec fn either(a: Option<Issue>, b: Option<Issue>) -> Option<Issue> {
    if a is Some {
        a
    } else {
        b
    }
}

/// An issue as the result of a check.
pub open spec fn as_result(o: Option<Issue>) -> Result<(), Issue> {
    match o {
        Some(e) => Err(e),
        None => Ok(()),
    }
}

proof fn lemma_first_index_step(f: spec_fn(int) -> Option<Issue>, n: int)
    requires
        n >= 0,
        first_index(f, n) is None,
    ensures
        f(n) is Some ==> first_index(f, n + 1) == Some(n) && first_issue(f, n + 1) == f(n),
        f(n) is None ==> first_index(f, n + 1) is None,
{
}

proof fn lemma_first_index_stays(f: spec_fn(int) -> Option<Issue>, n: int, m: int)
    requires
        0 < n <= m,
        first_index(f, n) is Some,
    ensures
        first_index(f, m) == first_index(f, n),
    decreases m - n,
{
    if n < m {
        lemma_first_index_stays(f, n, m - 1);
    }
}

/// Once check `i` is the first to report, it is the first among any longer prefix.
proof fn lemma_first_found(f: spec_fn(int) -> Option<Issue>, i: int, n: int)
    requires
        0 <= i < n,
        first_index(f, i) is None,
        f(i) is Some,
    ensures
        first_index(f, n) == Some(i),
        first_issue(f, n) == f(i),
{
    lemma_first_index_step(f, i);
    lemma_first_index_stays(f, i + 1, n);
}

// ---------------------------------------------------------------------------
// Archives
// ---------------------------------------------------------------------------

/// The check of archive number `i`.
pub open spec fn archive_issue(
    kind: ArchiveKind,
    platforms: Seq<String>,
    archives: Seq<SourceArchive>,
    i: int,
) -> Option<Issue> {
    let a = archives[i];
    if exists|j: int| 0 <= j < i && archives[j].platform@ == a.platform@ {
        Some(Issue::RepeatedArchive(kind, a.platform))
    } else if !views(platforms).contains(a.platform@) {
        Some(Issue::UnsupportedArchivePlatform(kind, a.platform))
    } else if !is_prefix("https://"@, a.url@) {
        Some(Issue::InsecureArchiveUrl(kind, a.url))
    } else if !matches(SHA256 as int, a.sha256@) {
        Some(Issue::InvalidArchiveChecksum(kind, a.platform))
    } else {
        None
    }
}

pub open spec fn archive_checks(
    kind: ArchiveKind,
    platforms: Seq<String>,
    archives: Seq<SourceArchive>,
) -> spec_fn(int) -> Option<Issue> {
    |i: int| archive_issue(kind, platforms, archives, i)
}

/// The check that platform number `i` has an archive.
pub open spec fn platform_coverage_issue(
    kind: ArchiveKind,
    platforms: Seq<String>,
    archives: Seq<SourceArchive>,
    i: int,
) -> Option<Issue> {
    if !exists|j: int| 0 <= j < archives.len() && archives[j].platform@ == platforms[i]@ {
        Some(Issue::MissingArchive(kind, platforms[i]))
    } else {
        None
    }
}

pub open spec fn coverage_checks(
    kind: ArchiveKind,
    platforms: Seq<String>,
    archives: Seq<SourceArchive>,
) -> spec_fn(int) -> Option<Issue> {
    |i: int| platform_coverage_issue(kind, platforms, archives, i)
}

/// Every archive is well formed and every platform has one.
pub open spec fn archives_issue(
    kind: ArchiveKind,
    platforms: Seq<String>,
    archives: Seq<SourceArchive>,
) -> Option<Issue> {
    either(
        first_issue(archive_checks(kind, platforms, archives), archives.len() as int),
        first_issue(coverage_checks(kind, platforms, archives), platforms.len() as int),
    )
}

/// Does `v` hold a string equal to `s`?
fn holds_string(v: &Vec<String>, s: &str) -> (r: bool)
    ensures
        r == views(v@).contains(s@),
{
    let mut i: usize = 0;
    while i < v.len()
        invariant
            i <= v.len(),
            forall|j: int| 0 <= j < i ==> v@[j]@ != s@,
        decreases v.len() - i,
    {
        if str_eq(v[i].as_str(), s) {
            assert(views(v@)[i as int] == s@);
            return true;
        }
        i += 1;
    }
    proof {
        if views(v@).contains(s@) {
            let j = choose|j: int| 0 <= j < views(v@).len() && views(v@)[j] == s@;
            assert(v@[j]@ == s@);
        }
    }
    false
}

/// Does an archive before index `n` have platform `p`?
fn archive_platform_before(archives: &Vec<SourceArchive>, n: usize, p: &str) -> (r: bool)
    requires
        n <= archives.len(),
    ensures
        r == exists|j: int| 0 <= j < n && archives@[j].platform@ == p@,
{
    let mut j: usize = 0;
    while j < n
        invariant
            j <= n <= archives.len(),
            forall|k: int| 0 <= k < j ==> archives@[k].platform@ != p@,
        decreases n - j,
    {
        if str_eq(archives[j].platform.as_str(), p) {
            return true;
        }
        j += 1;
    }
    false
}

/// Checks every archive, then that every platform has one.
pub fn check_archives(
    kind: ArchiveKind,
    platforms: &Vec<String>,
    archives: &Vec<SourceArchive>,
    pats: &CatalogPatterns,
) -> (r: Result<(), Issue>)
    ensures
        r == as_result(archives_issue(kind, platforms@, archives@)),
{
    let ghost f = archive_checks(kind, platforms@, archives@);
    let ghost g = coverage_checks(kind, platforms@, archives@);
    let mut i: usize = 0;
    while i < archives.len()
        invariant
            i <= archives.len(),
            f == archive_checks(kind, platforms@, archives@),
            first_index(f, i as int) is None,
        decreases archives.len() - i,
    {
        let a = &archives[i];
        proof {
            lemma_first_index_step(f, i as int);
            if f(i as int) is Some {
                lemma_first_found(f, i as int, archives.len() as int);
            }
        }
        if archive_platform_before(archives, i, a.platform.as_str()) {
            return Err(Issue::RepeatedArchive(kind, a.platform.clone()));
        }
        if !holds_string(platforms, a.platform.as_str()) {
            return Err(Issue::UnsupportedArchivePlatform(kind, a.platform.clone()));
        }
        if !has_prefix(a.url.as_str(), "https://") {
            return Err(Issue::InsecureArchiveUrl(kind, a.url.clone()));
        }
        if !pats.is_match(SHA256, a.sha256.as_str()) {
            return Err(Issue::InvalidArchiveChecksum(kind, a.platform.clone()));
        }
        i += 1;
    }
    let mut k: usize = 0;
    while k < platforms.len()
        invariant
            k <= platforms.len(),
            f == archive_checks(kind, platforms@, archives@),
            g == coverage_checks(kind, platforms@, archives@),
            first_index(f, archives.len() as int) is None,
            first_index(g, k as int) is None,
        decreases platforms.len() - k,
    {
        proof {
            lemma_first_index_step(g, k as int);
            if g(k as int) is Some {
                lemma_first_found(g, k as int, platforms.len() as int);
            }
        }
        if !archive_platform_before(archives, archives.len(), platforms[k].as_str()) {
            return Err(Issue::MissingArchive(kind, platforms[k].clone()));
        }
        k += 1;
    }
    Ok(())
}

// ---------------------------------------------------------------------------
// Bundled tools
// ---------------------------------------------------------------------------

/// A tool comes either from a digest-pinned image or from archives that cover
/// every platform, never both.
pub open spec fn tool_source_issue(
    kind: ArchiveKind,
    platforms: Seq<String>,
    image: Option<String>,
    packages: Seq<String>,
    archives: Seq<SourceArchive>,
) -> Option<Issue> {
    if image is None && archives.len() == 0 {
        Some(Issue::NoToolSource(kind))
    } else if image is Some && archives.len() > 0 {
        Some(Issue::BothToolSources(kind))
    } else {
        match image {
            Some(im) => if !matches(IMAGE_REFERENCE as int, im@) {
                Some(Issue::InvalidToolImage(kind, im))
            } else if !contains_seq(im@, "@sha256:"@) {
                Some(Issue::UnpinnedToolImage(kind))
            } else {
                None
            },
            None => if packages.len() == 0 {
                Some(Issue::MissingInstallPackages(kind))
            } else {
                archives_issue(kind, platforms, archives)
            },
        }
    }
}

/// Checks where a bundled tool comes from.
pub fn validate_tool_source(
    target: &ImageTarget,
    kind: ArchiveKind,
    image: &Option<String>,
    install_packages: &Vec<String>,
    archives: &Vec<SourceArchive>,
    pats: &CatalogPatterns,
) -> (r: Result<(), Issue>)
    ensures
        r == as_result(
            tool_source_issue(kind, target.platforms@, *image, install_packages@, archives@),
        ),
{
    if image.is_none() && archives.len() == 0 {
        return Err(Issue::NoToolSource(kind));
    }
    if image.is_some() && archives.len() > 0 {
        return Err(Issue::BothToolSources(kind));
    }
    match image {
        Some(im) => {
            if !pats.is_match(IMAGE_REFERENCE, im.as_str()) {
                return Err(Issue::InvalidToolImage(kind, im.clone()));
            }
            if !contains_str(im.as_str(), "@sha256:") {
                return Err(Issue::UnpinnedToolImage(kind));
            }
            Ok(())
        },
        None => {
            if install_packages.len() == 0 {
                return Err(Issue::MissingInstallPackages(kind));
            }
            check_archives(kind, &target.platforms, archives, pats)
        },
    }
}

/// The rules on a target's init process.
pub open spec fn init_issue(t: ImageTarget) -> Option<Issue> {
    match t.init {
        None => Some(Issue::MissingInit),
        Some(init) => if init.provider@ != "tino"@ {
            Some(Issue::InitProvider)
        } else if is_blank(init.release@) {
            Some(Issue::InitRelease)
        } else if !is_prefix("/"@, init.binary_path@) {
            Some(Issue::InitBinaryPath)
        } else if init.entrypoint.len() == 0 {
            Some(Issue::MissingInitEntrypoint)
        } else if init.entrypoint@[0]@ != init.binary_path@ {
            Some(Issue::InitEntrypointMismatch)
        } else {
            tool_source_issue(
                ArchiveKind::Init,
                t.platforms@,
                init.image,
                init.install_packages@,
                init.archives@,
            )
        },
    }
}

/// Checks a target's init process.
pub fn validate_init_runtime(target: &ImageTarget, pats: &CatalogPatterns) -> (r: Result<(), Issue>)
    ensures
        r == as_result(init_issue(*target)),
{
    let init = match &target.init {
        Some(init) => init,
        None => {
            return Err(Issue::MissingInit);
        },
    };
    if !str_eq(init.provider.as_str(), "tino") {
        return Err(Issue::InitProvider);
    }
    if str_is_blank(init.release.as_str()) {
        return Err(Issue::InitRelease);
    }
    if !has_prefix(init.binary_path.as_str(), "/") {
        return Err(Issue::InitBinaryPath);
    }
    if init.entrypoint.len() == 0 {
        return Err(Issue::MissingInitEntrypoint);
    }
    if !str_eq(init.entrypoint[0].as_str(), init.binary_path.as_str()) {
        return Err(Issue::InitEntrypointMismatch);
    }
    validate_tool_source(
        target,
        ArchiveKind::Init,
        &init.image,
        &init.install_packages,
        &init.archives,
        pats,
    )
}

/// The rules on a target's health check binary.
pub open spec fn healthcheck_issue(t: ImageTarget) -> Option<Issue> {
    match t.healthcheck {
        None => Some(Issue::MissingHealthcheck),
        Some(h) => if h.provider@ != "salus"@ {
            Some(Issue::HealthcheckProvider)
        } else if is_blank(h.release@) {
            Some(Issue::HealthcheckRelease)
        } else if !is_prefix("/"@, h.binary_path@) {
            Some(Issue::HealthcheckBinaryPath)
        } else {
            tool_source_issue(
                ArchiveKind::Healthcheck,
                t.platforms@,
                h.image,
                h.install_packages@,
                h.archives@,
            )
        },
    }
}

/// Checks a target's health check binary.
pub fn validate_healthcheck_runtime(target: &ImageTarget, pats: &CatalogPatterns) -> (r: Result<
    (),
    Issue,
>)
    ensures
        r == as_result(healthcheck_issue(*target)),
{
    let h = match &target.healthcheck {
        Some(h) => h,
        None => {
            return Err(Issue::MissingHealthcheck);
        },
    };
    if !str_eq(h.provider.as_str(), "salus") {
        return Err(Issue::HealthcheckProvider);
    }
    if str_is_blank(h.release.as_str()) {
        return Err(Issue::HealthcheckRelease);
    }
    if !has_prefix(h.binary_path.as_str(), "/") {
        return Err(Issue::HealthcheckBinaryPath);
    }
    validate_tool_source(
        target,
        ArchiveKind::Healthcheck,
        &h.image,
        &h.install_packages,
        &h.archives,
        pats,
    )
}

// ---------------------------------------------------------------------------
// Families
// ---------------------------------------------------------------------------

/// Debian images carry neither an upstream source nor Java settings.
pub open spec fn debian_issue(t: ImageTarget) -> Option<Issue> {
    if t.source is Some {
        Some(Issue::DebianSource)
    } else if t.java is Some {
        Some(Issue::DebianJava)
    } else {
        None
    }
}

/// Checks a Debian target.
pub fn validate_debian_target(target: &ImageTarget) -> (r: Result<(), Issue>)
    ensures
        r == as_result(debian_issue(*target)),
{
    if target.source.is_some() {
        return Err(Issue::DebianSource);
    }
    if target.java.is_some() {
        return Err(Issue::DebianJava);
    }
    Ok(())
}

/// Scratch images are built `FROM scratch` with a builder image, and carry
/// neither an upstream source nor Java settings.
pub open spec fn scratch_issue(t: ImageTarget) -> Option<Issue> {
    if t.source is Some {
        Some(Issue::ScratchSource)
    } else if t.java is Some {
        Some(Issue::ScratchJava)
    } else if t.base_image@ != "scratch"@ {
        Some(Issue::ScratchBaseImage)
    } else if t.builder_image is None {
        Some(Issue::ScratchBuilderImage)
    } else {
        None
    }
}

/// Checks a scratch target.
pub fn validate_scratch_target(target: &ImageTarget) -> (r: Result<(), Issue>)
    ensures
        r == as_result(scratch_issue(*target)),
{
    if target.source.is_some() {
        return Err(Issue::ScratchSource);
    }
    if target.java.is_some() {
        return Err(Issue::ScratchJava);
    }
    if !str_eq(target.base_image.as_str(), "scratch") {
        return Err(Issue::ScratchBaseImage);
    }
    if target.builder_image.is_none() {
        return Err(Issue::ScratchBuilderImage);
    }
    Ok(())
}

/// Java images declare a Temurin source with archives for every platform and
/// complete runtime settings.
pub open spec fn java_issue(t: ImageTarget) -> Option<Issue> {
    match t.source {
        None => Some(Issue::JavaMissingSource),
        Some(source) => match t.java {
            None => Some(Issue::JavaMissingRuntime),
            Some(java) => if source.provider@ != "adoptium-temurin"@ {
                Some(Issue::JavaProvider)
            } else if is_blank(source.release@) {
                Some(Issue::JavaSourceRelease)
            } else if is_blank(source.gpg_key@) {
                Some(Issue::JavaGpgKey)
            } else if source.archives.len() == 0 {
                Some(Issue::JavaNoArchives)
            } else if is_blank(java.java_home@) {
                Some(Issue::JavaHome)
            } else if java.builder_packages.len() == 0 {
                Some(Issue::JavaBuilderPackages)
            } else if java.runtime_packages.len() == 0 {
                Some(Issue::JavaRuntimePackages)
            } else if is_blank(java.lang@) {
                Some(Issue::JavaLang)
            } else if is_blank(java.language@) {
                Some(Issue::JavaLanguage)
            } else if is_blank(java.lc_all@) {
                Some(Issue::JavaLcAll)
            } else if java.verify_commands.len() == 0 {
                Some(Issue::JavaVerifyCommands)
            } else if java.generate_locales && !views(java.runtime_packages@).contains(
                "locales"@,
            ) {
                Some(Issue::JavaLocalesPackage)
            } else {
                archives_issue(ArchiveKind::Source, t.platforms@, source.archives@)
            },
        },
    }
}

/// Checks a Java target.
pub fn validate_java_target(target: &ImageTarget, pats: &CatalogPatterns) -> (r: Result<
    (),
    Issue,
>)
    ensures
        r == as_result(java_issue(*target)),
{
    let source = match &target.source {
        Some(s) => s,
        None => {
            return Err(Issue::JavaMissingSource);
        },
    };
    let java = match &target.java {
        Some(j) => j,
        None => {
            return Err(Issue::JavaMissingRuntime);
        },
    };
    if !str_eq(source.provider.as_str(), "adoptium-temurin") {
        return Err(Issue::JavaProvider);
    }
    if str_is_blank(source.release.as_str()) {
        return Err(Issue::JavaSourceRelease);
    }
    if str_is_blank(source.gpg_key.as_str()) {
        return Err(Issue::JavaGpgKey);
    }
    if source.archives.len() == 0 {
        return Err(Issue::JavaNoArchives);
    }
    if str_is_blank(java.java_home.as_str()) {
        return Err(Issue::JavaHome);
    }
    if java.builder_packages.len() == 0 {
        return Err(Issue::JavaBuilderPackages);
    }
    if java.runtime_packages.len() == 0 {
        return Err(Issue::JavaRuntimePackages);
    }
    if str_is_blank(java.lang.as_str()) {
        return Err(Issue::JavaLang);
    }
    if str_is_blank(java.language.as_str()) {
        return Err(Issue::JavaLanguage);
    }
    if str_is_blank(java.lc_all.as_str()) {
        return Err(Issue::JavaLcAll);
    }
    if java.verify_commands.len() == 0 {
        return Err(Issue::JavaVerifyCommands);
    }
    if java.generate_locales && !holds_string(&java.runtime_packages, "locales") {
        return Err(Issue::JavaLocalesPackage);
    }
    check_archives(ArchiveKind::Source, &target.platforms, &source.archives, pats)
}

/// The rules that depend on a target's family.
pub open spec fn family_issue(t: ImageTarget) -> Option<Issue> {
    if t.family@ == "debian"@ {
        debian_issue(t)
    } else if t.family@ == "java"@ {
        java_issue(t)
    } else if t.family@ == "scratch"@ {
        scratch_issue(t)
    } else if t.source is Some {
        Some(Issue::SourceNotAllowed)
    } else {
        None
    }
}

/// Checks the rules of a target's family.
fn validate_family(target: &ImageTarget, pats: &CatalogPatterns) -> (r: Result<(), Issue>)
    ensures
        r == as_result(family_issue(*target)),
{
    if str_eq(target.family.as_str(), "debian") {
        validate_debian_target(target)
    } else if str_eq(target.family.as_str(), "java") {
        validate_java_target(target, pats)
    } else if str_eq(target.family.as_str(), "scratch") {
        validate_scratch_target(target)
    } else if target.source.is_some() {
        Err(Issue::SourceNotAllowed)
    } else {
        Ok(())
    }
}

// ---------------------------------------------------------------------------
// Tags
// ---------------------------------------------------------------------------

/// Tags that would move under users' feet and are never published.
pub open spec fn is_banned(tag: Seq<char>) -> bool {
    ||| tag == "latest"@
    ||| tag == "stable"@
    ||| tag == "v21"@
    ||| tag == "jdk-21"@
    ||| tag == "bookworm-21"@
    ||| tag == "trixie-21"@
}

/// Is `tag` one of the banned tags?
fn banned(tag: &str) -> (r: bool)
    ensures
        r == is_banned(tag@),
{
    str_eq(tag, "latest") || str_eq(tag, "stable") || str_eq(tag, "v21") || str_eq(tag, "jdk-21")
        || str_eq(tag, "bookworm-21") || str_eq(tag, "trixie-21")
}

/// The shape a canonical tag must have in `family`.
pub open spec fn canonical_tag_ok(family: Seq<char>, tag: Seq<char>) -> bool {
    if family == "debian"@ {
        matches(DEBIAN_CANONICAL as int, tag)
    } else if family == "java"@ {
        matches(JAVA_CANONICAL as int, tag)
    } else {
        matches(GENERIC_TAG as int, tag)
    }
}

/// The shape an alias tag must have in `family`.
pub open spec fn alias_tag_ok(family: Seq<char>, tag: Seq<char>) -> bool {
    if family == "debian"@ {
        matches(DEBIAN_ALIAS as int, tag)
    } else if family == "java"@ {
        matches(JAVA_CANONICAL as int, tag) || matches(GENERIC_TAG as int, tag)
    } else {
        matches(GENERIC_TAG as int, tag)
    }
}

/// Does a target before number `i` publish `tag` in `package`?
pub open spec fn published_before(
    targets: Seq<ImageTarget>,
    i: int,
    package: Seq<char>,
    tag: Seq<char>,
) -> bool {
    exists|j: int|
        0 <= j < i && #[trigger] targets[j].package@ == package && targets[j]@.all_tags().contains(
            tag,
        )
}

/// The check of canonical tag number `k` of target number `i`.
pub open spec fn canonical_tag_issue(targets: Seq<ImageTarget>, i: int, k: int) -> Option<Issue> {
    let t = targets[i];
    let tag = t.canonical_tags@[k];
    if exists|j: int| 0 <= j < k && t.canonical_tags@[j]@ == tag@ {
        Some(Issue::RepeatedTag(tag))
    } else if is_banned(tag@) {
        Some(Issue::BannedTag(tag))
    } else if !canonical_tag_ok(t.family@, tag@) {
        Some(Issue::InvalidCanonicalTag(tag))
    } else if published_before(targets, i, t.package@, tag@) {
        Some(Issue::DuplicatePublishedTag(tag))
    } else {
        None
    }
}

pub open spec fn canonical_checks(targets: Seq<ImageTarget>, i: int) -> spec_fn(int) -> Option<
    Issue,
> {
    |k: int| canonical_tag_issue(targets, i, k)
}

/// The check of alias tag number `k` of target number `i`.
pub open spec fn alias_tag_issue(targets: Seq<ImageTarget>, i: int, k: int) -> Option<Issue> {
    let t = targets[i];
    let tag = t.alias_tags@[k];
    if views(t.canonical_tags@).contains(tag@) || exists|j: int|
        0 <= j < k && t.alias_tags@[j]@ == tag@ {
        Some(Issue::RepeatedTag(tag))
    } else if is_banned(tag@) {
        Some(Issue::BannedTag(tag))
    } else if !alias_tag_ok(t.family@, tag@) {
        Some(Issue::InvalidAliasTag(tag))
    } else if published_before(targets, i, t.package@, tag@) {
        Some(Issue::DuplicatePublishedTag(tag))
    } else {
        None
    }
}

pub open spec fn alias_checks(targets: Seq<ImageTarget>, i: int) -> spec_fn(int) -> Option<
    Issue,
> {
    |k: int| alias_tag_issue(targets, i, k)
}

/// A non-default variant's id may not end in `-default`.
pub open spec fn default_suffix_issue(t: ImageTarget) -> Option<Issue> {
    if t.variant@ != "default"@ && is_suffix("-default"@, t.id@) {
        Some(Issue::DefaultSuffix)
    } else {
        None
    }
}

/// The tag rules of target number `i`, given the targets before it.
pub open spec fn tags_issue(targets: Seq<ImageTarget>, i: int) -> Option<Issue> {
    let t = targets[i];
    either(
        first_issue(canonical_checks(targets, i), t.canonical_tags.len() as int),
        either(
            first_issue(alias_checks(targets, i), t.alias_tags.len() as int),
            default_suffix_issue(t),
        ),
    )
}

/// Does `v[..n]` hold a string equal to `s`?
fn holds_string_before(v: &Vec<String>, n: usize, s: &str) -> (r: bool)
    requires
        n <= v.len(),
    ensures
        r == exists|j: int| 0 <= j < n && v@[j]@ == s@,
{
    let mut i: usize = 0;
    while i < n
        invariant
            i <= n <= v.len(),
            forall|j: int| 0 <= j < i ==> v@[j]@ != s@,
        decreases n - i,
    {
        if str_eq(v[i].as_str(), s) {
            return true;
        }
        i += 1;
    }
    false
}

/// Does `target` publish `tag` in `package`?
fn publishes(target: &ImageTarget, package: &str, tag: &str) -> (r: bool)
    ensures
        r == (target.package@ == package@ && target@.all_tags().contains(tag@)),
{
    if !str_eq(target.package.as_str(), package) {
        return false;
    }
    let a = holds_string(&target.canonical_tags, tag);
    let b = holds_string(&target.alias_tags, tag);
    proof {
        let all = target@.all_tags();
        let c = views(target.canonical_tags@);
        let d = views(target.alias_tags@);
        assert(all == c + d);
        if a {
            let j = choose|j: int| 0 <= j < c.len() && c[j] == tag@;
            assert(all[j] == tag@);
        }
        if b {
            let j = choose|j: int| 0 <= j < d.len() && d[j] == tag@;
            assert(all[c.len() + j] == tag@);
        }
        if all.contains(tag@) {
            let j = choose|j: int| 0 <= j < all.len() && all[j] == tag@;
            if j < c.len() {
                assert(c[j] == tag@);
            } else {
                assert(d[j - c.len()] == tag@);
            }
        }
    }
    a || b
}

/// Does a target before number `i` publish `tag` in `package`?
fn published_before_exec(targets: &Vec<ImageTarget>, i: usize, package: &str, tag: &str) -> (r:
    bool)
    requires
        i <= targets.len(),
    ensures
        r == published_before(targets@, i as int, package@, tag@),
{
    let mut j: usize = 0;
    while j < i
        invariant
            j <= i <= targets.len(),
            forall|k: int|
                0 <= k < j ==> !(#[trigger] targets@[k].package@ == package@ && targets@[k]@.all_tags().contains(
                    tag@,
                )),
        decreases i - j,
    {
        if publishes(&targets[j], package, tag) {
            return true;
        }
        j += 1;
    }
    false
}

/// Does `tag` have the canonical shape of `family`?
fn canonical_tag_ok_exec(family: &str, tag: &str, pats: &CatalogPatterns) -> (r: bool)
    ensures
        r == canonical_tag_ok(family@, tag@),
{
    if str_eq(family, "debian") {
        pats.is_match(DEBIAN_CANONICAL, tag)
    } else if str_eq(family, "java") {
        pats.is_match(JAVA_CANONICAL, tag)
    } else {
        pats.is_match(GENERIC_TAG, tag)
    }
}

/// Does `tag` have the alias shape of `family`?
fn alias_tag_ok_exec(family: &str, tag: &str, pats: &CatalogPatterns) -> (r: bool)
    ensures
        r == alias_tag_ok(family@, tag@),
{
    if str_eq(family, "debian") {
        pats.is_match(DEBIAN_ALIAS, tag)
    } else if str_eq(family, "java") {
        pats.is_match(JAVA_CANONICAL, tag) || pats.is_match(GENERIC_TAG, tag)
    } else {
        pats.is_match(GENERIC_TAG, tag)
    }
}

/// Checks the tags of target number `i` against the rules and against the
/// tags published by the targets before it.
pub fn validate_tags(targets: &Vec<ImageTarget>, i: usize, pats: &CatalogPatterns) -> (r: Result<
    (),
    Issue,
>)
    requires
        i < targets.len(),
    ensures
        r == as_result(tags_issue(targets@, i as int)),
{
    let t = &targets[i];
    let ghost f = canonical_checks(targets@, i as int);
    let ghost g = alias_checks(targets@, i as int);
    let mut k: usize = 0;
    while k < t.canonical_tags.len()
        invariant
            i < targets.len(),
            t == targets@[i as int],
            k <= t.canonical_tags.len(),
            f == canonical_checks(targets@, i as int),
            first_index(f, k as int) is None,
        decreases t.canonical_tags.len() - k,
    {
        let tag = &t.canonical_tags[k];
        proof {
            lemma_first_index_step(f, k as int);
            if f(k as int) is Some {
                lemma_first_found(f, k as int, t.canonical_tags.len() as int);
            }
        }
        if holds_string_before(&t.canonical_tags, k, tag.as_str()) {
            return Err(Issue::RepeatedTag(tag.clone()));
        }
        if banned(tag.as_str()) {
            return Err(Issue::BannedTag(tag.clone()));
        }
        if !canonical_tag_ok_exec(t.family.as_str(), tag.as_str(), pats) {
            return Err(Issue::InvalidCanonicalTag(tag.clone()));
        }
        if published_before_exec(targets, i, t.package.as_str(), tag.as_str()) {
            return Err(Issue::DuplicatePublishedTag(tag.clone()));
        }
        k += 1;
    }
    let mut k: usize = 0;
    while k < t.alias_tags.len()
        invariant
            i < targets.len(),
            t == targets@[i as int],
            k <= t.alias_tags.len(),
            f == canonical_checks(targets@, i as int),
            g == alias_checks(targets@, i as int),
            first_index(f, t.canonical_tags.len() as int) is None,
            first_index(g, k as int) is None,
        decreases t.alias_tags.len() - k,
    {
        let tag = &t.alias_tags[k];
        proof {
            lemma_first_index_step(g, k as int);
            if g(k as int) is Some {
                lemma_first_found(g, k as int, t.alias_tags.len() as int);
            }
        }
        if holds_string(&t.canonical_tags, tag.as_str()) || holds_string_before(
            &t.alias_tags,
            k,
            tag.as_str(),
        ) {
            return Err(Issue::RepeatedTag(tag.clone()));
        }
        if banned(tag.as_str()) {
            return Err(Issue::BannedTag(tag.clone()));
        }
        if !alias_tag_ok_exec(t.family.as_str(), tag.as_str(), pats) {
            return Err(Issue::InvalidAliasTag(tag.clone()));
        }
        if published_before_exec(targets, i, t.package.as_str(), tag.as_str()) {
            return Err(Issue::DuplicatePublishedTag(tag.clone()));
        }
        k += 1;
    }
    if !str_eq(t.variant.as_str(), "default") && has_suffix(t.id.as_str(), "-default") {
        return Err(Issue::DefaultSuffix);
    }
    Ok(())
}

// ---------------------------------------------------------------------------
// Targets and the catalog
// ---------------------------------------------------------------------------

/// The check of platform number `k` of `t`.
pub open spec fn platform_issue(t: ImageTarget, k: int) -> Option<Issue> {
    if !matches(PLATFORM as int, t.platforms@[k]@) {
        Some(Issue::InvalidPlatform(t.platforms@[k]))
    } else {
        None
    }
}

pub open spec fn platform_checks(t: ImageTarget) -> spec_fn(int) -> Option<Issue> {
    |k: int| platform_issue(t, k)
}

/// The rules on target number `i`, given that the targets before it passed.
pub open spec fn target_issue(targets: Seq<ImageTarget>, i: int) -> Option<Issue> {
    let t = targets[i];
    if t.schema != 1 {
        Some(Issue::UnsupportedSchema(t.schema))
    } else if exists|j: int| 0 <= j < i && #[trigger] targets[j].id@ == t.id@ {
        Some(Issue::DuplicateId)
    } else if !matches(PACKAGE as int, t.package@) {
        Some(Issue::InvalidPackage)
    } else if !matches(FAMILY as int, t.family@) {
        Some(Issue::InvalidFamily)
    } else if t.package@ != "keeline-"@ + t.family@ {
        Some(Issue::PackageFamilyMismatch)
    } else if t.canonical_tags.len() == 0 {
        Some(Issue::NoCanonicalTag)
    } else if t.platforms.len() == 0 {
        Some(Issue::NoPlatform)
    } else if !matches(IMAGE_REFERENCE as int, t.base_image@) {
        Some(Issue::InvalidBaseImage)
    } else if t.builder_image matches Some(b) && !matches(IMAGE_REFERENCE as int, b@) {
        Some(Issue::InvalidBuilderImage(t.builder_image->0))
    } else if is_blank(t.title@) {
        Some(Issue::MissingTitle)
    } else if is_blank(t.description@) {
        Some(Issue::MissingDescription)
    } else if t.command.len() == 0 {
        Some(Issue::MissingCommand)
    } else {
        either(
            first_issue(platform_checks(t), t.platforms.len() as int),
            either(
                init_issue(t),
                either(healthcheck_issue(t), either(family_issue(t), tags_issue(targets, i))),
            ),
        )
    }
}

pub open spec fn target_checks(targets: Seq<ImageTarget>) -> spec_fn(int) -> Option<Issue> {
    |i: int| target_issue(targets, i)
}

/// Does a target before number `i` have id `id`?
fn id_before(targets: &Vec<ImageTarget>, i: usize, id: &str) -> (r: bool)
    requires
        i <= targets.len(),
    ensures
        r == exists|j: int| 0 <= j < i && #[trigger] targets@[j].id@ == id@,
{
    let mut j: usize = 0;
    while j < i
        invariant
            j <= i <= targets.len(),
            forall|k: int| 0 <= k < j ==> #[trigger] targets@[k].id@ != id@,
        decreases i - j,
    {
        if str_eq(targets[j].id.as_str(), id) {
            return true;
        }
        j += 1;
    }
    false
}

/// Checks every platform name of a target.
fn validate_platforms(target: &ImageTarget, pats: &CatalogPatterns) -> (r: Result<(), Issue>)
    ensures
        r == as_result(first_issue(platform_checks(*target), target.platforms.len() as int)),
{
    let ghost f = platform_checks(*target);
    let mut k: usize = 0;
    while k < target.platforms.len()
        invariant
            k <= target.platforms.len(),
            f == platform_checks(*target),
            first_index(f, k as int) is None,
        decreases target.platforms.len() - k,
    {
        proof {
            lemma_first_index_step(f, k as int);
            if f(k as int) is Some {
                lemma_first_found(f, k as int, target.platforms.len() as int);
            }
        }
        if !pats.is_match(PLATFORM, target.platforms[k].as_str()) {
            return Err(Issue::InvalidPlatform(target.platforms[k].clone()));
        }
        k += 1;
    }
    Ok(())
}

/// Checks target number `i`, given the targets before it.
pub fn validate_target(targets: &Vec<ImageTarget>, i: usize, pats: &CatalogPatterns) -> (r:
    Result<(), Issue>)
    requires
        i < targets.len(),
    ensures
        r == as_result(target_issue(targets@, i as int)),
{
    let t = &targets[i];
    if t.schema != 1 {
        return Err(Issue::UnsupportedSchema(t.schema));
    }
    if id_before(targets, i, t.id.as_str()) {
        return Err(Issue::DuplicateId);
    }
    if !pats.is_match(PACKAGE, t.package.as_str()) {
        return Err(Issue::InvalidPackage);
    }
    if !pats.is_match(FAMILY, t.family.as_str()) {
        return Err(Issue::InvalidFamily);
    }
    let mut expected = owned("keeline-");
    push_str(&mut expected, t.family.as_str());
    if !str_eq(t.package.as_str(), expected.as_str()) {
        return Err(Issue::PackageFamilyMismatch);
    }
    if t.canonical_tags.len() == 0 {
        return Err(Issue::NoCanonicalTag);
    }
    if t.platforms.len() == 0 {
        return Err(Issue::NoPlatform);
    }
    if !pats.is_match(IMAGE_REFERENCE, t.base_image.as_str()) {
        return Err(Issue::InvalidBaseImage);
    }
    if let Some(b) = &t.builder_image {
        if !pats.is_match(IMAGE_REFERENCE, b.as_str()) {
            return Err(Issue::InvalidBuilderImage(b.clone()));
        }
    }
    if str_is_blank(t.title.as_str()) {
        return Err(Issue::MissingTitle);
    }
    if str_is_blank(t.description.as_str()) {
        return Err(Issue::MissingDescription);
    }
    if t.command.len() == 0 {
        return Err(Issue::MissingCommand);
    }
    validate_platforms(t, pats)?;
    validate_init_runtime(t, pats)?;
    validate_healthcheck_runtime(t, pats)?;
    validate_family(t, pats)?;
    validate_tags(targets, i, pats)
}

/// What validating the catalog gives, once the patterns compiled.
pub open spec fn targets_result(targets: Seq<ImageTarget>) -> Result<(), ValidationError> {
    match first_index(target_checks(targets), targets.len() as int) {
        Some(i) => Err(
            ValidationError::Target {
                id: targets[i].id,
                package: targets[i].package,
                definition_file: targets[i].definition_file,
                issue: target_issue(targets, i)->0,
            },
        ),
        None => Ok(()),
    }
}

impl ImageCatalog {
    /// Checks every rule of the catalog and reports the first one broken.
    /// `root_exists` tells whether the images directory exists.
    pub fn validate(&self, root_exists: bool) -> (r: Result<(), ValidationError>)
        ensures
            !root_exists ==> r matches Err(ValidationError::MissingRoot),
            root_exists && self.targets.len() == 0 ==> r matches Err(ValidationError::NoTargets),
            root_exists && self.targets.len() > 0 ==> match first_bad_pattern(9) {
                Some(k) => r matches Err(ValidationError::InvalidPattern(p)) && p@
                    == pattern_source(k),
                None => r == targets_result(self.targets@),
            },
    {
        if !root_exists {
            return Err(ValidationError::MissingRoot);
        }
        if self.targets.len() == 0 {
            return Err(ValidationError::NoTargets);
        }
        let pats = CatalogPatterns::compile()?;
        let ghost f = target_checks(self.targets@);
        let mut i: usize = 0;
        while i < self.targets.len()
            invariant
                i <= self.targets.len(),
                f == target_checks(self.targets@),
                first_index(f, i as int) is None,
                first_bad_pattern(9) is None,
                root_exists,
            decreases self.targets.len() - i,
        {
            proof {
                lemma_first_index_step(f, i as int);
                if f(i as int) is Some {
                    lemma_first_found(f, i as int, self.targets.len() as int);
                }
            }
            match validate_target(&self.targets, i, &pats) {
                Ok(()) => {},
                Err(issue) => {
                    let t = &self.targets[i];
                    return Err(
                        ValidationError::Target {
                            id: t.id.clone(),
                            package: t.package.clone(),
                            definition_file: t.definition_file.clone(),
                            issue,
                        },
                    );
                },
            }
            i += 1;
        }
        Ok(())
    }
}

// ---------------------------------------------------------------------------
// What a valid catalog guarantees
// ---------------------------------------------------------------------------

/// Every check before `n` passes when none of them is the first to fail.
proof fn lemma_all_pass(f: spec_fn(int) -> Option<Issue>, n: int, i: int)
    requires
        first_index(f, n) is None,
        0 <= i < n,
    ensures
        f(i) is None,
    decreases n,
{
    if i < n - 1 {
        lemma_all_pass(f, n - 1, i);
    }
}

/// `first_issue` finds nothing exactly when `first_index` finds nothing.
proof fn lemma_first_issue_none(f: spec_fn(int) -> Option<Issue>, n: int)
    ensures
        first_issue(f, n) is None <==> first_index(f, n) is None,
    decreases n,
{
    if n > 0 {
        lemma_first_issue_none(f, n - 1);
    }
}

/// A catalog whose targets pass every rule.
pub open spec fn catalog_valid(targets: Seq<ImageTarget>) -> bool {
    targets.len() > 0 && targets_result(targets) is Ok
}

/// Each target of a valid catalog passes its own rules.
proof fn lemma_target_passes(targets: Seq<ImageTarget>, i: int)
    requires
        catalog_valid(targets),
        0 <= i < targets.len(),
    ensures
        target_issue(targets, i) is None,
{
    lemma_all_pass(target_checks(targets), targets.len() as int, i);
}

/// Each tag of a target of a valid catalog passes the tag rules.
proof fn lemma_tags_pass(targets: Seq<ImageTarget>, i: int, k: int)
    requires
        catalog_valid(targets),
        0 <= i < targets.len(),
    ensures
        0 <= k < targets[i].canonical_tags.len() ==> canonical_tag_issue(targets, i, k) is None,
        0 <= k < targets[i].alias_tags.len() ==> alias_tag_issue(targets, i, k) is None,
        default_suffix_issue(targets[i]) is None,
{
    lemma_target_passes(targets, i);
    let t = targets[i];
    lemma_first_issue_none(platform_checks(t), t.platforms.len() as int);
    lemma_first_issue_none(canonical_checks(targets, i), t.canonical_tags.len() as int);
    lemma_first_issue_none(alias_checks(targets, i), t.alias_tags.len() as int);
    if 0 <= k < t.canonical_tags.len() {
        lemma_all_pass(canonical_checks(targets, i), t.canonical_tags.len() as int, k);
    }
    if 0 <= k < t.alias_tags.len() {
        lemma_all_pass(alias_checks(targets, i), t.alias_tags.len() as int, k);
    }
}

/// In a valid catalog no two targets share an id.
pub proof fn lemma_valid_catalog_ids_unique(targets: Seq<ImageTarget>, i: int, j: int)
    requires
        catalog_valid(targets),
        0 <= i < j < targets.len(),
    ensures
        targets[i].id@ != targets[j].id@,
{
    lemma_target_passes(targets, j);
    assert(targets[i].id@ == targets[j].id@ ==> exists|k: int|
        0 <= k < j && #[trigger] targets[k].id@ == targets[j].id@);
}

/// In a valid catalog a package never publishes the same tag twice: not from
/// two targets, and not twice from one target.
pub proof fn lemma_valid_catalog_tags_unique(
    targets: Seq<ImageTarget>,
    i: int,
    j: int,
    a: int,
    b: int,
)
    requires
        catalog_valid(targets),
        0 <= i <= j < targets.len(),
        targets[i].package@ == targets[j].package@,
        0 <= a < targets[i]@.all_tags().len(),
        0 <= b < targets[j]@.all_tags().len(),
        i == j ==> a < b,
    ensures
        targets[i]@.all_tags()[a] != targets[j]@.all_tags()[b],
{
    let ti = targets[i];
    let tj = targets[j];
    let tag = tj@.all_tags()[b];
    let nc = tj.canonical_tags.len() as int;
    if b < nc {
        lemma_tags_pass(targets, j, b);
        assert(tag == tj.canonical_tags@[b]@);
    } else {
        lemma_tags_pass(targets, j, b - nc);
        assert(tag == tj.alias_tags@[b - nc]@);
    }
    if i < j {
        if ti@.all_tags()[a] == tag {
            assert(ti@.all_tags().contains(tag));
            assert(published_before(targets, j, tj.package@, tag));
        }
    } else {
        if ti@.all_tags()[a] == tag {
            if b < nc {
                assert(tj.canonical_tags@[a]@ == tag);
            } else if a < nc {
                assert(views(tj.canonical_tags@)[a] == tag);
            } else {
                assert(tj.alias_tags@[a - nc]@ == tag);
            }
        }
    }
}

/// A valid catalog publishes no banned tag.
pub proof fn lemma_valid_catalog_no_banned_tags(targets: Seq<ImageTarget>, i: int, a: int)
    requires
        catalog_valid(targets),
        0 <= i < targets.len(),
        0 <= a < targets[i]@.all_tags().len(),
    ensures
        !is_banned(targets[i]@.all_tags()[a]),
{
    let t = targets[i];
    let nc = t.canonical_tags.len() as int;
    if a < nc {
        lemma_tags_pass(targets, i, a);
    } else {
        lemma_tags_pass(targets, i, a - nc);
    }
}

/// A valid catalog publishes none of the floating tags `latest`, `stable`,
/// `v21`, `jdk-21`, `bookworm-21` and `trixie-21`, neither as a canonical tag
/// nor as an alias.
pub proof fn lemma_valid_catalog_no_floating_tags(targets: Seq<ImageTarget>, i: int, tag: Seq<char>)
    requires
        catalog_valid(targets),
        0 <= i < targets.len(),
        views(targets[i].canonical_tags@).contains(tag) || views(targets[i].alias_tags@).contains(
            tag,
        ),
    ensures
        tag != "latest"@,
        tag != "stable"@,
        tag != "v21"@,
        tag != "jdk-21"@,
        tag != "bookworm-21"@,
        tag != "trixie-21"@,
{
    let t = targets[i];
    let c = views(t.canonical_tags@);
    let d = views(t.alias_tags@);
    let a = if c.contains(tag) {
        choose|a: int| 0 <= a < c.len() && c[a] == tag
    } else {
        let b = choose|b: int| 0 <= b < d.len() && d[b] == tag;
        c.len() + b
    };
    assert(t@.all_tags() == c + d);
    assert(t@.all_tags()[a] == tag);
    lemma_valid_catalog_no_banned_tags(targets, i, a);
}

/// In a valid catalog two targets of one package never publish a common tag,
/// whether it is a canonical tag or an alias of either of them.
pub proof fn lemma_valid_catalog_targets_share_no_tag(
    targets: Seq<ImageTarget>,
    i: int,
    j: int,
    tag: Seq<char>,
)
    requires
        catalog_valid(targets),
        0 <= i < j < targets.len(),
        targets[i].package@ == targets[j].package@,
        views(targets[i].canonical_tags@).contains(tag) || views(targets[i].alias_tags@).contains(
            tag,
        ),
    ensures
        !views(targets[j].canonical_tags@).contains(tag),
        !views(targets[j].alias_tags@).contains(tag),
{
    let ti = targets[i];
    let tj = targets[j];
    let ci = views(ti.canonical_tags@);
    let di = views(ti.alias_tags@);
    let cj = views(tj.canonical_tags@);
    let dj = views(tj.alias_tags@);
    assert(ti@.all_tags() == ci + di);
    assert(tj@.all_tags() == cj + dj);
    let a = if ci.contains(tag) {
        choose|a: int| 0 <= a < ci.len() && ci[a] == tag
    } else {
        let b = choose|b: int| 0 <= b < di.len() && di[b] == tag;
        ci.len() + b
    };
    assert(ti@.all_tags()[a] == tag);
    if cj.contains(tag) {
        let b = choose|b: int| 0 <= b < cj.len() && cj[b] == tag;
        assert(tj@.all_tags()[b] == tag);
        lemma_valid_catalog_tags_unique(targets, i, j, a, b);
    }
    if dj.contains(tag) {
        let b = choose|b: int| 0 <= b < dj.len() && dj[b] == tag;
        assert(tj@.all_tags()[cj.len() + b] == tag);
        lemma_valid_catalog_tags_unique(targets, i, j, a, cj.len() + b);
    }
}

/// In a valid catalog every target bundles the `tino` init process and the
/// `salus` health check, and any image they come from is pinned by digest.
pub proof fn lemma_valid_catalog_tools_pinned(targets: Seq<ImageTarget>, i: int)
    requires
        catalog_valid(targets),
        0 <= i < targets.len(),
    ensures
        targets[i].init matches Some(init) && init.provider@ == "tino"@ && (
        init.image matches Some(im) ==> contains_seq(im@, "@sha256:"@)),
        targets[i].healthcheck matches Some(h) && h.provider@ == "salus"@ && (
        h.image matches Some(im) ==> contains_seq(im@, "@sha256:"@)),
{
    lemma_target_passes(targets, i);
    lemma_first_issue_none(platform_checks(targets[i]), targets[i].platforms.len() as int);
}

/// No check of the first `n` reports an issue.
proof fn lemma_none_found(f: spec_fn(int) -> Option<Issue>, n: int)
    requires
        forall|i: int| 0 <= i < n ==> (#[trigger] f(i)) is None,
    ensures
        first_index(f, n) is None,
    decreases n,
{
    if n > 0 {
        lemma_none_found(f, n - 1);
    }
}

/// A target that passes its rules among the targets before it still passes
/// them among any selection of those targets, in order.
proof fn lemma_target_passes_in_subsequence(
    targets: Seq<ImageTarget>,
    s: Seq<ImageTarget>,
    idx: Seq<int>,
    k: int,
)
    requires
        idx.len() == s.len(),
        forall|m: int| 0 <= m < s.len() ==> 0 <= #[trigger] idx[m] < targets.len() && s[m] == targets[idx[m]],
        forall|m: int, l: int| 0 <= m < l < s.len() ==> #[trigger] idx[m] < #[trigger] idx[l],
        0 <= k < s.len(),
        target_issue(targets, idx[k]) is None,
    ensures
        target_issue(s, k) is None,
{
    let i = idx[k];
    let t = targets[i];
    assert(s[k] == t);
    assert(!exists|j: int| 0 <= j < k && #[trigger] s[j].id@ == t.id@) by {
        if exists|j: int| 0 <= j < k && #[trigger] s[j].id@ == t.id@ {
            let j = choose|j: int| 0 <= j < k && #[trigger] s[j].id@ == t.id@;
            assert(targets[idx[j]].id@ == t.id@);
            assert(idx[j] < i);
        }
    }
    assert forall|tag: Seq<char>| published_before(s, k, t.package@, tag) implies published_before(
        targets,
        i,
        t.package@,
        tag,
    ) by {
        let j = choose|j: int|
            0 <= j < k && #[trigger] s[j].package@ == t.package@ && s[j]@.all_tags().contains(tag);
        assert(idx[j] < i);
        assert(targets[idx[j]].package@ == t.package@);
    }
    let tags_t = tags_issue(targets, i);
    assert(tags_t is None);
    lemma_first_issue_none(canonical_checks(targets, i), t.canonical_tags.len() as int);
    lemma_first_issue_none(alias_checks(targets, i), t.alias_tags.len() as int);
    assert forall|c: int| 0 <= c < t.canonical_tags.len() implies (#[trigger] canonical_checks(s, k)(
        c,
    )) is None by {
        lemma_all_pass(canonical_checks(targets, i), t.canonical_tags.len() as int, c);
        assert(canonical_tag_issue(targets, i, c) is None);
    }
    assert forall|c: int| 0 <= c < t.alias_tags.len() implies (#[trigger] alias_checks(s, k)(
        c,
    )) is None by {
        lemma_all_pass(alias_checks(targets, i), t.alias_tags.len() as int, c);
        assert(alias_tag_issue(targets, i, c) is None);
    }
    lemma_none_found(canonical_checks(s, k), t.canonical_tags.len() as int);
    lemma_none_found(alias_checks(s, k), t.alias_tags.len() as int);
    lemma_first_issue_none(canonical_checks(s, k), t.canonical_tags.len() as int);
    lemma_first_issue_none(alias_checks(s, k), t.alias_tags.len() as int);
    assert(tags_issue(s, k) is None);
}

/// Keeping some of a valid catalog's targets, at least one and in their
/// order, leaves a valid catalog: every rule is about one target, or forbids
/// a clash with an earlier one.
pub proof fn lemma_valid_catalog_subsequence(targets: Seq<ImageTarget>, s: Seq<ImageTarget>, idx: Seq<int>)
    requires
        catalog_valid(targets),
        s.len() > 0,
        idx.len() == s.len(),
        forall|m: int| 0 <= m < s.len() ==> 0 <= #[trigger] idx[m] < targets.len() && s[m] == targets[idx[m]],
        forall|m: int, l: int| 0 <= m < l < s.len() ==> #[trigger] idx[m] < #[trigger] idx[l],
    ensures
        catalog_valid(s),
{
    assert forall|k: int| 0 <= k < s.len() implies (#[trigger] target_checks(s)(k)) is None by {
        lemma_target_passes(targets, idx[k]);
        lemma_target_passes_in_subsequence(targets, s, idx, k);
    }
    lemma_none_found(target_checks(s), s.len() as int);
}

} // verus!
