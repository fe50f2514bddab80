//! The image catalog: raw definitions as read from `image.toml`, the image
//! targets expanded from them, and the queries the commands make.
use vstd::prelude::*;

use crate::text::{owned, push_str, str_eq, views};

verus! {

broadcast use vstd::string::group_string_axioms;

/// Maturity of an image target.
#[derive(Debug, Clone, Copy, PartialEq, Eq, Structural)]
pub enum ImageStatus {
    Stable,
    Experimental,
    Disabled,
}

/// The part a bundled tool plays in an image.
#[derive(Debug, Clone, Copy, PartialEq, Eq, Structural)]
pub enum ToolRole {
    Init,
    Healthcheck,
    Motd,
}

/// The view of an optional string.
pub open spec fn opt_view(o: Option<String>) -> Option<Seq<char>> {
    match o {
        Some(s) => Some(s@),
        None => None,
    }
}

// ---------------------------------------------------------------------------
// Raw definitions, as written in `image.toml`
// ---------------------------------------------------------------------------

/// One `image.toml` file.
#[derive(Debug)]
pub struct RawImageDefinition {
    pub schema: u32,
    pub family: String,
    pub line: String,
    pub version: String,
    pub distro: Option<String>,
    pub id: String,
    pub package: String,
    pub publish: bool,
    pub status: ImageStatus,
    pub platforms: Vec<String>,
    pub init: Option<RawInitRuntime>,
    pub healthcheck: Option<RawHealthcheckRuntime>,
    /// The `[tools.<name>]` tables, by name.
    pub tools: Vec<(String, RawToolRuntime)>,
    pub source: Option<RawSource>,
    pub java: Option<RawJavaRuntime>,
    pub variants: Vec<RawVariant>,
}

/// The upstream source of an image's payload.
#[derive(Debug)]
pub struct RawSource {
    pub provider: String,
    pub release: String,
    pub gpg_key: String,
    pub strip_components: u8,
    pub archives: Vec<RawSourceArchive>,
}

/// One downloadable archive for one platform.
#[derive(Debug)]
pub struct RawSourceArchive {
    pub platform: String,
    pub url: String,
    pub sha256: String,
}

/// The `[init]` table.
#[derive(Debug)]
pub struct RawInitRuntime {
    pub provider: String,
    pub release: String,
    pub image: Option<String>,
    pub binary_path: String,
    pub install_packages: Vec<String>,
    pub strip_components: u8,
    pub entrypoint: Vec<String>,
    pub archives: Vec<RawSourceArchive>,
}

/// The `[healthcheck]` table.
#[derive(Debug)]
pub struct RawHealthcheckRuntime {
    pub provider: String,
    pub release: String,
    pub image: Option<String>,
    pub binary_path: String,
    pub install_packages: Vec<String>,
    pub strip_components: u8,
    pub archives: Vec<RawSourceArchive>,
}

/// One `[tools.<name>]` table.
#[derive(Debug)]
pub struct RawToolRuntime {
    pub role: ToolRole,
    pub release: String,
    pub image: Option<String>,
    pub source_path: String,
    pub target_path: String,
    pub install_packages: Vec<String>,
    pub strip_components: u8,
    pub entrypoint: Vec<String>,
    pub archives: Vec<RawSourceArchive>,
}

/// The `[java]` table.
#[derive(Debug)]
pub struct RawJavaRuntime {
    pub java_home: String,
    pub builder_packages: Vec<String>,
    pub runtime_packages: Vec<String>,
    pub lang: String,
    pub language: String,
    pub lc_all: String,
    pub generate_locales: bool,
    pub verify_commands: Vec<String>,
    pub trim_files: Vec<String>,
}

/// One `[[variants]]` entry.
#[derive(Debug)]
pub struct RawVariant {
    pub name: String,
    pub dockerfile: String,
    pub base_image: String,
    pub builder_image: Option<String>,
    pub title: String,
    pub description: String,
    pub command: Vec<String>,
    pub runtime_packages: Option<Vec<String>>,
    pub lang: Option<String>,
    pub language: Option<String>,
    pub lc_all: Option<String>,
    pub generate_locales: Option<bool>,
    pub canonical: Vec<String>,
    pub alias: Vec<String>,
}

// ---------------------------------------------------------------------------
// Image targets
// ---------------------------------------------------------------------------

/// The upstream source of a target's payload.
#[derive(Debug)]
pub struct ImageSource {
    pub provider: String,
    pub release: String,
    pub gpg_key: String,
    pub strip_components: u8,
    pub archives: Vec<SourceArchive>,
}

/// One downloadable archive for one platform.
#[derive(Debug)]
pub struct SourceArchive {
    pub platform: String,
    pub url: String,
    pub sha256: String,
}

/// The init process bundled into a target.
#[derive(Debug)]
pub struct InitRuntime {
    pub provider: String,
    pub release: String,
    pub image: Option<String>,
    pub binary_path: String,
    pub install_packages: Vec<String>,
    pub strip_components: u8,
    pub entrypoint: Vec<String>,
    pub archives: Vec<SourceArchive>,
}

/// The health check binary bundled into a target.
#[derive(Debug)]
pub struct HealthcheckRuntime {
    pub provider: String,
    pub release: String,
    pub image: Option<String>,
    pub binary_path: String,
    pub install_packages: Vec<String>,
    pub strip_components: u8,
    pub archives: Vec<SourceArchive>,
}

/// A tool copied into a target from its own image or archives.
#[derive(Debug)]
pub struct ToolRuntime {
    pub name: String,
    pub role: ToolRole,
    pub release: String,
    pub image: Option<String>,
    pub source_path: String,
    pub target_path: String,
    pub install_packages: Vec<String>,
    pub strip_components: u8,
    pub entrypoint: Vec<String>,
    pub archives: Vec<SourceArchive>,
}

/// The Java runtime settings of a target.
#[derive(Debug)]
pub struct JavaRuntime {
    pub java_home: String,
    pub builder_packages: Vec<String>,
    pub runtime_packages: Vec<String>,
    pub lang: String,
    pub language: String,
    pub lc_all: String,
    pub generate_locales: bool,
    pub verify_commands: Vec<String>,
    pub trim_files: Vec<String>,
}

/// One buildable image: a definition combined with one of its variants.
#[derive(Debug)]
pub struct ImageTarget {
    pub schema: u32,
    pub id: String,
    pub family: String,
    pub line: String,
    pub version: String,
    pub distro: Option<String>,
    pub package: String,
    pub publish: bool,
    pub status: ImageStatus,
    pub variant: String,
    pub context: String,
    pub dockerfile: String,
    pub platforms: Vec<String>,
    pub base_image: String,
    pub builder_image: Option<String>,
    pub title: String,
    pub description: String,
    pub command: Vec<String>,
    pub canonical_tags: Vec<String>,
    pub alias_tags: Vec<String>,
    pub init: Option<InitRuntime>,
    pub healthcheck: Option<HealthcheckRuntime>,
    pub tools: Vec<ToolRuntime>,
    pub source: Option<ImageSource>,
    pub java: Option<JavaRuntime>,
    pub definition_file: String,
}

/// All image targets found under an images directory, sorted by id.
#[derive(Debug)]
pub struct ImageCatalog {
    pub root: String,
    pub targets: Vec<ImageTarget>,
}

// ---------------------------------------------------------------------------
// Views
// ---------------------------------------------------------------------------

pub struct SourceArchiveView {
    pub platform: Seq<char>,
    pub url: Seq<char>,
    pub sha256: Seq<char>,
}

impl View for SourceArchive {
    type V = SourceArchiveView;

    open spec fn view(&self) -> SourceArchiveView {
        SourceArchiveView { platform: self.platform@, url: self.url@, sha256: self.sha256@ }
    }
}

impl View for RawSourceArchive {
    type V = SourceArchiveView;

    open spec fn view(&self) -> SourceArchiveView {
        SourceArchiveView { platform: self.platform@, url: self.url@, sha256: self.sha256@ }
    }
}

/// The views of a sequence of archives.
pub open spec fn archive_views(v: Seq<SourceArchive>) -> Seq<SourceArchiveView> {
    v.map_values(|a: SourceArchive| a@)
}

/// The views of a sequence of raw archives.
pub open spec fn raw_archive_views(v: Seq<RawSourceArchive>) -> Seq<SourceArchiveView> {
    v.map_values(|a: RawSourceArchive| a@)
}

pub struct ImageSourceView {
    pub provider: Seq<char>,
    pub release: Seq<char>,
    pub gpg_key: Seq<char>,
    pub strip_components: u8,
    pub archives: Seq<SourceArchiveView>,
}

impl View for ImageSource {
    type V = ImageSourceView;

    open spec fn view(&self) -> ImageSourceView {
        ImageSourceView {
            provider: self.provider@,
            release: self.release@,
            gpg_key: self.gpg_key@,
            strip_components: self.strip_components,
            archives: archive_views(self.archives@),
        }
    }
}

impl View for RawSource {
    type V = ImageSourceView;

    open spec fn view(&self) -> ImageSourceView {
        ImageSourceView {
            provider: self.provider@,
            release: self.release@,
            gpg_key: self.gpg_key@,
            strip_components: self.strip_components,
            archives: raw_archive_views(self.archives@),
        }
    }
}

pub struct InitRuntimeView {
    pub provider: Seq<char>,
    pub release: Seq<char>,
    pub image: Option<Seq<char>>,
    pub binary_path: Seq<char>,
    pub install_packages: Seq<Seq<char>>,
    pub strip_components: u8,
    pub entrypoint: Seq<Seq<char>>,
    pub archives: Seq<SourceArchiveView>,
}

impl View for InitRuntime {
    type V = InitRuntimeView;

    open spec fn view(&self) -> InitRuntimeView {
        InitRuntimeView {
            provider: self.provider@,
            release: self.release@,
            image: opt_view(self.image),
            binary_path: self.binary_path@,
            install_packages: views(self.install_packages@),
            strip_components: self.strip_components,
            entrypoint: views(self.entrypoint@),
            archives: archive_views(self.archives@),
        }
    }
}

impl View for RawInitRuntime {
    type V = InitRuntimeView;

    open spec fn view(&self) -> InitRuntimeView {
        InitRuntimeView {
            provider: self.provider@,
            release: self.release@,
            image: opt_view(self.image),
            binary_path: self.binary_path@,
            install_packages: views(self.install_packages@),
            strip_components: self.strip_components,
            entrypoint: views(self.entrypoint@),
            archives: raw_archive_views(self.archives@),
        }
    }
}

pub struct HealthcheckRuntimeView {
    pub provider: Seq<char>,
    pub release: Seq<char>,
    pub image: Option<Seq<char>>,
    pub binary_path: Seq<char>,
    pub install_packages: Seq<Seq<char>>,
    pub strip_components: u8,
    pub archives: Seq<SourceArchiveView>,
}

impl View for HealthcheckRuntime {
    type V = HealthcheckRuntimeView;

    open spec fn view(&self) -> HealthcheckRuntimeView {
        HealthcheckRuntimeView {
            provider: self.provider@,
            release: self.release@,
            image: opt_view(self.image),
            binary_path: self.binary_path@,
            install_packages: views(self.install_packages@),
            strip_components: self.strip_components,
            archives: archive_views(self.archives@),
        }
    }
}

impl View for RawHealthcheckRuntime {
    type V = HealthcheckRuntimeView;

    open spec fn view(&self) -> HealthcheckRuntimeView {
        HealthcheckRuntimeView {
            provider: self.provider@,
            release: self.release@,
            image: opt_view(self.image),
            binary_path: self.binary_path@,
            install_packages: views(self.install_packages@),
            strip_components: self.strip_components,
            archives: raw_archive_views(self.archives@),
        }
    }
}

pub struct ToolRuntimeView {
    pub name: Seq<char>,
    pub role: ToolRole,
    pub release: Seq<char>,
    pub image: Option<Seq<char>>,
    pub source_path: Seq<char>,
    pub target_path: Seq<char>,
    pub install_packages: Seq<Seq<char>>,
    pub strip_components: u8,
    pub entrypoint: Seq<Seq<char>>,
    pub archives: Seq<SourceArchiveView>,
}

impl View for ToolRuntime {
    type V = ToolRuntimeView;

    open spec fn view(&self) -> ToolRuntimeView {
        ToolRuntimeView {
            name: self.name@,
            role: self.role,
            release: self.release@,
            image: opt_view(self.image),
            source_path: self.source_path@,
            target_path: self.target_path@,
            install_packages: views(self.install_packages@),
            strip_components: self.strip_components,
            entrypoint: views(self.entrypoint@),
            archives: archive_views(self.archives@),
        }
    }
}

/// The views of a sequence of tools.
pub open spec fn tool_views(v: Seq<ToolRuntime>) -> Seq<ToolRuntimeView> {
    v.map_values(|t: ToolRuntime| t@)
}

pub struct JavaRuntimeView {
    pub java_home: Seq<char>,
    pub builder_packages: Seq<Seq<char>>,
    pub runtime_packages: Seq<Seq<char>>,
    pub lang: Seq<char>,
    pub language: Seq<char>,
    pub lc_all: Seq<char>,
    pub generate_locales: bool,
    pub verify_commands: Seq<Seq<char>>,
    pub trim_files: Seq<Seq<char>>,
}

impl View for JavaRuntime {
    type V = JavaRuntimeView;

    open spec fn view(&self) -> JavaRuntimeView {
        JavaRuntimeView {
            java_home: self.java_home@,
            builder_packages: views(self.builder_packages@),
            runtime_packages: views(self.runtime_packages@),
            lang: self.lang@,
            language: self.language@,
            lc_all: self.lc_all@,
            generate_locales: self.generate_locales,
            verify_commands: views(self.verify_commands@),
            trim_files: views(self.trim_files@),
        }
    }
}

impl View for RawJavaRuntime {
    type V = JavaRuntimeView;

    open spec fn view(&self) -> JavaRuntimeView {
        JavaRuntimeView {
            java_home: self.java_home@,
            builder_packages: views(self.builder_packages@),
            runtime_packages: views(self.runtime_packages@),
            lang: self.lang@,
            language: self.language@,
            lc_all: self.lc_all@,
            generate_locales: self.generate_locales,
            verify_commands: views(self.verify_commands@),
            trim_files: views(self.trim_files@),
        }
    }
}

/// The view of an optional runtime, through its own view.
pub open spec fn opt_init(o: Option<InitRuntime>) -> Option<InitRuntimeView> {
    match o {
        Some(x) => Some(x@),
        None => None,
    }
}

pub open spec fn opt_healthcheck(o: Option<HealthcheckRuntime>) -> Option<HealthcheckRuntimeView> {
    match o {
        Some(x) => Some(x@),
        None => None,
    }
}

pub open spec fn opt_source(o: Option<ImageSource>) -> Option<ImageSourceView> {
    match o {
        Some(x) => Some(x@),
        None => None,
    }
}

pub open spec fn opt_java(o: Option<JavaRuntime>) -> Option<JavaRuntimeView> {
    match o {
        Some(x) => Some(x@),
        None => None,
    }
}

pub struct ImageTargetView {
    pub schema: u32,
    pub id: Seq<char>,
    pub family: Seq<char>,
    pub line: Seq<char>,
    pub version: Seq<char>,
    pub distro: Option<Seq<char>>,
    pub package: Seq<char>,
    pub publish: bool,
    pub status: ImageStatus,
    pub variant: Seq<char>,
    pub context: Seq<char>,
    pub dockerfile: Seq<char>,
    pub platforms: Seq<Seq<char>>,
    pub base_image: Seq<char>,
    pub builder_image: Option<Seq<char>>,
    pub title: Seq<char>,
    pub description: Seq<char>,
    pub command: Seq<Seq<char>>,
    pub canonical_tags: Seq<Seq<char>>,
    pub alias_tags: Seq<Seq<char>>,
    pub init: Option<InitRuntimeView>,
    pub healthcheck: Option<HealthcheckRuntimeView>,
    pub tools: Seq<ToolRuntimeView>,
    pub source: Option<ImageSourceView>,
    pub java: Option<JavaRuntimeView>,
    pub definition_file: Seq<char>,
}

impl View for ImageTarget {
    type V = ImageTargetView;

    open spec fn view(&self) -> ImageTargetView {
        ImageTargetView {
            schema: self.schema,
            id: self.id@,
            family: self.family@,
            line: self.line@,
            version: self.version@,
            distro: opt_view(self.distro),
            package: self.package@,
            publish: self.publish,
            status: self.status,
            variant: self.variant@,
            context: self.context@,
            dockerfile: self.dockerfile@,
            platforms: views(self.platforms@),
            base_image: self.base_image@,
            builder_image: opt_view(self.builder_image),
            title: self.title@,
            description: self.description@,
            command: views(self.command@),
            canonical_tags: views(self.canonical_tags@),
            alias_tags: views(self.alias_tags@),
            init: opt_init(self.init),
            healthcheck: opt_healthcheck(self.healthcheck),
            tools: tool_views(self.tools@),
            source: opt_source(self.source),
            java: opt_java(self.java),
            definition_file: self.definition_file@,
        }
    }
}

/// The views of a sequence of targets.
pub open spec fn target_views(v: Seq<ImageTarget>) -> Seq<ImageTargetView> {
    v.map_values(|t: ImageTarget| t@)
}

// ---------------------------------------------------------------------------
// Spec-level queries
// ---------------------------------------------------------------------------

impl ImageTargetView {
    /// Canonical tags first, then aliases.
    pub open spec fn all_tags(self) -> Seq<Seq<char>> {
        self.canonical_tags + self.alias_tags
    }

    /// Only stable, published targets enter the default release flow.
    pub open spec fn is_releasable(self) -> bool {
        self.publish && self.status == ImageStatus::Stable
    }
}

/// The first archive for `platform`, if any.
pub open spec fn first_archive_for(
    archives: Seq<SourceArchiveView>,
    platform: Seq<char>,
    i: int,
) -> bool {
    0 <= i < archives.len() && archives[i].platform == platform && forall|j: int|
        0 <= j < i ==> archives[j].platform != platform
}

/// The text of a status label.
pub open spec fn status_text(s: ImageStatus) -> Seq<char> {
    match s {
        ImageStatus::Stable => "stable"@,
        ImageStatus::Experimental => "experimental"@,
        ImageStatus::Disabled => "disabled"@,
    }
}

// ---------------------------------------------------------------------------
// Copies with known contents
// ---------------------------------------------------------------------------

/// A copy of a list of strings.
pub fn copy_strings(v: &Vec<String>) -> (r: Vec<String>)
    ensures
        views(r@) == views(v@),
        r@ == v@,
{
    let mut r: Vec<String> = Vec::new();
    let mut i: usize = 0;
    while i < v.len()
        invariant
            i <= v.len(),
            r@ == v@.take(i as int),
        decreases v.len() - i,
    {
        r.push(v[i].clone());
        i += 1;
        assert(r@ =~= v@.take(i as int));
    }
    assert(v@.take(v.len() as int) =~= v@);
    r
}

/// A copy of an optional string.
pub fn copy_opt(o: &Option<String>) -> (r: Option<String>)
    ensures
        r == *o,
{
    match o {
        Some(s) => Some(s.clone()),
        None => None,
    }
}

impl SourceArchive {
    /// A copy of this archive.
    pub fn copy(&self) -> (r: SourceArchive)
        ensures
            r@ == self@,
    {
        SourceArchive {
            platform: self.platform.clone(),
            url: self.url.clone(),
            sha256: self.sha256.clone(),
        }
    }
}

// ---------------------------------------------------------------------------
// Executable queries
// ---------------------------------------------------------------------------

impl ImageStatus {
    /// The lower-case label of the status.
    pub fn as_str(&self) -> (r: &'static str)
        ensures
            r@ == status_text(*self),
    {
        match self {
            ImageStatus::Stable => "stable",
            ImageStatus::Experimental => "experimental",
            ImageStatus::Disabled => "disabled",
        }
    }
}

impl ToolRole {
    /// The lower-case name of the role.
    pub fn as_str(&self) -> (r: &'static str)
        ensures
            r@ == role_text(*self),
    {
        match self {
            ToolRole::Init => "init",
            ToolRole::Healthcheck => "healthcheck",
            ToolRole::Motd => "motd",
        }
    }

    /// The position of the role when a target's tools are listed.
    pub fn sort_order(&self) -> (r: u8)
        ensures
            r == role_order(*self),
    {
        match self {
            ToolRole::Init => 0,
            ToolRole::Healthcheck => 1,
            ToolRole::Motd => 2,
        }
    }
}

/// The text of a tool role.
pub open spec fn role_text(r: ToolRole) -> Seq<char> {
    match r {
        ToolRole::Init => "init"@,
        ToolRole::Healthcheck => "healthcheck"@,
        ToolRole::Motd => "motd"@,
    }
}

/// Init first, then health check, then the message of the day.
pub open spec fn role_order(r: ToolRole) -> u8 {
    match r {
        ToolRole::Init => 0,
        ToolRole::Healthcheck => 1,
        ToolRole::Motd => 2,
    }
}

/// Finds the first archive of `archives` for `platform`.
fn find_archive<'a>(archives: &'a Vec<SourceArchive>, platform: &str) -> (r: Option<
    &'a SourceArchive,
>)
    ensures
        r matches Some(a) ==> exists|i: int|
            first_archive_for(archive_views(archives@), platform@, i) && *a == archives@[i],
        r is None ==> forall|i: int|
            0 <= i < archives.len() ==> archives@[i].platform@ != platform@,
{
    let mut i: usize = 0;
    while i < archives.len()
        invariant
            i <= archives.len(),
            forall|j: int| 0 <= j < i ==> archives@[j].platform@ != platform@,
        decreases archives.len() - i,
    {
        if str_eq(archives[i].platform.as_str(), platform) {
            assert(first_archive_for(archive_views(archives@), platform@, i as int));
            return Some(&archives[i]);
        }
        i += 1;
    }
    None
}

impl ImageTarget {
    /// Canonical tags followed by alias tags.
    pub fn all_tags(&self) -> (r: Vec<String>)
        ensures
            views(r@) == self@.all_tags(),
            views(r@) == views(self.canonical_tags@) + views(self.alias_tags@),
    {
        let mut r = copy_strings(&self.canonical_tags);
        let mut i: usize = 0;
        while i < self.alias_tags.len()
            invariant
                i <= self.alias_tags.len(),
                r@ == self.canonical_tags@ + self.alias_tags@.take(i as int),
            decreases self.alias_tags.len() - i,
        {
            r.push(self.alias_tags[i].clone());
            i += 1;
            assert(r@ =~= self.canonical_tags@ + self.alias_tags@.take(i as int));
        }
        assert(self.alias_tags@.take(self.alias_tags.len() as int) =~= self.alias_tags@);
        assert(views(r@) =~= self@.all_tags());
        r
    }

    /// The first canonical tag.
    pub fn primary_tag(&self) -> (r: &str)
        requires
            self.canonical_tags.len() > 0,
        ensures
            r@ == self.canonical_tags@[0]@,
    {
        self.canonical_tags[0].as_str()
    }

    /// `ghcr.io/<owner>/<package>`.
    pub fn repository(&self, owner: &str) -> (r: String)
        ensures
            r@ == "ghcr.io/"@ + owner@ + "/"@ + self.package@,
    {
        let mut r = owned("ghcr.io/");
        push_str(&mut r, owner);
        push_str(&mut r, "/");
        push_str(&mut r, self.package.as_str());
        r
    }

    /// The first source archive for `platform`, if the target has a source.
    pub fn source_archive_for_platform(&self, platform: &str) -> (r: Option<&SourceArchive>)
        ensures
            r matches Some(a) ==> self.source matches Some(s) && exists|i: int|
                first_archive_for(archive_views(s.archives@), platform@, i) && *a
                    == s.archives@[i],
            r is None ==> (self.source matches Some(s) ==> forall|i: int|
                0 <= i < s.archives.len() ==> s.archives@[i].platform@ != platform@),
    {
        match &self.source {
            Some(s) => find_archive(&s.archives, platform),
            None => None,
        }
    }

    /// The first init archive for `platform`, if the target has init metadata.
    pub fn init_archive_for_platform(&self, platform: &str) -> (r: Option<&SourceArchive>)
        ensures
            r matches Some(a) ==> self.init matches Some(s) && exists|i: int|
                first_archive_for(archive_views(s.archives@), platform@, i) && *a
                    == s.archives@[i],
            r is None ==> (self.init matches Some(s) ==> forall|i: int|
                0 <= i < s.archives.len() ==> s.archives@[i].platform@ != platform@),
    {
        match &self.init {
            Some(s) => find_archive(&s.archives, platform),
            None => None,
        }
    }

    /// The first health check archive for `platform`, if the target has health check metadata.
    pub fn healthcheck_archive_for_platform(&self, platform: &str) -> (r: Option<&SourceArchive>)
        ensures
            r matches Some(a) ==> self.healthcheck matches Some(s) && exists|i: int|
                first_archive_for(archive_views(s.archives@), platform@, i) && *a
                    == s.archives@[i],
            r is None ==> (self.healthcheck matches Some(s) ==> forall|i: int|
                0 <= i < s.archives.len() ==> s.archives@[i].platform@ != platform@),
    {
        match &self.healthcheck {
            Some(s) => find_archive(&s.archives, platform),
            None => None,
        }
    }

    /// Published and stable.
    pub fn is_releasable(&self) -> (r: bool)
        ensures
            r == self@.is_releasable(),
    {
        self.publish && self.status == ImageStatus::Stable
    }

    /// The label of the target's status.
    pub fn status_label(&self) -> (r: &'static str)
        ensures
            r@ == status_text(self.status),
    {
        self.status.as_str()
    }
}


/// The package of each target, in order.
pub open spec fn packages(targets: Seq<ImageTarget>) -> Seq<Seq<char>> {
    targets.map_values(|t: ImageTarget| t.package@)
}

/// The releasable targets, in catalog order.
pub open spec fn releasable(targets: Seq<ImageTarget>) -> Seq<ImageTarget> {
    targets.filter(|t: ImageTarget| t@.is_releasable())
}

/// `targets[i]` is the first target with id `id`.
pub open spec fn first_with_id(targets: Seq<ImageTarget>, id: Seq<char>, i: int) -> bool {
    0 <= i < targets.len() && targets[i].id@ == id && forall|j: int|
        0 <= j < i ==> targets[j].id@ != id
}


/// When some target has id `id`, a first one does.
pub proof fn lemma_first_with_id_exists(targets: Seq<ImageTarget>, id: Seq<char>, i: int)
    requires
        0 <= i < targets.len(),
        targets[i].id@ == id,
    ensures
        exists|j: int| first_with_id(targets, id, j),
    decreases i,
{
    if forall|j: int| 0 <= j < i ==> targets[j].id@ != id {
        assert(first_with_id(targets, id, i));
    } else {
        let j = choose|j: int| 0 <= j < i && targets[j].id@ == id;
        lemma_first_with_id_exists(targets, id, j);
    }
}

impl ImageCatalog {
    /// The number of distinct packages among the targets.
    pub fn package_count(&self) -> (r: usize)
        ensures
            r == packages(self.targets@).to_set().len(),
    {
        let mut seen: Vec<String> = Vec::new();
        let mut i: usize = 0;
        while i < self.targets.len()
            invariant
                i <= self.targets.len(),
                views(seen@).no_duplicates(),
                views(seen@).to_set() == packages(self.targets@.take(i as int)).to_set(),
            decreases self.targets.len() - i,
        {
            let p = &self.targets[i].package;
            let mut j: usize = 0;
            let mut found = false;
            while j < seen.len()
                invariant
                    j <= seen.len(),
                    !found ==> forall|k: int| 0 <= k < j ==> seen@[k]@ != p@,
                    found ==> views(seen@).contains(p@),
                decreases seen.len() - j,
            {
                if str_eq(seen[j].as_str(), p.as_str()) {
                    found = true;
                    assert(views(seen@)[j as int] == p@);
                }
                j += 1;
            }
            let ghost before = views(seen@);
            proof {
                assert(packages(self.targets@.take(i + 1)) =~= packages(
                    self.targets@.take(i as int),
                ).push(p@));
                packages(self.targets@.take(i as int)).lemma_push_to_set_commute(p@);
            }
            if !found {
                seen.push(p.clone());
                proof {
                    assert(views(seen@) =~= before.push(p@));
                    before.lemma_push_to_set_commute(p@);
                    assert(!before.contains(p@));
                }
            } else {
                assert(before.to_set().contains(p@));
                assert(before.to_set().insert(p@) =~= before.to_set());
            }
            i += 1;
        }
        proof {
            assert(self.targets@.take(self.targets.len() as int) =~= self.targets@);
            views(seen@).unique_seq_to_set();
        }
        seen.len()
    }

    /// The first target with id `id`.
    pub fn target(&self, id: &str) -> (r: Option<&ImageTarget>)
        ensures
            r matches Some(t) ==> exists|i: int|
                first_with_id(self.targets@, id@, i) && *t == self.targets@[i],
            r is None ==> forall|i: int|
                0 <= i < self.targets.len() ==> self.targets@[i].id@ != id@,
    {
        let mut i: usize = 0;
        while i < self.targets.len()
            invariant
                i <= self.targets.len(),
                forall|j: int| 0 <= j < i ==> self.targets@[j].id@ != id@,
            decreases self.targets.len() - i,
        {
            if str_eq(self.targets[i].id.as_str(), id) {
                assert(first_with_id(self.targets@, id@, i as int));
                return Some(&self.targets[i]);
            }
            i += 1;
        }
        None
    }

    /// The targets that enter the default release flow, in catalog order.
    pub fn release_targets(&self) -> (r: Vec<&ImageTarget>)
        ensures
            r@.map_values(|t: &ImageTarget| *t) == releasable(self.targets@),
    {
        let mut r: Vec<&ImageTarget> = Vec::new();
        let mut i: usize = 0;
        while i < self.targets.len()
            invariant
                i <= self.targets.len(),
                r@.map_values(|t: &ImageTarget| *t) == releasable(self.targets@.take(i as int)),
            decreases self.targets.len() - i,
        {
            let t = &self.targets[i];
            proof {
                let pred = |t: ImageTarget| t@.is_releasable();
                assert(self.targets@.take(i + 1) =~= self.targets@.take(i as int).push(*t));
                self.targets@.take(i as int).lemma_filter_push(*t, pred);
            }
            if t.is_releasable() {
                r.push(t);
                assert(r@.map_values(|t: &ImageTarget| *t) =~= releasable(self.targets@.take(i as int)).push(*t));
            }
            i += 1;
        }
        assert(self.targets@.take(self.targets.len() as int) =~= self.targets@);
        r
    }

    /// The number of targets that enter the default release flow.
    pub fn release_target_count(&self) -> (r: usize)
        ensures
            r == releasable(self.targets@).len(),
    {
        let targets = self.release_targets();
        assert(targets@.map_values(|t: &ImageTarget| *t).len() == targets@.len());
        targets.len()
    }
}

// ---------------------------------------------------------------------------
// Defaults of `image.toml` fields
// ---------------------------------------------------------------------------

/// The name of a variant that declares none.
pub fn default_variant_name() -> (r: String)
    ensures
        r@ == "default"@,
{
    owned("default")
}

/// The schema version assumed when none is declared.
pub fn default_schema() -> (r: u32)
    ensures
        r == 1,
{
    1
}

/// The archive path components stripped when none is declared.
pub fn default_strip_components() -> (r: u8)
    ensures
        r == 1,
{
    1
}

/// `LANG` when none is declared.
pub fn default_lang() -> (r: String)
    ensures
        r@ == "en_US.UTF-8"@,
{
    owned("en_US.UTF-8")
}

/// `LANGUAGE` when none is declared.
pub fn default_language() -> (r: String)
    ensures
        r@ == "en_US:en"@,
{
    owned("en_US:en")
}

/// `LC_ALL` when none is declared.
pub fn default_lc_all() -> (r: String)
    ensures
        r@ == "en_US.UTF-8"@,
{
    owned("en_US.UTF-8")
}

/// Locales are generated unless a definition says otherwise.
pub fn default_generate_locales() -> (r: bool)
    ensures
        r,
{
    true
}

/// The packages installed to download a tool archive when none are declared.
pub fn default_download_install_packages() -> (r: Vec<String>)
    ensures
        views(r@) == seq!["ca-certificates"@, "wget"@],
{
    let mut r: Vec<String> = Vec::new();
    r.push(owned("ca-certificates"));
    r.push(owned("wget"));
    assert(views(r@) =~= seq!["ca-certificates"@, "wget"@]);
    r
}

/// Definitions are published unless they say otherwise.
pub fn default_publish() -> (r: bool)
    ensures
        r,
{
    true
}

/// Definitions are stable unless they say otherwise.
pub fn default_status() -> (r: ImageStatus)
    ensures
        r == ImageStatus::Stable,
{
    ImageStatus::Stable
}

} // verus!
