use keeline::model::{
    HealthcheckRuntime, ImageCatalog, ImageSource, ImageStatus, ImageTarget, InitRuntime,
    JavaRuntime, SourceArchive,
};
use keeline::validate::{ArchiveKind, Issue, ValidationError};

const TINO: &str = "ghcr.io/lvillis/tino:0.1.26@sha256:8ad7b87083aee56d97f68c355bf57ad0a55ad5b00508f87dd86e148dcf91374b";
const SALUS: &str = "ghcr.io/lvillis/salus:0.1.8@sha256:8ad7b87083aee56d97f68c355bf57ad0a55ad5b00508f87dd86e148dcf91374b";
const SUM: &str = "8ad7b87083aee56d97f68c355bf57ad0a55ad5b00508f87dd86e148dcf91374b";

fn strings(v: &[&str]) -> Vec<String> {
    v.iter().map(|s| s.to_string()).collect()
}

fn archive(platform: &str) -> SourceArchive {
    SourceArchive {
        platform: platform.to_string(),
        url: format!("https://example.com/{platform}.tar.gz"),
        sha256: SUM.to_string(),
    }
}

fn debian() -> ImageTarget {
    ImageTarget {
        schema: 1,
        id: "debian-13".to_string(),
        family: "debian".to_string(),
        line: "13".to_string(),
        version: "13".to_string(),
        distro: None,
        package: "keeline-debian".to_string(),
        publish: true,
        status: ImageStatus::Stable,
        variant: "default".to_string(),
        context: "images/debian/13".to_string(),
        dockerfile: "images/debian/13/Dockerfile".to_string(),
        platforms: strings(&["linux/amd64", "linux/arm64"]),
        base_image: "docker.io/library/debian:13".to_string(),
        builder_image: None,
        title: "Debian".to_string(),
        description: "Debian 13".to_string(),
        command: strings(&["bash"]),
        canonical_tags: strings(&["13"]),
        alias_tags: strings(&["trixie"]),
        init: Some(InitRuntime {
            provider: "tino".to_string(),
            release: "0.1.26".to_string(),
            image: Some(TINO.to_string()),
            binary_path: "/sbin/tino".to_string(),
            install_packages: Vec::new(),
            strip_components: 1,
            entrypoint: strings(&["/sbin/tino", "-g", "-s", "--"]),
            archives: Vec::new(),
        }),
        healthcheck: Some(HealthcheckRuntime {
            provider: "salus".to_string(),
            release: "0.1.8".to_string(),
            image: Some(SALUS.to_string()),
            binary_path: "/bin/salus".to_string(),
            install_packages: Vec::new(),
            strip_components: 1,
            archives: Vec::new(),
        }),
        tools: Vec::new(),
        source: None,
        java: None,
        definition_file: "images/debian/13/image.toml".to_string(),
    }
}

fn java() -> ImageTarget {
    let mut t = debian();
    t.id = "java-21-trixie".to_string();
    t.family = "java".to_string();
    t.package = "keeline-java".to_string();
    t.canonical_tags = strings(&["jdk-21-trixie"]);
    t.alias_tags = strings(&["21-trixie"]);
    t.source = Some(ImageSource {
        provider: "adoptium-temurin".to_string(),
        release: "jdk-21.0.10+7".to_string(),
        gpg_key: "3B04D753C9050D9A5D343F39843C48A565F8F04B".to_string(),
        strip_components: 1,
        archives: vec![archive("linux/amd64"), archive("linux/arm64")],
    });
    t.java = Some(JavaRuntime {
        java_home: "/opt/java/openjdk".to_string(),
        builder_packages: strings(&["binutils"]),
        runtime_packages: strings(&["ca-certificates", "locales"]),
        lang: "en_US.UTF-8".to_string(),
        language: "en_US:en".to_string(),
        lc_all: "en_US.UTF-8".to_string(),
        generate_locales: true,
        verify_commands: strings(&["java --version"]),
        trim_files: Vec::new(),
    });
    t
}

fn scratch() -> ImageTarget {
    let mut t = debian();
    t.id = "scratch-1".to_string();
    t.family = "scratch".to_string();
    t.package = "keeline-scratch".to_string();
    t.base_image = "scratch".to_string();
    t.builder_image = Some("docker.io/library/debian:13".to_string());
    t.canonical_tags = strings(&["1"]);
    t.alias_tags = Vec::new();
    t
}

fn issue_of(t: ImageTarget) -> Option<Issue> {
    let catalog = ImageCatalog { root: "images".to_string(), targets: vec![t] };
    match catalog.validate(true) {
        Ok(()) => None,
        Err(ValidationError::Target { issue, .. }) => Some(issue),
        Err(other) => panic!("unexpected {:?}", other),
    }
}

#[test]
fn accepts_complete_targets_of_every_family() {
    assert!(issue_of(debian()).is_none());
    assert!(issue_of(java()).is_none());
    assert!(issue_of(scratch()).is_none());
}

#[test]
fn reports_the_identity_rules() {
    let mut t = debian();
    t.schema = 2;
    assert!(matches!(issue_of(t), Some(Issue::UnsupportedSchema(2))));
    let mut t = debian();
    t.package = "debian".to_string();
    assert!(matches!(issue_of(t), Some(Issue::InvalidPackage)));
    let mut t = debian();
    t.family = "Debian".to_string();
    assert!(matches!(issue_of(t), Some(Issue::InvalidFamily)));
    let mut t = debian();
    t.package = "keeline-jdk".to_string();
    assert!(matches!(issue_of(t), Some(Issue::PackageFamilyMismatch)));
    let mut t = debian();
    t.canonical_tags = Vec::new();
    assert!(matches!(issue_of(t), Some(Issue::NoCanonicalTag)));
    let mut t = debian();
    t.platforms = Vec::new();
    assert!(matches!(issue_of(t), Some(Issue::NoPlatform)));
    let mut t = debian();
    t.base_image = "Debian".to_string();
    assert!(matches!(issue_of(t), Some(Issue::InvalidBaseImage)));
    let mut t = debian();
    t.builder_image = Some("Debian".to_string());
    assert!(matches!(issue_of(t), Some(Issue::InvalidBuilderImage(_))));
    let mut t = debian();
    t.title = "  ".to_string();
    assert!(matches!(issue_of(t), Some(Issue::MissingTitle)));
    let mut t = debian();
    t.description = String::new();
    assert!(matches!(issue_of(t), Some(Issue::MissingDescription)));
    let mut t = debian();
    t.command = Vec::new();
    assert!(matches!(issue_of(t), Some(Issue::MissingCommand)));
    let mut t = debian();
    t.platforms = strings(&["linux/amd64", "linux/arm/v7"]);
    assert!(matches!(issue_of(t), Some(Issue::InvalidPlatform(p)) if p == "linux/arm/v7"));
    let mut t = debian();
    t.variant = "slim".to_string();
    t.id = "debian-13-default".to_string();
    assert!(matches!(issue_of(t), Some(Issue::DefaultSuffix)));
}

#[test]
fn reports_the_init_and_health_check_rules() {
    let mut t = debian();
    t.init = None;
    assert!(matches!(issue_of(t), Some(Issue::MissingInit)));
    let mut t = debian();
    t.init.as_mut().unwrap().provider = "tini".to_string();
    assert!(matches!(issue_of(t), Some(Issue::InitProvider)));
    let mut t = debian();
    t.init.as_mut().unwrap().release = " ".to_string();
    assert!(matches!(issue_of(t), Some(Issue::InitRelease)));
    let mut t = debian();
    t.init.as_mut().unwrap().binary_path = "sbin/tino".to_string();
    assert!(matches!(issue_of(t), Some(Issue::InitBinaryPath)));
    let mut t = debian();
    t.init.as_mut().unwrap().entrypoint = Vec::new();
    assert!(matches!(issue_of(t), Some(Issue::MissingInitEntrypoint)));
    let mut t = debian();
    t.init.as_mut().unwrap().entrypoint = strings(&["/bin/sh"]);
    assert!(matches!(issue_of(t), Some(Issue::InitEntrypointMismatch)));
    let mut t = debian();
    t.healthcheck = None;
    assert!(matches!(issue_of(t), Some(Issue::MissingHealthcheck)));
    let mut t = debian();
    t.healthcheck.as_mut().unwrap().provider = "other".to_string();
    assert!(matches!(issue_of(t), Some(Issue::HealthcheckProvider)));
    let mut t = debian();
    t.healthcheck.as_mut().unwrap().release = String::new();
    assert!(matches!(issue_of(t), Some(Issue::HealthcheckRelease)));
    let mut t = debian();
    t.healthcheck.as_mut().unwrap().binary_path = "bin/salus".to_string();
    assert!(matches!(issue_of(t), Some(Issue::HealthcheckBinaryPath)));
}

#[test]
fn reports_the_tool_archive_rules() {
    let with_archives = |archives: Vec<SourceArchive>, packages: &[&str]| {
        let mut t = debian();
        let init = t.init.as_mut().unwrap();
        init.image = None;
        init.install_packages = strings(packages);
        init.archives = archives;
        t
    };
    assert!(issue_of(with_archives(vec![archive("linux/amd64"), archive("linux/arm64")], &["wget"])).is_none());

    let mut t = debian();
    t.init.as_mut().unwrap().archives = vec![archive("linux/amd64")];
    assert!(matches!(issue_of(t), Some(Issue::BothToolSources(ArchiveKind::Init))));
    assert!(matches!(
        issue_of(with_archives(vec![archive("linux/amd64"), archive("linux/arm64")], &[])),
        Some(Issue::MissingInstallPackages(ArchiveKind::Init))
    ));
    assert!(matches!(
        issue_of(with_archives(
            vec![archive("linux/amd64"), archive("linux/amd64")],
            &["wget"]
        )),
        Some(Issue::RepeatedArchive(ArchiveKind::Init, p)) if p == "linux/amd64"
    ));
    assert!(matches!(
        issue_of(with_archives(vec![archive("linux/s390x")], &["wget"])),
        Some(Issue::UnsupportedArchivePlatform(ArchiveKind::Init, _))
    ));
    let mut insecure = archive("linux/amd64");
    insecure.url = "http://example.com/x".to_string();
    assert!(matches!(
        issue_of(with_archives(vec![insecure], &["wget"])),
        Some(Issue::InsecureArchiveUrl(ArchiveKind::Init, _))
    ));
    let mut bad_sum = archive("linux/amd64");
    bad_sum.sha256 = "abc".to_string();
    assert!(matches!(
        issue_of(with_archives(vec![bad_sum], &["wget"])),
        Some(Issue::InvalidArchiveChecksum(ArchiveKind::Init, _))
    ));
    assert!(matches!(
        issue_of(with_archives(vec![archive("linux/amd64")], &["wget"])),
        Some(Issue::MissingArchive(ArchiveKind::Init, p)) if p == "linux/arm64"
    ));
}

#[test]
fn reports_the_family_rules() {
    let mut t = debian();
    t.source = java().source;
    assert!(matches!(issue_of(t), Some(Issue::DebianSource)));
    let mut t = debian();
    t.java = java().java;
    assert!(matches!(issue_of(t), Some(Issue::DebianJava)));
    let mut t = scratch();
    t.source = java().source;
    assert!(matches!(issue_of(t), Some(Issue::ScratchSource)));
    let mut t = scratch();
    t.java = java().java;
    assert!(matches!(issue_of(t), Some(Issue::ScratchJava)));
    let mut t = scratch();
    t.base_image = "docker.io/library/debian:13".to_string();
    assert!(matches!(issue_of(t), Some(Issue::ScratchBaseImage)));
    let mut t = scratch();
    t.builder_image = None;
    assert!(matches!(issue_of(t), Some(Issue::ScratchBuilderImage)));
    let mut t = debian();
    t.family = "alpine".to_string();
    t.package = "keeline-alpine".to_string();
    t.source = java().source;
    assert!(matches!(issue_of(t), Some(Issue::SourceNotAllowed)));
}

#[test]
fn reports_the_java_rules() {
    let mut t = java();
    t.source = None;
    assert!(matches!(issue_of(t), Some(Issue::JavaMissingSource)));
    let mut t = java();
    t.java = None;
    assert!(matches!(issue_of(t), Some(Issue::JavaMissingRuntime)));
    let mut t = java();
    t.source.as_mut().unwrap().provider = "zulu".to_string();
    assert!(matches!(issue_of(t), Some(Issue::JavaProvider)));
    let mut t = java();
    t.source.as_mut().unwrap().release = String::new();
    assert!(matches!(issue_of(t), Some(Issue::JavaSourceRelease)));
    let mut t = java();
    t.source.as_mut().unwrap().gpg_key = " ".to_string();
    assert!(matches!(issue_of(t), Some(Issue::JavaGpgKey)));
    let mut t = java();
    t.source.as_mut().unwrap().archives = Vec::new();
    assert!(matches!(issue_of(t), Some(Issue::JavaNoArchives)));
    let mut t = java();
    t.java.as_mut().unwrap().java_home = String::new();
    assert!(matches!(issue_of(t), Some(Issue::JavaHome)));
    let mut t = java();
    t.java.as_mut().unwrap().builder_packages = Vec::new();
    assert!(matches!(issue_of(t), Some(Issue::JavaBuilderPackages)));
    let mut t = java();
    t.java.as_mut().unwrap().runtime_packages = Vec::new();
    assert!(matches!(issue_of(t), Some(Issue::JavaRuntimePackages)));
    let mut t = java();
    t.java.as_mut().unwrap().lang = String::new();
    assert!(matches!(issue_of(t), Some(Issue::JavaLang)));
    let mut t = java();
    t.java.as_mut().unwrap().language = String::new();
    assert!(matches!(issue_of(t), Some(Issue::JavaLanguage)));
    let mut t = java();
    t.java.as_mut().unwrap().lc_all = String::new();
    assert!(matches!(issue_of(t), Some(Issue::JavaLcAll)));
    let mut t = java();
    t.java.as_mut().unwrap().verify_commands = Vec::new();
    assert!(matches!(issue_of(t), Some(Issue::JavaVerifyCommands)));
    let mut t = java();
    t.java.as_mut().unwrap().runtime_packages = strings(&["ca-certificates"]);
    assert!(matches!(issue_of(t), Some(Issue::JavaLocalesPackage)));
    let mut t = java();
    t.java.as_mut().unwrap().runtime_packages = strings(&["ca-certificates"]);
    t.java.as_mut().unwrap().generate_locales = false;
    assert!(issue_of(t).is_none());
    let mut t = java();
    t.source.as_mut().unwrap().archives = vec![archive("linux/amd64")];
    assert!(matches!(
        issue_of(t),
        Some(Issue::MissingArchive(ArchiveKind::Source, p)) if p == "linux/arm64"
    ));
}

#[test]
fn reports_the_tag_rules_per_family() {
    let mut t = debian();
    t.alias_tags = strings(&["Trixie"]);
    assert!(matches!(issue_of(t), Some(Issue::InvalidAliasTag(_))));
    let mut t = java();
    t.canonical_tags = strings(&["21-trixie"]);
    assert!(matches!(issue_of(t), Some(Issue::InvalidCanonicalTag(_))));
    let mut t = java();
    t.alias_tags = strings(&["jdk-21"]);
    assert!(matches!(issue_of(t), Some(Issue::BannedTag(_))));
    let mut t = scratch();
    t.canonical_tags = strings(&["-1"]);
    assert!(matches!(issue_of(t), Some(Issue::InvalidCanonicalTag(_))));
    let mut t = debian();
    t.alias_tags = strings(&["13"]);
    assert!(matches!(issue_of(t), Some(Issue::RepeatedTag(_))));
}

#[test]
fn keeps_a_valid_catalog_valid_when_targets_are_dropped() {
    let full = ImageCatalog {
        root: "images".to_string(),
        targets: vec![debian(), java(), scratch()],
    };
    full.validate(true).unwrap();
    for keep in [vec![0usize], vec![1], vec![2], vec![0, 2], vec![1, 2]] {
        let all = vec![debian(), java(), scratch()];
        let targets: Vec<ImageTarget> = all
            .into_iter()
            .enumerate()
            .filter(|(i, _)| keep.contains(i))
            .map(|(_, t)| t)
            .collect();
        let part = ImageCatalog { root: "images".to_string(), targets };
        part.validate(true).unwrap();
    }
}
