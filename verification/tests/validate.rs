use keeline::model::{HealthcheckRuntime, ImageCatalog, ImageStatus, ImageTarget, InitRuntime, SourceArchive};
use keeline::pattern::Pattern;
use keeline::validate::{
    validate_tags, validate_tool_source, ArchiveKind, CatalogPatterns, Issue, ValidationError,
};

const TINO: &str = "ghcr.io/lvillis/tino:0.1.26@sha256:8ad7b87083aee56d97f68c355bf57ad0a55ad5b00508f87dd86e148dcf91374b";
const SALUS: &str = "ghcr.io/lvillis/salus:0.1.8@sha256:8ad7b87083aee56d97f68c355bf57ad0a55ad5b00508f87dd86e148dcf91374b";

fn make_target(package: &str, canonical: &[&str], alias: &[&str]) -> ImageTarget {
    ImageTarget {
        schema: 1,
        id: "sample".to_string(),
        family: package.trim_start_matches("keeline-").to_string(),
        line: "21".to_string(),
        version: "21.0.10".to_string(),
        distro: Some("trixie".to_string()),
        package: package.to_string(),
        publish: true,
        status: ImageStatus::Stable,
        variant: "default".to_string(),
        context: "images/sample".to_string(),
        dockerfile: "images/sample/Dockerfile".to_string(),
        platforms: vec!["linux/amd64".to_string()],
        base_image: "docker.io/library/debian:13".to_string(),
        builder_image: None,
        title: "Sample".to_string(),
        description: "Sample image".to_string(),
        command: vec!["bash".to_string()],
        canonical_tags: canonical.iter().map(|value| value.to_string()).collect(),
        alias_tags: alias.iter().map(|value| value.to_string()).collect(),
        init: None,
        healthcheck: None,
        tools: Vec::new(),
        source: None,
        java: None,
        definition_file: "images/sample/image.toml".to_string(),
    }
}

fn debian_target(id: &str, canonical: &[&str]) -> ImageTarget {
    let mut t = make_target("keeline-debian", canonical, &[]);
    t.id = id.to_string();
    t.init = Some(InitRuntime {
        provider: "tino".to_string(),
        release: "0.1.26".to_string(),
        image: Some(TINO.to_string()),
        binary_path: "/sbin/tino".to_string(),
        install_packages: Vec::new(),
        strip_components: 1,
        entrypoint: vec!["/sbin/tino".to_string(), "-g".to_string()],
        archives: Vec::new(),
    });
    t.healthcheck = Some(HealthcheckRuntime {
        provider: "salus".to_string(),
        release: "0.1.8".to_string(),
        image: Some(SALUS.to_string()),
        binary_path: "/bin/salus".to_string(),
        install_packages: Vec::new(),
        strip_components: 1,
        archives: Vec::new(),
    });
    t
}

#[test]
fn accepts_debian_tags() {
    let patterns = CatalogPatterns::compile().unwrap();
    let target = make_target("keeline-debian", &["13", "13-slim"], &["trixie"]);
    validate_tags(&vec![target], 0, &patterns).unwrap();
}

#[test]
fn rejects_banned_tags() {
    let patterns = CatalogPatterns::compile().unwrap();
    let target = make_target("keeline-debian", &["latest"], &[]);
    assert!(validate_tags(&vec![target], 0, &patterns).is_err());
}

#[test]
fn accepts_jdk_update_tags() {
    let patterns = CatalogPatterns::compile().unwrap();
    let target = make_target("keeline-java", &["jdk-8u372-trixie"], &[]);
    validate_tags(&vec![target], 0, &patterns).unwrap();
}

#[test]
fn accepts_digest_pinned_tool_source_images() {
    let patterns = CatalogPatterns::compile().unwrap();
    let target = make_target("keeline-debian", &["13"], &[]);
    let archives: Vec<SourceArchive> = Vec::new();
    validate_tool_source(
        &target,
        ArchiveKind::Init,
        &Some(TINO.to_string()),
        &Vec::new(),
        &archives,
        &patterns,
    )
    .unwrap();
}

#[test]
fn rejects_mutable_tool_source_images() {
    let patterns = CatalogPatterns::compile().unwrap();
    let target = make_target("keeline-debian", &["13"], &[]);
    let archives: Vec<SourceArchive> = Vec::new();
    assert!(validate_tool_source(
        &target,
        ArchiveKind::Init,
        &Some("ghcr.io/lvillis/tino:0.1.26".to_string()),
        &Vec::new(),
        &archives,
        &patterns,
    )
    .is_err());
}

#[test]
fn names_the_tag_rule_that_fails() {
    let patterns = CatalogPatterns::compile().unwrap();
    let banned = make_target("keeline-debian", &["latest"], &[]);
    assert!(matches!(
        validate_tags(&vec![banned], 0, &patterns),
        Err(Issue::BannedTag(t)) if t == "latest"
    ));
    let repeated = make_target("keeline-debian", &["13", "13"], &[]);
    assert!(matches!(
        validate_tags(&vec![repeated], 0, &patterns),
        Err(Issue::RepeatedTag(t)) if t == "13"
    ));
    let invalid = make_target("keeline-debian", &["13_x"], &[]);
    assert!(matches!(
        validate_tags(&vec![invalid], 0, &patterns),
        Err(Issue::InvalidCanonicalTag(_))
    ));
    let first = make_target("keeline-debian", &["13"], &[]);
    let second = make_target("keeline-debian", &["13"], &[]);
    assert!(matches!(
        validate_tags(&vec![first, second], 1, &patterns),
        Err(Issue::DuplicatePublishedTag(t)) if t == "13"
    ));
}

#[test]
fn names_the_tool_source_rule_that_fails() {
    let patterns = CatalogPatterns::compile().unwrap();
    let target = make_target("keeline-debian", &["13"], &[]);
    let none: Vec<SourceArchive> = Vec::new();
    assert!(matches!(
        validate_tool_source(&target, ArchiveKind::Init, &None, &Vec::new(), &none, &patterns),
        Err(Issue::NoToolSource(ArchiveKind::Init))
    ));
    assert!(matches!(
        validate_tool_source(
            &target,
            ArchiveKind::Healthcheck,
            &Some("UPPER:tag".to_string()),
            &Vec::new(),
            &none,
            &patterns
        ),
        Err(Issue::InvalidToolImage(ArchiveKind::Healthcheck, _))
    ));
    assert!(matches!(
        validate_tool_source(
            &target,
            ArchiveKind::Init,
            &Some("ghcr.io/lvillis/tino:0.1.26".to_string()),
            &Vec::new(),
            &none,
            &patterns
        ),
        Err(Issue::UnpinnedToolImage(ArchiveKind::Init))
    ));
}

#[test]
fn accepts_a_complete_debian_catalog() {
    let catalog = ImageCatalog {
        root: "images".to_string(),
        targets: vec![debian_target("debian-13", &["13"])],
    };
    catalog.validate(true).unwrap();
}

#[test]
fn refuses_missing_roots_and_empty_catalogs() {
    let empty = ImageCatalog { root: "images".to_string(), targets: Vec::new() };
    assert!(matches!(empty.validate(false), Err(ValidationError::MissingRoot)));
    assert!(matches!(empty.validate(true), Err(ValidationError::NoTargets)));
}

#[test]
fn refuses_duplicate_ids_and_published_tags() {
    let catalog = ImageCatalog {
        root: "images".to_string(),
        targets: vec![debian_target("debian-13", &["13"]), debian_target("debian-13", &["13-slim"])],
    };
    match catalog.validate(true) {
        Err(ValidationError::Target { id, issue, .. }) => {
            assert_eq!(id, "debian-13");
            assert!(matches!(issue, Issue::DuplicateId));
        }
        other => panic!("unexpected {:?}", other),
    }
    let catalog = ImageCatalog {
        root: "images".to_string(),
        targets: vec![debian_target("debian-13", &["13"]), debian_target("debian-13-slim", &["13"])],
    };
    match catalog.validate(true) {
        Err(ValidationError::Target { id, issue, .. }) => {
            assert_eq!(id, "debian-13-slim");
            assert!(matches!(issue, Issue::DuplicatePublishedTag(t) if t == "13"));
        }
        other => panic!("unexpected {:?}", other),
    }
}

#[test]
fn matches_patterns_through_the_regex_engine() {
    let p = Pattern::new(r"^[a-z]+$").unwrap();
    assert!(p.is_match("abc"));
    assert!(!p.is_match("ABC"));
    assert!(Pattern::new(r"(").is_err());
}
