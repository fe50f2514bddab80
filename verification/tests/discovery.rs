use keeline::cli::MatrixArgs;
use keeline::commands::CommandError;
use keeline::discovery::{expand_definition, DefinitionFile};
use keeline::matrix::matrix_entries;
use keeline::model::{
    ImageCatalog, ImageStatus, RawImageDefinition, RawJavaRuntime, RawToolRuntime, RawVariant,
    ToolRole,
};
use keeline::plans::{
    build_request, manifest_requests, metadata_file, release_request, release_tag_suffix,
    select_release_targets,
};
use keeline::cli::RenderArgs;
use keeline::summary::{list_rows, render_selection, verify_message};

fn variant(name: &str, canonical: &[&str]) -> RawVariant {
    RawVariant {
        name: name.to_string(),
        dockerfile: if name == "default" {
            "Dockerfile".to_string()
        } else {
            format!("{name}.Dockerfile")
        },
        base_image: "docker.io/library/debian:13".to_string(),
        builder_image: None,
        title: "Debian".to_string(),
        description: "Debian image".to_string(),
        command: vec!["bash".to_string()],
        runtime_packages: None,
        lang: None,
        language: None,
        lc_all: None,
        generate_locales: None,
        canonical: canonical.iter().map(|t| t.to_string()).collect(),
        alias: Vec::new(),
    }
}

fn raw_tool(role: ToolRole) -> RawToolRuntime {
    RawToolRuntime {
        role,
        release: "1.0.0".to_string(),
        image: None,
        source_path: "/x".to_string(),
        target_path: "/bin/x".to_string(),
        install_packages: Vec::new(),
        strip_components: 1,
        entrypoint: Vec::new(),
        archives: Vec::new(),
    }
}

fn definition(id: &str, publish: bool, status: ImageStatus) -> RawImageDefinition {
    RawImageDefinition {
        schema: 1,
        family: "debian".to_string(),
        line: "13".to_string(),
        version: "13".to_string(),
        distro: None,
        id: id.to_string(),
        package: "keeline-debian".to_string(),
        publish,
        status,
        platforms: vec!["linux/amd64".to_string(), "linux/arm64".to_string()],
        init: None,
        healthcheck: None,
        tools: vec![
            ("motdyn".to_string(), raw_tool(ToolRole::Motd)),
            ("tino".to_string(), raw_tool(ToolRole::Init)),
            ("salus".to_string(), raw_tool(ToolRole::Healthcheck)),
        ],
        source: None,
        java: None,
        variants: vec![variant("default", &["13"]), variant("slim", &["13-slim"])],
    }
}

fn catalog() -> ImageCatalog {
    let files = vec![
        DefinitionFile {
            definition: definition("scratch-1", true, ImageStatus::Experimental),
            path: "images/scratch/1/image.toml".to_string(),
            context: "images/scratch/1".to_string(),
        },
        DefinitionFile {
            definition: definition("debian-13", true, ImageStatus::Stable),
            path: "images/debian/13/image.toml".to_string(),
            context: "images/debian/13".to_string(),
        },
    ];
    ImageCatalog::discover("images".to_string(), &files)
}

#[test]
fn expands_each_variant_into_a_target() {
    let def = definition("debian-13", true, ImageStatus::Stable);
    let targets = expand_definition(&def, "images/debian/13/image.toml", "images/debian/13");
    assert_eq!(targets.len(), 2);
    assert_eq!(targets[0].id, "debian-13");
    assert_eq!(targets[1].id, "debian-13-slim");
    assert_eq!(targets[1].dockerfile, "images/debian/13/slim.Dockerfile");
    assert_eq!(targets[0].context, "images/debian/13");
    let names: Vec<&str> = targets[0].tools.iter().map(|t| t.name.as_str()).collect();
    assert_eq!(names, vec!["tino", "salus", "motdyn"]);
}

#[test]
fn applies_java_variant_overrides() {
    let mut def = definition("java-21-trixie", true, ImageStatus::Stable);
    def.java = Some(RawJavaRuntime {
        java_home: "/opt/java".to_string(),
        builder_packages: vec!["binutils".to_string()],
        runtime_packages: vec!["ca-certificates".to_string(), "locales".to_string()],
        lang: "en_US.UTF-8".to_string(),
        language: "en_US:en".to_string(),
        lc_all: "en_US.UTF-8".to_string(),
        generate_locales: true,
        verify_commands: Vec::new(),
        trim_files: Vec::new(),
    });
    def.variants[1].runtime_packages = Some(vec!["ca-certificates".to_string()]);
    def.variants[1].lang = Some("C.UTF-8".to_string());
    def.variants[1].generate_locales = Some(false);
    let targets = expand_definition(&def, "images/java/21/trixie/image.toml", "images/java/21/trixie");
    let default = targets[0].java.as_ref().unwrap();
    let slim = targets[1].java.as_ref().unwrap();
    assert_eq!(default.runtime_packages.len(), 2);
    assert_eq!(slim.runtime_packages, vec!["ca-certificates".to_string()]);
    assert_eq!(slim.lang, "C.UTF-8");
    assert_eq!(slim.language, "en_US:en");
    assert!(!slim.generate_locales);
}

#[test]
fn sorts_the_catalog_by_id() {
    let c = catalog();
    let ids: Vec<&str> = c.targets.iter().map(|t| t.id.as_str()).collect();
    assert_eq!(ids, vec!["debian-13", "debian-13-slim", "scratch-1", "scratch-1-slim"]);
    assert_eq!(c.package_count(), 1);
    assert_eq!(
        verify_message(&c),
        "validated 4 image targets across 1 packages and confirmed rendered dockerfiles"
    );
}

#[test]
fn builds_the_release_matrix() {
    let c = catalog();
    let entries = matrix_entries(&c, &MatrixArgs { pretty: false, all: false, per_platform: false }).unwrap();
    let ids: Vec<&str> = entries.iter().map(|e| e.id.as_str()).collect();
    assert_eq!(ids, vec!["debian-13", "debian-13-slim"]);
    let all = matrix_entries(&c, &MatrixArgs { pretty: false, all: true, per_platform: true }).unwrap();
    assert_eq!(all.len(), 8);
    assert_eq!(all[1].platform.as_deref(), Some("linux/arm64"));
    assert_eq!(all[1].arch.as_deref(), Some("arm64"));
    assert_eq!(all[1].runner.as_deref(), Some("ubuntu-24.04-arm"));
    assert_eq!(all[2].id, "debian-13-slim");
    assert_eq!(all[4].status, "experimental");
}

#[test]
fn refuses_matrix_platforms_that_are_not_native() {
    let mut c = catalog();
    c.targets[0].platforms.push("linux/arm/v7".to_string());
    match matrix_entries(&c, &MatrixArgs { pretty: false, all: false, per_platform: true }) {
        Err(CommandError::UnsupportedPlatform(p)) => assert_eq!(p, "linux/arm/v7"),
        other => panic!("unexpected {:?}", other.map(|e| e.len())),
    }
}

#[test]
fn selects_release_targets() {
    let c = catalog();
    let all = select_release_targets(&c, &None).unwrap();
    assert_eq!(all.len(), 2);
    let one = select_release_targets(&c, &Some("debian-13-slim".to_string())).unwrap();
    assert_eq!(one[0].id, "debian-13-slim");
    assert!(matches!(
        select_release_targets(&c, &Some("nope".to_string())),
        Err(CommandError::UnknownImage(_))
    ));
    assert!(matches!(
        select_release_targets(&c, &Some("scratch-1".to_string())),
        Err(CommandError::NotReleasable { publish: true, status: ImageStatus::Experimental, .. })
    ));
    let mut hidden = catalog();
    for t in hidden.targets.iter_mut() {
        t.publish = false;
    }
    assert!(matches!(
        select_release_targets(&hidden, &None),
        Err(CommandError::NoReleasableTargets)
    ));
}

#[test]
fn derives_release_tag_suffixes() {
    let amd = Some("linux/amd64".to_string());
    assert_eq!(release_tag_suffix(&amd, &None).unwrap().as_deref(), Some("amd64"));
    assert_eq!(
        release_tag_suffix(&amd, &Some("x".to_string())).unwrap().as_deref(),
        Some("x")
    );
    assert_eq!(release_tag_suffix(&None, &None).unwrap(), None);
    assert!(matches!(
        release_tag_suffix(&None, &Some("x".to_string())),
        Err(CommandError::TagSuffixWithoutPlatform)
    ));
    assert!(matches!(
        release_tag_suffix(&amd, &Some("  ".to_string())),
        Err(CommandError::EmptyTagSuffix)
    ));
    assert!(matches!(
        release_tag_suffix(&Some("linux/arm/v7".to_string()), &None),
        Err(CommandError::UnsupportedPlatform(p)) if p == "linux/arm/v7"
    ));
}

#[test]
fn plans_release_builds() {
    let c = catalog();
    let t = &c.targets[0];
    assert_eq!(
        metadata_file(t, &Some("arm64".to_string())),
        "target/keeline-release-metadata/debian-13-arm64.json"
    );
    let b = release_request(t, "lvillis", &Some("linux/arm64".to_string()), &Some("arm64".to_string()), &Vec::new()).unwrap();
    assert_eq!(b.tags, vec!["ghcr.io/lvillis/keeline-debian:13-arm64".to_string()]);
    assert_eq!(b.platforms, vec!["linux/arm64".to_string()]);
    assert_eq!(
        b.cache_from,
        vec!["type=registry,ref=ghcr.io/lvillis/keeline-debian:buildcache-arm64".to_string()]
    );
    assert!(b.push && b.sbom && b.provenance && !b.load);
    assert!(matches!(
        release_request(t, "lvillis", &Some("linux/s390x".to_string()), &None, &Vec::new()),
        Err(CommandError::PlatformNotSupported { .. })
    ));
    let local = build_request(t, &None, &None, Vec::new());
    assert_eq!(local.tags, vec!["keeline-local/keeline-debian:13".to_string()]);
    assert!(local.load && !local.push);
}

#[test]
fn plans_multi_platform_manifests() {
    let c = catalog();
    let manifests = manifest_requests(&c.targets[0], "lvillis").unwrap();
    assert_eq!(manifests.len(), 1);
    assert_eq!(manifests[0].tags, vec!["ghcr.io/lvillis/keeline-debian:13".to_string()]);
    assert_eq!(
        manifests[0].sources,
        vec![
            "ghcr.io/lvillis/keeline-debian:13-amd64".to_string(),
            "ghcr.io/lvillis/keeline-debian:13-arm64".to_string()
        ]
    );
}

#[test]
fn lists_targets_as_rows() {
    let c = catalog();
    let rows = list_rows(&c, "lvillis");
    assert_eq!(rows.len(), 4);
    assert_eq!(
        rows[2],
        vec![
            "scratch-1".to_string(),
            "experimental".to_string(),
            "ghcr.io/lvillis/keeline-debian:13".to_string(),
            "images/scratch/1".to_string()
        ]
    );
}

#[test]
fn selects_render_targets() {
    let c = catalog();
    let all = render_selection(&c, &RenderArgs { image_id: None, check: false, stdout: false }).unwrap();
    assert_eq!(all.len(), 4);
    assert!(matches!(
        render_selection(&c, &RenderArgs { image_id: None, check: false, stdout: true }),
        Err(CommandError::StdoutNeedsOneImage)
    ));
    let one = render_selection(
        &c,
        &RenderArgs { image_id: Some("scratch-1".to_string()), check: false, stdout: true },
    )
    .unwrap();
    assert_eq!(one[0].id, "scratch-1");
    assert!(matches!(
        render_selection(&c, &RenderArgs { image_id: Some("nope".to_string()), check: false, stdout: false }),
        Err(CommandError::UnknownImage(_))
    ));
}
