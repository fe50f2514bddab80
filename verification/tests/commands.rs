use keeline::commands::{
    normalize_git_url, platform_runner, platform_suffix, reference, registry_cache_from,
    registry_cache_to, tag_with_suffix, CommandError,
};
use keeline::docker::DockerBuild;
use keeline::model::{
    HealthcheckRuntime, ImageCatalog, ImageSource, ImageStatus, ImageTarget, InitRuntime, SourceArchive,
};
use keeline::output::Table;
use keeline::summary::{render_message, render_status, render_summary, SyncSummary};

fn make_target(id: &str, publish: bool, status: ImageStatus) -> ImageTarget {
    ImageTarget {
        schema: 1,
        id: id.to_string(),
        family: "jdk".to_string(),
        line: "21".to_string(),
        version: "21.0.10".to_string(),
        distro: Some("trixie".to_string()),
        package: "keeline-jdk".to_string(),
        publish,
        status,
        variant: "default".to_string(),
        context: "images/jdk/21/trixie".to_string(),
        dockerfile: "images/jdk/21/trixie/Dockerfile".to_string(),
        platforms: vec!["linux/amd64".to_string()],
        base_image: "docker.io/library/debian:13".to_string(),
        builder_image: None,
        title: "Sample".to_string(),
        description: "Sample image".to_string(),
        command: vec!["jshell".to_string()],
        canonical_tags: vec!["21-trixie".to_string()],
        alias_tags: Vec::new(),
        init: None,
        healthcheck: None,
        tools: Vec::new(),
        source: None,
        java: None,
        definition_file: "images/jdk/21/trixie/image.toml".to_string(),
    }
}

#[test]
fn renders_hidden_status_label_for_unpublished_targets() {
    assert_eq!(render_status(true, "stable"), "stable");
    assert_eq!(render_status(false, "experimental"), "experimental/hidden");
}

#[test]
fn maps_supported_platforms_to_release_suffixes_and_runners() {
    assert_eq!(platform_suffix("linux/amd64").unwrap(), "amd64");
    assert_eq!(platform_suffix("linux/arm64").unwrap(), "arm64");
    assert_eq!(platform_runner("linux/amd64").unwrap(), "ubuntu-latest");
    assert_eq!(platform_runner("linux/arm64").unwrap(), "ubuntu-24.04-arm");
}

#[test]
fn rejects_unsupported_native_release_platforms() {
    assert!(platform_suffix("linux/arm/v7").is_err());
    assert!(platform_runner("linux/arm/v7").is_err());
}

#[test]
fn unsupported_platform_error_names_the_platform() {
    match platform_suffix("linux/arm/v7") {
        Err(CommandError::UnsupportedPlatform(p)) => assert_eq!(p, "linux/arm/v7"),
        other => panic!("unexpected {:?}", other),
    }
}

#[test]
fn appends_arch_suffix_to_release_tags() {
    assert_eq!(tag_with_suffix("13-slim", "arm64"), "13-slim-arm64");
}

#[test]
fn describes_when_everything_is_already_current() {
    assert_eq!(
        render_message(SyncSummary {
            generated: 0,
            updated: 0,
            unchanged: 7,
        }),
        "all dockerfiles already up to date"
    );
}

#[test]
fn describes_generated_and_unchanged_files() {
    assert_eq!(
        render_message(SyncSummary {
            generated: 1,
            updated: 0,
            unchanged: 6,
        }),
        "generated 1 dockerfile, 6 dockerfiles already up to date"
    );
}

#[test]
fn describes_updated_files_in_plural() {
    assert_eq!(
        render_message(SyncSummary {
            generated: 2,
            updated: 3,
            unchanged: 0,
        }),
        "generated 2 dockerfiles, updated 3 dockerfiles"
    );
}

#[test]
fn summarises_render_after_tool_updates() {
    assert_eq!(
        render_summary(SyncSummary {
            generated: 0,
            updated: 0,
            unchanged: 4,
        }),
        "all dockerfiles already up to date"
    );
    assert_eq!(
        render_summary(SyncSummary {
            generated: 1,
            updated: 2,
            unchanged: 3,
        }),
        "generated 1 dockerfile, updated 2 dockerfiles, 3 unchanged"
    );
}

#[test]
fn display_includes_explicit_cache_options() {
    let request = DockerBuild {
        context: "images/java/21/trixie".to_string(),
        dockerfile: "images/java/21/trixie/Dockerfile".to_string(),
        build_args: vec![(
            "KEELINE_IMAGE_SOURCE".to_string(),
            "https://example.com/repo".to_string(),
        )],
        cache_from: vec!["type=registry,ref=ghcr.io/example/keeline-java:buildcache".to_string()],
        cache_to: vec![
            "type=registry,ref=ghcr.io/example/keeline-java:buildcache,mode=max".to_string(),
        ],
        metadata_file: Some("target/keeline-release-metadata/sample.json".to_string()),
        tags: vec!["ghcr.io/example/keeline-java:jdk-21-trixie".to_string()],
        platforms: vec!["linux/amd64".to_string(), "linux/arm64".to_string()],
        sbom: true,
        provenance: true,
        push: true,
        load: false,
    };

    let display = request.display();
    assert!(display.contains("--cache-from type=registry,ref=ghcr.io/example/keeline-java:buildcache"));
    assert!(display
        .contains("--cache-to type=registry,ref=ghcr.io/example/keeline-java:buildcache,mode=max"));
    assert!(display.contains("--metadata-file target/keeline-release-metadata/sample.json"));
    assert!(display.contains("--sbom=true"));
    assert!(display.contains("--provenance=true"));
}

#[test]
fn release_targets_include_only_stable_published_images() {
    let catalog = ImageCatalog {
        root: "images".to_string(),
        targets: vec![
            make_target("stable", true, ImageStatus::Stable),
            make_target("experimental", true, ImageStatus::Experimental),
            make_target("disabled", true, ImageStatus::Disabled),
            make_target("hidden", false, ImageStatus::Stable),
        ],
    };

    let ids: Vec<&str> = catalog
        .release_targets()
        .iter()
        .map(|target| target.id.as_str())
        .collect();

    assert_eq!(ids, vec!["stable"]);
    assert_eq!(catalog.release_target_count(), 1);
}

#[test]
fn finds_targets_by_id() {
    let catalog = ImageCatalog {
        root: "images".to_string(),
        targets: vec![
            make_target("debian-13", true, ImageStatus::Stable),
            make_target("java-21-trixie", true, ImageStatus::Stable),
        ],
    };
    assert_eq!(catalog.target("java-21-trixie").unwrap().id, "java-21-trixie");
    assert!(catalog.target("scratch-1").is_none());
}

#[test]
fn renders_aligned_tables() {
    let mut table = Table::new(vec!["ID".to_string(), "STATUS".to_string()]);
    table.push_row(vec!["java-21-trixie".to_string(), "stable".to_string()]);
    table.push_row(vec!["scratch-1".to_string(), "experimental".to_string()]);

    assert_eq!(
        table.render(),
        "ID              STATUS      \n\
         --------------  ------------\n\
         java-21-trixie  stable      \n\
         scratch-1       experimental\n"
    );
}

#[test]
fn normalizes_github_remote_urls() {
    assert_eq!(
        normalize_git_url("git@github.com:lvillis/keeline.git".to_string()),
        "https://github.com/lvillis/keeline"
    );
    assert_eq!(
        normalize_git_url("https://github.com/lvillis/keeline.git".to_string()),
        "https://github.com/lvillis/keeline"
    );
    assert_eq!(
        normalize_git_url("https://example.com/repo.git".to_string()),
        "https://example.com/repo"
    );
}

#[test]
fn builds_references_and_registry_cache_options() {
    assert_eq!(
        reference("ghcr.io/lvillis/keeline-debian", "13"),
        "ghcr.io/lvillis/keeline-debian:13"
    );
    assert_eq!(
        registry_cache_from("ghcr.io/lvillis/keeline-debian", "buildcache"),
        vec!["type=registry,ref=ghcr.io/lvillis/keeline-debian:buildcache".to_string()]
    );
    assert_eq!(
        registry_cache_to("ghcr.io/lvillis/keeline-debian", "buildcache"),
        vec!["type=registry,ref=ghcr.io/lvillis/keeline-debian:buildcache,mode=max".to_string()]
    );
}

fn archive(platform: &str, url: &str) -> SourceArchive {
    SourceArchive {
        platform: platform.to_string(),
        url: url.to_string(),
        sha256: "0".repeat(64),
    }
}

#[test]
fn finds_the_first_archive_for_a_platform() {
    let mut t = make_target("java-21-trixie", true, ImageStatus::Stable);
    t.source = Some(ImageSource {
        provider: "adoptium-temurin".to_string(),
        release: "21.0.10".to_string(),
        gpg_key: "key".to_string(),
        strip_components: 1,
        archives: vec![
            archive("linux/amd64", "https://a/1"),
            archive("linux/arm64", "https://a/2"),
            archive("linux/amd64", "https://a/3"),
        ],
    });
    t.init = Some(InitRuntime {
        provider: "tino".to_string(),
        release: "0.1.26".to_string(),
        image: None,
        binary_path: "/sbin/tino".to_string(),
        install_packages: vec!["wget".to_string()],
        strip_components: 1,
        entrypoint: vec!["/sbin/tino".to_string()],
        archives: vec![archive("linux/arm64", "https://t/1")],
    });
    t.healthcheck = Some(HealthcheckRuntime {
        provider: "salus".to_string(),
        release: "0.1.8".to_string(),
        image: None,
        binary_path: "/bin/salus".to_string(),
        install_packages: vec!["wget".to_string()],
        strip_components: 1,
        archives: Vec::new(),
    });
    assert_eq!(t.source_archive_for_platform("linux/amd64").unwrap().url, "https://a/1");
    assert_eq!(t.source_archive_for_platform("linux/arm64").unwrap().url, "https://a/2");
    assert!(t.source_archive_for_platform("linux/s390x").is_none());
    assert_eq!(t.init_archive_for_platform("linux/arm64").unwrap().url, "https://t/1");
    assert!(t.init_archive_for_platform("linux/amd64").is_none());
    assert!(t.healthcheck_archive_for_platform("linux/amd64").is_none());
    assert_eq!(t.all_tags(), vec!["21-trixie".to_string()]);
    assert_eq!(t.primary_tag(), "21-trixie");
    assert_eq!(t.repository("lvillis"), "ghcr.io/lvillis/keeline-jdk");
}
