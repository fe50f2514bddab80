use keeline::checks::{
    any_newer, apply_updates_to_file, check_row, choose_release, declaration_row, files_to_update,
    finish_check, idle_message, planned_updates, prepare_check, reusable_digest,
    updated_file_count, updated_message, CheckPlan, ToolCheck,
};
use keeline::declarations::{insert_sorted, selected_declarations, tool_declarations};
use keeline::paths::{insert_path, str_path_lt};
use keeline::model::{ImageCatalog, ImageStatus, ImageTarget, ToolRole, ToolRuntime};
use keeline::summary::SyncSummary;
use keeline::tools::{
    derive_tag_suffix, parse_pinned_image_reference, percent_encode, short_digest,
    tool_block_range, update_tool_block, PlannedToolUpdate, ToolError,
};
use keeline::versions::{
    matching_versions, parse_stable, select_release, stable_from, version_string, ParsedVersion,
    StableVersion, ToolStatus,
};

const TINO: &str = "ghcr.io/lvillis/tino:0.1.26@sha256:8ad7b87083aee56d97f68c355bf57ad0a55ad5b00508f87dd86e148dcf91374b";
const SALUS: &str = "ghcr.io/lvillis/salus:0.1.8-slim@sha256:1111111111111111111111111111111111111111111111111111111111111111";

#[test]
fn parses_pinned_ghcr_image_references() {
    let image = parse_pinned_image_reference(
        "ghcr.io/lvillis/motdyn:1.0.14-slim@sha256:68eb88ae6031b08afaade56e04a0497f6139f80445bb6b3d27dc03a294ed1ef6",
    )
    .unwrap();

    assert_eq!(image.registry, "ghcr.io");
    assert_eq!(image.repository, "lvillis/motdyn");
    assert_eq!(image.tag, "1.0.14-slim");
    assert_eq!(image.tag_reference(), "ghcr.io/lvillis/motdyn:1.0.14-slim");
}

#[test]
fn parsed_reference_puts_back_together() {
    let image = parse_pinned_image_reference(TINO).unwrap();
    assert_eq!(
        image.with_tag_and_digest(&image.tag, &image.digest),
        TINO
    );
    assert_eq!(image.digest, "sha256:8ad7b87083aee56d97f68c355bf57ad0a55ad5b00508f87dd86e148dcf91374b");
}

#[test]
fn refuses_references_that_are_not_pinned() {
    assert!(matches!(
        parse_pinned_image_reference("ghcr.io/lvillis/tino:0.1.26"),
        Err(ToolError::NotPinned(_))
    ));
    assert!(matches!(
        parse_pinned_image_reference("ghcr.io/lvillis/tino:0.1.26@md5:abc"),
        Err(ToolError::NotSha256(_))
    ));
    assert!(matches!(
        parse_pinned_image_reference("tino:0.1.26@sha256:abc"),
        Err(ToolError::NoRegistry(_))
    ));
    assert!(matches!(
        parse_pinned_image_reference("ghcr.io/lvillis/tino@sha256:abc"),
        Err(ToolError::NoTag(_))
    ));
    assert!(matches!(
        parse_pinned_image_reference("localhost:5000/tino@sha256:abc"),
        Err(ToolError::TagBeforeRepository(_))
    ));
}

#[test]
fn derives_custom_tag_suffix_from_release() {
    assert_eq!(derive_tag_suffix("1.0.14", "1.0.14-slim").unwrap(), "-slim");
    assert_eq!(derive_tag_suffix("0.1.26", "0.1.26").unwrap(), "");
    assert!(derive_tag_suffix("1.0.14", "latest").is_err());
}

#[test]
fn names_the_tag_and_release_that_do_not_match() {
    match derive_tag_suffix("1.0.14", "latest") {
        Err(ToolError::TagPrefix { tag, release }) => {
            assert_eq!(tag, "latest");
            assert_eq!(release, "1.0.14");
        }
        other => panic!("unexpected {:?}", other),
    }
}

#[test]
fn matches_stable_versions_with_expected_suffix() {
    let tags = vec![
        "1.0.13-slim".to_string(),
        "1.0.14-slim".to_string(),
        "1.0.15".to_string(),
        "1.0.15-beta-slim".to_string(),
        "sha256:example".to_string(),
    ];
    let versions = matching_versions(&tags, "-slim");

    assert_eq!(
        versions
            .iter()
            .map(|candidate| version_string(candidate.version))
            .collect::<Vec<_>>(),
        vec!["1.0.13", "1.0.14"]
    );
}

#[test]
fn reads_only_stable_versions() {
    assert_eq!(
        parse_stable("1.2.3"),
        Some(StableVersion { major: 1, minor: 2, patch: 3 })
    );
    assert_eq!(parse_stable("1.2.3-beta"), None);
    assert_eq!(parse_stable("1.2.3+build"), None);
    assert_eq!(parse_stable("1.2"), None);
}

#[test]
fn updates_only_the_selected_tool_block() {
    let contents = r#"[tools.tino]
release = "0.1.26"
image = "ghcr.io/lvillis/tino:0.1.26@sha256:old"

[tools.salus]
release = "0.1.8"
image = "ghcr.io/lvillis/salus:0.1.8@sha256:keep"
"#;
    let update = PlannedToolUpdate {
        name: "tino".to_string(),
        old_release: "0.1.26".to_string(),
        new_release: "0.1.27".to_string(),
        old_image: "ghcr.io/lvillis/tino:0.1.26@sha256:old".to_string(),
        new_image: "ghcr.io/lvillis/tino:0.1.27@sha256:new".to_string(),
        definition_files: Default::default(),
    };

    let updated = update_tool_block(contents, &update).unwrap();

    assert!(updated.contains("release = \"0.1.27\""));
    assert!(updated.contains("image = \"ghcr.io/lvillis/tino:0.1.27@sha256:new\""));
    assert!(updated.contains("image = \"ghcr.io/lvillis/salus:0.1.8@sha256:keep\""));
}

#[test]
fn finds_tool_block_ranges() {
    let contents = "[tools.tino]\nrelease = \"1\"\n\n[tools.salus]\nrelease = \"2\"\n";
    assert_eq!(tool_block_range(contents, "tino"), Some((0, 28)));
    assert_eq!(tool_block_range(contents, "salus"), Some((28, contents.chars().count())));
    assert_eq!(tool_block_range(contents, "motdyn"), None);
}

#[test]
fn reports_why_a_tool_block_cannot_be_updated() {
    let contents = "[tools.tino]\nrelease = \"0.1.26\"\nimage = \"a\"\n";
    let mut update = PlannedToolUpdate {
        name: "salus".to_string(),
        old_release: "0.1.26".to_string(),
        new_release: "0.1.27".to_string(),
        old_image: "a".to_string(),
        new_image: "b".to_string(),
        definition_files: Vec::new(),
    };
    assert!(matches!(
        update_tool_block(contents, &update),
        Err(ToolError::BlockNotFound(_))
    ));
    update.name = "tino".to_string();
    update.old_release = "0.1.25".to_string();
    assert!(matches!(
        update_tool_block(contents, &update),
        Err(ToolError::MissingRelease { .. })
    ));
    update.old_release = "0.1.26".to_string();
    update.old_image = "z".to_string();
    assert!(matches!(
        update_tool_block(contents, &update),
        Err(ToolError::MissingImage { .. })
    ));
    update.old_image = "a".to_string();
    assert_eq!(
        update_tool_block(contents, &update).unwrap(),
        "[tools.tino]\nrelease = \"0.1.27\"\nimage = \"b\"\n"
    );
}

#[test]
fn percent_encodes_registry_scopes() {
    assert_eq!(
        percent_encode("repository:lvillis/motdyn:pull"),
        "repository%3Alvillis%2Fmotdyn%3Apull"
    );
}

#[test]
fn percent_encoding_keeps_unreserved_text() {
    assert_eq!(percent_encode("abc-XYZ_0.9~"), "abc-XYZ_0.9~");
    assert_eq!(percent_encode("é"), "%C3%A9");
}

#[test]
fn shortens_digests_to_twelve_characters() {
    assert_eq!(
        short_digest("sha256:68eb88ae6031b08afaade56e04a0497f6139f80445bb6b3d27dc03a294ed1ef6"),
        "sha256:68eb88ae6031"
    );
    assert_eq!(short_digest("abc"), "sha256:abc");
}

fn tool(name: &str, role: ToolRole, release: &str, image: &str) -> ToolRuntime {
    ToolRuntime {
        name: name.to_string(),
        role,
        release: release.to_string(),
        image: Some(image.to_string()),
        source_path: format!("/{name}"),
        target_path: format!("/bin/{name}"),
        install_packages: Vec::new(),
        strip_components: 1,
        entrypoint: Vec::new(),
        archives: Vec::new(),
    }
}

fn target(id: &str, file: &str, tools: Vec<ToolRuntime>) -> ImageTarget {
    ImageTarget {
        schema: 1,
        id: id.to_string(),
        family: "debian".to_string(),
        line: "13".to_string(),
        version: "13".to_string(),
        distro: None,
        package: "keeline-debian".to_string(),
        publish: true,
        status: ImageStatus::Stable,
        variant: "default".to_string(),
        context: "images/debian/13".to_string(),
        dockerfile: "images/debian/13/Dockerfile".to_string(),
        platforms: vec!["linux/amd64".to_string()],
        base_image: "docker.io/library/debian:13".to_string(),
        builder_image: None,
        title: "Debian".to_string(),
        description: "Debian image".to_string(),
        command: vec!["bash".to_string()],
        canonical_tags: vec!["13".to_string()],
        alias_tags: Vec::new(),
        init: None,
        healthcheck: None,
        tools,
        source: None,
        java: None,
        definition_file: file.to_string(),
    }
}

fn catalog() -> ImageCatalog {
    ImageCatalog {
        root: "images".to_string(),
        targets: vec![
            target(
                "debian-13",
                "images/debian/13/image.toml",
                vec![
                    tool("tino", ToolRole::Init, "0.1.26", TINO),
                    tool("salus", ToolRole::Healthcheck, "0.1.8", SALUS),
                ],
            ),
            target(
                "debian-13-slim",
                "images/debian/13/image.toml",
                vec![tool("tino", ToolRole::Init, "0.1.26", TINO)],
            ),
            target(
                "java-21-trixie",
                "images/java/21/trixie/image.toml",
                vec![tool("tino", ToolRole::Init, "0.1.26", TINO)],
            ),
        ],
    }
}

#[test]
fn groups_tool_blocks_into_declarations() {
    let declarations = tool_declarations(&catalog()).unwrap();
    let names: Vec<&str> = declarations.iter().map(|d| d.name.as_str()).collect();
    assert_eq!(names, vec!["salus", "tino"]);

    let tino = &declarations[1];
    assert_eq!(
        tino.definition_files,
        vec![
            "images/debian/13/image.toml".to_string(),
            "images/java/21/trixie/image.toml".to_string()
        ]
    );
    assert_eq!(
        tino.target_ids,
        vec![
            "debian-13".to_string(),
            "debian-13-slim".to_string(),
            "java-21-trixie".to_string()
        ]
    );
    assert_eq!(tino.tag_suffix.as_deref(), Some(""));
    let salus = &declarations[0];
    assert_eq!(salus.tag_suffix.as_deref(), Some("-slim"));
    assert_eq!(salus.image_ref.as_ref().unwrap().repository, "lvillis/salus");
}

#[test]
fn refuses_unpinned_tool_images_in_declarations() {
    let mut c = catalog();
    c.targets[1].tools[0].image = Some("ghcr.io/lvillis/tino:0.1.26".to_string());
    match tool_declarations(&c) {
        Err(ToolError::UnsupportedImageReference { target, tool, reason }) => {
            assert_eq!(target, "debian-13-slim");
            assert_eq!(tool, "tino");
            assert!(matches!(*reason, ToolError::NotPinned(_)));
        }
        other => panic!("unexpected {:?}", other.map(|d| d.len())),
    }
}

#[test]
fn selects_requested_tools_and_rejects_unknown_ones() {
    let c = catalog();
    let all = selected_declarations(&c, &Vec::new()).unwrap();
    assert_eq!(all.len(), 2);
    let tino = selected_declarations(&c, &vec!["tino".to_string()]).unwrap();
    assert_eq!(tino.len(), 1);
    assert_eq!(tino[0].name, "tino");
    match selected_declarations(&c, &vec!["zz".to_string(), "tino".to_string(), "aa".to_string()]) {
        Err(ToolError::UnknownTool(name)) => assert_eq!(name, "aa"),
        other => panic!("unexpected {:?}", other.map(|d| d.len())),
    }
}

#[test]
fn keeps_sorted_sets_of_strings() {
    let mut v: Vec<String> = Vec::new();
    insert_sorted(&mut v, "b".to_string());
    insert_sorted(&mut v, "a".to_string());
    insert_sorted(&mut v, "b".to_string());
    insert_sorted(&mut v, "c".to_string());
    assert_eq!(v, vec!["a".to_string(), "b".to_string(), "c".to_string()]);
}

#[test]
fn keeps_sets_of_paths_in_component_order() {
    let mut strings: Vec<String> = Vec::new();
    let mut paths: Vec<String> = Vec::new();
    for p in ["images/foo/image.toml", "images/foo-bar/image.toml"] {
        insert_sorted(&mut strings, p.to_string());
        insert_path(&mut paths, p.to_string());
    }
    assert_eq!(strings[0], "images/foo-bar/image.toml");
    assert_eq!(paths[0], "images/foo/image.toml");
    let mut expected: Vec<std::path::PathBuf> = paths.iter().map(std::path::PathBuf::from).collect();
    expected.sort();
    let got: Vec<std::path::PathBuf> = paths.iter().map(std::path::PathBuf::from).collect();
    assert_eq!(got, expected);
}

#[test]
fn keeps_the_first_text_of_each_path() {
    let mut paths: Vec<String> = Vec::new();
    for p in ["x//image.toml", "x/image.toml", "x/./image.toml", "./x/image.toml", "/x/image.toml"] {
        insert_path(&mut paths, p.to_string());
    }
    let mut set = std::collections::BTreeSet::new();
    for p in ["x//image.toml", "x/image.toml", "x/./image.toml", "./x/image.toml", "/x/image.toml"] {
        set.insert(std::path::PathBuf::from(p));
    }
    let expected: Vec<String> = set.iter().map(|p| p.display().to_string()).collect();
    assert_eq!(paths, expected);
    assert_eq!(
        paths,
        vec![
            "/x/image.toml".to_string(),
            "./x/image.toml".to_string(),
            "x//image.toml".to_string()
        ]
    );
}

#[test]
fn compares_paths_by_components() {
    assert!(same_path_text("a//b/", "a/b"));
    assert!(same_path_text("a/./b", "a/b"));
    assert!(!same_path_text("./a", "a"));
    assert!(!same_path_text("/a", "a"));
    assert!(str_path_lt("a/b", "a-b"));
    assert!(str_path_lt("..", "-x"));
    assert!(!str_path_lt("a/b", "a//b"));
}

fn same_path_text(a: &str, b: &str) -> bool {
    keeline::paths::str_same_path(a, b)
}

#[test]
fn lists_declarations_as_rows() {
    let declarations = tool_declarations(&catalog()).unwrap();
    assert_eq!(
        declaration_row(&declarations[1]),
        vec![
            "tino".to_string(),
            "init".to_string(),
            "0.1.26".to_string(),
            "ghcr.io/lvillis/tino:0.1.26".to_string(),
            "sha256:8ad7b87083ae".to_string(),
            "2".to_string(),
            "3".to_string(),
        ]
    );
}

#[test]
fn prepares_checks_for_ghcr_images_with_stable_releases() {
    let declarations = tool_declarations(&catalog()).unwrap();
    let plan = prepare_check(&declarations[0]).unwrap();
    assert_eq!(plan.repository, "lvillis/salus");
    assert_eq!(plan.suffix, "-slim");
    assert_eq!(plan.current, StableVersion { major: 0, minor: 1, patch: 8 });
}

#[test]
fn refuses_checks_that_cannot_be_made() {
    let mut c = catalog();
    c.targets[0].tools[1].image = None;
    let d = tool_declarations(&c).unwrap();
    assert!(matches!(prepare_check(&d[0]), Err(ToolError::NotImageBacked(_))));

    let mut c = catalog();
    c.targets[0].tools[1].image =
        Some("docker.io/lvillis/salus:0.1.8@sha256:abc".to_string());
    let d = tool_declarations(&c).unwrap();
    assert!(matches!(
        prepare_check(&d[0]),
        Err(ToolError::UnsupportedRegistry { .. })
    ));

    let mut c = catalog();
    c.targets[0].tools[1].image = Some("ghcr.io/lvillis/salus:latest@sha256:abc".to_string());
    let d = tool_declarations(&c).unwrap();
    assert!(matches!(
        prepare_check(&d[0]),
        Err(ToolError::MissingTagSuffix { .. })
    ));

    let mut c = catalog();
    c.targets[0].tools[1].release = "0.1".to_string();
    c.targets[0].tools[1].image = Some("ghcr.io/lvillis/salus:0.1@sha256:abc".to_string());
    let d = tool_declarations(&c).unwrap();
    assert!(matches!(
        prepare_check(&d[0]),
        Err(ToolError::UnstableRelease { .. })
    ));
}

fn plan(major: u64, minor: u64, patch: u64) -> CheckPlan {
    CheckPlan {
        repository: "lvillis/salus".to_string(),
        suffix: "-slim".to_string(),
        current: StableVersion { major, minor, patch },
    }
}

fn tags(list: &[&str]) -> Vec<String> {
    list.iter().map(|t| t.to_string()).collect()
}

#[test]
fn chooses_the_newest_release_in_the_same_major() {
    let current = StableVersion { major: 0, minor: 1, patch: 8 };
    let t = tags(&["0.1.8-slim", "0.1.9-slim", "1.0.0-slim", "0.1.9", "0.2.0-beta-slim"]);
    let s = select_release(&t, "-slim", current, false).unwrap();
    assert_eq!(s.status, ToolStatus::UpdateAvailable);
    assert_eq!(s.latest.tag, "0.1.9-slim");
    let s = select_release(&t, "-slim", current, true).unwrap();
    assert_eq!(s.status, ToolStatus::UpdateAvailable);
    assert_eq!(s.latest.tag, "1.0.0-slim");
}

#[test]
fn reports_current_and_skipped_majors() {
    let t = tags(&["0.1.8-slim", "0.1.7-slim"]);
    let s = select_release(&t, "-slim", StableVersion { major: 0, minor: 1, patch: 8 }, false).unwrap();
    assert_eq!(s.status, ToolStatus::Current);
    assert_eq!(s.latest.tag, "0.1.8-slim");

    let t = tags(&["0.1.8-slim", "1.0.0-slim"]);
    let s = select_release(&t, "-slim", StableVersion { major: 0, minor: 1, patch: 8 }, false).unwrap();
    assert_eq!(s.status, ToolStatus::MajorSkipped);
    assert_eq!(s.latest.tag, "1.0.0-slim");

    assert!(select_release(&tags(&["latest"]), "-slim", StableVersion { major: 0, minor: 1, patch: 8 }, false).is_none());
}

#[test]
fn completes_checks_and_plans_updates() {
    let declarations = tool_declarations(&catalog()).unwrap();
    let salus = &declarations[0];
    let p = plan(0, 1, 8);
    let t = tags(&["0.1.8-slim", "0.1.9-slim"]);
    let selection = choose_release(salus, &p, &t, false).unwrap();
    let image = salus.image_ref.as_ref().unwrap();
    assert!(reusable_digest(&p, image, &selection).is_none());
    let check = finish_check(salus, &selection, "sha256:new");
    assert_eq!(check.status, ToolStatus::UpdateAvailable);
    assert_eq!(check.latest_release, "0.1.9");
    assert_eq!(check.latest_image, "ghcr.io/lvillis/salus:0.1.9-slim@sha256:new");
    assert_eq!(check.update_release.as_deref(), Some("0.1.9"));
    assert!(check.has_newer_version());

    let checks = vec![check];
    assert!(any_newer(&checks));
    let updates = planned_updates(&checks);
    assert_eq!(updates.len(), 1);
    assert_eq!(updates[0].old_image, SALUS);
    assert_eq!(updated_file_count(&updates), 1);
    assert_eq!(files_to_update(&updates), vec!["images/debian/13/image.toml".to_string()]);
    assert_eq!(
        updated_message(&updates, SyncSummary { generated: 0, updated: 1, unchanged: 8 }),
        "updated 1 tool declaration across 1 image definition file; generated 0 dockerfiles, updated 1 dockerfile, 8 unchanged"
    );
    assert_eq!(
        check_row(&checks[0]),
        vec![
            "salus".to_string(),
            "0.1.8".to_string(),
            "0.1.9".to_string(),
            "update-available".to_string(),
            "sha256:111111111111".to_string(),
            "sha256:new".to_string(),
        ]
    );
}

#[test]
fn keeps_the_pinned_digest_when_current() {
    let declarations = tool_declarations(&catalog()).unwrap();
    let salus = &declarations[0];
    let p = plan(0, 1, 8);
    let selection = choose_release(salus, &p, &tags(&["0.1.8-slim"]), false).unwrap();
    let image = salus.image_ref.as_ref().unwrap();
    let digest = reusable_digest(&p, image, &selection).unwrap();
    assert_eq!(digest, image.digest);
    let check = finish_check(salus, &selection, &digest);
    assert_eq!(check.status, ToolStatus::Current);
    assert!(check.update_release.is_none());
    assert!(!check.has_newer_version());
    let checks = vec![check];
    assert!(planned_updates(&checks).is_empty());
    assert_eq!(idle_message(&checks), "all tools are current");
}

#[test]
fn refuses_registries_without_matching_tags() {
    let declarations = tool_declarations(&catalog()).unwrap();
    match choose_release(&declarations[0], &plan(0, 1, 8), &tags(&["latest"]), false) {
        Err(ToolError::NoMatchingTags { name, suffix }) => {
            assert_eq!(name, "salus");
            assert_eq!(suffix, "-slim");
        }
        Err(other) => panic!("unexpected {:?}", other),
        Ok(_) => panic!("expected an error"),
    }
}

#[test]
fn applies_each_update_to_the_files_that_declare_it() {
    let contents = "[tools.tino]\nrelease = \"0.1.26\"\nimage = \"old\"\n";
    let update = PlannedToolUpdate {
        name: "tino".to_string(),
        old_release: "0.1.26".to_string(),
        new_release: "0.1.27".to_string(),
        old_image: "old".to_string(),
        new_image: "new".to_string(),
        definition_files: vec!["a/image.toml".to_string()],
    };
    let updates = vec![update];
    assert_eq!(
        apply_updates_to_file(contents, "a/image.toml", &updates).unwrap(),
        "[tools.tino]\nrelease = \"0.1.27\"\nimage = \"new\"\n"
    );
    assert_eq!(
        apply_updates_to_file(contents, "b/image.toml", &updates).unwrap(),
        contents
    );
}

#[test]
fn says_when_only_major_updates_are_left() {
    let check = ToolCheck {
        name: "salus".to_string(),
        status: ToolStatus::MajorSkipped,
        current_release: "0.1.8".to_string(),
        latest_release: "1.0.0".to_string(),
        current_image: "a".to_string(),
        latest_image: "b".to_string(),
        current_digest: "sha256:a".to_string(),
        latest_digest: "sha256:b".to_string(),
        update_release: None,
        update_image: None,
        definition_files: Vec::new(),
    };
    assert_eq!(
        idle_message(&vec![check]),
        "no tool updates applied; use --allow-major to include major updates"
    );
}

#[test]
fn keeps_only_versions_without_pre_release_or_build() {
    let plain = ParsedVersion { major: 1, minor: 2, patch: 3, pre: String::new(), build: String::new() };
    assert_eq!(stable_from(&plain), Some(StableVersion { major: 1, minor: 2, patch: 3 }));
    let beta = ParsedVersion { major: 1, minor: 2, patch: 3, pre: "beta".to_string(), build: String::new() };
    assert_eq!(stable_from(&beta), None);
    let built = ParsedVersion { major: 1, minor: 2, patch: 3, pre: String::new(), build: "b1".to_string() };
    assert_eq!(stable_from(&built), None);
}

#[test]
fn declares_each_path_once_under_its_first_text() {
    let mut c = catalog();
    c.targets[1].definition_file = "images/debian//13/image.toml".to_string();
    let declarations = tool_declarations(&c).unwrap();
    assert_eq!(
        declarations[1].definition_files,
        vec![
            "images/debian/13/image.toml".to_string(),
            "images/java/21/trixie/image.toml".to_string()
        ]
    );
    c.targets.swap(0, 1);
    let declarations = tool_declarations(&c).unwrap();
    assert_eq!(declarations[1].definition_files[0], "images/debian//13/image.toml");
}

#[test]
fn counts_and_applies_updates_by_path() {
    let update = |files: &[&str]| PlannedToolUpdate {
        name: "tino".to_string(),
        old_release: "0.1.26".to_string(),
        new_release: "0.1.27".to_string(),
        old_image: "old".to_string(),
        new_image: "new".to_string(),
        definition_files: files.iter().map(|f| f.to_string()).collect(),
    };
    let updates = vec![update(&["a//image.toml", "b/image.toml"]), update(&["a/image.toml"])];
    assert_eq!(updated_file_count(&updates), 2);
    assert_eq!(
        files_to_update(&updates),
        vec!["a//image.toml".to_string(), "b/image.toml".to_string()]
    );
    let contents = "[tools.tino]\nrelease = \"0.1.26\"\nimage = \"old\"\n";
    let once = vec![update(&["a//image.toml"])];
    assert_eq!(
        apply_updates_to_file(contents, "a/image.toml", &once).unwrap(),
        "[tools.tino]\nrelease = \"0.1.27\"\nimage = \"new\"\n"
    );
}
