use cabal_runtime::json::ToJson;
use cabal_runtime::repository_map::cargo::{
    cargo_inputs_changed, cargo_inputs_have_digests, collect_cargo_facts, SourcePackage,
    SourceTarget, SourceWorkspace,
};
use cabal_runtime::repository_map::projection::{
    estimated_visible_file_list_bytes, inventory, inventory_bytes, is_countable,
    visible_inventory,
};
use cabal_runtime::repository_map::refreshing::{
    enforce_index_bound, gather, parse_file, persisted_text, walks_into, CargoPlan, EntryKind,
    Refresh, Walk, WalkEntry,
};
use cabal_runtime::repository_map::search::{
    find_associated_tests, find_imports, find_references, find_symbols, find_tests,
};
use cabal_runtime::repository_map::state::{
    check_request_size, check_state_root, git_dir_in_file, inventory_from_state, is_loadable,
    load, relative_state_path, temporary_name, validate_request_id,
};
use cabal_runtime::repository_map::syntax::{
    extract_rust_facts, parse_source, SourceAttribute, SourceVisibility, SyntaxEvent, UseTree,
};
use cabal_runtime::repository_map::{
    classify_path, completeness_for, decode_index, index_is_valid, is_hidden_path,
    is_safe_relative_path, language_for, CargoFacts, Completeness, DefinitionKind,
    FileClassification, FileFact, LanguageClass, OmissionCounts, RepositoryMapError,
    RepositoryMapIndex, RustParseStatus, Visibility, INDEX_SCHEMA, MAX_INDEX_BYTES,
    MAX_INVENTORY_BYTES, MAX_INVENTORY_PATHS,
};

fn no_cargo() -> CargoFacts {
    collect_cargo_facts(&None)
}

fn index_of(files: Vec<FileFact>) -> RepositoryMapIndex {
    RepositoryMapIndex {
        schema: INDEX_SCHEMA.to_owned(),
        files,
        cargo: no_cargo(),
        omissions: OmissionCounts::default(),
        completeness: Completeness::CargoUnavailable,
    }
}

fn plain_file(path: &str) -> FileFact {
    parse_file(path, "content".as_bytes(), &Vec::new())
}

fn found(path: &str) -> WalkEntry {
    WalkEntry::Found {
        path: path.to_owned(),
        exact: true,
        kind: Some(EntryKind::File),
    }
}

fn sample_events() -> Vec<SyntaxEvent> {
    vec![
        SyntaxEvent::Use {
            tree: UseTree::Path {
                name: "std".to_owned(),
                line: 1,
                tree: Box::new(UseTree::Group {
                    trees: vec![
                        UseTree::Rename {
                            name: "fmt".to_owned(),
                            alias: "f".to_owned(),
                            line: 1,
                        },
                        UseTree::Glob,
                    ],
                }),
            },
        },
        SyntaxEvent::Definition {
            name: "Needle".to_owned(),
            kind: DefinitionKind::Struct,
            visibility: SourceVisibility::Public,
            line: 3,
        },
        SyntaxEvent::EnterImplementation {
            segments: vec!["Needle".to_owned()],
        },
        SyntaxEvent::Method {
            name: "find".to_owned(),
            visibility: SourceVisibility::Inherited,
            line: 6,
        },
        SyntaxEvent::LeaveOwner,
        SyntaxEvent::EnterFunction {
            name: "finds".to_owned(),
            visibility: SourceVisibility::Inherited,
            line: 10,
            attributes: vec![SourceAttribute {
                name: Some("test".to_owned()),
                tokens: "test".to_owned(),
            }],
        },
        SyntaxEvent::Reference {
            segments: vec!["Needle".to_owned(), "find".to_owned()],
            line: 11,
        },
        SyntaxEvent::LeaveFunction,
    ]
}

fn rust_file() -> FileFact {
    parse_file("src/lib.rs", "pub struct Needle;".as_bytes(), &sample_events())
}

fn refreshed(
    previous: Option<RepositoryMapIndex>,
    files: &[(&str, &str)],
) -> cabal_runtime::repository_map::RefreshResult {
    let entries: Vec<WalkEntry> = files
        .iter()
        .map(|(path, _)| found(&format!("/w/{path}")))
        .collect();
    let mut refresh = Refresh::new(previous, gather(&entries, "/w", "/w/.git/state"));
    while let Some(path) = refresh.next_file() {
        let content = files
            .iter()
            .find(|(name, _)| format!("/w/{name}") == path)
            .unwrap()
            .1;
        if refresh.measured(content.len() as u64) {
            refresh.content(content.as_bytes(), &Vec::new()).unwrap();
        }
    }
    refresh.finish(no_cargo()).unwrap()
}

#[test]
fn paths_have_a_language_and_a_class() {
    assert_eq!(language_for("src/lib.rs"), LanguageClass::Rust);
    assert_eq!(language_for("Cargo.toml"), LanguageClass::Toml);
    assert_eq!(language_for("README.md"), LanguageClass::Text);
    assert_eq!(language_for("image.png"), LanguageClass::Other);
    assert_eq!(classify_path("src/lib.rs"), FileClassification::Source);
    assert_eq!(classify_path("tests/a.rs"), FileClassification::Test);
    assert_eq!(classify_path("Cargo.toml"), FileClassification::Manifest);
    assert!(is_hidden_path("a/.b/c"));
    assert!(!is_hidden_path("a/b.c"));
    assert!(is_safe_relative_path("a/b"));
    assert!(!is_safe_relative_path("../a"));
    assert!(!is_safe_relative_path("/a"));
}

#[test]
fn walks_keep_files_and_count_the_rest() {
    let entries = vec![
        found("/w/src/b.rs"),
        found("/w/src/a.rs"),
        WalkEntry::Failed,
        WalkEntry::Found {
            path: "/w/link".to_owned(),
            exact: true,
            kind: Some(EntryKind::Symlink),
        },
        found("/w/.git/state/index-v1.json"),
    ];
    let walk = gather(&entries, "/w", "/w/.git/state");
    let paths: Vec<&str> = walk
        .candidates
        .iter()
        .map(|candidate| candidate.path.as_str())
        .collect();
    assert_eq!(paths, ["src/a.rs", "src/b.rs"]);
    assert_eq!(walk.omissions.walk_errors, 1);
    assert_eq!(walk.omissions.symlinks, 1);
    assert!(!walks_into(1, ".git"));
    assert!(walks_into(0, ".git"));
    assert!(walks_into(1, "src"));
    assert!(Walk::new().candidates.is_empty());
}

#[test]
fn refreshing_reuses_what_did_not_change() {
    let first = refreshed(None, &[("a.txt", "one"), ("b.txt", "two"), ("c.txt", "three")]);
    assert_eq!(first.reparsed_files, 3);
    assert_eq!(first.reused_files, 0);
    assert_eq!(first.index.completeness, Completeness::CargoUnavailable);
    assert!(index_is_valid(&first.index));
    let known = first.index.files[0].clone();
    let second = refreshed(
        Some(first.index),
        &[("a.txt", "one"), ("b.txt", "other")],
    );
    assert_eq!(second.reused_files, 1);
    assert_eq!(second.reparsed_files, 1);
    assert_eq!(second.deleted_files, 1);
    assert_eq!(second.index.files[0], known);
}

#[test]
fn large_files_are_noted_and_growing_ones_refused() {
    let walk = gather(&vec![found("/w/big.rs")], "/w", "/s");
    let mut refresh = Refresh::new(None, walk);
    assert_eq!(refresh.next_file().as_deref(), Some("/w/big.rs"));
    assert_eq!(
        refresh.content(&vec![0u8; 1_048_577], &Vec::new()),
        Err(RepositoryMapError::FileChangedDuringRefresh)
    );
    assert!(!refresh.measured(1_048_577));
    assert_eq!(refresh.next_file(), None);
    assert_eq!(refresh.cargo_plan(), CargoPlan::Collect);
    let result = refresh.finish(no_cargo()).unwrap();
    assert_eq!(result.index.files[0].rust, RustParseStatus::Oversized);
    assert_eq!(result.index.omissions.oversized_files, 1);
    assert_eq!(
        result.index.completeness,
        Completeness::BoundedAndCargoUnavailable
    );
}

#[test]
fn syntax_is_wanted_for_new_rust_files_alone() {
    let walk = gather(&vec![found("/w/a.rs"), found("/w/b.txt")], "/w", "/s");
    let mut refresh = Refresh::new(None, walk);
    assert!(refresh.wants_syntax("fn a() {}".as_bytes()));
    refresh
        .content("fn a(".as_bytes(), &Vec::new())
        .unwrap();
    assert!(!refresh.wants_syntax("text".as_bytes()));
    refresh.content("text".as_bytes(), &Vec::new()).unwrap();
    let result = refresh.finish(no_cargo()).unwrap();
    assert_eq!(result.index.files[0].rust, RustParseStatus::Malformed);
    assert_eq!(result.index.omissions.malformed_rust, 1);
    assert_eq!(result.index.files[1].rust, RustParseStatus::NotRust);
}

#[test]
fn sources_parse_or_do_not() {
    assert!(parse_source("pub fn a() -> u8 { 1 }".as_bytes()).is_some());
    assert!(parse_source("pub fn a( {".as_bytes()).is_none());
    assert!(parse_source(&[0x66, 0xff]).is_none());
}

#[test]
fn facts_are_gathered_from_a_walk_through_the_syntax() {
    let facts = extract_rust_facts(&sample_events());
    assert_eq!(facts.imports.len(), 2);
    assert_eq!(facts.imports[0].path, "std");
    assert!(facts.imports[0].glob);
    assert_eq!(facts.imports[1].path, "std::fmt");
    assert_eq!(facts.imports[1].alias.as_deref(), Some("f"));
    assert!(facts
        .definitions
        .iter()
        .any(|definition| definition.name == "Needle"
            && definition.kind == DefinitionKind::Struct
            && definition.visibility == Visibility::Public));
    assert!(facts
        .definitions
        .iter()
        .any(|definition| definition.name == "Needle::find"));
    assert_eq!(facts.tests.len(), 1);
    assert_eq!(facts.tests[0].name, "finds");
    assert_eq!(facts.tests[0].references, ["Needle::find"]);
    assert_eq!(facts.references[0].path, "Needle::find");
}

#[test]
fn searches_find_what_the_index_holds() {
    let index = index_of(vec![rust_file()]);
    assert_eq!(find_symbols(&index, "Needle").len(), 1);
    assert_eq!(find_symbols(&index, "Missing").len(), 0);
    assert_eq!(find_symbols(&index, "Needle")[0].file, "src/lib.rs");
    assert_eq!(find_imports(&index, "std::fmt").len(), 1);
    assert_eq!(find_references(&index, "Needle::find").len(), 1);
    assert_eq!(find_tests(&index, "finds").len(), 1);
    assert_eq!(find_associated_tests(&index, "Needle::find").len(), 1);
}

#[test]
fn cargo_facts_hold_the_members_in_order() {
    let package = |name: &str, dependencies: &[&str]| SourcePackage {
        id: format!("id-{name}"),
        name: name.to_owned(),
        version: "1.0.0".to_owned(),
        targets: vec![SourceTarget {
            name: name.to_owned(),
            kinds: vec!["lib".to_owned()],
        }],
        dependencies: dependencies
            .iter()
            .map(|dependency| (*dependency).to_owned())
            .collect(),
    };
    let facts = collect_cargo_facts(&Some(SourceWorkspace {
        members: vec!["id-b".to_owned(), "id-a".to_owned()],
        packages: vec![
            package("b", &["a", "a"]),
            package("a", &[]),
            package("outside", &[]),
        ],
    }));
    assert!(facts.available);
    let names: Vec<&str> = facts
        .packages
        .iter()
        .map(|package| package.name.as_str())
        .collect();
    assert_eq!(names, ["a", "b"]);
    assert_eq!(facts.dependency_edges.len(), 1);
    assert_eq!(facts.dependency_edges[0].package, "b@1.0.0");
    assert!(!no_cargo().available);
    let manifest = plain_file("Cargo.toml");
    let changed = parse_file("Cargo.toml", "other".as_bytes(), &Vec::new());
    assert!(cargo_inputs_changed(
        &vec![manifest.clone()],
        &vec![changed]
    ));
    assert!(!cargo_inputs_changed(
        &vec![manifest.clone()],
        &vec![manifest.clone()]
    ));
    assert!(cargo_inputs_have_digests(&vec![manifest]));
}

#[test]
fn inventories_are_sorted_into_parts_and_bounded() {
    let index = index_of(vec![
        plain_file(".hidden/a.rs"),
        plain_file("Cargo.toml"),
        rust_file(),
        plain_file("tests/t.rs"),
    ]);
    assert!(is_countable(&index));
    let all = inventory(&index);
    assert_eq!(all.source_paths, [".hidden/a.rs", "src/lib.rs"]);
    assert_eq!(all.test_paths, ["tests/t.rs"]);
    assert_eq!(all.manifest_paths, ["Cargo.toml"]);
    assert_eq!(all.indexed_files, 4);
    assert_eq!(all.projected_files, 4);
    let visible = visible_inventory(&index);
    assert_eq!(visible.source_paths, ["src/lib.rs"]);
    assert_eq!(
        estimated_visible_file_list_bytes(&index),
        "Cargo.toml".len() + "src/lib.rs".len() + "tests/t.rs".len() + 3
    );
    assert_eq!(
        inventory_bytes(&all),
        all.to_json().to_text().as_bytes()
    );
    let many = index_of(
        (0..MAX_INVENTORY_PATHS + 9)
            .map(|number| plain_file(&format!("src/f{number:04}.rs")))
            .collect(),
    );
    let bounded = inventory(&many);
    assert_eq!(bounded.source_paths.len(), MAX_INVENTORY_PATHS);
    assert!(!bounded.projection_complete);
    let long = "n".repeat(1000);
    let wide = index_of(
        (0..MAX_INVENTORY_PATHS)
            .map(|number| plain_file(&format!("src/{long}{number:04}.rs")))
            .collect(),
    );
    assert!(inventory_bytes(&inventory(&wide)).len() <= MAX_INVENTORY_BYTES);
}

#[test]
fn indexes_are_loaded_only_where_they_fit_and_are_valid() {
    let index = index_of(vec![plain_file("a.txt")]);
    let bytes = Some(persisted_text(&index).unwrap().len() as u64);
    assert_eq!(load(bytes, Some(index.clone())), Some(index.clone()));
    assert_eq!(load(None, Some(index.clone())), None);
    assert_eq!(
        load(Some(MAX_INDEX_BYTES as u64 + 1), Some(index.clone())),
        None
    );
    assert!(!is_loadable(MAX_INDEX_BYTES as u64 + 1));
    let mut other = index.clone();
    other.schema = "other".to_owned();
    assert_eq!(decode_index(Some(other)), None);
    let mut unsafe_path = index.clone();
    unsafe_path.files[0].path = "../a.txt".to_owned();
    assert_eq!(decode_index(Some(unsafe_path)), None);
    assert_eq!(
        inventory_from_state(bytes, Some(index.clone())),
        Some(inventory(&index))
    );
    assert_eq!(inventory_from_state(None, None), None);
    assert_eq!(enforce_index_bound(index.clone()), Ok(index));
}

#[test]
fn an_index_is_written_as_json() {
    let index = index_of(Vec::new());
    let written = persisted_text(&index).unwrap();
    let value = serde_json::from_str::<serde_json::Value>(&written).unwrap();
    assert_eq!(value["schema"], INDEX_SCHEMA);
    assert_eq!(value["completeness"], "cargo_unavailable");
    assert_eq!(value["cargo"]["available"], false);
}

#[test]
fn completeness_tells_both_limits() {
    let none = OmissionCounts::default();
    assert_eq!(completeness_for(&none, true), Completeness::Complete);
    assert_eq!(
        completeness_for(&none, false),
        Completeness::CargoUnavailable
    );
    let mut some = OmissionCounts::default();
    some.symlinks = 1;
    assert_eq!(completeness_for(&some, true), Completeness::Bounded);
    assert_eq!(
        completeness_for(&some, false),
        Completeness::BoundedAndCargoUnavailable
    );
}

#[test]
fn state_lies_below_the_git_directory() {
    assert_eq!(
        git_dir_in_file("gitdir: ../.git/worktrees/a\n", "/w").as_deref(),
        Some("/w/../.git/worktrees/a")
    );
    let missing = vec!["map".to_owned(), "cabal".to_owned()];
    assert_eq!(
        relative_state_path("/w/.git", "/w/.git/state", &missing).as_deref(),
        Ok("state/cabal/map")
    );
    assert_eq!(
        relative_state_path("/w/.git", "/elsewhere", &missing),
        Err(RepositoryMapError::StateRootOutsideGitService)
    );
    assert_eq!(
        relative_state_path("/w/.git", "/w/.git", &vec!["..".to_owned()]),
        Err(RepositoryMapError::StateRootOutsideGitService)
    );
    assert_eq!(
        relative_state_path("/g", "/g//x", &Vec::new()).as_deref(),
        Ok("x")
    );
    assert_eq!(check_state_root("/w/.git", "/w/.git/state"), Ok(()));
    assert!(check_state_root("/w/.git", "/w/.github").is_err());
    let id = format!("{}.json", "0a".repeat(32));
    assert_eq!(validate_request_id(&id), Ok(()));
    assert_eq!(
        validate_request_id("../x.json"),
        Err(RepositoryMapError::InvalidPrivateRequest)
    );
    assert!(validate_request_id(&id.to_uppercase()).is_err());
    assert_eq!(check_request_size(true, 4, 4), Ok(()));
    assert!(check_request_size(true, 5, 4).is_err());
    assert!(check_request_size(false, 1, 4).is_err());
    assert_eq!(temporary_name(12), ".index-v1.json.12.tmp");
    assert!(RepositoryMapError::IndexTooLarge.message().len() > 0);
}

#[test]
fn damaged_files_stay_marked() {
    let files = [("a.txt", "one"), ("src/bad.rs", "fn bad(")];
    let first = refreshed(None, &files);
    assert_eq!(first.index.omissions.malformed_rust, 1);
    assert_eq!(
        first.index.completeness,
        Completeness::BoundedAndCargoUnavailable
    );
    let known = first.index.clone();
    let second = refreshed(Some(first.index), &files);
    assert_eq!(second.reused_files, 2);
    assert_eq!(second.reparsed_files, 0);
    assert_eq!(second.deleted_files, 0);
    assert_eq!(second.index.omissions.malformed_rust, 1);
    assert_eq!(
        second.index.completeness,
        Completeness::BoundedAndCargoUnavailable
    );
    assert_eq!(second.index, known);
    assert!(index_is_valid(&second.index));
}

#[test]
fn visible_inventories_leave_hidden_files_out() {
    let index = index_of(vec![
        plain_file(".hidden/a.rs"),
        plain_file(".hidden/tests/b.rs"),
        plain_file("src/c.rs"),
    ]);
    let visible = visible_inventory(&index);
    assert_eq!(visible.source_paths, ["src/c.rs"]);
    assert!(visible.test_paths.is_empty());
    assert_eq!(visible.projected_files, 1);
}

#[test]
fn associated_tests_go_by_the_last_name() {
    let index = index_of(vec![rust_file()]);
    let plain = find_associated_tests(&index, "find");
    assert_eq!(plain.len(), 1);
    assert_eq!(find_associated_tests(&index, "any::other::find"), plain);
}

#[test]
fn paths_of_windows_are_kept_with_slashes() {
    let entries = vec![found("C:\\w\\src\\a.rs"), found("C:\\wide\\b.rs")];
    let walk = gather(&entries, "C:\\w", "C:\\w\\.git\\state");
    assert_eq!(walk.candidates.len(), 1);
    assert_eq!(walk.candidates[0].path, "src/a.rs");
    assert_eq!(walk.candidates[0].disk_path, "C:\\w\\src\\a.rs");
    assert_eq!(
        relative_state_path("C:\\w\\.git", "C:\\w\\.git\\state", &Vec::new()).as_deref(),
        Ok("state")
    );
    assert!(relative_state_path("C:\\w\\.git", "C:\\w\\.github", &Vec::new()).is_err());
    assert_eq!(
        git_dir_in_file("gitdir: C:/main/.git/worktrees/a\n", "\\\\?\\C:\\w").as_deref(),
        Some("C:/main/.git/worktrees/a")
    );
}

#[test]
fn rust_is_judged_by_its_bytes() {
    let events = sample_events();
    let parsed = parse_file("a.rs", "pub struct Needle;".as_bytes(), &events);
    assert!(matches!(parsed.rust, RustParseStatus::Parsed { .. }));
    let broken = parse_file("a.rs", "pub struct {".as_bytes(), &events);
    assert_eq!(broken.rust, RustParseStatus::Malformed);
    let bytes = parse_file("a.rs", &[0x66, 0xff], &events);
    assert_eq!(bytes.rust, RustParseStatus::Malformed);
    let large = parse_file("a.rs", &vec![b' '; 1_048_577], &events);
    assert_eq!(large.rust, RustParseStatus::Oversized);
    let plain = parse_file("a.txt", "pub struct Needle;".as_bytes(), &events);
    assert_eq!(plain.rust, RustParseStatus::NotRust);
}

#[test]
fn what_belongs_to_git_is_left_out() {
    assert!(walks_into(0, ".git"));
    assert!(!walks_into(1, ".git"));
    assert!(!walks_into(3, ".GIT"));
    assert!(walks_into(1, ".gitignore"));
}

#[test]
fn indexes_are_bounded_whatever_they_are_called() {
    let mut index = index_of(vec![plain_file("a.txt")]);
    index.completeness = Completeness::Complete;
    let bounded = enforce_index_bound(index.clone()).unwrap();
    assert_eq!(bounded, index);
}

#[test]
fn kept_indexes_read_back_as_themselves() {
    let first = refreshed(None, &[("a \"b\".txt", "one"), ("src/bad.rs", "fn bad(")]);
    let written = persisted_text(&first.index).unwrap();
    let value = serde_json::from_str::<serde_json::Value>(&written).unwrap();
    assert_eq!(serde_json::to_string(&value["files"][0]["path"]).unwrap(), "\"a \\\"b\\\".txt\"");
    assert_eq!(value["omissions"]["malformed_rust"], 1);
    let other = refreshed(None, &[("a \"b\".txt", "two"), ("src/bad.rs", "fn bad(")]);
    assert_ne!(persisted_text(&other.index).unwrap(), written);
}
