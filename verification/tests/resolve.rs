use dep_tree::error::{Error, FieldShape};
use dep_tree::identity::Identity;
use dep_tree::directory::{
    candidate_dir, find_supported_target, is_supported_kind, settle, source_path,
};
use dep_tree::packages::packages;
use dep_tree::paths::{copy_paths, same_text, DiskFacts};
use dep_tree::tree::DepTree;

fn parsed(text: &str) -> serde_json::Value {
    serde_json::from_str(text).unwrap()
}

fn disk(files: &[&str], directories: &[&str]) -> DiskFacts {
    let mut facts = DiskFacts::new();
    for file in files {
        facts.add_file(file);
    }
    for directory in directories {
        facts.add_directory(directory);
    }
    facts
}

fn package_with_main() -> serde_json::Value {
    parsed(
        r#"{
            "id": "app 0.1.0 (path+file:///work/app)",
            "manifest_path": "/work/app/Cargo.toml",
            "targets": [{"kind": ["bin"], "src_path": "/work/app/src/main.rs"}]
        }"#,
    )
}

#[test]
fn disk_facts_know_what_was_recorded() {
    let facts = disk(&["/a/file.rs"], &["/a", "/b"]);
    assert!(facts.is_file("/a/file.rs"));
    assert!(!facts.is_file("/a"));
    assert!(facts.is_dir("/a"));
    assert!(facts.is_dir("/b"));
    assert!(!facts.is_dir("/a/file.rs"));
    assert!(!facts.is_dir("/c"));
    assert!(!DiskFacts::new().is_dir("/a"));
    assert!(!DiskFacts::new().is_file("/a/file.rs"));
}

#[test]
fn same_text_compares_characters() {
    assert!(same_text("bin", "bin"));
    assert!(!same_text("bin", "bins"));
    assert!(!same_text("", "bin"));
    assert!(same_text("", ""));
}

#[test]
fn copy_paths_copies_in_order() {
    let paths = vec!["/a".to_string(), "/b".to_string()];
    assert_eq!(copy_paths(&paths), paths);
    assert_eq!(copy_paths(&vec![]), Vec::<String>::new());
}

#[test]
fn supported_kinds() {
    assert!(is_supported_kind("bin"));
    assert!(is_supported_kind("lib"));
    assert!(is_supported_kind("rlib"));
    assert!(is_supported_kind("cdylib"));
    assert!(is_supported_kind("staticlib"));
    assert!(is_supported_kind("proc-macro"));
    assert!(is_supported_kind("test"));
    assert!(!is_supported_kind("custom-build"));
    assert!(!is_supported_kind("example"));
    assert!(!is_supported_kind("bench"));
    assert!(!is_supported_kind("binary"));
    assert!(!is_supported_kind(""));
}

#[test]
fn candidate_of_a_file_is_its_directory() {
    let facts = disk(&["/work/app/src/main.rs"], &[]);
    assert_eq!(
        candidate_dir("/work/app/src/main.rs", "/work/app", false, &facts),
        Ok("/work/app/src".to_string())
    );
}

#[test]
fn build_output_candidate_lies_beside_the_directory_of_the_file() {
    let facts = disk(&["/work/app/src/main.rs"], &[]);
    assert_eq!(
        candidate_dir("/work/app/src/main.rs", "/elsewhere", true, &facts),
        Ok("/work/app/target".to_string())
    );
}

#[test]
fn candidate_of_a_relative_path_is_the_manifest_directory() {
    let facts = disk(&["src/main.rs"], &[]);
    assert_eq!(
        candidate_dir("src/main.rs", "/work/app", false, &facts),
        Ok("/work/app".to_string())
    );
    assert_eq!(
        candidate_dir("src/main.rs", "/work/app", true, &facts),
        Ok("/work/app".to_string())
    );
}

#[test]
fn candidate_of_an_absolute_path_that_is_no_file_is_the_path() {
    let facts = disk(&[], &["/work/app/src"]);
    assert_eq!(
        candidate_dir("/work/app/src", "/work/app", false, &facts),
        Ok("/work/app/src".to_string())
    );
    assert_eq!(
        candidate_dir("/work/app/src", "/work/app", true, &facts),
        Ok("/work/app/src".to_string())
    );
}

#[test]
fn candidate_without_parent_names_the_orphan() {
    let facts = disk(&["/", "/main.rs"], &[]);
    assert_eq!(candidate_dir("/", "/work", false, &facts), Err("/".to_string()));
    assert_eq!(candidate_dir("/main.rs", "/work", false, &facts), Ok("/".to_string()));
    assert_eq!(candidate_dir("/main.rs", "/work", true, &facts), Err("/".to_string()));
}

#[test]
fn settle_accepts_a_directory() {
    let facts = disk(&[], &["/work/app/src"]);
    assert_eq!(
        settle(Ok("/work/app/src".to_string()), false, &facts),
        Ok(Some("/work/app/src".to_string()))
    );
    assert_eq!(
        settle(Ok("/work/app/src".to_string()), true, &facts),
        Ok(Some("/work/app/src".to_string()))
    );
}

#[test]
fn settle_fails_for_sources_and_not_for_build_output() {
    let facts = disk(&[], &["/work/app/src"]);
    assert_eq!(
        settle(Ok("/gone".to_string()), false, &facts),
        Err(Error::InvalidSourceDirectory { path: "/gone".to_string() })
    );
    assert_eq!(settle(Ok("/gone".to_string()), true, &facts), Ok(None));
    assert_eq!(
        settle(Err("/work/app/src".to_string()), false, &facts),
        Err(Error::InvalidSourceDirectory { path: "/work/app/src".to_string() })
    );
    assert_eq!(settle(Err("/work/app/src".to_string()), true, &facts), Ok(None));
}

#[test]
fn source_path_is_the_directory_of_the_entry_file() {
    let facts = disk(&["/work/app/src/main.rs"], &["/work/app/src", "/work/app"]);
    assert_eq!(
        source_path(&package_with_main(), false, &facts),
        Ok(Some("/work/app/src".to_string()))
    );
}

#[test]
fn build_output_is_target_beside_the_source_directory() {
    let facts = disk(
        &["/work/app/src/main.rs"],
        &["/work/app/src", "/work/app", "/work/app/target"],
    );
    assert_eq!(
        source_path(&package_with_main(), true, &facts),
        Ok(Some("/work/app/target".to_string()))
    );
}

#[test]
fn missing_build_output_is_absent() {
    let facts = disk(&["/work/app/src/main.rs"], &["/work/app/src", "/work/app"]);
    assert_eq!(source_path(&package_with_main(), true, &facts), Ok(None));
}

#[test]
fn missing_source_directory_is_an_error() {
    let facts = disk(&["/work/app/src/main.rs"], &["/work/app"]);
    assert_eq!(
        source_path(&package_with_main(), false, &facts),
        Err(Error::InvalidSourceDirectory { path: "/work/app/src".to_string() })
    );
}

#[test]
fn entry_file_that_does_not_exist_is_no_directory() {
    let facts = disk(&[], &["/work/app/src", "/work/app"]);
    assert_eq!(
        source_path(&package_with_main(), false, &facts),
        Err(Error::InvalidSourceDirectory { path: "/work/app/src/main.rs".to_string() })
    );
    assert_eq!(source_path(&package_with_main(), true, &facts), Ok(None));
}

#[test]
fn relative_entry_path_resolves_to_the_manifest_directory() {
    let package = parsed(
        r#"{
            "id": "app 0.1.0 origin",
            "manifest_path": "/work/app/Cargo.toml",
            "targets": [{"kind": ["lib"], "src_path": "src/lib.rs"}]
        }"#,
    );
    let facts = disk(&[], &["/work/app"]);
    assert_eq!(source_path(&package, false, &facts), Ok(Some("/work/app".to_string())));
    assert_eq!(source_path(&package, true, &facts), Ok(Some("/work/app".to_string())));
}

#[test]
fn first_supported_target_wins() {
    let package = parsed(
        r#"{
            "id": "app 0.1.0 origin",
            "manifest_path": "/work/app/Cargo.toml",
            "targets": [
                {"kind": ["custom-build"], "src_path": "/work/app/build.rs"},
                {"kind": ["example", "rlib"], "src_path": "/work/app/lib/lib.rs"},
                {"kind": ["bin"], "src_path": "/work/app/src/main.rs"}
            ]
        }"#,
    );
    let facts = disk(
        &["/work/app/build.rs", "/work/app/lib/lib.rs", "/work/app/src/main.rs"],
        &["/work/app", "/work/app/lib", "/work/app/src"],
    );
    assert_eq!(source_path(&package, false, &facts), Ok(Some("/work/app/lib".to_string())));
}

#[test]
fn first_supported_target_decides_even_if_it_fails() {
    let package = parsed(
        r#"{
            "id": "app 0.1.0 origin",
            "manifest_path": "/work/app/Cargo.toml",
            "targets": [
                {"kind": ["lib"], "src_path": "/work/app/lib/lib.rs"},
                {"kind": ["bin"], "src_path": "/work/app/src/main.rs"}
            ]
        }"#,
    );
    let facts = disk(
        &["/work/app/lib/lib.rs", "/work/app/src/main.rs"],
        &["/work/app", "/work/app/src"],
    );
    assert_eq!(
        source_path(&package, false, &facts),
        Err(Error::InvalidSourceDirectory { path: "/work/app/lib".to_string() })
    );
}

#[test]
fn package_without_supported_target_has_no_directory() {
    let package = parsed(
        r#"{
            "id": "app 0.1.0 origin",
            "manifest_path": "/work/app/Cargo.toml",
            "targets": [
                {"kind": ["custom-build"], "src_path": "/work/app/build.rs"},
                {"kind": ["example", "bench"], "src_path": "/work/app/examples/demo.rs"}
            ]
        }"#,
    );
    let facts = disk(&["/work/app/build.rs"], &["/work/app"]);
    assert_eq!(source_path(&package, false, &facts), Ok(None));
    assert_eq!(source_path(&package, true, &facts), Ok(None));
    let no_targets = parsed(
        r#"{"id": "app 0.1.0 origin", "manifest_path": "/work/app/Cargo.toml", "targets": []}"#,
    );
    assert_eq!(source_path(&no_targets, false, &facts), Ok(None));
}

#[test]
fn missing_targets_is_a_schema_violation() {
    let package = parsed(r#"{"id": "app 0.1.0 origin", "manifest_path": "/work/app/Cargo.toml"}"#);
    assert_eq!(
        source_path(&package, false, &DiskFacts::new()),
        Err(Error::SchemaViolation {
            field: "targets".to_string(),
            expected: FieldShape::Array,
            snippet: serde_json::to_string_pretty(&package).unwrap(),
        })
    );
}

#[test]
fn missing_manifest_path_is_a_schema_violation() {
    let package = parsed(
        r#"{"id": "app 0.1.0 origin", "targets": [{"kind": ["bin"], "src_path": "/m.rs"}]}"#,
    );
    assert_eq!(
        source_path(&package, false, &DiskFacts::new()),
        Err(Error::SchemaViolation {
            field: "manifest_path".to_string(),
            expected: FieldShape::Text,
            snippet: serde_json::to_string_pretty(&package).unwrap(),
        })
    );
}

#[test]
fn manifest_path_without_directory_is_an_error() {
    let package = parsed(r#"{"id": "app 0.1.0 origin", "manifest_path": "/", "targets": []}"#);
    assert_eq!(
        source_path(&package, false, &DiskFacts::new()),
        Err(Error::InvalidSourceDirectory { path: "/".to_string() })
    );
}

#[test]
fn missing_kind_is_a_schema_violation() {
    let package = parsed(
        r#"{
            "id": "app 0.1.0 origin",
            "manifest_path": "/work/app/Cargo.toml",
            "targets": [{"src_path": "/work/app/src/main.rs"}]
        }"#,
    );
    let target = parsed(r#"{"src_path": "/work/app/src/main.rs"}"#);
    assert_eq!(
        source_path(&package, false, &DiskFacts::new()),
        Err(Error::SchemaViolation {
            field: "kind".to_string(),
            expected: FieldShape::Array,
            snippet: serde_json::to_string_pretty(&target).unwrap(),
        })
    );
}

#[test]
fn kind_that_is_no_text_is_a_schema_violation() {
    let package = parsed(
        r#"{
            "id": "app 0.1.0 origin",
            "manifest_path": "/work/app/Cargo.toml",
            "targets": [{"kind": ["example", 7, "bin"], "src_path": "/work/app/src/main.rs"}]
        }"#,
    );
    assert_eq!(
        source_path(&package, false, &DiskFacts::new()),
        Err(Error::SchemaViolation {
            field: "kind".to_string(),
            expected: FieldShape::Text,
            snippet: "7".to_string(),
        })
    );
}

#[test]
fn kind_after_a_supported_one_is_not_read() {
    let package = parsed(
        r#"{
            "id": "app 0.1.0 origin",
            "manifest_path": "/work/app/Cargo.toml",
            "targets": [
                {"kind": ["bin", 7], "src_path": "/work/app/src/main.rs"},
                {"src_path": 3}
            ]
        }"#,
    );
    let facts = disk(&["/work/app/src/main.rs"], &["/work/app/src"]);
    assert_eq!(source_path(&package, false, &facts), Ok(Some("/work/app/src".to_string())));
}

#[test]
fn missing_src_path_is_a_schema_violation() {
    let package = parsed(
        r#"{
            "id": "app 0.1.0 origin",
            "manifest_path": "/work/app/Cargo.toml",
            "targets": [{"kind": ["bin"]}]
        }"#,
    );
    let target = parsed(r#"{"kind": ["bin"]}"#);
    assert_eq!(
        source_path(&package, false, &DiskFacts::new()),
        Err(Error::SchemaViolation {
            field: "src_path".to_string(),
            expected: FieldShape::Text,
            snippet: serde_json::to_string_pretty(&target).unwrap(),
        })
    );
}

fn two_packages() -> serde_json::Value {
    parsed(
        r#"{"packages": [
            {
                "id": "app 0.1.0 (path+file:///work/app)",
                "manifest_path": "/work/app/Cargo.toml",
                "targets": [{"kind": ["bin"], "src_path": "/work/app/src/main.rs"}]
            },
            {
                "id": "dep 1.2.3 (registry+https://example.org/index)",
                "manifest_path": "/registry/dep-1.2.3/Cargo.toml",
                "targets": [
                    {"kind": ["custom-build"], "src_path": "/registry/dep-1.2.3/build.rs"},
                    {"kind": ["lib"], "src_path": "/registry/dep-1.2.3/src/lib.rs"}
                ]
            },
            {
                "id": "script 0.0.1 (path+file:///work/script)",
                "manifest_path": "/work/script/Cargo.toml",
                "targets": [{"kind": ["custom-build"], "src_path": "/work/script/build.rs"}]
            }
        ]}"#,
    )
}

fn two_packages_disk() -> DiskFacts {
    disk(
        &[
            "/work/app/src/main.rs",
            "/registry/dep-1.2.3/build.rs",
            "/registry/dep-1.2.3/src/lib.rs",
            "/work/script/build.rs",
        ],
        &[
            "/work/app",
            "/work/app/src",
            "/work/app/target",
            "/registry/dep-1.2.3",
            "/registry/dep-1.2.3/src",
            "/work/script",
        ],
    )
}

#[test]
fn packages_resolve_to_existing_directories() {
    let facts = two_packages_disk();
    let mut tree = DepTree::new();
    let resolved = packages(&two_packages(), &facts, &mut tree).unwrap();
    assert_eq!(resolved.len(), 2);
    let app = &resolved[&Identity::parse_from_id("app 0.1.0 (path+file:///work/app)").unwrap()];
    assert_eq!(
        app.source_paths,
        vec!["/work/app/src".to_string(), "/work/app/target".to_string()]
    );
    let dep = &resolved[&Identity::parse_from_id(
        "dep 1.2.3 (registry+https://example.org/index)",
    )
    .unwrap()];
    assert_eq!(dep.source_paths, vec!["/registry/dep-1.2.3/src".to_string()]);
    for package in resolved.values() {
        assert!(!package.source_paths.is_empty());
        for path in &package.source_paths {
            assert!(facts.is_dir(path));
        }
        assert!(tree.is_allocated(package.source_id));
        assert!(!tree.is_registered(package.source_id));
    }
    assert_ne!(app.source_id, dep.source_id);
    assert_eq!(tree.num_sources(), 2);
}

#[test]
fn package_without_supported_target_is_left_out() {
    let mut tree = DepTree::new();
    let resolved = packages(&two_packages(), &two_packages_disk(), &mut tree).unwrap();
    let script = Identity::parse_from_id("script 0.0.1 (path+file:///work/script)").unwrap();
    assert!(!resolved.contains_key(&script));
}

#[test]
fn package_listed_twice_keeps_its_handle() {
    let metadata = parsed(
        r#"{"packages": [
            {
                "id": "app 0.1.0 origin",
                "manifest_path": "/work/app/Cargo.toml",
                "targets": [{"kind": ["bin"], "src_path": "/work/app/src/main.rs"}]
            },
            {
                "id": "app 0.1.0 origin",
                "manifest_path": "/work/app/Cargo.toml",
                "targets": [{"kind": ["lib"], "src_path": "lib.rs"}]
            }
        ]}"#,
    );
    let facts = disk(&["/work/app/src/main.rs"], &["/work/app", "/work/app/src"]);
    let mut tree = DepTree::new();
    let resolved = packages(&metadata, &facts, &mut tree).unwrap();
    assert_eq!(resolved.len(), 1);
    assert_eq!(tree.num_sources(), 1);
    let app = &resolved[&Identity::parse_from_id("app 0.1.0 origin").unwrap()];
    assert_eq!(
        app.source_paths,
        vec!["/work/app/src".to_string(), "/work/app".to_string(), "/work/app".to_string()]
    );
}

#[test]
fn packages_of_an_empty_list() {
    let mut tree = DepTree::new();
    let resolved = packages(&parsed(r#"{"packages": []}"#), &DiskFacts::new(), &mut tree).unwrap();
    assert!(resolved.is_empty());
    assert_eq!(tree.num_sources(), 0);
}

#[test]
fn packages_fail_without_a_package_list() {
    let metadata = parsed(r#"{"workspace_members": []}"#);
    let mut tree = DepTree::new();
    assert_eq!(
        packages(&metadata, &DiskFacts::new(), &mut tree).map(|found| found.len()),
        Err(Error::SchemaViolation {
            field: "packages".to_string(),
            expected: FieldShape::Array,
            snippet: serde_json::to_string_pretty(&metadata).unwrap(),
        })
    );
}

#[test]
fn packages_fail_on_a_package_without_id() {
    let metadata = parsed(r#"{"packages": [{"manifest_path": "/work/app/Cargo.toml"}]}"#);
    let entry = parsed(r#"{"manifest_path": "/work/app/Cargo.toml"}"#);
    let mut tree = DepTree::new();
    assert_eq!(
        packages(&metadata, &DiskFacts::new(), &mut tree).map(|found| found.len()),
        Err(Error::SchemaViolation {
            field: "id".to_string(),
            expected: FieldShape::Text,
            snippet: serde_json::to_string_pretty(&entry).unwrap(),
        })
    );
}

#[test]
fn packages_fail_on_an_unparsable_id() {
    let metadata = parsed(
        r#"{"packages": [{"id": "nameonly", "manifest_path": "/m/Cargo.toml", "targets": []}]}"#,
    );
    let mut tree = DepTree::new();
    assert_eq!(
        packages(&metadata, &DiskFacts::new(), &mut tree).map(|found| found.len()),
        Err(Error::UnparsableIdentifier { text: "nameonly".to_string() })
    );
}

#[test]
fn packages_fail_on_an_invalid_source_directory() {
    let mut tree = DepTree::new();
    let facts = disk(&["/work/app/src/main.rs"], &[]);
    assert_eq!(
        packages(&two_packages(), &facts, &mut tree).map(|found| found.len()),
        Err(Error::InvalidSourceDirectory { path: "/work/app/src".to_string() })
    );
}

#[test]
fn finds_the_first_target_with_a_supported_kind() {
    let targets = parsed(
        r#"[
            {"kind": ["custom-build"], "src_path": "build.rs"},
            {"kind": ["example", "test"], "src_path": "tests/all.rs"},
            {"kind": ["bin"], "src_path": "src/main.rs"}
        ]"#,
    );
    let list = targets.as_array().unwrap();
    assert_eq!(find_supported_target(list), Ok(Some(&list[1])));
    let none = parsed(r#"[{"kind": ["bench"], "src_path": "b.rs"}, {"kind": [], "src_path": "c.rs"}]"#);
    assert_eq!(find_supported_target(none.as_array().unwrap()), Ok(None));
    assert_eq!(find_supported_target(&vec![]), Ok(None));
}
