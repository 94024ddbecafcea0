use dep_tree::config::Config;
use dep_tree::dependencies::dependency_tree;
use dep_tree::paths::DiskFacts;
use dep_tree::probe::probe_paths;
use dep_tree::tree::SourceId;

fn read(text: &str) -> serde_json::Value {
    serde_json::from_str(text).unwrap()
}

fn snapshot() -> serde_json::Value {
    read(
        r#"{
            "packages": [
                {
                    "id": "app 0.1.0 (path+file:///work/app)",
                    "manifest_path": "/work/app/Cargo.toml",
                    "targets": [
                        {"kind": ["custom-build"], "src_path": "/work/app/build.rs"},
                        {"kind": ["bin"], "src_path": "/work/app/src/main.rs"},
                        {"kind": ["test"], "src_path": "/work/app/tests/all.rs"}
                    ]
                },
                {
                    "id": "rel 0.1.0 (path+file:///work/rel)",
                    "manifest_path": "/work/rel/Cargo.toml",
                    "targets": [{"kind": ["lib"], "src_path": "lib.rs"}]
                },
                {
                    "id": "top 0.1.0 (path+file:///)",
                    "manifest_path": "/Cargo.toml",
                    "targets": [{"kind": ["lib"], "src_path": "/lib.rs"}]
                },
                {
                    "id": "script 0.1.0 (path+file:///work/script)",
                    "manifest_path": "/work/script/Cargo.toml",
                    "targets": [{"kind": ["custom-build"], "src_path": "/work/script/build.rs"}]
                },
                {"id": "broken 0.1.0 origin", "targets": []}
            ],
            "workspace_members": ["app 0.1.0 (path+file:///work/app)"],
            "resolve": {"nodes": [{"id": "app 0.1.0 (path+file:///work/app)", "dependencies": []}]}
        }"#,
    )
}

#[test]
fn probes_of_each_package_in_order() {
    assert_eq!(
        probe_paths(&snapshot()),
        vec![
            "/work/app",
            "/work/app/src/main.rs",
            "/work/app/src",
            "/work/app/target",
            "/work/rel",
            "lib.rs",
            "",
            "/",
            "/lib.rs",
            "/",
        ]
    );
}

#[test]
fn nothing_to_probe_without_a_package_list() {
    assert_eq!(probe_paths(&read(r#"{"packages": 3}"#)), Vec::<String>::new());
    assert_eq!(probe_paths(&read(r#"{"packages": []}"#)), Vec::<String>::new());
}

#[test]
fn record_of_the_probed_paths_gives_the_same_tree() {
    let config = Config { verbose: false, omit_deps: false };
    let metadata = read(
        r#"{
            "packages": [{
                "id": "app 0.1.0 (path+file:///work/app)",
                "manifest_path": "/work/app/Cargo.toml",
                "targets": [{"kind": ["bin"], "src_path": "/work/app/src/main.rs"}]
            }],
            "workspace_members": ["app 0.1.0 (path+file:///work/app)"],
            "resolve": {"nodes": [{"id": "app 0.1.0 (path+file:///work/app)", "dependencies": []}]}
        }"#,
    );
    let mut whole = DiskFacts::new();
    whole.add_file("/work/app/src/main.rs");
    whole.add_file("/work/app/Cargo.toml");
    whole.add_directory("/work/app/src");
    whole.add_directory("/work/app/target");
    whole.add_directory("/work/app");
    whole.add_directory("/work");
    whole.add_directory("/unrelated");
    let mut probed = DiskFacts::new();
    for path in probe_paths(&metadata) {
        if whole.is_file(&path) {
            probed.add_file(&path);
        }
        if whole.is_dir(&path) {
            probed.add_directory(&path);
        }
    }
    assert!(!probed.is_dir("/unrelated"));
    let from_whole = dependency_tree(&config, &metadata, &whole).unwrap();
    let from_probed = dependency_tree(&config, &metadata, &probed).unwrap();
    assert_eq!(from_whole.num_sources(), from_probed.num_sources());
    assert_eq!(
        from_whole.source(SourceId { id: 0 }),
        from_probed.source(SourceId { id: 0 })
    );
    assert_eq!(
        from_probed.source(SourceId { id: 0 }).unwrap().dirs,
        vec!["/work/app/src".to_string(), "/work/app/target".to_string()]
    );
}
