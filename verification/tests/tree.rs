use dep_tree::depth::settled_depths;
use dep_tree::error::Error;
use dep_tree::identity::Identity;
use dep_tree::tree::{holds_id, DepTree, Source, SourceId};

fn named(name: &str) -> Identity {
    Identity {
        name: name.to_string(),
        version: "1.0.0".to_string(),
        origin: "origin".to_string(),
    }
}

fn source(id: SourceId, name: &str, is_root: bool) -> Source {
    Source::new(id, &named(name), vec![format!("/src/{}", name)], is_root).unwrap()
}

#[test]
fn new_tree_is_empty() {
    let tree = DepTree::new();
    assert_eq!(tree.num_sources(), 0);
    assert!(tree.roots().is_empty());
    assert!(!tree.is_allocated(SourceId { id: 0 }));
    assert!(!tree.is_registered(SourceId { id: 0 }));
    assert_eq!(tree.source(SourceId { id: 0 }), None);
    assert_eq!(tree.depth(SourceId { id: 0 }), 0);
}

#[test]
fn handles_are_fresh_and_unregistered() {
    let mut tree = DepTree::new();
    tree.reserve_num_sources(4);
    assert_eq!(tree.num_sources(), 0);
    let first = tree.new_source();
    let second = tree.new_source();
    assert_ne!(first, second);
    assert_eq!(tree.num_sources(), 2);
    assert!(tree.is_allocated(first));
    assert!(tree.is_allocated(second));
    assert!(!tree.is_registered(first));
    assert_eq!(tree.source(second), None);
    assert!(tree.dependencies(first).is_empty());
}

#[test]
fn registered_source_is_found_with_its_dependencies() {
    let mut tree = DepTree::new();
    let app = tree.new_source();
    let lib = tree.new_source();
    tree.set_source(source(lib, "lib", false), vec![]);
    tree.set_source(source(app, "app", true), vec![lib]);
    assert!(tree.is_registered(app));
    assert_eq!(tree.source(app).unwrap().identity.name, "app");
    assert_eq!(tree.source(app).unwrap().id, app);
    assert_eq!(tree.source(app).unwrap().dirs, vec!["/src/app".to_string()]);
    assert!(tree.source(app).unwrap().is_root);
    assert_eq!(tree.dependencies(app), vec![lib]);
    assert_eq!(tree.dependencies(lib), vec![]);
}

#[test]
fn registering_again_replaces() {
    let mut tree = DepTree::new();
    let app = tree.new_source();
    let lib = tree.new_source();
    tree.set_source(source(app, "old", false), vec![lib]);
    tree.set_source(source(app, "new", true), vec![]);
    assert_eq!(tree.source(app).unwrap().identity.name, "new");
    assert_eq!(tree.dependencies(app), vec![]);
}

#[test]
fn set_roots_replaces_the_roots() {
    let mut tree = DepTree::new();
    let first = tree.new_source();
    let second = tree.new_source();
    tree.set_roots(vec![first]);
    assert!(tree.is_root(first));
    assert!(!tree.is_root(second));
    tree.set_roots(vec![second]);
    assert!(!tree.is_root(first));
    assert!(tree.is_root(second));
    assert_eq!(tree.roots(), &vec![second]);
}

#[test]
fn depth_of_a_chain() {
    let mut tree = DepTree::new();
    let a = tree.new_source();
    let b = tree.new_source();
    let c = tree.new_source();
    tree.set_source(source(a, "a", true), vec![b]);
    tree.set_source(source(b, "b", false), vec![c]);
    tree.set_source(source(c, "c", false), vec![]);
    tree.compute_depths();
    assert_eq!(tree.depth(c), 0);
    assert_eq!(tree.depth(b), 1);
    assert_eq!(tree.depth(a), 2);
}

#[test]
fn depth_is_one_more_than_the_deepest_dependency() {
    let mut tree = DepTree::new();
    let top = tree.new_source();
    let shallow = tree.new_source();
    let deep = tree.new_source();
    let deeper = tree.new_source();
    let leaf = tree.new_source();
    tree.set_source(source(leaf, "leaf", false), vec![]);
    tree.set_source(source(deeper, "deeper", false), vec![leaf]);
    tree.set_source(source(deep, "deep", false), vec![deeper, leaf]);
    tree.set_source(source(shallow, "shallow", false), vec![leaf]);
    tree.set_source(source(top, "top", true), vec![shallow, deep, leaf]);
    tree.compute_depths();
    assert_eq!(tree.depth(leaf), 0);
    assert_eq!(tree.depth(deeper), 1);
    assert_eq!(tree.depth(shallow), 1);
    assert_eq!(tree.depth(deep), 2);
    assert_eq!(tree.depth(top), 3);
}

#[test]
fn root_without_dependencies_has_depth_zero() {
    let mut tree = DepTree::new();
    let root = tree.new_source();
    tree.set_source(source(root, "root", true), vec![]);
    tree.set_roots(vec![root]);
    tree.compute_depths();
    assert_eq!(tree.depth(root), 0);
}

#[test]
fn depths_of_an_empty_tree() {
    let mut tree = DepTree::new();
    tree.compute_depths();
    assert_eq!(tree.num_sources(), 0);
}

#[test]
fn depths_on_a_cycle_end() {
    let mut tree = DepTree::new();
    let a = tree.new_source();
    let b = tree.new_source();
    tree.set_source(source(a, "a", false), vec![b]);
    tree.set_source(source(b, "b", false), vec![a]);
    tree.compute_depths();
    assert_eq!(tree.depth(a), 2);
    assert_eq!(tree.depth(b), 2);
}

#[test]
fn source_without_directory_is_refused() {
    assert_eq!(
        Source::new(SourceId { id: 3 }, &named("bare"), vec![], false),
        Err(Error::DownstreamConstructionFailure { identity: named("bare") })
    );
}

#[test]
fn source_keeps_what_it_was_made_of() {
    let made = Source::new(
        SourceId { id: 3 },
        &named("pkg"),
        vec!["/a".to_string(), "/b".to_string()],
        true,
    )
    .unwrap();
    assert_eq!(made.id, SourceId { id: 3 });
    assert_eq!(made.identity, named("pkg"));
    assert_eq!(made.dirs, vec!["/a".to_string(), "/b".to_string()]);
    assert!(made.is_root);
}

#[test]
fn holds_id_finds_only_listed_handles() {
    let ids = vec![SourceId { id: 4 }, SourceId { id: 7 }];
    assert!(holds_id(&ids, SourceId { id: 7 }));
    assert!(!holds_id(&ids, SourceId { id: 5 }));
    assert!(!holds_id(&vec![], SourceId { id: 0 }));
}

#[test]
fn settled_depths_of_a_diamond() {
    let edges = vec![
        vec![SourceId { id: 1 }, SourceId { id: 2 }],
        vec![SourceId { id: 3 }],
        vec![SourceId { id: 3 }, SourceId { id: 1 }],
        vec![],
    ];
    assert_eq!(settled_depths(&edges), vec![3, 1, 2, 0]);
    assert_eq!(settled_depths(&vec![]), Vec::<usize>::new());
    assert_eq!(settled_depths(&vec![vec![], vec![]]), vec![0, 0]);
}

#[test]
fn dependency_on_an_unknown_handle_counts_as_depth_zero() {
    let edges = vec![vec![SourceId { id: 9 }]];
    assert_eq!(settled_depths(&edges), vec![1]);
}
