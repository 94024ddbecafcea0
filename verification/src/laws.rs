//! What holds of every tree that a construction returns: no edge dangles,
//! the roots are the workspace members and the root flags say which nodes
//! are roots, every source is the resolved package of its identity and lies
//! on disk, and a tree built without dependencies holds the roots and
//! nothing else.

use crate::config::Config;
use crate::dependencies::{
    add_node, add_nodes, add_root, add_roots, built_tree, dependency_tree_of, first_dangling,
    known_package_of, member_identities, parse_identities, references_to, resolve_handles,
    GraphState, ReferenceView, RootState,
};
use crate::depth::{graph_depths, lemma_depths_bounded};
use crate::directory::source_directory;
use crate::identity::{parsed_identity, IdentityView};
use crate::json::{array_entry, array_field, object_field, text_field, Json};
use crate::packages::{
    directories_exist, record_found, resolve_entries, resolved_packages, PackageView, Resolution,
};
use crate::paths::DiskView;
use crate::tree::{SourceId, TreeView};
use vstd::prelude::*;

verus! {

/// What holds while the roots are collected on a tree that started without
/// a registered source: only the roots collected so far are registered, and
/// those only when dependencies are omitted; every registered source is
/// flagged as a root; there is no edge.
spec fn roots_sound(state: RootState, omit_deps: bool) -> bool {
    &&& state.tree.well_formed()
    &&& state.tree.edgeless()
    &&& forall|id: SourceId|
        #![trigger state.tree.is_registered(id)]
        #![trigger state.ids.contains(id)]
        state.tree.is_registered(id) <==> omit_deps && state.ids.contains(id)
    &&& forall|i: int|
        0 <= i < state.tree.sources.len() ==> match #[trigger] state.tree.sources[i] {
            Some(source) => source.is_root,
            None => true,
        }
}

proof fn lemma_add_root(
    member: IdentityView,
    packages: Map<IdentityView, PackageView>,
    omit_deps: bool,
    state: RootState,
)
    requires
        roots_sound(state, omit_deps),
        add_root(member, packages, omit_deps, state) is Ok,
    ensures
        roots_sound(add_root(member, packages, omit_deps, state)->Ok_0, omit_deps),
{
    let next = add_root(member, packages, omit_deps, state)->Ok_0;
    let package = known_package_of(member, packages, state.tree)->Ok_0;
    let handle = package.source_id;
    assert(next.ids[state.ids.len() as int] == handle);
    assert forall|id: SourceId|
        #![trigger next.tree.is_registered(id)]
        #![trigger next.ids.contains(id)]
        next.tree.is_registered(id) <==> omit_deps && next.ids.contains(id) by {
        if state.ids.contains(id) {
            let k = choose|k: int| 0 <= k < state.ids.len() && state.ids[k] == id;
            assert(next.ids[k] == id);
        }
    }
}

proof fn lemma_add_roots(
    members: Seq<IdentityView>,
    from: int,
    packages: Map<IdentityView, PackageView>,
    omit_deps: bool,
    state: RootState,
)
    requires
        roots_sound(state, omit_deps),
        add_roots(members, from, packages, omit_deps, state) is Ok,
    ensures
        roots_sound(add_roots(members, from, packages, omit_deps, state)->Ok_0, omit_deps),
        add_roots(members, from, packages, omit_deps, state)->Ok_0.tree.roots == state.tree.roots,
    decreases members.len() - from,
{
    if 0 <= from < members.len() {
        lemma_add_root(members[from], packages, omit_deps, state);
        let next = add_root(members[from], packages, omit_deps, state)->Ok_0;
        lemma_add_roots(members, from + 1, packages, omit_deps, next);
    }
}

/// What holds while the nodes are registered: the root flags say which
/// nodes are roots, and every edge of the tree is among the edges met.
spec fn graph_sound(state: GraphState) -> bool {
    &&& state.tree.well_formed()
    &&& state.tree.root_flags_match()
    &&& forall|i: int, j: int|
        0 <= i < state.tree.dependencies.len() && 0 <= j < state.tree.dependencies[i].len()
            ==> met(state.references, #[trigger] state.tree.dependencies[i][j])
}

/// Whether an edge to `handle` is among `references`.
spec fn met(references: Seq<ReferenceView>, handle: SourceId) -> bool {
    exists|r: int| 0 <= r < references.len() && (#[trigger] references[r]).handle == handle
}

proof fn lemma_resolve_handles(
    identities: Seq<IdentityView>,
    from: int,
    packages: Map<IdentityView, PackageView>,
    tree: TreeView,
    handles: Seq<SourceId>,
)
    requires
        0 <= from <= identities.len(),
        handles.len() == from,
        forall|j: int| 0 <= j < handles.len() ==> tree.is_allocated(#[trigger] handles[j]),
        resolve_handles(identities, from, packages, tree, handles) is Ok,
    ensures
        resolve_handles(identities, from, packages, tree, handles)->Ok_0.len()
            == identities.len(),
        forall|j: int|
            0 <= j < identities.len() ==> tree.is_allocated(
                #[trigger] resolve_handles(identities, from, packages, tree, handles)->Ok_0[j],
            ),
    decreases identities.len() - from,
{
    if from < identities.len() {
        let package = known_package_of(identities[from], packages, tree)->Ok_0;
        lemma_resolve_handles(
            identities,
            from + 1,
            packages,
            tree,
            handles.push(package.source_id),
        );
    }
}

proof fn lemma_add_node(
    node: Json,
    packages: Map<IdentityView, PackageView>,
    state: GraphState,
)
    requires
        graph_sound(state),
        add_node(node, packages, state) is Ok,
    ensures
        graph_sound(add_node(node, packages, state)->Ok_0),
        add_node(node, packages, state)->Ok_0.tree.roots == state.tree.roots,
{
    let next = add_node(node, packages, state)->Ok_0;
    let identity = parsed_identity(text_field("id"@, node)->Ok_0)->Ok_0;
    let package = known_package_of(identity, packages, state.tree)->Ok_0;
    let named = parse_identities(
        array_field("dependencies"@, node)->Ok_0,
        0,
        "dependencies"@,
        seq![],
    )->Ok_0;
    let handles = resolve_handles(named, 0, packages, state.tree, seq![])->Ok_0;
    lemma_resolve_handles(named, 0, packages, state.tree, seq![]);
    let at = package.source_id.id as int;
    let added = references_to(handles, named);
    assert forall|i: int, j: int|
        0 <= i < next.tree.dependencies.len() && 0 <= j < next.tree.dependencies[i].len()
            implies met(next.references, #[trigger] next.tree.dependencies[i][j]) by {
        if i == at {
            assert(next.references[state.references.len() + j] == added[j]);
        } else {
            let handle = state.tree.dependencies[i][j];
            let r = choose|r: int|
                0 <= r < state.references.len() && (#[trigger] state.references[r]).handle
                    == handle;
            assert(next.references[r] == state.references[r]);
        }
    }
}

proof fn lemma_add_nodes(
    nodes: Seq<Json>,
    from: int,
    packages: Map<IdentityView, PackageView>,
    state: GraphState,
)
    requires
        graph_sound(state),
        add_nodes(nodes, from, packages, state) is Ok,
    ensures
        graph_sound(add_nodes(nodes, from, packages, state)->Ok_0),
        add_nodes(nodes, from, packages, state)->Ok_0.tree.roots == state.tree.roots,
    decreases nodes.len() - from,
{
    if 0 <= from < nodes.len() {
        lemma_add_node(nodes[from], packages, state);
        lemma_add_nodes(nodes, from + 1, packages, add_node(nodes[from], packages, state)->Ok_0);
    }
}

proof fn lemma_none_dangling(references: Seq<ReferenceView>, from: int, tree: TreeView)
    requires
        0 <= from,
        first_dangling(references, from, tree) is None,
    ensures
        forall|r: int|
            from <= r < references.len() ==> tree.is_registered((#[trigger] references[r]).handle),
    decreases references.len() - from,
{
    if from < references.len() {
        lemma_none_dangling(references, from + 1, tree);
    }
}

/// A tree built on one without a registered source has no dangling edge,
/// and its root flags say which nodes are roots. Built without
/// dependencies, it has no edge and its registered sources are its roots.
pub proof fn lemma_built_tree(
    config: Config,
    metadata: Json,
    packages: Map<IdentityView, PackageView>,
    tree: TreeView,
)
    requires
        tree.well_formed(),
        tree.unpopulated(),
        built_tree(config, metadata, packages, tree) is Ok,
    ensures
        built_tree(config, metadata, packages, tree)->Ok_0.well_formed(),
        built_tree(config, metadata, packages, tree)->Ok_0.no_dangling_edges(),
        built_tree(config, metadata, packages, tree)->Ok_0.root_flags_match(),
        config.omit_deps ==> built_tree(config, metadata, packages, tree)->Ok_0.edgeless(),
        config.omit_deps ==> built_tree(
            config,
            metadata,
            packages,
            tree,
        )->Ok_0.registered_are_roots(),
{
    let members = member_identities(metadata)->Ok_0;
    let start = RootState { ids: seq![], tree };
    assert(roots_sound(start, config.omit_deps)) by {
        assert forall|i: int| 0 <= i < tree.dependencies.len() implies (
        #[trigger] tree.dependencies[i]).len() == 0 by {
            assert(tree.sources[i] is None);
        }
    }
    lemma_add_roots(members, 0, packages, config.omit_deps, start);
    let rooted = add_roots(members, 0, packages, config.omit_deps, start)->Ok_0;
    let rooted_tree = rooted.tree.with_roots(rooted.ids);
    assert(rooted_tree.root_flags_match());
    if !config.omit_deps {
        let nodes = array_entry("nodes"@, object_field("resolve"@, metadata)->Ok_0)->Ok_0;
        let graph_start = GraphState { tree: rooted_tree, references: seq![] };
        lemma_add_nodes(nodes, 0, packages, graph_start);
        let graph = add_nodes(nodes, 0, packages, graph_start)->Ok_0;
        lemma_none_dangling(graph.references, 0, graph.tree);
    }
}

/// Resolution hands out handles and registers nothing.
proof fn lemma_resolution_registers_nothing(
    entries: Seq<Json>,
    from: int,
    disk: DiskView,
    state: Resolution,
)
    requires
        state.tree.well_formed(),
        state.tree.unpopulated(),
        resolve_entries(entries, from, disk, state) is Ok,
    ensures
        resolve_entries(entries, from, disk, state)->Ok_0.tree.well_formed(),
        resolve_entries(entries, from, disk, state)->Ok_0.tree.unpopulated(),
    decreases entries.len() - from,
{
    if 0 <= from < entries.len() {
        let entry = entries[from];
        let identity = parsed_identity(text_field("id"@, entry)->Ok_0)->Ok_0;
        let primary = source_directory(entry, false, disk)->Ok_0;
        let output = source_directory(entry, true, disk)->Ok_0;
        let first = record_found(state, identity, primary);
        let second = record_found(first, identity, output);
        lemma_resolution_registers_nothing(entries, from + 1, disk, second);
    }
}

/// A directory recorded for a package is one more directory on disk.
proof fn lemma_found_directory(
    state: Resolution,
    identity: IdentityView,
    found: Option<Seq<char>>,
    disk: DiskView,
)
    requires
        directories_exist(state.packages, disk),
        found is Some ==> disk.directories.contains(found->Some_0),
    ensures
        directories_exist(record_found(state, identity, found).packages, disk),
{
}

/// Every directory of a resolved package is one on disk.
proof fn lemma_resolution_directories(
    entries: Seq<Json>,
    from: int,
    disk: DiskView,
    state: Resolution,
)
    requires
        directories_exist(state.packages, disk),
        resolve_entries(entries, from, disk, state) is Ok,
    ensures
        directories_exist(resolve_entries(entries, from, disk, state)->Ok_0.packages, disk),
    decreases entries.len() - from,
{
    if 0 <= from < entries.len() {
        let entry = entries[from];
        let identity = parsed_identity(text_field("id"@, entry)->Ok_0)->Ok_0;
        let primary = source_directory(entry, false, disk)->Ok_0;
        let output = source_directory(entry, true, disk)->Ok_0;
        lemma_found_directory(state, identity, primary, disk);
        let first = record_found(state, identity, primary);
        lemma_found_directory(first, identity, output, disk);
        let second = record_found(first, identity, output);
        lemma_resolution_directories(entries, from + 1, disk, second);
    }
}

/// Whether every registered source is the package of its identity: it has
/// the handle and the directories of that package.
pub open spec fn sources_are_packages(
    tree: TreeView,
    packages: Map<IdentityView, PackageView>,
) -> bool {
    forall|i: int|
        0 <= i < tree.sources.len() ==> match #[trigger] tree.sources[i] {
            Some(source) => packages.contains_key(source.identity)
                && packages[source.identity].source_id == source.id
                && packages[source.identity].source_paths == source.dirs,
            None => true,
        }
}

/// The handles of the packages of `members`, in order.
pub open spec fn member_handles(
    members: Seq<IdentityView>,
    packages: Map<IdentityView, PackageView>,
) -> Seq<SourceId> {
    Seq::new(members.len(), |k: int| packages[members[k]].source_id)
}

proof fn lemma_roots_are_packages(
    members: Seq<IdentityView>,
    from: int,
    packages: Map<IdentityView, PackageView>,
    omit_deps: bool,
    state: RootState,
)
    requires
        0 <= from <= members.len(),
        sources_are_packages(state.tree, packages),
        state.ids == member_handles(members, packages).take(from),
        add_roots(members, from, packages, omit_deps, state) is Ok,
    ensures
        sources_are_packages(
            add_roots(members, from, packages, omit_deps, state)->Ok_0.tree,
            packages,
        ),
        add_roots(members, from, packages, omit_deps, state)->Ok_0.ids == member_handles(
            members,
            packages,
        ),
    decreases members.len() - from,
{
    let handles = member_handles(members, packages);
    if from < members.len() {
        let next = add_root(members[from], packages, omit_deps, state)->Ok_0;
        assert(next.ids =~= handles.take(from + 1));
        lemma_roots_are_packages(members, from + 1, packages, omit_deps, next);
    }
}

proof fn lemma_nodes_are_packages(
    nodes: Seq<Json>,
    from: int,
    packages: Map<IdentityView, PackageView>,
    state: GraphState,
)
    requires
        sources_are_packages(state.tree, packages),
        add_nodes(nodes, from, packages, state) is Ok,
    ensures
        sources_are_packages(add_nodes(nodes, from, packages, state)->Ok_0.tree, packages),
    decreases nodes.len() - from,
{
    if 0 <= from < nodes.len() {
        let next = add_node(nodes[from], packages, state)->Ok_0;
        lemma_nodes_are_packages(nodes, from + 1, packages, next);
    }
}

/// In a tree built on one without a registered source, every source is the
/// package of its identity, and the roots are the handles of the workspace
/// members, in their order.
pub proof fn lemma_built_from_packages(
    config: Config,
    metadata: Json,
    packages: Map<IdentityView, PackageView>,
    tree: TreeView,
)
    requires
        tree.unpopulated(),
        built_tree(config, metadata, packages, tree) is Ok,
    ensures
        sources_are_packages(built_tree(config, metadata, packages, tree)->Ok_0, packages),
        built_tree(config, metadata, packages, tree)->Ok_0.roots == member_handles(
            member_identities(metadata)->Ok_0,
            packages,
        ),
{
    let members = member_identities(metadata)->Ok_0;
    let start = RootState { ids: seq![], tree };
    assert(start.ids =~= member_handles(members, packages).take(0));
    lemma_roots_are_packages(members, 0, packages, config.omit_deps, start);
    let rooted = add_roots(members, 0, packages, config.omit_deps, start)->Ok_0;
    let rooted_tree = rooted.tree.with_roots(rooted.ids);
    if !config.omit_deps {
        let nodes = array_entry("nodes"@, object_field("resolve"@, metadata)->Ok_0)->Ok_0;
        let graph_start = GraphState { tree: rooted_tree, references: seq![] };
        lemma_nodes_are_packages(nodes, 0, packages, graph_start);
        lemma_nodes_keep_roots(nodes, 0, packages, graph_start);
    }
}

proof fn lemma_nodes_keep_roots(
    nodes: Seq<Json>,
    from: int,
    packages: Map<IdentityView, PackageView>,
    state: GraphState,
)
    requires
        add_nodes(nodes, from, packages, state) is Ok,
    ensures
        add_nodes(nodes, from, packages, state)->Ok_0.tree.roots == state.tree.roots,
    decreases nodes.len() - from,
{
    if 0 <= from < nodes.len() {
        lemma_nodes_keep_roots(nodes, from + 1, packages, add_node(nodes[from], packages, state)->Ok_0);
    }
}

/// Every source of the tree of a workspace is the resolved package of its
/// identity, with that package's handle and directories, and the roots of
/// the tree are the handles of the workspace members, in their order.
pub proof fn lemma_sources_are_packages(config: Config, metadata: Json, disk: DiskView)
    requires
        dependency_tree_of(config, metadata, disk) is Ok,
    ensures
        sources_are_packages(
            dependency_tree_of(config, metadata, disk)->Ok_0,
            resolved_packages(metadata, disk, TreeView::empty())->Ok_0.packages,
        ),
        dependency_tree_of(config, metadata, disk)->Ok_0.roots == member_handles(
            member_identities(metadata)->Ok_0,
            resolved_packages(metadata, disk, TreeView::empty())->Ok_0.packages,
        ),
{
    let entries = array_field("packages"@, metadata)->Ok_0;
    let start = Resolution { packages: Map::empty(), tree: TreeView::empty() };
    lemma_resolution_registers_nothing(entries, 0, disk, start);
    let resolution = resolved_packages(metadata, disk, TreeView::empty())->Ok_0;
    lemma_built_from_packages(config, metadata, resolution.packages, resolution.tree);
}

/// No two sources of the tree of a workspace have the same identity.
pub proof fn lemma_identities_distinct(
    config: Config,
    metadata: Json,
    disk: DiskView,
    first: int,
    second: int,
)
    requires
        dependency_tree_of(config, metadata, disk) is Ok,
        0 <= first < second < dependency_tree_of(config, metadata, disk)->Ok_0.sources.len(),
        dependency_tree_of(config, metadata, disk)->Ok_0.sources[first] is Some,
        dependency_tree_of(config, metadata, disk)->Ok_0.sources[second] is Some,
    ensures
        dependency_tree_of(config, metadata, disk)->Ok_0.sources[first]->Some_0.identity
            != dependency_tree_of(config, metadata, disk)->Ok_0.sources[second]->Some_0.identity,
{
    lemma_sources_are_packages(config, metadata, disk);
    lemma_dependency_tree(config, metadata, disk);
}

/// Every source of the tree of a workspace has a directory, and each of its
/// directories is a directory on disk.
pub proof fn lemma_sources_lie_on_disk(config: Config, metadata: Json, disk: DiskView)
    requires
        dependency_tree_of(config, metadata, disk) is Ok,
    ensures
        dependency_tree_of(config, metadata, disk)->Ok_0.sources_lie_on(disk),
{
    let entries = array_field("packages"@, metadata)->Ok_0;
    let start = Resolution { packages: Map::empty(), tree: TreeView::empty() };
    lemma_resolution_directories(entries, 0, disk, start);
    lemma_sources_are_packages(config, metadata, disk);
}

/// Every depth of a graph without an edge is 0.
proof fn lemma_edgeless_depths(tree: TreeView)
    requires
        tree.well_formed(),
        tree.edgeless(),
    ensures
        forall|i: int|
            0 <= i < tree.sources.len() ==> #[trigger] graph_depths(tree.dependencies)[i] == 0,
{
    lemma_depths_bounded(tree.dependencies, tree.dependencies.len());
}

/// The tree of a workspace has no dangling edge: every dependency of a node
/// is itself a node with a registered source.
pub proof fn lemma_no_dangling_edges(config: Config, metadata: Json, disk: DiskView)
    requires
        dependency_tree_of(config, metadata, disk) is Ok,
    ensures
        dependency_tree_of(config, metadata, disk)->Ok_0.well_formed(),
        dependency_tree_of(config, metadata, disk)->Ok_0.no_dangling_edges(),
{
    lemma_dependency_tree(config, metadata, disk);
}

/// In the tree of a workspace a source is flagged as a root exactly if its
/// handle is one of the tree's roots.
pub proof fn lemma_root_flags_match(config: Config, metadata: Json, disk: DiskView)
    requires
        dependency_tree_of(config, metadata, disk) is Ok,
    ensures
        dependency_tree_of(config, metadata, disk)->Ok_0.root_flags_match(),
{
    lemma_dependency_tree(config, metadata, disk);
}

/// A tree built without dependencies holds the workspace members and
/// nothing else: the registered sources are the roots, no node has a
/// dependency, and every depth is 0, whatever the resolved graph holds.
pub proof fn lemma_omitted_dependencies(config: Config, metadata: Json, disk: DiskView)
    requires
        config.omit_deps,
        dependency_tree_of(config, metadata, disk) is Ok,
    ensures
        dependency_tree_of(config, metadata, disk)->Ok_0.registered_are_roots(),
        dependency_tree_of(config, metadata, disk)->Ok_0.edgeless(),
        forall|i: int|
            0 <= i < dependency_tree_of(config, metadata, disk)->Ok_0.depths.len()
                ==> #[trigger] dependency_tree_of(config, metadata, disk)->Ok_0.depths[i] == 0,
{
    lemma_dependency_tree(config, metadata, disk);
}

proof fn lemma_dependency_tree(config: Config, metadata: Json, disk: DiskView)
    requires
        dependency_tree_of(config, metadata, disk) is Ok,
    ensures
        dependency_tree_of(config, metadata, disk)->Ok_0.well_formed(),
        dependency_tree_of(config, metadata, disk)->Ok_0.no_dangling_edges(),
        dependency_tree_of(config, metadata, disk)->Ok_0.root_flags_match(),
        config.omit_deps ==> dependency_tree_of(config, metadata, disk)->Ok_0.edgeless(),
        config.omit_deps ==> dependency_tree_of(
            config,
            metadata,
            disk,
        )->Ok_0.registered_are_roots(),
        config.omit_deps ==> forall|i: int|
            0 <= i < dependency_tree_of(config, metadata, disk)->Ok_0.depths.len()
                ==> #[trigger] dependency_tree_of(config, metadata, disk)->Ok_0.depths[i] == 0,
{
    let entries = array_field("packages"@, metadata)->Ok_0;
    let start = Resolution { packages: Map::empty(), tree: TreeView::empty() };
    lemma_resolution_registers_nothing(entries, 0, disk, start);
    let resolution = resolved_packages(metadata, disk, TreeView::empty())->Ok_0;
    lemma_built_tree(config, metadata, resolution.packages, resolution.tree);
    let built = built_tree(config, metadata, resolution.packages, resolution.tree)->Ok_0;
    lemma_depths_bounded(built.dependencies, built.dependencies.len());
    if config.omit_deps {
        lemma_edgeless_depths(built);
        let tree = built.with_depths();
        assert forall|id: SourceId|
            #![trigger tree.is_registered(id)]
            #![trigger tree.is_root(id)]
            tree.is_registered(id) <==> tree.is_root(id) by {
            assert(built.is_registered(id) <==> built.is_root(id));
        }
    }
}

} // verus!
