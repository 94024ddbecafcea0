//! How the tree follows the resolved graph of the snapshot: every node of
//! the graph is a source of the tree, and its dependencies are the handles
//! of the packages that the node lists.

use crate::config::Config;
use crate::dependencies::{
    add_node, add_nodes, add_root, add_roots, built_tree, dependency_tree_of, known_package_of,
    member_identities, parse_identities, resolve_handles, GraphState, RootState,
};
use crate::directory::source_directory;
use crate::identity::{parsed_identity, IdentityView};
use crate::json::{array_entry, array_field, object_field, text_field, Json};
use crate::laws::member_handles;
use crate::packages::{
    handles_distinct, record_found, resolve_entries, resolved_packages, PackageView, Resolution,
};
use crate::paths::DiskView;
use crate::tree::{SourceId, SourceView, TreeView};
use vstd::prelude::*;

verus! {

/// The nodes of the resolved graph of a snapshot.
pub open spec fn snapshot_nodes(metadata: Json) -> Seq<Json> {
    array_entry("nodes"@, object_field("resolve"@, metadata)->Ok_0)->Ok_0
}

/// The identity of a node of the resolved graph.
pub open spec fn node_identity(node: Json) -> IdentityView {
    parsed_identity(text_field("id"@, node)->Ok_0)->Ok_0
}

/// The identities that a node of the resolved graph lists as its
/// dependencies, in order.
pub open spec fn node_dependencies(node: Json) -> Seq<IdentityView> {
    parse_identities(array_field("dependencies"@, node)->Ok_0, 0, "dependencies"@, seq![])->Ok_0
}

/// Whether the source and the dependencies that `tree` holds under the
/// handle of the package of `node` are those of the node: the source is the
/// package, flagged as a root if its handle is one of the roots, and the
/// dependencies are the handles of the packages that the node lists.
pub open spec fn holds_node(
    tree: TreeView,
    packages: Map<IdentityView, PackageView>,
    node: Json,
) -> bool {
    let identity = node_identity(node);
    let handle = packages[identity].source_id;
    &&& packages.contains_key(identity)
    &&& tree.is_allocated(handle)
    &&& tree.sources[handle.id as int] == Some(
        SourceView {
            id: handle,
            identity,
            dirs: packages[identity].source_paths,
            is_root: tree.is_root(handle),
        },
    )
    &&& tree.dependencies[handle.id as int] == member_handles(node_dependencies(node), packages)
}

proof fn lemma_handles_are_named(
    identities: Seq<IdentityView>,
    from: int,
    packages: Map<IdentityView, PackageView>,
    tree: TreeView,
    handles: Seq<SourceId>,
)
    requires
        0 <= from <= identities.len(),
        handles == member_handles(identities, packages).take(from),
        resolve_handles(identities, from, packages, tree, handles) is Ok,
    ensures
        resolve_handles(identities, from, packages, tree, handles)->Ok_0 == member_handles(
            identities,
            packages,
        ),
    decreases identities.len() - from,
{
    let named = member_handles(identities, packages);
    if from < identities.len() {
        let package = known_package_of(identities[from], packages, tree)->Ok_0;
        assert(handles.push(package.source_id) =~= named.take(from + 1));
        lemma_handles_are_named(
            identities,
            from + 1,
            packages,
            tree,
            handles.push(package.source_id),
        );
    }
}

/// Nodes of other packages leave what the tree holds under a handle.
proof fn lemma_other_nodes_keep(
    nodes: Seq<Json>,
    from: int,
    packages: Map<IdentityView, PackageView>,
    state: GraphState,
    identity: IdentityView,
)
    requires
        0 <= from,
        handles_distinct(packages, state.tree),
        state.tree.dependencies.len() == state.tree.sources.len(),
        packages.contains_key(identity),
        forall|later: int| from <= later < nodes.len() ==> node_identity(#[trigger] nodes[later])
            != identity,
        add_nodes(nodes, from, packages, state) is Ok,
    ensures
        add_nodes(nodes, from, packages, state)->Ok_0.tree.sources[packages[identity].source_id.id as int]
            == state.tree.sources[packages[identity].source_id.id as int],
        add_nodes(
            nodes,
            from,
            packages,
            state,
        )->Ok_0.tree.dependencies[packages[identity].source_id.id as int]
            == state.tree.dependencies[packages[identity].source_id.id as int],
        add_nodes(nodes, from, packages, state)->Ok_0.tree.roots == state.tree.roots,
        add_nodes(nodes, from, packages, state)->Ok_0.tree.sources.len()
            == state.tree.sources.len(),
    decreases nodes.len() - from,
{
    if from < nodes.len() {
        let next = add_node(nodes[from], packages, state)->Ok_0;
        lemma_other_nodes_keep(nodes, from + 1, packages, next, identity);
    }
}

proof fn lemma_nodes_are_held(
    nodes: Seq<Json>,
    from: int,
    packages: Map<IdentityView, PackageView>,
    state: GraphState,
    at: int,
)
    requires
        0 <= from <= at < nodes.len(),
        handles_distinct(packages, state.tree),
        state.tree.dependencies.len() == state.tree.sources.len(),
        forall|later: int| at < later < nodes.len() ==> node_identity(#[trigger] nodes[later])
            != node_identity(nodes[at]),
        add_nodes(nodes, from, packages, state) is Ok,
    ensures
        holds_node(add_nodes(nodes, from, packages, state)->Ok_0.tree, packages, nodes[at]),
    decreases at - from,
{
    let next = add_node(nodes[from], packages, state)->Ok_0;
    if from < at {
        lemma_nodes_are_held(nodes, from + 1, packages, next, at);
    } else {
        let node = nodes[at];
        let listed = node_dependencies(node);
        assert(member_handles(listed, packages).take(0) =~= seq![]);
        lemma_handles_are_named(listed, 0, packages, state.tree, seq![]);
        lemma_other_nodes_keep(nodes, at + 1, packages, next, node_identity(node));
    }
}

/// In a tree built with dependencies from packages that share no handle,
/// every node of the resolved graph that is not listed again later is held
/// by the tree: as a source, with the handles of the packages that it lists
/// as its dependencies.
pub proof fn lemma_built_tree_holds_nodes(
    config: Config,
    metadata: Json,
    packages: Map<IdentityView, PackageView>,
    tree: TreeView,
    at: int,
)
    requires
        !config.omit_deps,
        tree.dependencies.len() == tree.sources.len(),
        handles_distinct(packages, tree),
        built_tree(config, metadata, packages, tree) is Ok,
        0 <= at < snapshot_nodes(metadata).len(),
        forall|later: int|
            at < later < snapshot_nodes(metadata).len() ==> node_identity(
                #[trigger] snapshot_nodes(metadata)[later],
            ) != node_identity(snapshot_nodes(metadata)[at]),
    ensures
        holds_node(
            built_tree(config, metadata, packages, tree)->Ok_0,
            packages,
            snapshot_nodes(metadata)[at],
        ),
{
    let members = member_identities(metadata)->Ok_0;
    let start = RootState { ids: seq![], tree };
    lemma_roots_keep_handles(members, 0, packages, false, start);
    let rooted = add_roots(members, 0, packages, false, start)->Ok_0;
    let graph_start = GraphState { tree: rooted.tree.with_roots(rooted.ids), references: seq![] };
    lemma_nodes_are_held(snapshot_nodes(metadata), 0, packages, graph_start, at);
}

proof fn lemma_roots_keep_handles(
    members: Seq<IdentityView>,
    from: int,
    packages: Map<IdentityView, PackageView>,
    omit_deps: bool,
    state: RootState,
)
    requires
        state.tree.dependencies.len() == state.tree.sources.len(),
        add_roots(members, from, packages, omit_deps, state) is Ok,
    ensures
        add_roots(members, from, packages, omit_deps, state)->Ok_0.tree.sources.len()
            == state.tree.sources.len(),
        add_roots(members, from, packages, omit_deps, state)->Ok_0.tree.dependencies.len()
            == state.tree.sources.len(),
    decreases members.len() - from,
{
    if 0 <= from < members.len() {
        let next = add_root(members[from], packages, omit_deps, state)->Ok_0;
        lemma_roots_keep_handles(members, from + 1, packages, omit_deps, next);
    }
}

/// Resolution hands out handles and takes none back.
proof fn lemma_resolution_grows(entries: Seq<Json>, from: int, disk: DiskView, state: Resolution)
    requires
        state.tree.dependencies.len() == state.tree.sources.len(),
        resolve_entries(entries, from, disk, state) is Ok,
    ensures
        resolve_entries(entries, from, disk, state)->Ok_0.tree.sources.len()
            >= state.tree.sources.len(),
        resolve_entries(entries, from, disk, state)->Ok_0.tree.dependencies.len()
            == resolve_entries(entries, from, disk, state)->Ok_0.tree.sources.len(),
    decreases entries.len() - from,
{
    if 0 <= from < entries.len() {
        let entry = entries[from];
        let identity = node_identity(entry);
        let first = record_found(state, identity, source_directory(entry, false, disk)->Ok_0);
        let second = record_found(first, identity, source_directory(entry, true, disk)->Ok_0);
        lemma_resolution_grows(entries, from + 1, disk, second);
    }
}

/// One more directory for a package keeps the handles of the packages
/// apart, as long as the handles fit the machine.
proof fn lemma_found_keeps_apart(
    state: Resolution,
    identity: IdentityView,
    found: Option<Seq<char>>,
)
    requires
        handles_distinct(state.packages, state.tree),
        record_found(state, identity, found).tree.sources.len() <= usize::MAX,
    ensures
        handles_distinct(
            record_found(state, identity, found).packages,
            record_found(state, identity, found).tree,
        ),
{
}

proof fn lemma_resolution_keeps_apart(
    entries: Seq<Json>,
    from: int,
    disk: DiskView,
    state: Resolution,
)
    requires
        state.tree.dependencies.len() == state.tree.sources.len(),
        handles_distinct(state.packages, state.tree),
        resolve_entries(entries, from, disk, state) is Ok,
        resolve_entries(entries, from, disk, state)->Ok_0.tree.sources.len() <= usize::MAX,
    ensures
        handles_distinct(
            resolve_entries(entries, from, disk, state)->Ok_0.packages,
            resolve_entries(entries, from, disk, state)->Ok_0.tree,
        ),
    decreases entries.len() - from,
{
    if 0 <= from < entries.len() {
        let entry = entries[from];
        let identity = node_identity(entry);
        let first = record_found(state, identity, source_directory(entry, false, disk)->Ok_0);
        let second = record_found(first, identity, source_directory(entry, true, disk)->Ok_0);
        lemma_resolution_grows(entries, from + 1, disk, second);
        lemma_found_keeps_apart(state, identity, source_directory(entry, false, disk)->Ok_0);
        lemma_found_keeps_apart(first, identity, source_directory(entry, true, disk)->Ok_0);
        lemma_resolution_keeps_apart(entries, from + 1, disk, second);
    }
}

/// The tree of a workspace, built with dependencies, follows the resolved
/// graph: every node of the graph that is not listed again later is a source
/// of the tree, and its dependencies in the tree are the handles of the
/// packages that it lists, in their order. The number of handles is taken to
/// fit the machine, as it does in every tree that exists.
pub proof fn lemma_tree_follows_snapshot(config: Config, metadata: Json, disk: DiskView, at: int)
    requires
        !config.omit_deps,
        dependency_tree_of(config, metadata, disk) is Ok,
        dependency_tree_of(config, metadata, disk)->Ok_0.sources.len() <= usize::MAX,
        0 <= at < snapshot_nodes(metadata).len(),
        forall|later: int|
            at < later < snapshot_nodes(metadata).len() ==> node_identity(
                #[trigger] snapshot_nodes(metadata)[later],
            ) != node_identity(snapshot_nodes(metadata)[at]),
    ensures
        holds_node(
            dependency_tree_of(config, metadata, disk)->Ok_0,
            resolved_packages(metadata, disk, TreeView::empty())->Ok_0.packages,
            snapshot_nodes(metadata)[at],
        ),
{
    let entries = array_field("packages"@, metadata)->Ok_0;
    let start = Resolution { packages: Map::empty(), tree: TreeView::empty() };
    let resolution = resolved_packages(metadata, disk, TreeView::empty())->Ok_0;
    lemma_resolution_grows(entries, 0, disk, start);
    lemma_built_keeps_handles(config, metadata, resolution.packages, resolution.tree);
    lemma_resolution_keeps_apart(entries, 0, disk, start);
    lemma_built_tree_holds_nodes(config, metadata, resolution.packages, resolution.tree, at);
}

proof fn lemma_built_keeps_handles(
    config: Config,
    metadata: Json,
    packages: Map<IdentityView, PackageView>,
    tree: TreeView,
)
    requires
        tree.dependencies.len() == tree.sources.len(),
        built_tree(config, metadata, packages, tree) is Ok,
    ensures
        built_tree(config, metadata, packages, tree)->Ok_0.sources.len() == tree.sources.len(),
{
    let members = member_identities(metadata)->Ok_0;
    let start = RootState { ids: seq![], tree };
    lemma_roots_keep_handles(members, 0, packages, config.omit_deps, start);
    if !config.omit_deps {
        let rooted = add_roots(members, 0, packages, config.omit_deps, start)->Ok_0;
        let graph_start = GraphState {
            tree: rooted.tree.with_roots(rooted.ids),
            references: seq![],
        };
        lemma_nodes_keep_handles(snapshot_nodes(metadata), 0, packages, graph_start);
    }
}

proof fn lemma_nodes_keep_handles(
    nodes: Seq<Json>,
    from: int,
    packages: Map<IdentityView, PackageView>,
    state: GraphState,
)
    requires
        add_nodes(nodes, from, packages, state) is Ok,
    ensures
        add_nodes(nodes, from, packages, state)->Ok_0.tree.sources.len()
            == state.tree.sources.len(),
    decreases nodes.len() - from,
{
    if 0 <= from < nodes.len() {
        lemma_nodes_keep_handles(
            nodes,
            from + 1,
            packages,
            add_node(nodes[from], packages, state)->Ok_0,
        );
    }
}

} // verus!
