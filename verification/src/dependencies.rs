//! Assembles the resolved packages and the dependency edges of the snapshot
//! into a dependency tree.

use crate::config::Config;
use crate::depth::{acyclic, relaxed};
use crate::error::{Error, ErrorView, FieldShape};
use crate::identity::{parsed_identity, Identity, IdentityView};
use crate::json::{
    array_entry, array_field, as_array_from_object, as_array_from_value, as_object_from_value,
    as_str_from_value, json_view, json_views, not_text, object_field, text_field,
    to_string_pretty, value_as_str, Json, JsonValue,
};
use crate::laws::{
    lemma_built_tree, lemma_no_dangling_edges, lemma_omitted_dependencies, lemma_root_flags_match,
    lemma_sources_lie_on_disk,
};
use crate::packages::{
    lookup, package_entries, packages, resolved_packages, Package, PackageView, Packages,
};
use crate::paths::{copy_paths, DiskFacts, DiskView};
use crate::tree::{new_source_view, DepTree, Source, SourceId, TreeView};
use vstd::prelude::*;

verus! {

/// The values of a list of identities, in order.
pub open spec fn identity_views(identities: Seq<Identity>) -> Seq<IdentityView> {
    identities.map_values(|identity: Identity| identity@)
}

/// The identities that the entries of a list of identifier strings stand
/// for, from position `from` on and after those in `parsed`. The first entry
/// that is no string, or no identifier, ends the parse; `field` is the field
/// that holds the list.
pub open spec fn parse_identities(
    entries: Seq<Json>,
    from: int,
    field: Seq<char>,
    parsed: Seq<IdentityView>,
) -> Result<Seq<IdentityView>, ErrorView>
    decreases entries.len() - from,
{
    if from < 0 || from >= entries.len() {
        Ok(parsed)
    } else {
        match entries[from] {
            Json::Text(text) => match parsed_identity(text) {
                Err(error) => Err(error),
                Ok(identity) => parse_identities(entries, from + 1, field, parsed.push(identity)),
            },
            _ => Err(not_text(field, entries[from])),
        }
    }
}

/// The identities of the workspace members of a snapshot.
pub open spec fn member_identities(metadata: Json) -> Result<Seq<IdentityView>, ErrorView> {
    match array_field("workspace_members"@, metadata) {
        Err(error) => Err(error),
        Ok(members) => parse_identities(members, 0, "workspace_members"@, seq![]),
    }
}

/// The error for an identity that names no resolved package.
pub open spec fn unresolved(identity: IdentityView) -> ErrorView {
    ErrorView::UnresolvedReference { identity }
}

/// The package of an identity, or the error for an identity without one.
pub open spec fn package_of(
    identity: IdentityView,
    packages: Map<IdentityView, PackageView>,
) -> Result<PackageView, ErrorView> {
    if packages.contains_key(identity) {
        Ok(packages[identity])
    } else {
        Err(unresolved(identity))
    }
}

/// The package of an identity, provided that its handle is one of `tree`.
pub open spec fn known_package_of(
    identity: IdentityView,
    packages: Map<IdentityView, PackageView>,
    tree: TreeView,
) -> Result<PackageView, ErrorView> {
    if packages.contains_key(identity) && tree.is_allocated(packages[identity].source_id) {
        Ok(packages[identity])
    } else {
        Err(unresolved(identity))
    }
}

/// The roots collected so far, and the tree.
pub struct RootState {
    pub ids: Seq<SourceId>,
    pub tree: TreeView,
}

/// The state after one workspace member was taken up: its handle is one more
/// root. With `omit_deps` the member is registered as a source without
/// dependencies.
pub open spec fn add_root(
    member: IdentityView,
    packages: Map<IdentityView, PackageView>,
    omit_deps: bool,
    state: RootState,
) -> Result<RootState, ErrorView> {
    match known_package_of(member, packages, state.tree) {
        Err(error) => Err(error),
        Ok(package) => {
            let ids = state.ids.push(package.source_id);
            if omit_deps {
                match new_source_view(package.source_id, member, package.source_paths, true) {
                    Err(error) => Err(error),
                    Ok(source) => Ok(RootState { ids, tree: state.tree.with_source(source, seq![]) }),
                }
            } else {
                Ok(RootState { ids, tree: state.tree })
            }
        },
    }
}

/// The state after the members from position `from` on were taken up in
/// order.
pub open spec fn add_roots(
    members: Seq<IdentityView>,
    from: int,
    packages: Map<IdentityView, PackageView>,
    omit_deps: bool,
    state: RootState,
) -> Result<RootState, ErrorView>
    decreases members.len() - from,
{
    if from < 0 || from >= members.len() {
        Ok(state)
    } else {
        match add_root(members[from], packages, omit_deps, state) {
            Err(error) => Err(error),
            Ok(next) => add_roots(members, from + 1, packages, omit_deps, next),
        }
    }
}

/// A dependency edge as the snapshot names it: the handle it leads to and
/// the identity that was resolved to that handle.
pub struct ReferenceView {
    pub handle: SourceId,
    pub identity: IdentityView,
}

/// The tree and the dependency edges met so far.
pub struct GraphState {
    pub tree: TreeView,
    pub references: Seq<ReferenceView>,
}

/// The handles of the packages that `identities` name, from position `from`
/// on and after those in `handles`.
pub open spec fn resolve_handles(
    identities: Seq<IdentityView>,
    from: int,
    packages: Map<IdentityView, PackageView>,
    tree: TreeView,
    handles: Seq<SourceId>,
) -> Result<Seq<SourceId>, ErrorView>
    decreases identities.len() - from,
{
    if from < 0 || from >= identities.len() {
        Ok(handles)
    } else {
        match known_package_of(identities[from], packages, tree) {
            Err(error) => Err(error),
            Ok(package) => resolve_handles(
                identities,
                from + 1,
                packages,
                tree,
                handles.push(package.source_id),
            ),
        }
    }
}

/// The edges to `handles`, named by `identities`.
pub open spec fn references_to(
    handles: Seq<SourceId>,
    identities: Seq<IdentityView>,
) -> Seq<ReferenceView> {
    Seq::new(
        handles.len(),
        |k: int| ReferenceView { handle: handles[k], identity: identities[k] },
    )
}

/// The state after one node of the resolved graph was registered, with the
/// handles of its dependencies. The node is a root if its handle is one of
/// the tree's roots.
pub open spec fn add_node(
    node: Json,
    packages: Map<IdentityView, PackageView>,
    state: GraphState,
) -> Result<GraphState, ErrorView> {
    match text_field("id"@, node) {
        Err(error) => Err(error),
        Ok(id) => match parsed_identity(id) {
            Err(error) => Err(error),
            Ok(identity) => match known_package_of(identity, packages, state.tree) {
                Err(error) => Err(error),
                Ok(package) => match array_field("dependencies"@, node) {
                    Err(error) => Err(error),
                    Ok(dependencies) => match parse_identities(
                        dependencies,
                        0,
                        "dependencies"@,
                        seq![],
                    ) {
                        Err(error) => Err(error),
                        Ok(named) => match resolve_handles(
                            named,
                            0,
                            packages,
                            state.tree,
                            seq![],
                        ) {
                            Err(error) => Err(error),
                            Ok(handles) => match new_source_view(
                                package.source_id,
                                identity,
                                package.source_paths,
                                state.tree.is_root(package.source_id),
                            ) {
                                Err(error) => Err(error),
                                Ok(source) => Ok(
                                    GraphState {
                                        tree: state.tree.with_source(source, handles),
                                        references: state.references + references_to(
                                            handles,
                                            named,
                                        ),
                                    },
                                ),
                            },
                        },
                    },
                },
            },
        },
    }
}

/// The state after the nodes from position `from` on were registered in
/// order.
pub open spec fn add_nodes(
    nodes: Seq<Json>,
    from: int,
    packages: Map<IdentityView, PackageView>,
    state: GraphState,
) -> Result<GraphState, ErrorView>
    decreases nodes.len() - from,
{
    if from < 0 || from >= nodes.len() {
        Ok(state)
    } else {
        match add_node(nodes[from], packages, state) {
            Err(error) => Err(error),
            Ok(next) => add_nodes(nodes, from + 1, packages, next),
        }
    }
}

/// The identity of the first edge from position `from` on that leads to a
/// handle without a registered source, if there is such an edge.
pub open spec fn first_dangling(
    references: Seq<ReferenceView>,
    from: int,
    tree: TreeView,
) -> Option<IdentityView>
    decreases references.len() - from,
{
    if from < 0 || from >= references.len() {
        None
    } else if !tree.is_registered(references[from].handle) {
        Some(references[from].identity)
    } else {
        first_dangling(references, from + 1, tree)
    }
}

/// The tree that the snapshot describes, built on `tree` from the resolved
/// packages: the workspace members become the roots, and unless
/// dependencies are omitted every node of the resolved graph is registered
/// with its dependencies. An edge to a package that no node registers is an
/// error.
pub open spec fn built_tree(
    config: Config,
    metadata: Json,
    packages: Map<IdentityView, PackageView>,
    tree: TreeView,
) -> Result<TreeView, ErrorView> {
    match member_identities(metadata) {
        Err(error) => Err(error),
        Ok(members) => match add_roots(
            members,
            0,
            packages,
            config.omit_deps,
            RootState { ids: seq![], tree },
        ) {
            Err(error) => Err(error),
            Ok(rooted) => {
                let rooted_tree = rooted.tree.with_roots(rooted.ids);
                if config.omit_deps {
                    Ok(rooted_tree)
                } else {
                    match object_field("resolve"@, metadata) {
                        Err(error) => Err(error),
                        Ok(resolve) => match array_entry("nodes"@, resolve) {
                            Err(error) => Err(error),
                            Ok(nodes) => match add_nodes(
                                nodes,
                                0,
                                packages,
                                GraphState { tree: rooted_tree, references: seq![] },
                            ) {
                                Err(error) => Err(error),
                                Ok(graph) => match first_dangling(
                                    graph.references,
                                    0,
                                    graph.tree,
                                ) {
                                    Some(identity) => Err(unresolved(identity)),
                                    None => Ok(graph.tree),
                                },
                            },
                        },
                    }
                }
            },
        },
    }
}

/// The dependency tree of a snapshot, resolved against `disk`.
pub open spec fn dependency_tree_of(config: Config, metadata: Json, disk: DiskView) -> Result<
    TreeView,
    ErrorView,
> {
    match resolved_packages(metadata, disk, TreeView::empty()) {
        Err(error) => Err(error),
        Ok(resolution) => match built_tree(config, metadata, resolution.packages, resolution.tree) {
            Err(error) => Err(error),
            Ok(tree) => Ok(tree.with_depths()),
        },
    }
}

fn unresolved_reference(identity: &Identity) -> (error: Error)
    ensures
        error@ == unresolved(identity@),
{
    Error::UnresolvedReference { identity: identity.clone() }
}

/// Parses a list of identifier strings, the value of `field`.
fn identities(entries: &Vec<JsonValue>, field: &str) -> (parsed: Result<Vec<Identity>, Error>)
    ensures
        match parse_identities(json_views(entries@), 0, field@, seq![]) {
            Ok(views) => parsed is Ok && identity_views(parsed->Ok_0@) == views,
            Err(error) => parsed is Err && parsed->Err_0@ == error,
        },
{
    let mut parsed: Vec<Identity> = Vec::new();
    let mut i: usize = 0;
    assert(identity_views(parsed@) =~= seq![]);
    while i < entries.len()
        invariant
            i <= entries.len(),
            parse_identities(json_views(entries@), 0, field@, seq![]) == parse_identities(
                json_views(entries@),
                i as int,
                field@,
                identity_views(parsed@),
            ),
        decreases entries.len() - i,
    {
        let text = match value_as_str(&entries[i]) {
            Some(text) => text,
            None => {
                return Err(
                    Error::SchemaViolation {
                        field: field.to_owned(),
                        expected: FieldShape::Text,
                        snippet: to_string_pretty(&entries[i]),
                    },
                );
            },
        };
        let identity = match Identity::parse_from_id(text) {
            Ok(identity) => identity,
            Err(error) => {
                return Err(error);
            },
        };
        let ghost before = identity_views(parsed@);
        parsed.push(identity);
        assert(identity_views(parsed@) =~= before.push(identity@));
        i += 1;
    }
    Ok(parsed)
}

/// Reads the identities of the workspace members.
pub fn workspace_members(metadata: &JsonValue) -> (members: Result<Vec<Identity>, Error>)
    ensures
        match member_identities(json_view(*metadata)) {
            Ok(views) => members is Ok && identity_views(members->Ok_0@) == views,
            Err(error) => members is Err && members->Err_0@ == error,
        },
{
    match as_array_from_value("workspace_members", metadata) {
        Ok(members) => identities(members, "workspace_members"),
        Err(error) => Err(error),
    }
}

/// Looks up the package of an identity.
pub fn package<'a>(source_version: &Identity, packages: &'a Packages) -> (found: Result<
    &'a Package,
    Error,
>)
    ensures
        match package_of(source_version@, package_entries(*packages)) {
            Ok(view) => found is Ok && found->Ok_0@ == view,
            Err(error) => found is Err && found->Err_0@ == error,
        },
{
    match lookup(packages, source_version) {
        Some(package) => Ok(package),
        None => Err(unresolved_reference(source_version)),
    }
}

/// Looks up the package of an identity and makes sure that the tree handed
/// out its handle.
fn known_package<'a>(identity: &Identity, packages: &'a Packages, dep_tree: &DepTree) -> (found:
    Result<&'a Package, Error>)
    ensures
        match known_package_of(identity@, package_entries(*packages), dep_tree@) {
            Ok(view) => found is Ok && found->Ok_0@ == view,
            Err(error) => found is Err && found->Err_0@ == error,
        },
{
    let found = match package(identity, packages) {
        Ok(found) => found,
        Err(error) => {
            return Err(error);
        },
    };
    if dep_tree.is_allocated(found.source_id) {
        Ok(found)
    } else {
        Err(unresolved_reference(identity))
    }
}

/// A dependency edge as the snapshot names it.
struct Reference {
    handle: SourceId,
    identity: Identity,
}

impl View for Reference {
    type V = ReferenceView;

    closed spec fn view(&self) -> ReferenceView {
        ReferenceView { handle: self.handle, identity: self.identity@ }
    }
}

/// The values of a list of edges, in order.
spec fn reference_views(references: Seq<Reference>) -> Seq<ReferenceView> {
    references.map_values(|reference: Reference| reference@)
}

/// Takes up the workspace members as roots.
fn collect_roots(
    members: &Vec<Identity>,
    packages: &Packages,
    omit_deps: bool,
    dep_tree: &mut DepTree,
) -> (collected: Result<Vec<SourceId>, Error>)
    requires
        old(dep_tree).wf(),
    ensures
        final(dep_tree).wf(),
        match add_roots(
            identity_views(members@),
            0,
            package_entries(*packages),
            omit_deps,
            RootState { ids: seq![], tree: old(dep_tree)@ },
        ) {
            Ok(state) => collected is Ok && collected->Ok_0@ == state.ids && final(dep_tree)@
                == state.tree,
            Err(error) => collected is Err && collected->Err_0@ == error,
        },
{
    let mut ids: Vec<SourceId> = Vec::new();
    let mut i: usize = 0;
    while i < members.len()
        invariant
            i <= members.len(),
            dep_tree.wf(),
            add_roots(
                identity_views(members@),
                0,
                package_entries(*packages),
                omit_deps,
                RootState { ids: seq![], tree: old(dep_tree)@ },
            ) == add_roots(
                identity_views(members@),
                i as int,
                package_entries(*packages),
                omit_deps,
                RootState { ids: ids@, tree: dep_tree@ },
            ),
        decreases members.len() - i,
    {
        let member = &members[i];
        let member_package = match known_package(member, packages, dep_tree) {
            Ok(member_package) => member_package,
            Err(error) => {
                return Err(error);
            },
        };
        ids.push(member_package.source_id);
        if omit_deps {
            let source = match Source::new(
                member_package.source_id,
                member,
                copy_paths(&member_package.source_paths),
                true,
            ) {
                Ok(source) => source,
                Err(error) => {
                    return Err(error);
                },
            };
            dep_tree.set_source(source, Vec::new());
        }
        i += 1;
    }
    Ok(ids)
}

/// Registers one node of the resolved graph with its dependencies, and adds
/// its edges to `references`.
#[verifier::loop_isolation(false)]
fn register_node(
    node: &JsonValue,
    packages: &Packages,
    dep_tree: &mut DepTree,
    references: &mut Vec<Reference>,
) -> (added: Result<(), Error>)
    requires
        old(dep_tree).wf(),
    ensures
        final(dep_tree).wf(),
        match add_node(
            json_view(*node),
            package_entries(*packages),
            GraphState { tree: old(dep_tree)@, references: reference_views(old(references)@) },
        ) {
            Ok(state) => added is Ok && final(dep_tree)@ == state.tree && reference_views(
                final(references)@,
            ) == state.references,
            Err(error) => added is Err && added->Err_0@ == error,
        },
{
    let id = match as_str_from_value("id", node) {
        Ok(id) => id,
        Err(error) => {
            return Err(error);
        },
    };
    let node_version = match Identity::parse_from_id(id) {
        Ok(node_version) => node_version,
        Err(error) => {
            return Err(error);
        },
    };
    let node_package = match known_package(&node_version, packages, dep_tree) {
        Ok(node_package) => node_package,
        Err(error) => {
            return Err(error);
        },
    };
    let dependencies = match as_array_from_value("dependencies", node) {
        Ok(dependencies) => dependencies,
        Err(error) => {
            return Err(error);
        },
    };
    let dep_versions = match identities(dependencies, "dependencies") {
        Ok(dep_versions) => dep_versions,
        Err(error) => {
            return Err(error);
        },
    };
    let mut dep_ids: Vec<SourceId> = Vec::new();
    let mut edges: Vec<Reference> = Vec::new();
    let mut k: usize = 0;
    while k < dep_versions.len()
        invariant
            k <= dep_versions.len(),
            dep_ids.len() == k,
            edges.len() == k,
            *dep_tree == *old(dep_tree),
            resolve_handles(
                identity_views(dep_versions@),
                0,
                package_entries(*packages),
                dep_tree@,
                seq![],
            ) == resolve_handles(
                identity_views(dep_versions@),
                k as int,
                package_entries(*packages),
                dep_tree@,
                dep_ids@,
            ),
            forall|j: int| 0 <= j < dep_ids.len() ==> dep_tree@.is_allocated(#[trigger] dep_ids@[j]),
            reference_views(edges@) == references_to(dep_ids@, identity_views(dep_versions@)),
        decreases dep_versions.len() - k,
    {
        let version = &dep_versions[k];
        let dep_package = match known_package(version, packages, dep_tree) {
            Ok(dep_package) => dep_package,
            Err(error) => {
                return Err(error);
            },
        };
        let ghost ids_before = dep_ids@;
        let ghost edges_before = reference_views(edges@);
        dep_ids.push(dep_package.source_id);
        edges.push(Reference { handle: dep_package.source_id, identity: version.clone() });
        assert forall|j: int| 0 <= j < k + 1 implies reference_views(edges@)[j]
            == references_to(dep_ids@, identity_views(dep_versions@))[j] by {
            if j < k {
                assert(edges_before[j] == references_to(
                    ids_before,
                    identity_views(dep_versions@),
                )[j]);
            }
        }
        k += 1;
    }
    let is_root = dep_tree.is_root(node_package.source_id);
    let source = match Source::new(
        node_package.source_id,
        &node_version,
        copy_paths(&node_package.source_paths),
        is_root,
    ) {
        Ok(source) => source,
        Err(error) => {
            return Err(error);
        },
    };
    dep_tree.set_source(source, dep_ids);
    references.append(&mut edges);
    Ok(())
}

/// Makes sure that every edge leads to a registered source.
fn check_references(references: &Vec<Reference>, dep_tree: &DepTree) -> (checked: Result<(), Error>)
    ensures
        match first_dangling(reference_views(references@), 0, dep_tree@) {
            Some(identity) => checked is Err && checked->Err_0@ == unresolved(identity),
            None => checked is Ok,
        },
{
    let mut i: usize = 0;
    while i < references.len()
        invariant
            i <= references.len(),
            first_dangling(reference_views(references@), 0, dep_tree@) == first_dangling(
                reference_views(references@),
                i as int,
                dep_tree@,
            ),
        decreases references.len() - i,
    {
        if !dep_tree.is_registered(references[i].handle) {
            return Err(unresolved_reference(&references[i].identity));
        }
        i += 1;
    }
    Ok(())
}

/// Builds the tree of the snapshot on `dep_tree` from the resolved
/// packages. On failure the tree is left as far as construction came.
#[verifier::loop_isolation(false)]
pub fn build_dep_tree(
    config: &Config,
    metadata: &JsonValue,
    packages: &Packages,
    dep_tree: &mut DepTree,
) -> (built: Result<(), Error>)
    requires
        old(dep_tree).wf(),
    ensures
        final(dep_tree).wf(),
        match built_tree(
            *config,
            json_view(*metadata),
            package_entries(*packages),
            old(dep_tree)@,
        ) {
            Ok(tree) => built is Ok && final(dep_tree)@ == tree,
            Err(error) => built is Err && built->Err_0@ == error,
        },
        built is Ok && old(dep_tree)@.unpopulated() ==> final(dep_tree)@.no_dangling_edges()
            && final(dep_tree)@.root_flags_match(),
        built is Ok && old(dep_tree)@.unpopulated() && config.omit_deps
            ==> final(dep_tree)@.registered_are_roots() && final(dep_tree)@.edgeless(),
{
    proof {
        if old(dep_tree)@.unpopulated() && built_tree(
            *config,
            json_view(*metadata),
            package_entries(*packages),
            old(dep_tree)@,
        ) is Ok {
            lemma_built_tree(
                *config,
                json_view(*metadata),
                package_entries(*packages),
                old(dep_tree)@,
            );
        }
    }
    let members = match workspace_members(metadata) {
        Ok(members) => members,
        Err(error) => {
            return Err(error);
        },
    };
    let root_ids = match collect_roots(&members, packages, config.omit_deps, dep_tree) {
        Ok(root_ids) => root_ids,
        Err(error) => {
            return Err(error);
        },
    };
    dep_tree.set_roots(root_ids);
    if config.omit_deps {
        return Ok(());
    }
    let resolve = match as_object_from_value("resolve", metadata) {
        Ok(resolve) => resolve,
        Err(error) => {
            return Err(error);
        },
    };
    let nodes = match as_array_from_object("nodes", resolve) {
        Ok(nodes) => nodes,
        Err(error) => {
            return Err(error);
        },
    };
    let mut references: Vec<Reference> = Vec::new();
    let ghost rooted = dep_tree@;
    assert(reference_views(references@) =~= seq![]);
    let mut i: usize = 0;
    while i < nodes.len()
        invariant
            i <= nodes.len(),
            dep_tree.wf(),
            add_nodes(
                json_views(nodes@),
                0,
                package_entries(*packages),
                GraphState { tree: rooted, references: seq![] },
            ) == add_nodes(
                json_views(nodes@),
                i as int,
                package_entries(*packages),
                GraphState { tree: dep_tree@, references: reference_views(references@) },
            ),
        decreases nodes.len() - i,
    {
        match register_node(&nodes[i], packages, dep_tree, &mut references) {
            Ok(()) => {},
            Err(error) => {
                return Err(error);
            },
        }
        i += 1;
    }
    check_references(&references, dep_tree)
}

/// Builds the dependency tree of the whole workspace that the snapshot
/// `metadata` describes, with `disk` telling which paths are files and
/// which are directories.
pub fn dependency_tree(config: &Config, metadata: &JsonValue, disk: &DiskFacts) -> (built: Result<
    DepTree,
    Error,
>)
    ensures
        match dependency_tree_of(*config, json_view(*metadata), disk@) {
            Ok(tree) => built is Ok && built->Ok_0@ == tree && built->Ok_0.wf(),
            Err(error) => built is Err && built->Err_0@ == error,
        },
        built is Ok ==> built->Ok_0@.no_dangling_edges(),
        built is Ok ==> built->Ok_0@.root_flags_match(),
        built is Ok ==> built->Ok_0@.sources_lie_on(disk@),
        built is Ok && config.omit_deps ==> built->Ok_0@.registered_are_roots()
            && built->Ok_0@.edgeless(),
        built is Ok && acyclic(built->Ok_0@.dependencies) ==> forall|node: int|
            0 <= node < built->Ok_0@.depths.len() ==> #[trigger] built->Ok_0@.depths[node]
                == relaxed(built->Ok_0@.dependencies[node], built->Ok_0@.depths),
{
    proof {
        if dependency_tree_of(*config, json_view(*metadata), disk@) is Ok {
            lemma_no_dangling_edges(*config, json_view(*metadata), disk@);
            lemma_root_flags_match(*config, json_view(*metadata), disk@);
            lemma_sources_lie_on_disk(*config, json_view(*metadata), disk@);
            if config.omit_deps {
                lemma_omitted_dependencies(*config, json_view(*metadata), disk@);
            }
        }
    }
    let mut dep_tree = DepTree::new();
    let packages = match packages(metadata, disk, &mut dep_tree) {
        Ok(packages) => packages,
        Err(error) => {
            return Err(error);
        },
    };
    match build_dep_tree(config, metadata, &packages, &mut dep_tree) {
        Ok(()) => {},
        Err(error) => {
            return Err(error);
        },
    }
    dep_tree.compute_depths();
    Ok(dep_tree)
}

} // verus!
