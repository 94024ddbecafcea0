//! The dependency tree: sources indexed by handle, the dependency edges
//! between them, the root handles and the depth of every node.

use crate::depth::{
    acyclic, as_nats, depth_or_zero, edge_lists, graph_depths, lemma_depths_of_acyclic_graph,
    relaxed, settled_depths,
};
use crate::error::{Error, ErrorView};
use crate::identity::{Identity, IdentityView};
use crate::paths::DiskView;
use vstd::prelude::*;

verus! {

/// The handle of a node of a [`DepTree`]. Handles are handed out by
/// [`DepTree::new_source`]; only their equality carries meaning.
#[derive(Clone, Copy, Debug, PartialEq, Eq, Hash, Structural)]
pub struct SourceId {
    pub id: usize,
}

/// A node of the tree: a package with the directories that hold its sources.
#[derive(Debug, PartialEq, Eq)]
pub struct Source {
    pub id: SourceId,
    pub identity: Identity,
    pub dirs: Vec<String>,
    pub is_root: bool,
}

/// The mathematical value of a [`Source`].
pub struct SourceView {
    pub id: SourceId,
    pub identity: IdentityView,
    pub dirs: Seq<Seq<char>>,
    pub is_root: bool,
}

/// The texts of a list of paths, in order.
pub open spec fn path_texts(paths: Seq<String>) -> Seq<Seq<char>> {
    paths.map_values(|path: String| path@)
}

impl View for Source {
    type V = SourceView;

    open spec fn view(&self) -> SourceView {
        SourceView {
            id: self.id,
            identity: self.identity@,
            dirs: path_texts(self.dirs@),
            is_root: self.is_root,
        }
    }
}

/// What [`Source::new`] returns: the source, if it has a directory.
pub open spec fn new_source_view(
    id: SourceId,
    identity: IdentityView,
    dirs: Seq<Seq<char>>,
    is_root: bool,
) -> Result<SourceView, ErrorView> {
    if dirs.len() > 0 {
        Ok(SourceView { id, identity, dirs, is_root })
    } else {
        Err(ErrorView::DownstreamConstructionFailure { identity })
    }
}

impl Source {
    /// Makes the source of a package. A source has at least one directory:
    /// without one the construction fails.
    pub fn new(id: SourceId, identity: &Identity, dirs: Vec<String>, is_root: bool) -> (made: Result<
        Source,
        Error,
    >)
        ensures
            match new_source_view(id, identity@, path_texts(dirs@), is_root) {
                Ok(source) => made is Ok && made->Ok_0@ == source,
                Err(error) => made is Err && made->Err_0@ == error,
            },
    {
        if dirs.len() == 0 {
            return Err(Error::DownstreamConstructionFailure { identity: identity.clone() });
        }
        Ok(Source { id, identity: identity.clone(), dirs, is_root })
    }
}

/// The mathematical value of a [`DepTree`]. Sources, dependencies and
/// depths are indexed by handle.
pub struct TreeView {
    /// The registered source of each handle, if one was registered.
    pub sources: Seq<Option<SourceView>>,
    /// The dependencies of each handle.
    pub dependencies: Seq<Seq<SourceId>>,
    /// The root handles, in the order in which they were given.
    pub roots: Seq<SourceId>,
    /// The depth of each handle.
    pub depths: Seq<nat>,
}

impl TreeView {
    /// The tree without a handle.
    pub open spec fn empty() -> TreeView {
        TreeView { sources: seq![], dependencies: seq![], roots: seq![], depths: seq![] }
    }

    /// Whether the value is consistent: the three sequences cover the same
    /// handles, a registered source sits under its own handle, only
    /// registered sources have dependencies, and every dependency is a
    /// handle of this tree.
    pub open spec fn well_formed(self) -> bool {
        &&& self.dependencies.len() == self.sources.len()
        &&& self.depths.len() == self.sources.len()
        &&& forall|i: int|
            0 <= i < self.sources.len() ==> match #[trigger] self.sources[i] {
                Some(source) => source.id.id == i,
                None => self.dependencies[i].len() == 0,
            }
        &&& forall|i: int, j: int|
            0 <= i < self.dependencies.len() && 0 <= j < self.dependencies[i].len()
                ==> self.is_allocated(#[trigger] self.dependencies[i][j])
    }

    /// Whether the handle was handed out by this tree.
    pub open spec fn is_allocated(self, id: SourceId) -> bool {
        id.id < self.sources.len()
    }

    /// Whether a source was registered under the handle.
    pub open spec fn is_registered(self, id: SourceId) -> bool {
        self.is_allocated(id) && self.sources[id.id as int] is Some
    }

    /// Whether the handle is one of the roots.
    pub open spec fn is_root(self, id: SourceId) -> bool {
        self.roots.contains(id)
    }

    /// The handle that the next allocation hands out.
    pub open spec fn next_id(self) -> SourceId {
        SourceId { id: self.sources.len() as usize }
    }

    /// The tree after one more handle was handed out.
    pub open spec fn allocate(self) -> TreeView {
        TreeView {
            sources: self.sources.push(None),
            dependencies: self.dependencies.push(seq![]),
            depths: self.depths.push(0),
            ..self
        }
    }

    /// The tree with `roots` as its roots.
    pub open spec fn with_roots(self, roots: Seq<SourceId>) -> TreeView {
        TreeView { roots, ..self }
    }

    /// The tree after `source` was registered with the dependencies `deps`.
    pub open spec fn with_source(self, source: SourceView, deps: Seq<SourceId>) -> TreeView {
        TreeView {
            sources: self.sources.update(source.id.id as int, Some(source)),
            dependencies: self.dependencies.update(source.id.id as int, deps),
            ..self
        }
    }

    /// The tree with the depths of its graph.
    pub open spec fn with_depths(self) -> TreeView {
        TreeView { depths: graph_depths(self.dependencies), ..self }
    }

    /// No source is registered.
    pub open spec fn unpopulated(self) -> bool {
        forall|i: int| 0 <= i < self.sources.len() ==> #[trigger] self.sources[i] is None
    }

    /// Every registered source has a directory, and each of its directories
    /// is one on `disk`.
    pub open spec fn sources_lie_on(self, disk: DiskView) -> bool {
        forall|i: int|
            0 <= i < self.sources.len() ==> match #[trigger] self.sources[i] {
                Some(source) => source.dirs.len() > 0 && forall|k: int|
                    0 <= k < source.dirs.len() ==> disk.directories.contains(
                        #[trigger] source.dirs[k],
                    ),
                None => true,
            }
    }

    /// No node has a dependency.
    pub open spec fn edgeless(self) -> bool {
        forall|i: int|
            0 <= i < self.dependencies.len() ==> (#[trigger] self.dependencies[i]).len() == 0
    }

    /// The handles with a registered source are the roots.
    pub open spec fn registered_are_roots(self) -> bool {
        forall|id: SourceId|
            #![trigger self.is_registered(id)]
            #![trigger self.is_root(id)]
            self.is_registered(id) <==> self.is_root(id)
    }

    /// No edge leads to a handle without a registered source.
    pub open spec fn no_dangling_edges(self) -> bool {
        forall|i: int, j: int|
            0 <= i < self.dependencies.len() && 0 <= j < self.dependencies[i].len()
                ==> self.is_registered(#[trigger] self.dependencies[i][j])
    }

    /// The root flag of every registered source says whether its handle is
    /// one of the roots.
    pub open spec fn root_flags_match(self) -> bool {
        forall|i: int|
            0 <= i < self.sources.len() ==> match #[trigger] self.sources[i] {
                Some(source) => source.is_root == self.is_root(source.id),
                None => true,
            }
    }
}

/// A dependency tree.
#[derive(Debug)]
pub struct DepTree {
    roots: Vec<SourceId>,
    sources: Vec<Option<Source>>,
    dependencies: Vec<Vec<SourceId>>,
    depths: Vec<usize>,
}

impl View for DepTree {
    type V = TreeView;

    closed spec fn view(&self) -> TreeView {
        TreeView {
            sources: self.sources@.map_values(
                |slot: Option<Source>|
                    match slot {
                        Some(source) => Some(source@),
                        None => None,
                    },
            ),
            dependencies: edge_lists(self.dependencies@),
            roots: self.roots@,
            depths: as_nats(self.depths@),
        }
    }
}

impl DepTree {
    /// Whether the tree is consistent, which every tree made and changed by
    /// the functions below is.
    pub open spec fn wf(&self) -> bool {
        self@.well_formed()
    }

    /// The handles of a tree fit the machine.
    pub proof fn lemma_handles_fit(&self)
        ensures
            self@.sources.len() <= usize::MAX,
    {
        assert(self@.sources.len() == self.sources.len());
    }

    /// The tree without a handle.
    pub fn new() -> (tree: DepTree)
        ensures
            tree.wf(),
            tree@ == TreeView::empty(),
    {
        let tree = DepTree {
            roots: Vec::new(),
            sources: Vec::new(),
            dependencies: Vec::new(),
            depths: Vec::new(),
        };
        assert(tree@.sources =~= seq![]);
        assert(tree@.dependencies =~= seq![]);
        assert(tree@.depths =~= seq![]);
        tree
    }

    /// Makes room for `num_sources` more handles. The tree's value is as
    /// before.
    pub fn reserve_num_sources(&mut self, num_sources: usize)
        ensures
            final(self)@ == old(self)@,
            final(self).wf() == old(self).wf(),
    {
        let _ = self.sources.try_reserve(num_sources);
        let _ = self.dependencies.try_reserve(num_sources);
        let _ = self.depths.try_reserve(num_sources);
    }

    /// Hands out a fresh handle, under which no source is registered yet.
    pub fn new_source(&mut self) -> (id: SourceId)
        requires
            old(self).wf(),
        ensures
            final(self).wf(),
            id == old(self)@.next_id(),
            id.id == old(self)@.sources.len(),
            final(self)@ == old(self)@.allocate(),
    {
        let id = SourceId { id: self.sources.len() };
        self.sources.push(None);
        self.dependencies.push(Vec::new());
        self.depths.push(0);
        proof {
            assert(self@.sources =~= old(self)@.sources.push(None));
            assert(self@.dependencies =~= old(self)@.dependencies.push(seq![]));
            assert(self@.depths =~= old(self)@.depths.push(0));
        }
        id
    }

    /// Replaces the roots.
    pub fn set_roots(&mut self, roots: Vec<SourceId>)
        ensures
            final(self)@ == old(self)@.with_roots(roots@),
            final(self).wf() == old(self).wf(),
    {
        self.roots = roots;
    }

    /// Registers `source` under its handle, with the handles it depends on.
    /// The handle and the dependencies must be handles of this tree. What was
    /// registered under the handle before, if anything, is replaced: a caller
    /// that wants every handle registered once has to see to that itself.
    pub fn set_source(&mut self, source: Source, dependencies: Vec<SourceId>)
        requires
            old(self).wf(),
            old(self)@.is_allocated(source.id),
            forall|j: int|
                0 <= j < dependencies@.len() ==> old(self)@.is_allocated(
                    #[trigger] dependencies@[j],
                ),
        ensures
            final(self).wf(),
            final(self)@ == old(self)@.with_source(source@, dependencies@),
    {
        let at = source.id.id;
        let ghost source_view = source@;
        let ghost deps = dependencies@;
        self.sources[at] = Some(source);
        self.dependencies[at] = dependencies;
        proof {
            assert(self@.sources =~= old(self)@.sources.update(at as int, Some(source_view)));
            assert(self@.dependencies =~= old(self)@.dependencies.update(at as int, deps));
        }
    }

    /// Computes the depth of every node: 0 for a node without dependencies,
    /// else one more than the greatest depth among its dependencies. The
    /// graph is taken to be acyclic. Nothing checks that it is: on a graph
    /// with a cycle the depths are those that as many rounds of relaxation
    /// as there are nodes arrive at, and they mean nothing.
    pub fn compute_depths(&mut self)
        requires
            old(self).wf(),
        ensures
            final(self).wf(),
            final(self)@ == old(self)@.with_depths(),
            acyclic(old(self)@.dependencies) ==> forall|node: int|
                0 <= node < final(self)@.depths.len() ==> #[trigger] final(self)@.depths[node]
                    == relaxed(final(self)@.dependencies[node], final(self)@.depths),
    {
        proof {
            if acyclic(self@.dependencies) {
                lemma_depths_of_acyclic_graph(self@.dependencies);
            }
        }
        let depths = settled_depths(&self.dependencies);
        self.depths = depths;
    }

    /// The number of handles handed out.
    pub fn num_sources(&self) -> (count: usize)
        ensures
            count == self@.sources.len(),
    {
        self.sources.len()
    }

    /// Whether the handle was handed out by this tree.
    pub fn is_allocated(&self, id: SourceId) -> (allocated: bool)
        ensures
            allocated == self@.is_allocated(id),
    {
        id.id < self.sources.len()
    }

    /// Whether a source is registered under the handle.
    pub fn is_registered(&self, id: SourceId) -> (registered: bool)
        ensures
            registered == self@.is_registered(id),
    {
        id.id < self.sources.len() && self.sources[id.id].is_some()
    }

    /// The source registered under the handle, if there is one.
    pub fn source(&self, id: SourceId) -> (found: Option<&Source>)
        ensures
            found is Some == self@.is_registered(id),
            found is Some ==> self@.sources[id.id as int] == Some(found->Some_0@),
    {
        if id.id < self.sources.len() {
            self.sources[id.id].as_ref()
        } else {
            None
        }
    }

    /// The dependencies registered for the handle; none for a handle that
    /// this tree did not hand out.
    pub fn dependencies(&self, id: SourceId) -> (deps: Vec<SourceId>)
        requires
            self.wf(),
        ensures
            deps@ == if self@.is_allocated(id) {
                self@.dependencies[id.id as int]
            } else {
                seq![]
            },
    {
        if id.id < self.dependencies.len() {
            self.dependencies[id.id].clone()
        } else {
            Vec::new()
        }
    }

    /// The roots, in the order in which they were given.
    pub fn roots(&self) -> (roots: &Vec<SourceId>)
        ensures
            roots@ == self@.roots,
    {
        &self.roots
    }

    /// Whether the handle is one of the roots.
    pub fn is_root(&self, id: SourceId) -> (root: bool)
        ensures
            root == self@.is_root(id),
    {
        holds_id(&self.roots, id)
    }

    /// The depth recorded for the handle; 0 for a handle that this tree did
    /// not hand out.
    pub fn depth(&self, id: SourceId) -> (depth: usize)
        ensures
            depth == depth_or_zero(self@.depths, id),
    {
        if id.id < self.depths.len() {
            self.depths[id.id]
        } else {
            0
        }
    }
}

/// Whether `id` is among `ids`.
pub fn holds_id(ids: &Vec<SourceId>, id: SourceId) -> (found: bool)
    ensures
        found == ids@.contains(id),
{
    let mut i: usize = 0;
    while i < ids.len()
        invariant
            i <= ids.len(),
            forall|k: int| 0 <= k < i ==> ids@[k] != id,
        decreases ids.len() - i,
    {
        if ids[i] == id {
            return true;
        }
        i += 1;
    }
    false
}

} // verus!
