//! Resolves every package of the snapshot to its identity, to a handle of
//! the tree and to the directories that hold its sources.

use crate::directory::{source_directory, source_path};
use crate::error::{Error, ErrorView};
use crate::identity::{parsed_identity, Identity, IdentityView};
use crate::json::{
    array_field, as_array_from_value, as_str_from_value, json_view, json_views, text_field, Json,
    JsonValue,
};
use crate::paths::{copy_paths, DiskFacts, DiskView};
use crate::tree::{path_texts, DepTree, SourceId, TreeView};
use vstd::prelude::*;

verus! {

#[verifier::external_type_specification]
#[verifier::external_body]
pub struct ExFnvHasher(fnv::FnvHasher);

#[verifier::external_type_specification]
#[verifier::external_body]
#[verifier::reject_recursive_types(H)]
pub struct ExBuildHasherDefault<H>(core::hash::BuildHasherDefault<H>);

/// A resolved package: its handle in the tree and the directories that hold
/// its sources, the primary one first.
#[derive(Debug, PartialEq, Eq)]
pub struct Package {
    pub source_id: SourceId,
    pub source_paths: Vec<String>,
}

/// The mathematical value of a [`Package`].
pub struct PackageView {
    pub source_id: SourceId,
    pub source_paths: Seq<Seq<char>>,
}

impl View for Package {
    type V = PackageView;

    open spec fn view(&self) -> PackageView {
        PackageView { source_id: self.source_id, source_paths: path_texts(self.source_paths@) }
    }
}

/// The resolved packages, by identity.
pub type Packages = fnv::FnvHashMap<Identity, Package>;

/// What a map of packages holds: the value of each package under the value
/// of its identity.
pub uninterp spec fn package_entries(packages: Packages) -> Map<IdentityView, PackageView>;

/// Makes an empty map with `FnvHashMap::default`.
#[verifier::external_body]
pub(crate) fn new_packages() -> (made: Packages)
    ensures
        package_entries(made) == (Map::<IdentityView, PackageView>::empty()),
{
    fnv::FnvHashMap::default()
}

/// Calls `HashMap::get`: the package stored under a key equal to `identity`,
/// if there is one. Identities are equal exactly when their name, version
/// and origin hold the same text.
#[verifier::external_body]
pub(crate) fn lookup<'a>(packages: &'a Packages, identity: &Identity) -> (found: Option<&'a Package>)
    ensures
        match found {
            Some(package) => package_entries(*packages).contains_key(identity@)
                && package_entries(*packages)[identity@] == package@,
            None => !package_entries(*packages).contains_key(identity@),
        },
{
    packages.get(identity)
}

/// Calls `HashMap::insert`: afterwards the map holds `package` under
/// `identity`, in place of what it held under an equal key, and is otherwise
/// as before.
#[verifier::external_body]
pub(crate) fn store(packages: &mut Packages, identity: Identity, package: Package)
    ensures
        package_entries(*final(packages)) == package_entries(*old(packages)).insert(
            identity@,
            package@,
        ),
{
    packages.insert(identity, package);
}

/// The state of resolution: the packages resolved so far and the tree that
/// handed out their handles.
pub struct Resolution {
    pub packages: Map<IdentityView, PackageView>,
    pub tree: TreeView,
}

/// The state after `directory` was found for the package `identity`: a
/// package seen for the first time gets a fresh handle, and the directory is
/// added to the package's directories.
pub open spec fn record_directory(
    state: Resolution,
    identity: IdentityView,
    directory: Seq<char>,
) -> Resolution {
    if state.packages.contains_key(identity) {
        let known = state.packages[identity];
        Resolution {
            packages: state.packages.insert(
                identity,
                PackageView {
                    source_id: known.source_id,
                    source_paths: known.source_paths.push(directory),
                },
            ),
            tree: state.tree,
        }
    } else {
        Resolution {
            packages: state.packages.insert(
                identity,
                PackageView { source_id: state.tree.next_id(), source_paths: seq![directory] },
            ),
            tree: state.tree.allocate(),
        }
    }
}

/// The state after a directory that may be absent was looked for.
pub open spec fn record_found(
    state: Resolution,
    identity: IdentityView,
    found: Option<Seq<char>>,
) -> Resolution {
    match found {
        Some(directory) => record_directory(state, identity, directory),
        None => state,
    }
}

/// The state after one entry of the package list was resolved: first its
/// sources, then its build output.
pub open spec fn resolve_entry(entry: Json, disk: DiskView, state: Resolution) -> Result<
    Resolution,
    ErrorView,
> {
    match text_field("id"@, entry) {
        Err(error) => Err(error),
        Ok(id) => match parsed_identity(id) {
            Err(error) => Err(error),
            Ok(identity) => match source_directory(entry, false, disk) {
                Err(error) => Err(error),
                Ok(primary) => match source_directory(entry, true, disk) {
                    Err(error) => Err(error),
                    Ok(output) => Ok(
                        record_found(record_found(state, identity, primary), identity, output),
                    ),
                },
            },
        },
    }
}

/// The state after the entries from position `from` on were resolved in
/// order. The first failure ends resolution.
pub open spec fn resolve_entries(
    entries: Seq<Json>,
    from: int,
    disk: DiskView,
    state: Resolution,
) -> Result<Resolution, ErrorView>
    decreases entries.len() - from,
{
    if from < 0 || from >= entries.len() {
        Ok(state)
    } else {
        match resolve_entry(entries[from], disk, state) {
            Err(error) => Err(error),
            Ok(next) => resolve_entries(entries, from + 1, disk, next),
        }
    }
}

/// The packages of a snapshot, resolved against `disk`, and the tree after
/// it handed out a handle for each.
pub open spec fn resolved_packages(metadata: Json, disk: DiskView, tree: TreeView) -> Result<
    Resolution,
    ErrorView,
> {
    match array_field("packages"@, metadata) {
        Err(error) => Err(error),
        Ok(entries) => resolve_entries(
            entries,
            0,
            disk,
            Resolution { packages: Map::empty(), tree },
        ),
    }
}

/// One entry that fails makes the whole resolution fail: there is no
/// resolution that leaves an entry out.
pub proof fn lemma_failure_ends_resolution(
    entries: Seq<Json>,
    from: int,
    disk: DiskView,
    state: Resolution,
    failing: int,
)
    requires
        0 <= from <= failing < entries.len(),
        forall|any: Resolution| #[trigger] resolve_entry(entries[failing], disk, any) is Err,
    ensures
        resolve_entries(entries, from, disk, state) is Err,
    decreases failing - from,
{
    if from < failing {
        if let Ok(next) = resolve_entry(entries[from], disk, state) {
            lemma_failure_ends_resolution(entries, from + 1, disk, next, failing);
        }
    }
}

/// Every package has a directory, and each of its directories is one on
/// disk.
pub open spec fn directories_exist(
    packages: Map<IdentityView, PackageView>,
    disk: DiskView,
) -> bool {
    forall|identity: IdentityView| #[trigger]
        packages.contains_key(identity) ==> {
            &&& packages[identity].source_paths.len() > 0
            &&& forall|i: int|
                0 <= i < packages[identity].source_paths.len() ==> disk.directories.contains(
                    #[trigger] packages[identity].source_paths[i],
                )
        }
}

/// Every package has a handle of the tree, and no two packages share one.
pub open spec fn handles_distinct(packages: Map<IdentityView, PackageView>, tree: TreeView) -> bool {
    &&& forall|identity: IdentityView| #[trigger]
        packages.contains_key(identity) ==> tree.is_allocated(packages[identity].source_id)
    &&& forall|first: IdentityView, second: IdentityView|
        #![trigger packages[first], packages[second]]
        packages.contains_key(first) && packages.contains_key(second) && first != second
            ==> packages[first].source_id != packages[second].source_id
}

/// Whether `packages` holds the directory of the sources of `entry`, should
/// the entry have an identity and such a directory.
pub open spec fn holds_entry(
    packages: Map<IdentityView, PackageView>,
    entry: Json,
    disk: DiskView,
) -> bool {
    match (text_field("id"@, entry), source_directory(entry, false, disk)) {
        (Ok(id), Ok(Some(directory))) => match parsed_identity(id) {
            Ok(identity) => packages.contains_key(identity)
                && packages[identity].source_paths.contains(directory),
            Err(_) => true,
        },
        _ => true,
    }
}

/// Every package of `earlier` is one of `later`, with at least the same
/// directories.
pub open spec fn grown_from(
    later: Map<IdentityView, PackageView>,
    earlier: Map<IdentityView, PackageView>,
) -> bool {
    forall|identity: IdentityView| #[trigger]
        earlier.contains_key(identity) ==> {
            &&& later.contains_key(identity)
            &&& forall|directory: Seq<char>| #[trigger]
                earlier[identity].source_paths.contains(directory)
                    ==> later[identity].source_paths.contains(directory)
        }
}

/// Recording a directory keeps what held of the packages before.
proof fn lemma_record_directory(
    state: Resolution,
    identity: IdentityView,
    directory: Seq<char>,
    disk: DiskView,
)
    requires
        disk.directories.contains(directory),
        directories_exist(state.packages, disk),
        handles_distinct(state.packages, state.tree),
        !state.packages.contains_key(identity) ==> state.tree.next_id().id
            == state.tree.sources.len(),
    ensures
        directories_exist(record_directory(state, identity, directory).packages, disk),
        handles_distinct(
            record_directory(state, identity, directory).packages,
            record_directory(state, identity, directory).tree,
        ),
        grown_from(record_directory(state, identity, directory).packages, state.packages),
        record_directory(state, identity, directory).packages.contains_key(identity),
        record_directory(state, identity, directory).packages[identity].source_paths.contains(
            directory,
        ),
        state.tree.unpopulated() ==> record_directory(state, identity, directory).tree.unpopulated(),
        record_directory(state, identity, directory).tree.roots == state.tree.roots,
{
    let next = record_directory(state, identity, directory);
    let paths = next.packages[identity].source_paths;
    assert(paths[paths.len() - 1] == directory);
    if state.packages.contains_key(identity) {
        let before = state.packages[identity].source_paths;
        assert forall|known: Seq<char>| #[trigger] before.contains(known) implies paths.contains(
            known,
        ) by {
            let i = choose|i: int| 0 <= i < before.len() && before[i] == known;
            assert(paths[i] == known);
        }
    }
}

/// Records that `directory` was found for the package `identity`.
fn record(
    packages: &mut Packages,
    dep_tree: &mut DepTree,
    identity: &Identity,
    directory: String,
    Ghost(disk): Ghost<DiskView>,
)
    requires
        old(dep_tree).wf(),
        disk.directories.contains(directory@),
        directories_exist(package_entries(*old(packages)), disk),
        handles_distinct(package_entries(*old(packages)), old(dep_tree)@),
    ensures
        final(dep_tree).wf(),
        (Resolution { packages: package_entries(*final(packages)), tree: final(dep_tree)@ })
            == record_directory(
            Resolution { packages: package_entries(*old(packages)), tree: old(dep_tree)@ },
            identity@,
            directory@,
        ),
        directories_exist(package_entries(*final(packages)), disk),
        handles_distinct(package_entries(*final(packages)), final(dep_tree)@),
        grown_from(package_entries(*final(packages)), package_entries(*old(packages))),
        package_entries(*final(packages)).contains_key(identity@),
        package_entries(*final(packages))[identity@].source_paths.contains(directory@),
        old(dep_tree)@.unpopulated() ==> final(dep_tree)@.unpopulated(),
        final(dep_tree)@.roots == old(dep_tree)@.roots,
{
    let ghost before = Resolution {
        packages: package_entries(*old(packages)),
        tree: old(dep_tree)@,
    };
    let known = match lookup(packages, identity) {
        Some(package) => Some((package.source_id, copy_paths(&package.source_paths))),
        None => None,
    };
    match known {
        Some((source_id, mut source_paths)) => {
            let ghost known = source_paths@;
            source_paths.push(directory);
            assert(path_texts(source_paths@) =~= path_texts(known).push(directory@));
            store(packages, identity.clone(), Package { source_id, source_paths });
        },
        None => {
            let source_id = dep_tree.new_source();
            let mut source_paths: Vec<String> = Vec::new();
            source_paths.push(directory);
            assert(path_texts(source_paths@) =~= seq![directory@]);
            store(packages, identity.clone(), Package { source_id, source_paths });
        },
    }
    proof {
        lemma_record_directory(before, identity@, directory@, disk);
    }
}

/// Growth keeps the entries that the packages held.
proof fn lemma_grown_holds_entry(
    later: Map<IdentityView, PackageView>,
    earlier: Map<IdentityView, PackageView>,
    entry: Json,
    disk: DiskView,
)
    requires
        grown_from(later, earlier),
        holds_entry(earlier, entry, disk),
    ensures
        holds_entry(later, entry, disk),
{
}

/// Resolves every package of the snapshot: to its identity, to a fresh
/// handle of `dep_tree`, and to the directories on `disk` that hold its
/// sources and its build output.
///
/// Every directory of a resolved package is a directory on `disk`, and every
/// entry of the package list that has a directory for its sources is among
/// the resolved packages, with that directory. No two packages share a
/// handle, and no source is registered under a fresh handle.
pub fn packages(metadata: &JsonValue, disk: &DiskFacts, dep_tree: &mut DepTree) -> (resolved:
    Result<Packages, Error>)
    requires
        old(dep_tree).wf(),
    ensures
        final(dep_tree).wf(),
        match resolved_packages(json_view(*metadata), disk@, old(dep_tree)@) {
            Ok(state) => resolved is Ok && package_entries(resolved->Ok_0) == state.packages
                && final(dep_tree)@ == state.tree,
            Err(error) => resolved is Err && resolved->Err_0@ == error,
        },
        resolved is Ok ==> directories_exist(package_entries(resolved->Ok_0), disk@),
        resolved is Ok ==> handles_distinct(package_entries(resolved->Ok_0), final(dep_tree)@),
        resolved is Ok ==> forall|k: int|
            0 <= k < array_field("packages"@, json_view(*metadata))->Ok_0.len() ==> holds_entry(
                package_entries(resolved->Ok_0),
                #[trigger] array_field("packages"@, json_view(*metadata))->Ok_0[k],
                disk@,
            ),
        old(dep_tree)@.unpopulated() ==> final(dep_tree)@.unpopulated(),
        final(dep_tree)@.roots == old(dep_tree)@.roots,
{
    let entries = match as_array_from_value("packages", metadata) {
        Ok(entries) => entries,
        Err(error) => {
            return Err(error);
        },
    };
    dep_tree.reserve_num_sources(entries.len());
    let mut package_map = new_packages();
    let mut i: usize = 0;
    while i < entries.len()
        invariant
            i <= entries.len(),
            dep_tree.wf(),
            array_field("packages"@, json_view(*metadata)) is Ok,
            array_field("packages"@, json_view(*metadata))->Ok_0 == json_views(entries@),
            resolved_packages(json_view(*metadata), disk@, old(dep_tree)@) == resolve_entries(
                json_views(entries@),
                i as int,
                disk@,
                Resolution { packages: package_entries(package_map), tree: dep_tree@ },
            ),
            directories_exist(package_entries(package_map), disk@),
            handles_distinct(package_entries(package_map), dep_tree@),
            forall|k: int|
                0 <= k < i ==> holds_entry(
                    package_entries(package_map),
                    #[trigger] json_views(entries@)[k],
                    disk@,
                ),
            old(dep_tree)@.unpopulated() ==> dep_tree@.unpopulated(),
            dep_tree@.roots == old(dep_tree)@.roots,
        decreases entries.len() - i,
    {
        let entry = &entries[i];
        let id = match as_str_from_value("id", entry) {
            Ok(id) => id,
            Err(error) => {
                return Err(error);
            },
        };
        let identity = match Identity::parse_from_id(id) {
            Ok(identity) => identity,
            Err(error) => {
                return Err(error);
            },
        };
        let primary = match source_path(entry, false, disk) {
            Ok(primary) => primary,
            Err(error) => {
                return Err(error);
            },
        };
        let output = match source_path(entry, true, disk) {
            Ok(output) => output,
            Err(error) => {
                return Err(error);
            },
        };
        let ghost before = package_entries(package_map);
        if let Some(directory) = primary {
            record(&mut package_map, dep_tree, &identity, directory, Ghost(disk@));
        }
        if let Some(directory) = output {
            record(&mut package_map, dep_tree, &identity, directory, Ghost(disk@));
        }
        proof {
            let after = package_entries(package_map);
            assert forall|k: int| 0 <= k < i implies holds_entry(
                after,
                #[trigger] json_views(entries@)[k],
                disk@,
            ) by {
                lemma_grown_holds_entry(after, before, json_views(entries@)[k], disk@);
            }
        }
        i += 1;
    }
    Ok(package_map)
}

} // verus!
