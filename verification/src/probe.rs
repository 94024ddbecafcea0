//! Which paths a construction reads from the record of the disk. A record
//! that is right about these paths gives the tree that the disk itself
//! would give.

use crate::config::Config;
use crate::dependencies::dependency_tree_of;
use crate::directory::{
    build_output_name, candidate_directory, find_supported_target, first_supported_target,
    settled_directory, source_directory,
};
use crate::json::{
    array_field, as_array_from_value, as_str_from_value, json_view, json_views, text_field, Json,
    JsonValue,
};
use crate::packages::{resolve_entries, resolve_entry, resolved_packages, Resolution};
use crate::paths::{join, parent_of, path_join, path_parent, DiskView};
use crate::tree::{path_texts, TreeView};
use vstd::prelude::*;

verus! {

/// The paths that may stand for the entry path `src_path` of a package with
/// the manifest directory `manifest_dir`: the two themselves, the directory
/// of the entry path, and the build output beside that directory.
pub open spec fn candidate_probes(src_path: Seq<char>, manifest_dir: Seq<char>) -> Seq<Seq<char>> {
    let near = seq![manifest_dir, src_path];
    match path_parent(src_path) {
        None => near,
        Some(directory) => match path_parent(directory) {
            None => near.push(directory),
            Some(package_dir) => near.push(directory).push(
                path_join(package_dir, build_output_name()),
            ),
        },
    }
}

/// The paths that resolving one entry of the package list reads from the
/// disk; none for an entry that resolution does not get as far with.
pub open spec fn entry_probes(entry: Json) -> Seq<Seq<char>> {
    match (array_field("targets"@, entry), text_field("manifest_path"@, entry)) {
        (Ok(targets), Ok(manifest_path)) => match (
            path_parent(manifest_path),
            first_supported_target(targets, 0),
        ) {
            (Some(manifest_dir), Ok(Some(target))) => match text_field("src_path"@, target) {
                Ok(src_path) => candidate_probes(src_path, manifest_dir),
                Err(_) => seq![],
            },
            _ => seq![],
        },
        _ => seq![],
    }
}

/// The paths that resolving the entries from position `from` on reads.
pub open spec fn probes_from(entries: Seq<Json>, from: int) -> Seq<Seq<char>>
    decreases entries.len() - from,
{
    if from < 0 || from >= entries.len() {
        seq![]
    } else {
        entry_probes(entries[from]) + probes_from(entries, from + 1)
    }
}

/// The paths that a construction from this snapshot reads from the disk.
pub open spec fn probed_paths(metadata: Json) -> Seq<Seq<char>> {
    match array_field("packages"@, metadata) {
        Ok(entries) => probes_from(entries, 0),
        Err(_) => seq![],
    }
}

/// Whether two records say the same of each of `paths`.
pub open spec fn agree_on(first: DiskView, second: DiskView, paths: Seq<Seq<char>>) -> bool {
    forall|i: int|
        0 <= i < paths.len() ==> first.files.contains(#[trigger] paths[i])
            == second.files.contains(paths[i]) && first.directories.contains(paths[i])
            == second.directories.contains(paths[i])
}

proof fn lemma_agree_on_parts(
    first: DiskView,
    second: DiskView,
    front: Seq<Seq<char>>,
    back: Seq<Seq<char>>,
)
    requires
        agree_on(first, second, front + back),
    ensures
        agree_on(first, second, front),
        agree_on(first, second, back),
{
    let whole = front + back;
    assert forall|i: int| 0 <= i < front.len() implies first.files.contains(#[trigger] front[i])
        == second.files.contains(front[i]) && first.directories.contains(front[i])
        == second.directories.contains(front[i]) by {
        assert(whole[i] == front[i]);
    }
    assert forall|i: int| 0 <= i < back.len() implies first.files.contains(#[trigger] back[i])
        == second.files.contains(back[i]) && first.directories.contains(back[i])
        == second.directories.contains(back[i]) by {
        assert(whole[front.len() + i] == back[i]);
    }
}

proof fn lemma_candidate_reads_probes(
    src_path: Seq<char>,
    manifest_dir: Seq<char>,
    dotarget: bool,
    first: DiskView,
    second: DiskView,
)
    requires
        agree_on(first, second, candidate_probes(src_path, manifest_dir)),
    ensures
        settled_directory(
            candidate_directory(src_path, manifest_dir, dotarget, first),
            dotarget,
            first,
        ) == settled_directory(
            candidate_directory(src_path, manifest_dir, dotarget, second),
            dotarget,
            second,
        ),
{
    let probes = candidate_probes(src_path, manifest_dir);
    assert(probes[0] == manifest_dir);
    assert(probes[1] == src_path);
    if let Some(directory) = path_parent(src_path) {
        assert(probes[2] == directory);
        if let Some(package_dir) = path_parent(directory) {
            assert(probes[3] == path_join(package_dir, build_output_name()));
        }
    }
}

proof fn lemma_entry_reads_probes(entry: Json, first: DiskView, second: DiskView)
    requires
        agree_on(first, second, entry_probes(entry)),
    ensures
        forall|dotarget: bool| #[trigger]
            source_directory(entry, dotarget, first) == source_directory(entry, dotarget, second),
        forall|state: Resolution| #[trigger]
            resolve_entry(entry, first, state) == resolve_entry(entry, second, state),
{
    assert forall|dotarget: bool| #[trigger]
        source_directory(entry, dotarget, first) == source_directory(
            entry,
            dotarget,
            second,
        ) by {
        if let (Ok(targets), Ok(manifest_path)) = (
            array_field("targets"@, entry),
            text_field("manifest_path"@, entry),
        ) {
            if let (Some(manifest_dir), Ok(Some(target))) = (
                path_parent(manifest_path),
                first_supported_target(targets, 0),
            ) {
                if let Ok(src_path) = text_field("src_path"@, target) {
                    lemma_candidate_reads_probes(src_path, manifest_dir, dotarget, first, second);
                }
            }
        }
    }
}

proof fn lemma_entries_read_probes(
    entries: Seq<Json>,
    from: int,
    first: DiskView,
    second: DiskView,
    state: Resolution,
)
    requires
        agree_on(first, second, probes_from(entries, from)),
    ensures
        resolve_entries(entries, from, first, state) == resolve_entries(
            entries,
            from,
            second,
            state,
        ),
    decreases entries.len() - from,
{
    if 0 <= from < entries.len() {
        lemma_agree_on_parts(
            first,
            second,
            entry_probes(entries[from]),
            probes_from(entries, from + 1),
        );
        lemma_entry_reads_probes(entries[from], first, second);
        if let Ok(next) = resolve_entry(entries[from], first, state) {
            lemma_entries_read_probes(entries, from + 1, first, second, next);
        }
    }
}

/// A construction reads the record of the disk at the probed paths only:
/// two records that say the same of each of them give the same packages and
/// the same tree, or the same error.
pub proof fn lemma_probed_paths_suffice(
    config: Config,
    metadata: Json,
    first: DiskView,
    second: DiskView,
)
    requires
        agree_on(first, second, probed_paths(metadata)),
    ensures
        forall|tree: TreeView| #[trigger]
            resolved_packages(metadata, first, tree) == resolved_packages(metadata, second, tree),
        dependency_tree_of(config, metadata, first) == dependency_tree_of(
            config,
            metadata,
            second,
        ),
{
    assert forall|tree: TreeView| #[trigger]
        resolved_packages(metadata, first, tree) == resolved_packages(
            metadata,
            second,
            tree,
        ) by {
        if let Ok(entries) = array_field("packages"@, metadata) {
            lemma_entries_read_probes(
                entries,
                0,
                first,
                second,
                Resolution { packages: Map::empty(), tree },
            );
        }
    }
}

/// Adds the paths that may stand for an entry path to `paths`.
fn push_candidate_probes(paths: &mut Vec<String>, src_path: &str, manifest_dir: String)
    ensures
        path_texts(final(paths)@) == path_texts(old(paths)@) + candidate_probes(
            src_path@,
            manifest_dir@,
        ),
{
    paths.push(manifest_dir);
    paths.push(src_path.to_owned());
    if let Some(directory) = parent_of(src_path) {
        let above = parent_of(directory.as_str());
        paths.push(directory);
        if let Some(package_dir) = above {
            paths.push(join(package_dir.as_str(), "target"));
        }
    }
}

/// Adds the paths that resolving one entry of the package list reads.
fn push_entry_probes(paths: &mut Vec<String>, entry: &JsonValue)
    ensures
        path_texts(final(paths)@) == path_texts(old(paths)@) + entry_probes(json_view(*entry)),
{
    let targets = match as_array_from_value("targets", entry) {
        Ok(targets) => targets,
        Err(_) => {
            return ;
        },
    };
    let manifest_path = match as_str_from_value("manifest_path", entry) {
        Ok(manifest_path) => manifest_path,
        Err(_) => {
            return ;
        },
    };
    let manifest_dir = match parent_of(manifest_path) {
        Some(manifest_dir) => manifest_dir,
        None => {
            return ;
        },
    };
    let target = match find_supported_target(targets) {
        Ok(Some(target)) => target,
        _ => {
            return ;
        },
    };
    match as_str_from_value("src_path", target) {
        Ok(src_path) => push_candidate_probes(paths, src_path, manifest_dir),
        Err(_) => {},
    }
}

/// Lists the paths that a construction from this snapshot reads from the
/// record of the disk, so that a caller can fill the record for them.
pub fn probe_paths(metadata: &JsonValue) -> (paths: Vec<String>)
    ensures
        path_texts(paths@) == probed_paths(json_view(*metadata)),
{
    let mut paths: Vec<String> = Vec::new();
    let entries = match as_array_from_value("packages", metadata) {
        Ok(entries) => entries,
        Err(_) => {
            return paths;
        },
    };
    let mut i: usize = 0;
    while i < entries.len()
        invariant
            i <= entries.len(),
            path_texts(paths@) + probes_from(json_views(entries@), i as int) == probes_from(
                json_views(entries@),
                0,
            ),
        decreases entries.len() - i,
    {
        push_entry_probes(&mut paths, &entries[i]);
        i += 1;
    }
    paths
}

} // verus!
