//! Finds the directory that holds the sources of a package, or its build
//! output: that of the first target with a supported kind.

use crate::error::{Error, ErrorView, FieldShape};
use crate::json::{
    array_field, as_array_from_value, as_str_from_value, json_view, json_views, missing_in_value,
    not_text, text_field, to_string_pretty, value_as_str, Json, JsonValue,
};
use crate::paths::{
    contains_text, is_absolute, join, occurs_in, parent_of, path_is_absolute, path_join,
    path_parent, same_text, DiskFacts, DiskView,
};
use vstd::prelude::*;

verus! {

/// Whether a target of this kind holds sources: an executable, any kind of
/// library, a procedural macro or a test.
pub open spec fn supported_kind(kind: Seq<char>) -> bool {
    kind == "bin"@ || occurs_in("lib"@, kind) || kind == "proc-macro"@ || kind == "test"@
}

/// What the kinds of one target say of it.
pub enum KindScan {
    /// Some kind is supported, and no entry before it is malformed.
    Supported,
    /// Every kind is text, and none is supported.
    Unsupported,
    /// An entry is no text, and no kind before it is supported.
    Malformed(ErrorView),
}

/// Scans the kinds of a target in order, from position `from` on.
pub open spec fn scan_kinds(kinds: Seq<Json>, from: int) -> KindScan
    decreases kinds.len() - from,
{
    if from < 0 || from >= kinds.len() {
        KindScan::Unsupported
    } else {
        match kinds[from] {
            Json::Text(kind) => if supported_kind(kind) {
                KindScan::Supported
            } else {
                scan_kinds(kinds, from + 1)
            },
            _ => KindScan::Malformed(not_text("kind"@, kinds[from])),
        }
    }
}

/// The first target from position `from` on that has a supported kind, if
/// there is one. Targets are scanned in order, and the scan fails on the
/// first malformed one that it meets.
pub open spec fn first_supported_target(targets: Seq<Json>, from: int) -> Result<
    Option<Json>,
    ErrorView,
>
    decreases targets.len() - from,
{
    if from < 0 || from >= targets.len() {
        Ok(None)
    } else {
        match array_field("kind"@, targets[from]) {
            Err(error) => Err(error),
            Ok(kinds) => match scan_kinds(kinds, 0) {
                KindScan::Malformed(error) => Err(error),
                KindScan::Supported => Ok(Some(targets[from])),
                KindScan::Unsupported => first_supported_target(targets, from + 1),
            },
        }
    }
}

/// The name of the directory that holds a package's build output.
pub open spec fn build_output_name() -> Seq<char> {
    "target"@
}

/// The directory that a target's entry path points to: `Ok` with the
/// candidate, or `Err` with the path whose parent was needed and is missing.
///
/// A relative entry path stands for the manifest directory. An absolute one
/// that is a file stands for its directory or, for the build output, for the
/// output directory beside that directory. Any other absolute path stands
/// for itself.
pub open spec fn candidate_directory(
    src_path: Seq<char>,
    manifest_dir: Seq<char>,
    dotarget: bool,
    disk: DiskView,
) -> Result<Seq<char>, Seq<char>> {
    if !path_is_absolute(src_path) {
        Ok(manifest_dir)
    } else if !disk.files.contains(src_path) {
        Ok(src_path)
    } else {
        match path_parent(src_path) {
            None => Err(src_path),
            Some(directory) => if !dotarget {
                Ok(directory)
            } else {
                match path_parent(directory) {
                    None => Err(directory),
                    Some(package_dir) => Ok(path_join(package_dir, build_output_name())),
                }
            },
        }
    }
}

/// What resolution makes of a candidate: the candidate if it is a directory
/// on disk. Otherwise the build output counts as absent, and the primary
/// location is an error that names the path.
pub open spec fn settled_directory(
    candidate: Result<Seq<char>, Seq<char>>,
    dotarget: bool,
    disk: DiskView,
) -> Result<Option<Seq<char>>, ErrorView> {
    let path = match candidate {
        Ok(directory) => directory,
        Err(orphan) => orphan,
    };
    if candidate is Ok && disk.directories.contains(path) {
        Ok(Some(path))
    } else if dotarget {
        Ok(None)
    } else {
        Err(ErrorView::InvalidSourceDirectory { path })
    }
}

/// The directory that holds the sources of a package (`dotarget` false) or
/// its build output (`dotarget` true): that of its first target with a
/// supported kind, and none if it has no such target.
pub open spec fn source_directory(package: Json, dotarget: bool, disk: DiskView) -> Result<
    Option<Seq<char>>,
    ErrorView,
> {
    match array_field("targets"@, package) {
        Err(error) => Err(error),
        Ok(targets) => match text_field("manifest_path"@, package) {
            Err(error) => Err(error),
            Ok(manifest_path) => match path_parent(manifest_path) {
                None => Err(ErrorView::InvalidSourceDirectory { path: manifest_path }),
                Some(manifest_dir) => match first_supported_target(targets, 0) {
                    Err(error) => Err(error),
                    Ok(None) => Ok(None),
                    Ok(Some(target)) => match text_field("src_path"@, target) {
                        Err(error) => Err(error),
                        Ok(src_path) => settled_directory(
                            candidate_directory(src_path, manifest_dir, dotarget, disk),
                            dotarget,
                            disk,
                        ),
                    },
                },
            },
        },
    }
}

/// The build output of a target whose entry path is an absolute path to a
/// file lies beside the directory of that file: its candidate is the parent
/// of that directory, joined with the name of the output directory. If that
/// is no directory on disk, the build output counts as absent.
pub proof fn lemma_build_output_directory(
    src_path: Seq<char>,
    manifest_dir: Seq<char>,
    disk: DiskView,
    directory: Seq<char>,
    package_dir: Seq<char>,
)
    requires
        path_is_absolute(src_path),
        disk.files.contains(src_path),
        path_parent(src_path) == Some(directory),
        path_parent(directory) == Some(package_dir),
    ensures
        candidate_directory(src_path, manifest_dir, true, disk) is Ok,
        candidate_directory(src_path, manifest_dir, true, disk)->Ok_0 == path_join(
            package_dir,
            build_output_name(),
        ),
        settled_directory(
            candidate_directory(src_path, manifest_dir, true, disk),
            true,
            disk,
        ) is Ok,
        settled_directory(
            candidate_directory(src_path, manifest_dir, true, disk),
            true,
            disk,
        )->Ok_0 == if disk.directories.contains(path_join(package_dir, build_output_name())) {
            Some(path_join(package_dir, build_output_name()))
        } else {
            None
        },
{
}

/// Looking for the build output of a package fails only where looking for
/// its sources fails too: a build output that cannot be found is absent.
pub proof fn lemma_build_output_is_best_effort(package: Json, disk: DiskView)
    requires
        source_directory(package, false, disk) is Ok,
    ensures
        source_directory(package, true, disk) is Ok,
{
}

/// A package with a target of a supported kind has a directory for its
/// sources, and that directory is one on disk, unless resolving it fails.
pub proof fn lemma_supported_target_has_directory(package: Json, disk: DiskView)
    requires
        array_field("targets"@, package) is Ok,
        first_supported_target(array_field("targets"@, package)->Ok_0, 0) is Ok,
        first_supported_target(array_field("targets"@, package)->Ok_0, 0)->Ok_0 is Some,
        source_directory(package, false, disk) is Ok,
    ensures
        source_directory(package, false, disk)->Ok_0 is Some,
        disk.directories.contains(source_directory(package, false, disk)->Ok_0->Some_0),
{
}

/// A package without a manifest path fails with the schema violation that
/// names the field, whatever is on disk.
pub proof fn lemma_manifest_path_is_required(package: Json, dotarget: bool, disk: DiskView)
    requires
        array_field("targets"@, package) is Ok,
        text_field("manifest_path"@, package) is Err,
    ensures
        source_directory(package, dotarget, disk) is Err,
        source_directory(package, dotarget, disk)->Err_0 == missing_in_value(
            "manifest_path"@,
            FieldShape::Text,
            package,
        ),
{
}

/// Whether a target of this kind holds sources.
pub fn is_supported_kind(kind: &str) -> (supported: bool)
    ensures
        supported == supported_kind(kind@),
{
    same_text(kind, "bin") || contains_text(kind, "lib") || same_text(kind, "proc-macro")
        || same_text(kind, "test")
}

/// Whether one of the kinds of a target is supported.
fn has_supported_kind(kinds: &Vec<JsonValue>) -> (scan: Result<bool, Error>)
    ensures
        match scan_kinds(json_views(kinds@), 0) {
            KindScan::Supported => scan is Ok && scan->Ok_0,
            KindScan::Unsupported => scan is Ok && !scan->Ok_0,
            KindScan::Malformed(error) => scan is Err && scan->Err_0@ == error,
        },
{
    let mut i: usize = 0;
    while i < kinds.len()
        invariant
            i <= kinds.len(),
            scan_kinds(json_views(kinds@), 0) == scan_kinds(json_views(kinds@), i as int),
        decreases kinds.len() - i,
    {
        match value_as_str(&kinds[i]) {
            None => {
                return Err(
                    Error::SchemaViolation {
                        field: "kind".to_owned(),
                        expected: FieldShape::Text,
                        snippet: to_string_pretty(&kinds[i]),
                    },
                );
            },
            Some(kind) => {
                if is_supported_kind(kind) {
                    return Ok(true);
                }
            },
        }
        i += 1;
    }
    Ok(false)
}

/// Finds the first target with a supported kind.
pub fn find_supported_target<'a>(targets: &'a Vec<JsonValue>) -> (found: Result<
    Option<&'a JsonValue>,
    Error,
>)
    ensures
        match first_supported_target(json_views(targets@), 0) {
            Ok(Some(target)) => found is Ok && found->Ok_0 is Some && json_view(
                *found->Ok_0->Some_0,
            ) == target,
            Ok(None) => found is Ok && found->Ok_0 is None,
            Err(error) => found is Err && found->Err_0@ == error,
        },
{
    let mut i: usize = 0;
    while i < targets.len()
        invariant
            i <= targets.len(),
            first_supported_target(json_views(targets@), 0) == first_supported_target(
                json_views(targets@),
                i as int,
            ),
        decreases targets.len() - i,
    {
        let kinds = match as_array_from_value("kind", &targets[i]) {
            Ok(kinds) => kinds,
            Err(error) => {
                return Err(error);
            },
        };
        match has_supported_kind(kinds) {
            Err(error) => {
                return Err(error);
            },
            Ok(true) => {
                return Ok(Some(&targets[i]));
            },
            Ok(false) => {},
        }
        i += 1;
    }
    Ok(None)
}

/// Computes the directory that a target's entry path points to.
pub fn candidate_dir(src_path: &str, manifest_dir: &str, dotarget: bool, disk: &DiskFacts) -> (candidate:
    Result<String, String>)
    ensures
        match candidate_directory(src_path@, manifest_dir@, dotarget, disk@) {
            Ok(directory) => candidate is Ok && candidate->Ok_0@ == directory,
            Err(orphan) => candidate is Err && candidate->Err_0@ == orphan,
        },
{
    if !is_absolute(src_path) {
        return Ok(manifest_dir.to_owned());
    }
    if !disk.is_file(src_path) {
        return Ok(src_path.to_owned());
    }
    let directory = match parent_of(src_path) {
        Some(directory) => directory,
        None => {
            return Err(src_path.to_owned());
        },
    };
    if !dotarget {
        return Ok(directory);
    }
    match parent_of(directory.as_str()) {
        Some(package_dir) => Ok(join(package_dir.as_str(), "target")),
        None => Err(directory),
    }
}

/// Decides what resolution makes of a candidate.
pub fn settle(candidate: Result<String, String>, dotarget: bool, disk: &DiskFacts) -> (settled:
    Result<Option<String>, Error>)
    ensures
        match settled_directory(
            match candidate {
                Ok(directory) => Ok(directory@),
                Err(orphan) => Err(orphan@),
            },
            dotarget,
            disk@,
        ) {
            Ok(Some(directory)) => settled is Ok && settled->Ok_0 is Some
                && settled->Ok_0->Some_0@ == directory,
            Ok(None) => settled is Ok && settled->Ok_0 is None,
            Err(error) => settled is Err && settled->Err_0@ == error,
        },
{
    match candidate {
        Ok(directory) => {
            if disk.is_dir(directory.as_str()) {
                Ok(Some(directory))
            } else if dotarget {
                Ok(None)
            } else {
                Err(Error::InvalidSourceDirectory { path: directory })
            }
        },
        Err(orphan) => {
            if dotarget {
                Ok(None)
            } else {
                Err(Error::InvalidSourceDirectory { path: orphan })
            }
        },
    }
}

/// Resolves the directory that holds the sources of a package, or with
/// `dotarget` its build output.
pub fn source_path(package: &JsonValue, dotarget: bool, disk: &DiskFacts) -> (resolved: Result<
    Option<String>,
    Error,
>)
    ensures
        match source_directory(json_view(*package), dotarget, disk@) {
            Ok(Some(directory)) => resolved is Ok && resolved->Ok_0 is Some
                && resolved->Ok_0->Some_0@ == directory,
            Ok(None) => resolved is Ok && resolved->Ok_0 is None,
            Err(error) => resolved is Err && resolved->Err_0@ == error,
        },
        resolved is Ok && resolved->Ok_0 is Some ==> disk@.directories.contains(
            resolved->Ok_0->Some_0@,
        ),
{
    let targets = match as_array_from_value("targets", package) {
        Ok(targets) => targets,
        Err(error) => {
            return Err(error);
        },
    };
    let manifest_path = match as_str_from_value("manifest_path", package) {
        Ok(manifest_path) => manifest_path,
        Err(error) => {
            return Err(error);
        },
    };
    let manifest_dir = match parent_of(manifest_path) {
        Some(manifest_dir) => manifest_dir,
        None => {
            return Err(Error::InvalidSourceDirectory { path: manifest_path.to_owned() });
        },
    };
    let target = match find_supported_target(targets) {
        Ok(Some(target)) => target,
        Ok(None) => {
            return Ok(None);
        },
        Err(error) => {
            return Err(error);
        },
    };
    let src_path = match as_str_from_value("src_path", target) {
        Ok(src_path) => src_path,
        Err(error) => {
            return Err(error);
        },
    };
    settle(candidate_dir(src_path, manifest_dir.as_str(), dotarget, disk), dotarget, disk)
}

} // verus!
