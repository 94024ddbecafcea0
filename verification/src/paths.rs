//! Paths as text, the path arithmetic of the standard library, and what is
//! known of the disk.
//!
//! The library never touches the disk. The caller records which paths are
//! files and which are directories in a [`DiskFacts`] value, and resolution
//! reads that record.

use vstd::prelude::*;

verus! {

/// The parent that `std::path::Path::parent` gives for a path, if it has one.
pub uninterp spec fn path_parent(path: Seq<char>) -> Option<Seq<char>>;

/// Whether `std::path::Path::is_absolute` holds of a path, on the platform
/// the library is built for.
pub uninterp spec fn path_is_absolute(path: Seq<char>) -> bool;

/// The path that `std::path::Path::join` makes of a base and a path to add.
pub uninterp spec fn path_join(base: Seq<char>, added: Seq<char>) -> Seq<char>;

/// Calls `std::path::Path::parent`. The contract names the result
/// [`path_parent`] and claims nothing else of it.
#[verifier::external_body]
pub(crate) fn parent_of(path: &str) -> (parent: Option<String>)
    ensures
        path_parent(path@) == match parent {
            Some(directory) => Some(directory@),
            None => None,
        },
{
    match std::path::Path::new(path).parent() {
        Some(directory) => Some(directory.to_string_lossy().into_owned()),
        None => None,
    }
}

/// Calls `std::path::Path::is_absolute`. The contract names the result
/// [`path_is_absolute`] and claims nothing else of it.
#[verifier::external_body]
pub(crate) fn is_absolute(path: &str) -> (absolute: bool)
    ensures
        absolute == path_is_absolute(path@),
{
    std::path::Path::new(path).is_absolute()
}

/// Calls `std::path::Path::join`. The contract names the result
/// [`path_join`] and claims nothing else of it.
#[verifier::external_body]
pub(crate) fn join(base: &str, added: &str) -> (joined: String)
    ensures
        joined@ == path_join(base@, added@),
{
    std::path::Path::new(base).join(added).to_string_lossy().into_owned()
}

/// Whether `pattern` occurs in `text` as a run of consecutive characters.
pub open spec fn occurs_in(pattern: Seq<char>, text: Seq<char>) -> bool {
    exists|at: int|
        0 <= at && at + pattern.len() <= text.len() && #[trigger] text.subrange(
            at,
            at + pattern.len(),
        ) == pattern
}

/// Calls `str::contains` with a string pattern, which holds exactly when the
/// pattern occurs in the text.
#[verifier::external_body]
pub(crate) fn contains_text(text: &str, pattern: &str) -> (found: bool)
    ensures
        found == occurs_in(pattern@, text@),
{
    text.contains(pattern)
}

/// Whether two texts hold the same characters.
pub fn same_text(first: &str, second: &str) -> (same: bool)
    ensures
        same == (first@ == second@),
{
    first.to_owned() == second.to_owned()
}

/// Copies a list of paths.
pub fn copy_paths(paths: &Vec<String>) -> (copy: Vec<String>)
    ensures
        copy@ == paths@,
{
    let mut copy: Vec<String> = Vec::new();
    let mut i: usize = 0;
    while i < paths.len()
        invariant
            i <= paths.len(),
            copy@ == paths@.take(i as int),
        decreases paths.len() - i,
    {
        copy.push(paths[i].clone());
        i += 1;
    }
    copy
}

/// The mathematical value of a [`DiskFacts`]: the paths known to be regular
/// files and the paths known to be directories.
pub struct DiskView {
    pub files: Set<Seq<char>>,
    pub directories: Set<Seq<char>>,
}

/// A record of the disk: the paths that are regular files and the paths that
/// are directories. A path in neither list counts as absent.
#[derive(Debug)]
pub struct DiskFacts {
    files: Vec<String>,
    directories: Vec<String>,
}

/// The texts of a list of strings, as a set.
pub open spec fn texts(list: Seq<String>) -> Set<Seq<char>> {
    Set::new(|text: Seq<char>| exists|i: int| 0 <= i < list.len() && (#[trigger] list[i])@ == text)
}

/// One more string in the list is one more text in the set.
proof fn lemma_texts_push(list: Seq<String>, added: String)
    ensures
        texts(list.push(added)) == texts(list).insert(added@),
{
    let longer = list.push(added);
    assert forall|text: Seq<char>|
        texts(longer).contains(text) <==> texts(list).insert(added@).contains(text) by {
        if texts(list).contains(text) {
            let i = choose|i: int| 0 <= i < list.len() && (#[trigger] list[i])@ == text;
            assert(longer[i]@ == text);
        }
        if text == added@ {
            assert(longer[list.len() as int]@ == text);
        }
    }
}

/// Whether the text of `path` is among the texts of `list`.
fn holds(list: &Vec<String>, path: &str) -> (found: bool)
    ensures
        found == texts(list@).contains(path@),
{
    let wanted = path.to_owned();
    let mut i: usize = 0;
    while i < list.len()
        invariant
            i <= list.len(),
            wanted@ == path@,
            forall|k: int| 0 <= k < i ==> (#[trigger] list@[k])@ != path@,
        decreases list.len() - i,
    {
        if list[i] == wanted {
            return true;
        }
        i += 1;
    }
    false
}

impl View for DiskFacts {
    type V = DiskView;

    closed spec fn view(&self) -> DiskView {
        DiskView { files: texts(self.files@), directories: texts(self.directories@) }
    }
}

impl DiskFacts {
    /// A record in which every path is absent.
    pub fn new() -> (facts: DiskFacts)
        ensures
            facts@.files == Set::<Seq<char>>::empty(),
            facts@.directories == Set::<Seq<char>>::empty(),
    {
        let facts = DiskFacts { files: Vec::new(), directories: Vec::new() };
        facts
    }

    /// Records that `path` is a regular file.
    pub fn add_file(&mut self, path: &str)
        ensures
            final(self)@.files == old(self)@.files.insert(path@),
            final(self)@.directories == old(self)@.directories,
    {
        self.files.push(path.to_owned());
        proof {
            lemma_texts_push(old(self).files@, self.files@[self.files@.len() - 1]);
        }
    }

    /// Records that `path` is a directory.
    pub fn add_directory(&mut self, path: &str)
        ensures
            final(self)@.directories == old(self)@.directories.insert(path@),
            final(self)@.files == old(self)@.files,
    {
        self.directories.push(path.to_owned());
        proof {
            lemma_texts_push(
                old(self).directories@,
                self.directories@[self.directories@.len() - 1],
            );
        }
    }

    /// Whether `path` is recorded as a regular file.
    pub fn is_file(&self, path: &str) -> (known: bool)
        ensures
            known == self@.files.contains(path@),
    {
        holds(&self.files, path)
    }

    /// Whether `path` is recorded as a directory.
    pub fn is_dir(&self, path: &str) -> (known: bool)
        ensures
            known == self@.directories.contains(path@),
    {
        holds(&self.directories, path)
    }
}

} // verus!
