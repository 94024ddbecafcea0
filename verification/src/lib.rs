//! Builds the dependency tree of a workspace from the package manager's
//! metadata snapshot: every package is resolved to the directories that hold
//! its sources, and the resolved packages are assembled, together with the
//! snapshot's dependency edges, into a tree whose nodes carry a build depth.
//!
//! [`dependencies::dependency_tree`] does the whole construction. It reads
//! the snapshot as a `serde_json::Value` and the disk from a record,
//! [`paths::DiskFacts`], which the caller fills for the paths that
//! [`probe::probe_paths`] lists. The construction itself touches no file.
//!
//! The parts, leaves first:
//! - [`json`]: typed access to the fields of the snapshot;
//! - [`identity`]: package identities and their identifier strings;
//! - [`paths`]: paths, and the record of the disk;
//! - [`tree`] and [`depth`]: the tree and the depths of its nodes;
//! - [`directory`]: from a package to the directory of its sources;
//! - [`packages`]: from the package list to identities, handles and
//!   directories;
//! - [`dependencies`]: from the resolved packages and the resolved graph to
//!   the tree;
//! - [`probe`]: which paths a construction reads;
//! - [`laws`]: what holds of every tree that a construction returns;
//! - [`snapshot`]: how the tree follows the resolved graph.

pub mod config;
pub mod dependencies;
pub mod depth;
pub mod directory;
pub mod error;
pub mod identity;
pub mod json;
pub mod laws;
pub mod packages;
pub mod paths;
pub mod probe;
pub mod snapshot;
pub mod tree;
