//! A snapshot of a directory tree: what the traversal reads.
use vstd::prelude::*;

verus! {

/// A directory: its base name (empty when the path has none), its path as
/// traversed, and its readable entries in the order the directory read gave them.
pub struct DirTree {
    pub name: String,
    pub path: String,
    pub entries: Vec<Entry>,
}

/// An entry of a directory: a regular file with its size, or a subdirectory.
pub enum Entry {
    File { name: String, path: String, size: u64 },
    Dir(DirTree),
}

} // verus!
