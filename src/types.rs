//! Plain data carriers handed back to callers.
use vstd::prelude::*;

verus! {

/// One entry of a listing: base name, path as traversed, size in bytes
/// (0 for a folder).
pub struct FileInfo {
    pub name: String,
    pub path: String,
    pub size: u64,
}

impl View for FileInfo {
    type V = (Seq<char>, Seq<char>, u64);

    open spec fn view(&self) -> (Seq<char>, Seq<char>, u64) {
        (self.name@, self.path@, self.size)
    }
}

/// The outcome of a listing.
pub struct ListFilesResult {
    pub success: bool,
    pub files: Vec<FileInfo>,
    pub error: Option<String>,
}

/// The outcome of a tree rendering.
pub struct HierarchyResult {
    pub success: bool,
    pub hierarchy: String,
    pub error: Option<String>,
}

/// The outcome of saving generated output.
pub struct SaveResult {
    pub success: bool,
    pub path: Option<String>,
    pub error: Option<String>,
}

/// Persisted user settings.
pub struct Config {
    pub output_directory: String,
}

} // verus!
