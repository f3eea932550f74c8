//! Request types for workspace operations.

use vstd::prelude::*;

verus! {

/// Read a file, optionally a window of its lines, optionally without line numbers.
#[derive(Debug, Clone)]
pub struct ReadFileRequest {
    pub file_path: String,
    pub offset: Option<u64>,
    pub limit: Option<u64>,
    pub raw: Option<bool>,
}

/// List one directory level.
#[derive(Debug, Clone)]
pub struct ListDirectoryRequest {
    pub path: String,
    pub ignore: Option<Vec<String>>,
}

/// Match files against a glob pattern.
#[derive(Debug, Clone)]
pub struct GlobRequest {
    pub pattern: String,
    pub path: Option<String>,
}

/// Text search over the files of a directory.
#[derive(Debug, Clone)]
pub struct GrepRequest {
    pub pattern: String,
    pub include_pattern: Option<String>,
    pub path: Option<String>,
}

/// Structural (syntax-tree) search over the files of a directory.
#[derive(Debug, Clone)]
pub struct AstGrepRequest {
    pub pattern: String,
    pub lang: Option<String>,
    pub include_pattern: Option<String>,
    pub exclude: Option<String>,
    pub path: Option<String>,
}

/// Which of the occurrences of `old_string` an edit replaces.
#[derive(Debug, Clone, Copy, PartialEq, Eq, Structural)]
pub enum EditMatchSelection {
    /// The string must occur exactly once.
    ExactlyOne,
    /// Replace the first occurrence.
    First,
    /// Replace every occurrence.
    All,
    /// Replace the occurrence with this 1-based index.
    Nth { match_index: Option<u64> },
}

/// One find-and-replace edit.
#[derive(Debug, Clone)]
pub struct EditOperation {
    pub old_string: String,
    pub new_string: String,
    pub match_selection: Option<EditMatchSelection>,
}

/// A sequence of edits to apply to one file.
#[derive(Debug, Clone)]
pub struct ApplyEditsRequest {
    pub file_path: String,
    pub edits: Vec<EditOperation>,
}

/// Replace the whole content of a file.
#[derive(Debug, Clone)]
pub struct WriteFileRequest {
    pub file_path: String,
    pub content: String,
}

} // verus!
