//! The plain value types the surrounding command layer exchanges with the
//! library, and the rules for filling them in: every report pins its fields
//! to the outcome it describes.

use vstd::prelude::*;

verus! {

/// One entry of a flat directory listing: a single level, no recursion.
pub struct DirectoryItem {
    pub name: String,
    pub is_directory: bool,
    pub path: String,
}

/// The description of a mod to scaffold.
pub struct ModData {
    pub name: String,
    pub description: String,
    pub author: String,
    pub version: String,
    pub mod_id: String,
    pub path: String,
}

/// What a plain file read reports.
pub struct ReadFileResult {
    pub success: bool,
    pub content: Option<String>,
    pub error: Option<String>,
}

/// What a plain write, a directory creation or a directory removal reports.
pub struct WriteFileResult {
    pub success: bool,
    pub error: Option<String>,
}

/// What a flat directory listing reports.
pub struct ListDirectoryResult {
    pub success: bool,
    pub items: Option<Vec<DirectoryItem>>,
    pub error: Option<String>,
}

/// What the mod scaffolding operation reports.
pub struct CreateModResult {
    pub success: bool,
    pub path: Option<String>,
    pub error: Option<String>,
}

impl ReadFileResult {
    /// A successful read carrying the file's text.
    pub fn read_ok(content: String) -> (r: Self)
        ensures
            r.success,
            r.content matches Some(c) && c@ == content@,
            r.error is None,
    {
        ReadFileResult { success: true, content: Some(content), error: None }
    }

    /// A failed read carrying the underlying error text.
    pub fn read_failed(message: String) -> (r: Self)
        ensures
            !r.success,
            r.content is None,
            r.error matches Some(m) && m@ == message@,
    {
        ReadFileResult { success: false, content: None, error: Some(message) }
    }
}

impl WriteFileResult {
    /// A successful write.
    pub fn write_ok() -> (r: Self)
        ensures
            r.success,
            r.error is None,
    {
        WriteFileResult { success: true, error: None }
    }

    /// A failed write carrying the underlying error text.
    pub fn write_failed(message: String) -> (r: Self)
        ensures
            !r.success,
            r.error matches Some(m) && m@ == message@,
    {
        WriteFileResult { success: false, error: Some(message) }
    }
}

/// The report of a directory removal. Removing a path that does not exist
/// counts as success: the caller wanted the directory gone and it is gone.
/// When the path existed, the outcome is the removal's own: success exactly
/// when the caller reports no removal error.
pub fn delete_directory_result(existed: bool, removal_error: Option<String>) -> (r:
    WriteFileResult)
    requires
        !existed ==> removal_error is None,
    ensures
        r.success == (!existed || removal_error is None),
        !existed ==> r.success,
        r.error is Some <==> (existed && removal_error is Some),
        existed ==> (removal_error matches Some(m) ==> (r.error matches Some(e) && e@ == m@)),
{
    if !existed {
        WriteFileResult { success: true, error: None }
    } else {
        match removal_error {
            None => WriteFileResult { success: true, error: None },
            Some(m) => WriteFileResult { success: false, error: Some(m) },
        }
    }
}

/// A successful flat listing carrying the enumerated entries as they came.
pub fn list_directory_result(items: Vec<DirectoryItem>) -> (r: ListDirectoryResult)
    ensures
        r.success,
        r.items matches Some(v) && v@ == items@,
        r.error is None,
{
    ListDirectoryResult { success: true, items: Some(items), error: None }
}

/// A failed flat listing carrying the underlying error text.
pub fn list_directory_failed(message: String) -> (r: ListDirectoryResult)
    ensures
        !r.success,
        r.items is None,
        r.error matches Some(m) && m@ == message@,
{
    ListDirectoryResult { success: false, items: None, error: Some(message) }
}

impl CreateModResult {
    /// A successful scaffold carrying the created mod's directory.
    pub fn create_ok(path: String) -> (r: Self)
        ensures
            r.success,
            r.path matches Some(p) && p@ == path@,
            r.error is None,
    {
        CreateModResult { success: true, path: Some(path), error: None }
    }

    /// A failed scaffold carrying the reason.
    pub fn create_failed(message: String) -> (r: Self)
        ensures
            !r.success,
            r.path is None,
            r.error matches Some(m) && m@ == message@,
    {
        CreateModResult { success: false, path: None, error: Some(message) }
    }
}

} // verus!
