//! Plain data of the storage interface.
use vstd::prelude::*;

verus! {

/// A point in time, in nanoseconds since the Unix epoch.
pub type TimeNanos = i128;

/// Pagination query parameters.
#[derive(Debug, Clone, Copy)]
pub struct VfsPaginationParams<'a> {
    pub page: i64,
    pub page_size: i64,
    pub sort_by: Option<&'a str>,
    pub order: Option<&'a str>,
    pub keyword: Option<&'a str>,
}

impl<'a> Default for VfsPaginationParams<'a> {
    fn default() -> (res: VfsPaginationParams<'a>)
        ensures
            res.page == 0,
            res.page_size == 0,
            res.sort_by is None,
            res.order is None,
            res.keyword is None,
    {
        VfsPaginationParams { page: 0, page_size: 0, sort_by: None, order: None, keyword: None }
    }
}

/// File information.
#[derive(Debug)]
pub struct VfsFileInfo {
    pub name: String,
    pub path: String,
    pub is_dir: bool,
    pub size: u64,
    pub modified: Option<TimeNanos>,
    /// Zero stands for no favourite, other values for a colour.
    pub favorite_color: i32,
    pub has_active_share: Option<bool>,
    pub has_active_direct: Option<bool>,
    pub trashed_at: Option<TimeNanos>,
    pub original_path: Option<String>,
}

impl Clone for VfsFileInfo {
    fn clone(&self) -> (res: VfsFileInfo)
        ensures
            res == *self,
    {
        VfsFileInfo {
            name: self.name.clone(),
            path: self.path.clone(),
            is_dir: self.is_dir,
            size: self.size,
            modified: self.modified,
            favorite_color: self.favorite_color,
            has_active_share: self.has_active_share,
            has_active_direct: self.has_active_direct,
            trashed_at: self.trashed_at,
            original_path: clone_text(&self.original_path),
        }
    }
}

/// A copy of an optional text.
pub fn clone_text(text: &Option<String>) -> (res: Option<String>)
    ensures
        res == *text,
{
    match text {
        Some(t) => Some(t.clone()),
        None => None,
    }
}

impl VfsFileInfo {
    /// A bare entry: no favourite, share or trash marks.
    pub open spec fn is_plain(
        self,
        name: Seq<char>,
        path: Seq<char>,
        is_dir: bool,
        size: u64,
        modified: Option<TimeNanos>,
    ) -> bool {
        &&& self.name@ == name
        &&& self.path@ == path
        &&& self.is_dir == is_dir
        &&& self.size == size
        &&& self.modified == modified
        &&& self.favorite_color == 0
        &&& self.has_active_share is None
        &&& self.has_active_direct is None
        &&& self.trashed_at is None
        &&& self.original_path is None
    }

    pub fn plain(
        name: String,
        path: String,
        is_dir: bool,
        size: u64,
        modified: Option<TimeNanos>,
    ) -> (res: VfsFileInfo)
        ensures
            res.is_plain(name@, path@, is_dir, size, modified),
    {
        VfsFileInfo {
            name,
            path,
            is_dir,
            size,
            modified,
            favorite_color: 0,
            has_active_share: None,
            has_active_direct: None,
            trashed_at: None,
            original_path: None,
        }
    }
}

/// File metadata (extended information).
#[derive(Debug)]
pub struct VfsMetadata {
    pub path: String,
    pub is_dir: bool,
    pub size: u64,
    pub modified: Option<TimeNanos>,
    pub content_type: Option<String>,
    pub etag: Option<String>,
}

/// One entry of a batch that failed.
#[derive(Debug)]
pub struct VfsBatchError {
    pub path: String,
    pub error: String,
}

/// Result of a batch operation.
#[derive(Debug)]
pub struct VfsBatchResult {
    pub success: Vec<String>,
    pub failed: Vec<VfsBatchError>,
}

impl Default for VfsBatchResult {
    fn default() -> (res: VfsBatchResult)
        ensures
            res.success@.len() == 0,
            res.failed@.len() == 0,
    {
        VfsBatchResult { success: Vec::new(), failed: Vec::new() }
    }
}

impl VfsBatchResult {
    /// File the outcome of one entry: `None` for success, else the failure's text.
    pub fn record(&mut self, path: String, error: Option<String>)
        ensures
            match error {
                None => final(self).success@ == old(self).success@.push(path) && final(self).failed
                    == old(self).failed,
                Some(e) => final(self).success == old(self).success && final(self).failed@ == old(
                    self,
                ).failed@.push((VfsBatchError { path, error: e })),
            },
    {
        match error {
            None => self.success.push(path),
            Some(e) => self.failed.push(VfsBatchError { path, error: e }),
        }
    }
}

} // verus!
