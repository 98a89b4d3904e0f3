use vstd::prelude::*;
use crate::error::Error;
use crate::models::{GetImagesResult, GetLibraryContentRequest};

verus! {

/// What the filesystem walk reports of one directory entry: its native
/// path, whether it is a regular file, and its modification and creation
/// timestamps in milliseconds since the Unix epoch, where the filesystem
/// gave them.
#[derive(Debug, Clone)]
pub struct FileEntry {
    pub path: String,
    pub is_file: bool,
    pub modified_ms: Option<i64>,
    pub created_ms: Option<i64>,
}

/// An enumeration strategy: given the entries a walk of the requested
/// source discovered, produce the requested page of image records.
pub trait DirectoryReader {
    fn read_directory(&self, request: &GetLibraryContentRequest, entries: &Vec<FileEntry>) -> (r:
        Result<GetImagesResult, Error>);
}

} // verus!
