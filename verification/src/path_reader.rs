use vstd::prelude::*;
use crate::directory_reader::{DirectoryReader, FileEntry};
use crate::error::Error;
use crate::models::{GetImagesResult, GetLibraryContentRequest, MediaLibrarySource};
use crate::walkdir_reader::{list_image_records, page_of, record_matches, sorted_idx};

verus! {

/// The enumeration strategy fed by a shallow listing: only the direct
/// children of its root are handed to it.  It serves the
/// pictures-directory source only and selects the requested page exactly
/// as the recursive strategy does.
pub struct PathReader {
    pub path: String,
}

impl PathReader {
    pub fn new(path: String) -> (r: Self)
        ensures
            r.path@ == path@,
    {
        PathReader { path }
    }

    /// The page of records the request selects, or
    /// `MediaLibrarySourceNotSupported` for a source this strategy does
    /// not serve.
    pub fn read_entries(&self, request: &GetLibraryContentRequest, entries: &Vec<FileEntry>) -> (r:
        Result<GetImagesResult, Error>)
        ensures
            (r is Ok <==> request.source == MediaLibrarySource::PictureDir),
            (request.source != MediaLibrarySource::PictureDir ==> r == Err::<
                GetImagesResult,
                Error,
            >(Error::MediaLibrarySourceNotSupported(request.source))),
            (r matches Ok(res) ==> ({
                let pg = page_of(
                    sorted_idx(entries@, *request),
                    request.offset as int,
                    request.limit as int,
                );
                &&& res.items@.len() == pg.len()
                &&& forall|k: int|
                    0 <= k < pg.len() ==> record_matches(
                        #[trigger] res.items@[k],
                        entries@[pg[k] as int],
                    )
            })),
    {
        match request.source {
            MediaLibrarySource::PictureDir => Ok(
                GetImagesResult { items: list_image_records(request, entries) },
            ),
            _ => Err(Error::MediaLibrarySourceNotSupported(request.source)),
        }
    }
}

impl DirectoryReader for PathReader {
    fn read_directory(&self, request: &GetLibraryContentRequest, entries: &Vec<FileEntry>) -> (r:
        Result<GetImagesResult, Error>) {
        self.read_entries(request, entries)
    }
}

} // verus!
