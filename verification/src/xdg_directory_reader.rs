use vstd::prelude::*;
use crate::directory_reader::{DirectoryReader, FileEntry};
use crate::error::Error;
use crate::models::{GetImagesResult, GetLibraryContentRequest, MediaLibrarySource};
use crate::walkdir_reader::{list_image_records, page_of, record_matches, sorted_idx};

verus! {

/// The enumeration strategy for hosts that publish the user's pictures
/// directory through their desktop configuration.  The directory is looked
/// up outside and injected here; a host without one cannot serve the
/// pictures-directory source at all.
pub struct XdgDirectoryReader {
    pub pictures_dir: Option<String>,
}

impl XdgDirectoryReader {
    pub fn new(pictures_dir: Option<String>) -> (r: Self)
        ensures
            r.pictures_dir == pictures_dir,
    {
        XdgDirectoryReader { pictures_dir }
    }

    /// The page of records the request selects; a source this strategy
    /// does not serve, or a host without a pictures directory, is refused
    /// as forbidden.
    pub fn read_entries(&self, request: &GetLibraryContentRequest, entries: &Vec<FileEntry>) -> (r:
        Result<GetImagesResult, Error>)
        ensures
            (r is Ok <==> request.source == MediaLibrarySource::PictureDir
                && self.pictures_dir is Some),
            (!(request.source == MediaLibrarySource::PictureDir && self.pictures_dir is Some)
                ==> r == Err::<GetImagesResult, Error>(Error::MediaLibrarySourceForbidden(
                request.source,
            ))),
            (r matches Ok(res) ==> ({
                let pg = page_of(
                    sorted_idx(entries@, *request),
                    request.offset as int,
                    request.limit as int,
                );
                &&& res.items@.len() == pg.len()
                &&& forall|k: int|
                    0 <= k < pg.len() ==> record_matches(
                        #[trigger] res.items@[k],
                        entries@[pg[k] as int],
                    )
            })),
    {
        match request.source {
            MediaLibrarySource::PictureDir => {
                if self.pictures_dir.is_some() {
                    Ok(GetImagesResult { items: list_image_records(request, entries) })
                } else {
                    Err(Error::MediaLibrarySourceForbidden(request.source))
                }
            },
            _ => Err(Error::MediaLibrarySourceForbidden(request.source)),
        }
    }
}

impl DirectoryReader for XdgDirectoryReader {
    fn read_directory(&self, request: &GetLibraryContentRequest, entries: &Vec<FileEntry>) -> (r:
        Result<GetImagesResult, Error>) {
        self.read_entries(request, entries)
    }
}

} // verus!
