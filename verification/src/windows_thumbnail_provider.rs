use vstd::prelude::*;
use crate::error::Error;
use crate::models::GetThumbnailResponse;
use crate::thumbnail_provider::ThumbnailProvider;

verus! {

/// The placeholder backend for hosts whose native thumbnail query is not
/// wired up: it succeeds with empty content for every path.
pub struct WindowsThumbnailProvider;

impl WindowsThumbnailProvider {
    pub fn empty_thumbnail(_path: &str) -> (r: Result<GetThumbnailResponse, Error>)
        ensures
            r matches Ok(t) && t.content@ == Seq::<char>::empty(),
    {
        Ok(GetThumbnailResponse { content: String::new() })
    }
}

impl ThumbnailProvider for WindowsThumbnailProvider {
    fn get_thumbnail(path: &str) -> (r: Result<GetThumbnailResponse, Error>) {
        WindowsThumbnailProvider::empty_thumbnail(path)
    }
}

} // verus!
