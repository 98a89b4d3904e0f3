use vstd::prelude::*;
use crate::error::Error;
use crate::models::GetThumbnailResponse;
use crate::thumbnail_provider::{base64_std_of, thumbnail_response_from_bytes};

verus! {

/// The backend over the platform's native thumbnail cache.  The cache
/// itself is queried outside; this type turns what came back — a bitmap,
/// or the failure's description — into the caller's response.
pub struct ThumbCacheThumbnailProvider;

impl ThumbCacheThumbnailProvider {
    /// Encode a bitmap the cache produced, or wrap its failure text.
    pub fn encode_thumbnail(bmp: Result<Vec<u8>, String>) -> (r: Result<
        GetThumbnailResponse,
        Error,
    >)
        requires
            (bmp matches Ok(b) ==> b@.len() <= usize::MAX / 4),
        ensures
            bmp is Ok <==> r is Ok,
            (bmp matches Ok(bytes) ==> (r matches Ok(t) && t.content@ == base64_std_of(bytes@))),
            (bmp matches Err(msg) ==> (r matches Err(e) && e matches Error::AllMyToes(d) && d@
                == "a error: "@ + msg@)),
    {
        match bmp {
            Ok(bytes) => Ok(thumbnail_response_from_bytes(&bytes)),
            Err(msg) => Err(Error::AllMyToes("a error: ".to_owned().concat(msg.as_str()))),
        }
    }
}

} // verus!
