use vstd::prelude::*;
use crate::error::Error;
use crate::models::GetThumbnailResponse;
use crate::thumbnail_provider::{base64_std_of, thumbnail_response_from_bytes};

verus! {

/// The backend over the desktop thumbnailer: the thumbnailer resolves or
/// generates the preview file and its bytes are read outside; this type
/// turns what came back — the preview's bytes, or the thumbnailer
/// failure's description — into the caller's response.  A failure reading
/// the preview file itself is an `Io` error and is passed through
/// unchanged by the surrounding code.
pub struct XdgThumbnailProvider;

impl XdgThumbnailProvider {
    /// Encode the preview's bytes, or wrap the thumbnailer's failure text.
    pub fn encode_thumbnail(read: Result<Vec<u8>, String>) -> (r: Result<
        GetThumbnailResponse,
        Error,
    >)
        requires
            (read matches Ok(b) ==> b@.len() <= usize::MAX / 4),
        ensures
            read is Ok <==> r is Ok,
            (read matches Ok(bytes) ==> (r matches Ok(t) && t.content@ == base64_std_of(bytes@))),
            (read matches Err(msg) ==> (r matches Err(e) && e matches Error::AllMyToes(d) && d@
                == "get_thumbnail error: "@ + msg@)),
    {
        match read {
            Ok(bytes) => Ok(thumbnail_response_from_bytes(&bytes)),
            Err(msg) => Err(
                Error::AllMyToes("get_thumbnail error: ".to_owned().concat(msg.as_str())),
            ),
        }
    }
}

} // verus!
