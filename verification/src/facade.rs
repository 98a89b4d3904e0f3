use vstd::prelude::*;
use crate::error::Error;
use crate::models::ImageInfo;
use crate::text::utf8_or_empty;
use crate::uri::{
    has_scheme_shape, is_file_scheme, scheme_bytes_of, spec_parse_ok, spec_recombined,
    spec_resolve_ok, spec_uri_path_posix, uri_to_path,
};
use crate::walkdir_reader::{get_mime_type, mime_of};

verus! {

/// Point lookup: resolve a URI to one record without scanning a
/// directory.  Whether the resolved path names an existing regular file is
/// established outside and injected; a URI that resolves to nothing on
/// disk answers `None`, a URI that does not resolve fails exactly as
/// `uri_to_path` does.
pub fn get_image(uri: &str, is_existing_file: bool) -> (r: Result<Option<ImageInfo>, Error>)
    ensures
        ({
            let rb = spec_recombined(uri@);
            &&& (r is Ok <==> spec_resolve_ok(uri@))
            &&& (!spec_parse_ok(rb) ==> (r matches Err(Error::ParseUriError(m)) && m@
                == utf8_or_empty(rb)))
            &&& (spec_parse_ok(rb) && (!has_scheme_shape(rb) || !is_file_scheme(
                scheme_bytes_of(rb),
            )) ==> r matches Err(Error::InvalidUriScheme(_)))
            &&& (r matches Ok(opt) ==> ({
                &&& (!is_existing_file ==> opt is None)
                &&& (is_existing_file ==> (opt matches Some(info) && info.path@
                    == spec_uri_path_posix(uri@) && info.content_uri@ == "file://"@
                    + spec_uri_path_posix(uri@) && info.mime_type@ == mime_of(
                    spec_uri_path_posix(uri@),
                ) && info.meta_data is None))
            }))
        }),
{
    match uri_to_path(uri) {
        Ok(path) => {
            if is_existing_file {
                Ok(
                    Some(
                        ImageInfo {
                            content_uri: "file://".to_owned().concat(path.as_str()),
                            mime_type: get_mime_type(path.as_str()),
                            path,
                            meta_data: None,
                        },
                    ),
                )
            } else {
                Ok(None)
            }
        },
        Err(e) => Err(e),
    }
}

} // verus!
