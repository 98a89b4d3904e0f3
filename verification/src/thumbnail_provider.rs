use vstd::prelude::*;
use crate::error::Error;
use crate::models::GetThumbnailResponse;

verus! {

/// The base64 text, standard alphabet with padding, that a byte string
/// encodes to.
pub uninterp spec fn base64_std_of(bytes: Seq<u8>) -> Seq<char>;

/// Relies on base64's `STANDARD` engine: the encoding is a function of the
/// bytes alone, four characters for every started group of three bytes,
/// the last group padded with `=`.  Input long enough to overflow the
/// output length is left out: the engine would abort on it.
#[verifier::external_body]
pub fn base64_encode(bytes: &Vec<u8>) -> (r: String)
    requires
        bytes@.len() <= usize::MAX / 4,
    ensures
        r@ == base64_std_of(bytes@),
        r@.len() == 4 * ((bytes@.len() + 2) / 3),
{
    base64::engine::Engine::encode(&base64::engine::general_purpose::STANDARD, bytes.as_slice())
}

/// A thumbnail backend: produce an encoded preview for the file at a
/// resolved native path, or a structured failure.  Exactly one backend is
/// active per deployment.
pub trait ThumbnailProvider {
    fn get_thumbnail(path: &str) -> (r: Result<GetThumbnailResponse, Error>);
}

/// The backend for deployments without thumbnail support: it never fails
/// and always answers with empty content, the documented "no thumbnail
/// available" value.
pub struct EmptyThumbnailProvider;

impl EmptyThumbnailProvider {
    /// Always succeeds, always empty.
    pub fn empty_thumbnail(_path: &str) -> (r: Result<GetThumbnailResponse, Error>)
        ensures
            r matches Ok(t) && t.content@ == Seq::<char>::empty(),
    {
        Ok(GetThumbnailResponse::default())
    }
}

impl ThumbnailProvider for EmptyThumbnailProvider {
    fn get_thumbnail(path: &str) -> (r: Result<GetThumbnailResponse, Error>) {
        EmptyThumbnailProvider::empty_thumbnail(path)
    }
}

/// Encode thumbnail bytes into the response a caller receives.
pub fn thumbnail_response_from_bytes(bytes: &Vec<u8>) -> (r: GetThumbnailResponse)
    requires
        bytes@.len() <= usize::MAX / 4,
    ensures
        r.content@ == base64_std_of(bytes@),
{
    GetThumbnailResponse { content: base64_encode(bytes) }
}

} // verus!
