use vstd::prelude::*;
use crate::models::MediaLibrarySource;

verus! {

/// Everything this library can fail with.  Each variant carries what a
/// caller needs to identify the failure; `message` spells the variant out
/// as human-readable text.
#[derive(Debug, Clone)]
pub enum Error {
    /// A request payload could not be read.
    Json(String),
    /// An underlying filesystem operation failed; carries its description.
    Io(String),
    /// The requested source is not in the caller's scope.
    MediaLibrarySourceForbidden(MediaLibrarySource),
    /// No pictures directory is configured for the active user.
    XdgPicturesDirNotSet,
    /// The active enumeration strategy does not serve the requested source.
    MediaLibrarySourceNotSupported(MediaLibrarySource),
    /// The thumbnail backend reported a failure; carries its description.
    AllMyToes(String),
    /// The URI text could not be parsed.
    ParseUriError(String),
    /// The URI is missing a scheme, or its scheme is not `file`.
    InvalidUriScheme(String),
}

pub open spec fn spec_message(e: Error) -> Seq<char> {
    match e {
        Error::Json(s) => s@,
        Error::Io(s) => s@,
        Error::MediaLibrarySourceForbidden(s) => "forbidden path: "@ + s.spec_name(),
        Error::XdgPicturesDirNotSet => "XDG_PICTURES_DIR is not set"@,
        Error::MediaLibrarySourceNotSupported(s) => "unsupported media library source: "@
            + s.spec_name(),
        Error::AllMyToes(s) => "amytoes error: "@ + s@,
        Error::ParseUriError(s) => "cannot parse uri: "@ + s@,
        Error::InvalidUriScheme(s) => "invalid uri scheme: "@ + s@,
    }
}

impl Error {
    /// The human-readable description of the failure.
    pub fn message(&self) -> (r: String)
        ensures
            r@ == spec_message(*self),
    {
        match self {
            Error::Json(s) => s.clone(),
            Error::Io(s) => s.clone(),
            Error::MediaLibrarySourceForbidden(s) => "forbidden path: ".to_owned().concat(
                s.name(),
            ),
            Error::XdgPicturesDirNotSet => "XDG_PICTURES_DIR is not set".to_owned(),
            Error::MediaLibrarySourceNotSupported(s) => {
                "unsupported media library source: ".to_owned().concat(s.name())
            },
            Error::AllMyToes(s) => "amytoes error: ".to_owned().concat(s.as_str()),
            Error::ParseUriError(s) => "cannot parse uri: ".to_owned().concat(s.as_str()),
            Error::InvalidUriScheme(s) => "invalid uri scheme: ".to_owned().concat(s.as_str()),
        }
    }
}

pub type MediaResult<T> = Result<T, Error>;

} // verus!
