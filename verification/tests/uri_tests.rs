use medialibrary::error::Error;
use medialibrary::uri::{uri_to_path, uri_to_path_host_prefixed, with_encoded_path};

#[test]
fn test_uri_to_path_for_windows_path() {
    let r = uri_to_path("file://C:/Users/Test/My Pictures/my_file.jpg").unwrap();

    assert_eq!(r.as_str(), "/Users/Test/My Pictures/my_file.jpg");
}

#[test]
fn test_uri_to_path_host_prefixed_for_windows_path() {
    let r = uri_to_path_host_prefixed("file://C:/Users/Test/My Pictures/my_file.jpg").unwrap();

    assert_eq!(r.as_str(), "C:\\Users\\Test\\My Pictures\\my_file.jpg");
}

#[test]
fn test_uri_round_trip_with_spaces() {
    let r = uri_to_path("file:///home/user/my photo.png").unwrap();
    assert_eq!(r.as_str(), "/home/user/my photo.png");
}

#[test]
fn test_uri_round_trip_keeps_literal_percents() {
    // a literal `%20` in the path is encoded to `%2520` and comes back as
    // the same literal `%20`, not as a space
    let r = uri_to_path("file:///a%20b").unwrap();
    assert_eq!(r.as_str(), "/a%20b");
}

#[test]
fn test_uri_round_trip_backslashes_normalized() {
    let r = uri_to_path("file://C:\\Users\\Test\\pic.jpg").unwrap();
    assert_eq!(r.as_str(), "/Users/Test/pic.jpg");
}

#[test]
fn test_uri_without_scheme_is_invalid_scheme() {
    let r = uri_to_path("/home/user/pic.jpg");
    assert!(matches!(r, Err(Error::InvalidUriScheme(_))));
}

#[test]
fn test_uri_relative_reference_is_invalid_scheme() {
    let r = uri_to_path("pictures/pic.jpg");
    assert!(matches!(r, Err(Error::InvalidUriScheme(_))));
}

#[test]
fn test_uri_with_other_scheme_is_invalid_scheme() {
    let r = uri_to_path("http://example.com/pic.jpg");
    match r {
        Err(Error::InvalidUriScheme(s)) => assert_eq!(s.as_str(), "http"),
        other => panic!("expected InvalidUriScheme, got {:?}", other),
    }
}

#[test]
fn test_uri_file_scheme_case_insensitive() {
    let r = uri_to_path("FILE:///home/user/pic.jpg").unwrap();
    assert_eq!(r.as_str(), "/home/user/pic.jpg");
}

#[test]
fn test_uri_with_bad_authority_is_parse_error() {
    let r = uri_to_path("http://bad host/pic.jpg");
    assert!(matches!(r, Err(Error::ParseUriError(_))));
}

#[test]
fn test_uri_with_bad_scheme_text_is_parse_error() {
    let r = uri_to_path("1http://host/pic.jpg");
    assert!(matches!(r, Err(Error::ParseUriError(_))));
}

#[test]
fn test_with_encoded_path_encodes_segments_only() {
    let r = with_encoded_path("file://C:/a b/c d.jpg");
    assert_eq!(r.as_str(), "file://C:/a%20b/c%20d.jpg");
}

#[test]
fn test_with_encoded_path_whole_text_when_no_host() {
    let r = with_encoded_path("/a b");
    assert_eq!(r.as_str(), "%2Fa%20b");
}

#[test]
fn test_error_messages() {
    let e = Error::InvalidUriScheme("http".to_string());
    assert_eq!(e.message().as_str(), "invalid uri scheme: http");
    let e = Error::ParseUriError("zzz".to_string());
    assert_eq!(e.message().as_str(), "cannot parse uri: zzz");
    let e = Error::XdgPicturesDirNotSet;
    assert_eq!(e.message().as_str(), "XDG_PICTURES_DIR is not set");
    let e = Error::Io("boom".to_string());
    assert_eq!(e.message().as_str(), "boom");
}
