use medialibrary::models::{
    GetThumbnailResponse, MediaLibrarySource, SortColumn, SortDirection,
};
use medialibrary::timestamp::u64_to_decimal;
use medialibrary::uri::{decode_path, get_authority_as_string, parse_uri};

#[test]
fn test_parse_uri_components() {
    let p = parse_uri("file://C:/My Pics/a.jpg").unwrap();
    assert_eq!(p.scheme.as_str(), "file");
    assert_eq!(p.authority.as_deref(), Some("C:"));
    assert_eq!(p.path.as_str(), "/My%20Pics/a.jpg");
    assert_eq!(p.raw.as_str(), "file://C:/My%20Pics/a.jpg");
    assert_eq!(get_authority_as_string(&p).as_str(), "C:");
    assert_eq!(decode_path(&p).as_str(), "/My Pics/a.jpg");
}

#[test]
fn test_parse_uri_empty_authority() {
    let p = parse_uri("file:///home/u/a.png").unwrap();
    assert_eq!(p.scheme.as_str(), "file");
    assert_eq!(p.authority.as_deref(), Some(""));
    assert_eq!(p.path.as_str(), "/home/u/a.png");
    assert_eq!(get_authority_as_string(&p).as_str(), "");
}

#[test]
fn test_model_defaults() {
    assert_eq!(MediaLibrarySource::default(), MediaLibrarySource::PictureDir);
    assert_eq!(SortColumn::default(), SortColumn::DateAdded);
    assert_eq!(SortDirection::default(), SortDirection::Ascending);
    assert_eq!(GetThumbnailResponse::default().content.as_str(), "");
}

#[test]
fn test_u64_to_decimal() {
    assert_eq!(u64_to_decimal(0).as_str(), "0");
    assert_eq!(u64_to_decimal(7).as_str(), "7");
    assert_eq!(u64_to_decimal(10).as_str(), "10");
    assert_eq!(u64_to_decimal(90_210).as_str(), "90210");
    assert_eq!(u64_to_decimal(u64::MAX).as_str(), "18446744073709551615");
}
