use medialibrary::directory_reader::FileEntry;
use medialibrary::error::Error;
use medialibrary::models::{
    GetLibraryContentRequest, MediaLibrarySource, MetaDataField, SortColumn, SortDirection,
};
use medialibrary::path_reader::PathReader;
use medialibrary::walkdir_reader::{
    get_meta_data, get_mime_type, is_image_file, sort_entries, WalkdirReader,
};
use medialibrary::xdg_directory_reader::XdgDirectoryReader;

fn entry(path: &str, created: Option<i64>, modified: Option<i64>) -> FileEntry {
    FileEntry {
        path: path.to_string(),
        is_file: true,
        modified_ms: modified,
        created_ms: created,
    }
}

fn request(
    limit: usize,
    offset: usize,
    col: Option<SortColumn>,
    dir: Option<SortDirection>,
) -> GetLibraryContentRequest {
    GetLibraryContentRequest {
        limit,
        offset,
        source: MediaLibrarySource::PictureDir,
        sort_column: col,
        sort_direction: dir,
        include_file_metadata: None,
    }
}

fn scenario_entries() -> Vec<FileEntry> {
    // a.png created first, c.jpg created later, b.txt is not an image
    vec![
        entry("/pics/a.png", Some(1_000), Some(5_000)),
        entry("/pics/b.txt", Some(1_500), Some(1_500)),
        entry("/pics/c.jpg", Some(2_000), Some(4_000)),
    ]
}

#[test]
fn test_is_image_file_by_extension() {
    assert!(is_image_file("/pics/photo.jpg"));
    assert!(is_image_file("/pics/photo.JPG"));
    assert!(is_image_file("/pics/photo.webp"));
    assert!(is_image_file("/pics/photo.TIFF"));
    assert!(!is_image_file("/pics/notes.txt"));
    assert!(!is_image_file("/pics/noext"));
    assert!(!is_image_file("/pics/.png"));
}

#[test]
fn test_get_mime_type_table() {
    assert_eq!(get_mime_type("/p/x.jpg").as_str(), "image/jpeg");
    assert_eq!(get_mime_type("/p/x.JPEG").as_str(), "image/jpeg");
    assert_eq!(get_mime_type("/p/x.png").as_str(), "image/png");
    assert_eq!(get_mime_type("/p/x.gif").as_str(), "image/gif");
    assert_eq!(get_mime_type("/p/x.bmp").as_str(), "image/bmp");
    assert_eq!(get_mime_type("/p/x.webp").as_str(), "image/webp");
    assert_eq!(get_mime_type("/p/x.tiff").as_str(), "image/tiff");
    assert_eq!(get_mime_type("/p/x.foo").as_str(), "application/octet-stream");
    assert_eq!(get_mime_type("/p/noext").as_str(), "application/octet-stream");
}

#[test]
fn test_listing_filters_and_sorts_by_date_added() {
    let reader = WalkdirReader::new("/pics".to_string());
    let req = request(10, 0, Some(SortColumn::DateAdded), Some(SortDirection::Ascending));
    let res = reader.read_entries(&req, &scenario_entries()).unwrap();
    let paths: Vec<&str> = res.items.iter().map(|i| i.path.as_str()).collect();
    assert_eq!(paths, vec!["/pics/a.png", "/pics/c.jpg"]);
}

#[test]
fn test_listing_page_descending() {
    let reader = WalkdirReader::new("/pics".to_string());
    let req = request(1, 1, Some(SortColumn::DateAdded), Some(SortDirection::Descending));
    let res = reader.read_entries(&req, &scenario_entries()).unwrap();
    let paths: Vec<&str> = res.items.iter().map(|i| i.path.as_str()).collect();
    assert_eq!(paths, vec!["/pics/a.png"]);
}

#[test]
fn test_listing_sorts_by_date_modified() {
    let reader = WalkdirReader::new("/pics".to_string());
    let req = request(10, 0, Some(SortColumn::DateModified), Some(SortDirection::Ascending));
    let res = reader.read_entries(&req, &scenario_entries()).unwrap();
    let paths: Vec<&str> = res.items.iter().map(|i| i.path.as_str()).collect();
    assert_eq!(paths, vec!["/pics/c.jpg", "/pics/a.png"]);
}

#[test]
fn test_listing_offset_past_end_is_empty_not_error() {
    let reader = WalkdirReader::new("/pics".to_string());
    let req = request(10, 2, Some(SortColumn::DateAdded), Some(SortDirection::Ascending));
    let res = reader.read_entries(&req, &scenario_entries()).unwrap();
    assert_eq!(res.items.len(), 0);
}

#[test]
fn test_listing_absent_timestamp_sorts_first() {
    let reader = WalkdirReader::new("/pics".to_string());
    let entries = vec![
        entry("/pics/new.png", Some(9_000), None),
        entry("/pics/unknown.png", None, None),
    ];
    let req = request(10, 0, Some(SortColumn::DateAdded), Some(SortDirection::Ascending));
    let res = reader.read_entries(&req, &entries).unwrap();
    let paths: Vec<&str> = res.items.iter().map(|i| i.path.as_str()).collect();
    assert_eq!(paths, vec!["/pics/unknown.png", "/pics/new.png"]);
}

#[test]
fn test_listing_stable_for_equal_keys() {
    let reader = WalkdirReader::new("/pics".to_string());
    let entries = vec![
        entry("/pics/first.png", Some(1_000), None),
        entry("/pics/second.png", Some(1_000), None),
        entry("/pics/third.png", Some(1_000), None),
    ];
    let req = request(10, 0, Some(SortColumn::DateAdded), Some(SortDirection::Ascending));
    let res = reader.read_entries(&req, &entries).unwrap();
    let paths: Vec<&str> = res.items.iter().map(|i| i.path.as_str()).collect();
    assert_eq!(paths, vec!["/pics/first.png", "/pics/second.png", "/pics/third.png"]);
}

#[test]
fn test_listing_without_column_keeps_discovery_order() {
    let reader = WalkdirReader::new("/pics".to_string());
    let entries = vec![
        entry("/pics/z.png", Some(9_000), Some(9_000)),
        entry("/pics/a.png", Some(1_000), Some(1_000)),
    ];
    let req = request(10, 0, None, None);
    let res = reader.read_entries(&req, &entries).unwrap();
    let paths: Vec<&str> = res.items.iter().map(|i| i.path.as_str()).collect();
    assert_eq!(paths, vec!["/pics/z.png", "/pics/a.png"]);
}

#[test]
fn test_listing_default_direction_is_ascending() {
    let reader = WalkdirReader::new("/pics".to_string());
    let req = request(10, 0, Some(SortColumn::DateAdded), None);
    let res = reader.read_entries(&req, &scenario_entries()).unwrap();
    let paths: Vec<&str> = res.items.iter().map(|i| i.path.as_str()).collect();
    assert_eq!(paths, vec!["/pics/a.png", "/pics/c.jpg"]);
}

#[test]
fn test_listing_identical_runs_identical_order() {
    let reader = WalkdirReader::new("/pics".to_string());
    let req = request(10, 0, Some(SortColumn::DateAdded), Some(SortDirection::Descending));
    let r1 = reader.read_entries(&req, &scenario_entries()).unwrap();
    let r2 = reader.read_entries(&req, &scenario_entries()).unwrap();
    let p1: Vec<String> = r1.items.iter().map(|i| i.path.clone()).collect();
    let p2: Vec<String> = r2.items.iter().map(|i| i.path.clone()).collect();
    assert_eq!(p1, p2);
}

#[test]
fn test_listing_pagination_composes_with_full_listing() {
    let reader = WalkdirReader::new("/pics".to_string());
    let entries = vec![
        entry("/pics/a.png", Some(5), None),
        entry("/pics/b.jpg", Some(1), None),
        entry("/pics/c.gif", Some(4), None),
        entry("/pics/d.bmp", Some(2), None),
        entry("/pics/e.webp", Some(3), None),
    ];
    let full_req = request(100, 0, Some(SortColumn::DateAdded), Some(SortDirection::Ascending));
    let full = reader.read_entries(&full_req, &entries).unwrap();
    let all: Vec<String> = full.items.iter().map(|i| i.path.clone()).collect();
    for offset in 0..6usize {
        for limit in 0..6usize {
            let req = request(limit, offset, Some(SortColumn::DateAdded), Some(
                SortDirection::Ascending,
            ));
            let page = reader.read_entries(&req, &entries).unwrap();
            let got: Vec<String> = page.items.iter().map(|i| i.path.clone()).collect();
            let hi = all.len().min(offset.saturating_add(limit));
            let want: Vec<String> = if offset >= all.len() {
                Vec::new()
            } else {
                all[offset..hi].to_vec()
            };
            assert_eq!(got, want);
        }
    }
}

#[test]
fn test_listing_records_carry_uri_mime_and_metadata() {
    let reader = WalkdirReader::new("/pics".to_string());
    let req = request(10, 0, Some(SortColumn::DateAdded), Some(SortDirection::Ascending));
    let res = reader.read_entries(&req, &scenario_entries()).unwrap();
    let first = &res.items[0];
    assert_eq!(first.path.as_str(), "/pics/a.png");
    assert_eq!(first.content_uri.as_str(), "file:///pics/a.png");
    assert_eq!(first.mime_type.as_str(), "image/png");
    let meta = first.meta_data.as_ref().unwrap();
    assert_eq!(meta.len(), 2);
    assert_eq!(meta[0].0, MetaDataField::DateModified);
    assert_eq!(meta[0].1.as_str(), "1970-01-01T00:00:05.000Z");
    assert_eq!(meta[1].0, MetaDataField::DateAdded);
    assert_eq!(meta[1].1.as_str(), "1970-01-01T00:00:01.000Z");
}

#[test]
fn test_listing_wrong_source_is_not_supported() {
    let reader = WalkdirReader::new("/pics".to_string());
    let mut req = request(10, 0, None, None);
    req.source = MediaLibrarySource::ExternalStorage;
    let r = reader.read_entries(&req, &scenario_entries());
    assert!(matches!(r, Err(Error::MediaLibrarySourceNotSupported(
        MediaLibrarySource::ExternalStorage
    ))));
}

#[test]
fn test_path_reader_matches_contract() {
    let reader = PathReader::new("/pics".to_string());
    let req = request(10, 0, Some(SortColumn::DateAdded), Some(SortDirection::Ascending));
    let res = reader.read_entries(&req, &scenario_entries()).unwrap();
    let paths: Vec<&str> = res.items.iter().map(|i| i.path.as_str()).collect();
    assert_eq!(paths, vec!["/pics/a.png", "/pics/c.jpg"]);
}

#[test]
fn test_xdg_reader_without_pictures_dir_is_forbidden() {
    let reader = XdgDirectoryReader::new(None);
    let req = request(10, 0, None, None);
    let r = reader.read_entries(&req, &scenario_entries());
    assert!(matches!(r, Err(Error::MediaLibrarySourceForbidden(MediaLibrarySource::PictureDir))));
}

#[test]
fn test_xdg_reader_with_pictures_dir_lists() {
    let reader = XdgDirectoryReader::new(Some("/pics".to_string()));
    let req = request(10, 0, None, None);
    let res = reader.read_entries(&req, &scenario_entries()).unwrap();
    assert_eq!(res.items.len(), 2);
}

#[test]
fn test_sort_entries_comparator() {
    let a = entry("/pics/a.png", Some(1), None);
    let b = entry("/pics/b.png", Some(2), None);
    let asc = request(10, 0, Some(SortColumn::DateAdded), Some(SortDirection::Ascending));
    assert_eq!(sort_entries(&a, &b, &asc), std::cmp::Ordering::Less);
    let desc = request(10, 0, Some(SortColumn::DateAdded), Some(SortDirection::Descending));
    assert_eq!(sort_entries(&a, &b, &desc), std::cmp::Ordering::Greater);
    let none = request(10, 0, None, Some(SortDirection::Ascending));
    assert_eq!(sort_entries(&a, &b, &none), std::cmp::Ordering::Equal);
}

#[test]
fn test_content_uri_round_trips_to_path() {
    let reader = WalkdirReader::new("/pics".to_string());
    let entries = vec![entry("/pics/My Photos/img 1.png", Some(1), Some(1))];
    let req = request(10, 0, None, None);
    let res = reader.read_entries(&req, &entries).unwrap();
    let uri = res.items[0].content_uri.as_str();
    assert_eq!(uri, "file:///pics/My Photos/img 1.png");
    let back = medialibrary::uri::uri_to_path(uri).unwrap();
    assert_eq!(back.as_str(), "/pics/My Photos/img 1.png");
}

#[test]
fn test_get_meta_data_renders_iso8601() {
    let m = get_meta_data(&Some(0), &Some(86_400_000)).unwrap();
    assert_eq!(m.len(), 2);
    assert_eq!(m[0].0, MetaDataField::DateModified);
    assert_eq!(m[0].1.as_str(), "1970-01-01T00:00:00.000Z");
    assert_eq!(m[1].0, MetaDataField::DateAdded);
    assert_eq!(m[1].1.as_str(), "1970-01-02T00:00:00.000Z");
    let m2 = get_meta_data(&None, &None).unwrap();
    assert_eq!(m2.len(), 0);
}
