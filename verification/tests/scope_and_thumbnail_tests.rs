use medialibrary::enrichment::FileStat;
use medialibrary::error::Error;
use medialibrary::facade::get_image;
use medialibrary::models::{
    GetImagesResult, GetLibraryContentRequest, ImageInfo, MediaLibrarySource, MetaDataField,
    PermissionResponse, PermissionState,
};
use medialibrary::scope::{authorize_get_images, get_available_sources, is_source_allowed, Entry};
use medialibrary::thumbcache_thumbnail_provider::ThumbCacheThumbnailProvider;
use medialibrary::thumbnail_provider::EmptyThumbnailProvider;
use medialibrary::xdg_thumbnail_provider::XdgThumbnailProvider;

fn meta_value(info: &ImageInfo, k: MetaDataField) -> Option<String> {
    info.meta_data
        .as_ref()
        .and_then(|m| m.iter().find(|p| p.0 == k).map(|p| p.1.clone()))
}

fn plain_request(source: MediaLibrarySource) -> GetLibraryContentRequest {
    GetLibraryContentRequest {
        limit: 10,
        offset: 0,
        source,
        sort_column: None,
        sort_direction: None,
        include_file_metadata: Some(true),
    }
}

#[test]
fn test_scope_gate_denies_missing_source() {
    let global = vec![Entry { source: MediaLibrarySource::ExternalStorage }];
    let command = vec![];
    let req = plain_request(MediaLibrarySource::PictureDir);
    let r = authorize_get_images(&global, &command, &req);
    assert!(matches!(r, Err(Error::MediaLibrarySourceForbidden(MediaLibrarySource::PictureDir))));
}

#[test]
fn test_scope_gate_allows_from_either_scope() {
    let global = vec![Entry { source: MediaLibrarySource::ExternalStorage }];
    let command = vec![Entry { source: MediaLibrarySource::PictureDir }];
    assert!(is_source_allowed(&global, &command, MediaLibrarySource::PictureDir));
    assert!(is_source_allowed(&global, &command, MediaLibrarySource::ExternalStorage));
    assert!(!is_source_allowed(&global, &command, MediaLibrarySource::VolumeExternalPrimary));
    let req = plain_request(MediaLibrarySource::PictureDir);
    assert!(authorize_get_images(&global, &command, &req).is_ok());
}

#[test]
fn test_available_sources_mirror_global_scope() {
    let global = vec![
        Entry { source: MediaLibrarySource::PictureDir },
        Entry { source: MediaLibrarySource::ExternalStorage },
    ];
    let sources = get_available_sources(&global);
    assert_eq!(
        sources,
        vec![MediaLibrarySource::PictureDir, MediaLibrarySource::ExternalStorage]
    );
}

#[test]
fn test_empty_provider_succeeds_with_empty_content() {
    let r = EmptyThumbnailProvider::empty_thumbnail("/no/such/file.png").unwrap();
    assert_eq!(r.content.as_str(), "");
}

#[test]
fn test_thumbcache_encodes_bitmap_as_base64() {
    let r = ThumbCacheThumbnailProvider::encode_thumbnail(Ok(vec![1u8, 2, 3])).unwrap();
    assert_eq!(r.content.as_str(), "AQID");
    let r = ThumbCacheThumbnailProvider::encode_thumbnail(Ok(vec![])).unwrap();
    assert_eq!(r.content.as_str(), "");
    let r = ThumbCacheThumbnailProvider::encode_thumbnail(Ok(b"hello".to_vec())).unwrap();
    assert_eq!(r.content.as_str(), "aGVsbG8=");
}

#[test]
fn test_thumbcache_wraps_failure_text() {
    let r = ThumbCacheThumbnailProvider::encode_thumbnail(Err("boom".to_string()));
    match r {
        Err(e) => assert_eq!(e.message().as_str(), "amytoes error: a error: boom"),
        Ok(_) => panic!("expected a failure"),
    }
}

#[test]
fn test_xdg_thumbnail_encodes_and_wraps() {
    let r = XdgThumbnailProvider::encode_thumbnail(Ok(b"xy".to_vec())).unwrap();
    assert_eq!(r.content.as_str(), "eHk=");
    let r = XdgThumbnailProvider::encode_thumbnail(Err("no thumb".to_string()));
    match r {
        Err(e) => assert_eq!(e.message().as_str(), "amytoes error: get_thumbnail error: no thumb"),
        Ok(_) => panic!("expected a failure"),
    }
}

#[test]
fn test_get_image_resolves_to_single_record() {
    let r = get_image("file:///pics/one.png", true).unwrap();
    let info = r.unwrap();
    assert_eq!(info.path.as_str(), "/pics/one.png");
    assert_eq!(info.content_uri.as_str(), "file:///pics/one.png");
    assert_eq!(info.mime_type.as_str(), "image/png");
    assert!(info.meta_data.is_none());
}

#[test]
fn test_get_image_missing_file_is_none() {
    let r = get_image("file:///pics/one.png", false).unwrap();
    assert!(r.is_none());
}

#[test]
fn test_get_image_bad_uri_fails() {
    let r = get_image("ftp://host/one.png", true);
    assert!(matches!(r, Err(Error::InvalidUriScheme(_))));
}

#[test]
fn test_permission_response_granted() {
    let r = PermissionResponse::granted();
    assert_eq!(r.post_notification, PermissionState::Granted);
}

#[test]
fn test_image_info_with_file_metadata_adds_fields() {
    let info = ImageInfo {
        path: "/pics/photo.png".to_string(),
        content_uri: "file:///pics/photo.png".to_string(),
        mime_type: "image/png".to_string(),
        meta_data: None,
    };
    let stat = FileStat {
        size: 12345,
        created_ms: Some(0),
        modified_ms: Some(1_000),
        readonly: false,
    };
    let out = info.with_file_metadata(&Some(stat));
    assert_eq!(meta_value(&out, MetaDataField::FileSize).unwrap().as_str(), "12345");
    assert_eq!(
        meta_value(&out, MetaDataField::FileCreated).unwrap().as_str(),
        "1970-01-01T00:00:00.000Z"
    );
    assert_eq!(
        meta_value(&out, MetaDataField::FileModified).unwrap().as_str(),
        "1970-01-01T00:00:01.000Z"
    );
    assert_eq!(meta_value(&out, MetaDataField::FileReadOnly).unwrap().as_str(), "false");
    assert_eq!(meta_value(&out, MetaDataField::FileName).unwrap().as_str(), "photo.png");
    assert_eq!(meta_value(&out, MetaDataField::FileExtension).unwrap().as_str(), "png");
}

#[test]
fn test_image_info_with_file_metadata_keeps_existing_fields() {
    let info = ImageInfo {
        path: "/pics/photo.png".to_string(),
        content_uri: "file:///pics/photo.png".to_string(),
        mime_type: "image/png".to_string(),
        meta_data: Some(vec![(MetaDataField::DateAdded, "2020-01-01T00:00:00.000Z".to_string())]),
    };
    let stat = FileStat { size: 1, created_ms: None, modified_ms: None, readonly: true };
    let out = info.with_file_metadata(&Some(stat));
    assert_eq!(
        meta_value(&out, MetaDataField::DateAdded).unwrap().as_str(),
        "2020-01-01T00:00:00.000Z"
    );
    assert_eq!(meta_value(&out, MetaDataField::FileReadOnly).unwrap().as_str(), "true");
    assert_eq!(meta_value(&out, MetaDataField::FileSize).unwrap().as_str(), "1");
}

#[test]
fn test_image_info_with_file_metadata_none_is_untouched() {
    let info = ImageInfo {
        path: "/pics/photo.png".to_string(),
        content_uri: "file:///pics/photo.png".to_string(),
        mime_type: "image/png".to_string(),
        meta_data: None,
    };
    let out = info.with_file_metadata(&None);
    assert!(out.meta_data.is_none());
    assert_eq!(out.path.as_str(), "/pics/photo.png");
}

#[test]
fn test_get_images_result_with_file_metadata() {
    let items = vec![
        ImageInfo {
            path: "/pics/a.png".to_string(),
            content_uri: "file:///pics/a.png".to_string(),
            mime_type: "image/png".to_string(),
            meta_data: None,
        },
        ImageInfo {
            path: "/pics/b.jpg".to_string(),
            content_uri: "file:///pics/b.jpg".to_string(),
            mime_type: "image/jpeg".to_string(),
            meta_data: None,
        },
    ];
    let stats = vec![
        Some(FileStat { size: 7, created_ms: None, modified_ms: None, readonly: false }),
        None,
    ];
    let skipped = GetImagesResult { items: items.clone() }.with_file_metadata(false, &stats);
    assert!(skipped.items[0].meta_data.is_none());
    let enriched = GetImagesResult { items }.with_file_metadata(true, &stats);
    assert_eq!(meta_value(&enriched.items[0], MetaDataField::FileSize).unwrap().as_str(), "7");
    assert!(enriched.items[1].meta_data.is_none());
}
