use nazr_backend_sqlite::catalog::{Catalog, DbWriteItem};
use nazr_backend_sqlite::query::SearchParams;

fn item(path: &str, dirname: &str, filename: &str, ext: &str, size: i64, mtime: i64) -> DbWriteItem {
    DbWriteItem {
        path: path.to_string(),
        dirname: dirname.to_string(),
        filename: filename.to_string(),
        ext: ext.to_string(),
        size_bytes: size,
        mtime_ns: mtime,
        ctime_ns: mtime,
        sha256: None,
        xxh64: None,
        taken_at: None,
        width: None,
        height: None,
        duration_ms: None,
        camera_make: None,
        camera_model: None,
        lens_model: None,
        iso: None,
        video_codec: None,
        mime: "image/jpeg".to_string(),
        flags: 0,
    }
}

fn params(q: &str) -> SearchParams {
    SearchParams {
        q: q.to_string(),
        from: None,
        to: None,
        camera_make: None,
        camera_model: None,
        platform_type: None,
        offset: 0,
        limit: 10,
    }
}

#[test]
fn test_count_assets_empty() {
    let catalog = Catalog::new();
    assert_eq!(catalog.count_assets(), 0);
}

#[test]
fn test_list_assets_empty() {
    let catalog = Catalog::new();
    let result = catalog.list_assets(0, 10, "none", "desc");
    assert_eq!(result.total, 0);
    assert_eq!(result.items.len(), 0);
}

#[test]
fn test_list_assets_pagination() {
    let mut catalog = Catalog::new();
    catalog.upsert(item("/test/1.jpg", "/test", "1.jpg", "jpg", 1000, 1000000));
    catalog.upsert(item("/test/2.jpg", "/test", "2.jpg", "jpg", 2000, 2000000));

    let result = catalog.list_assets(0, 1, "none", "desc");
    assert_eq!(result.total, 2);
    assert_eq!(result.items.len(), 1);

    let result = catalog.list_assets(1, 1, "none", "desc");
    assert_eq!(result.total, 2);
    assert_eq!(result.items.len(), 1);
}

#[test]
fn test_list_assets_sorting() {
    let mut catalog = Catalog::new();
    catalog.upsert(item("/test/a.jpg", "/test", "a.jpg", "jpg", 1000, 1000000));
    catalog.upsert(item("/test/b.jpg", "/test", "b.jpg", "jpg", 2000, 2000000));

    let result = catalog.list_assets(0, 10, "filename", "asc");
    assert_eq!(result.items[0].filename, "a.jpg");

    let result = catalog.list_assets(0, 10, "filename", "desc");
    assert_eq!(result.items[0].filename, "b.jpg");
}

#[test]
fn query_test_get_asset_by_id() {
    let mut catalog = Catalog::new();
    let id = catalog.upsert(item("/test/1.jpg", "/test", "1.jpg", "jpg", 1000, 1000000));

    let asset = catalog.get_asset_by_id(id);
    assert!(asset.is_some());
    assert_eq!(asset.unwrap().path, "/test/1.jpg");

    let asset = catalog.get_asset_by_id(99999);
    assert!(asset.is_none());
}

#[test]
fn test_get_asset_path() {
    let mut catalog = Catalog::new();
    let id = catalog.upsert(item("/test/1.jpg", "/test", "1.jpg", "jpg", 1000, 1000000));

    let path = catalog.get_asset_path(id);
    assert_eq!(path, Some("/test/1.jpg".to_string()));

    let path = catalog.get_asset_path(99999);
    assert_eq!(path, None);
}

#[test]
fn test_delete_asset_by_id() {
    let mut catalog = Catalog::new();
    let id = catalog.upsert(item("/test/1.jpg", "/test", "1.jpg", "jpg", 1000, 1000000));

    let deleted = catalog.delete_asset_by_id(id);
    assert!(deleted);
    assert_eq!(catalog.count_assets(), 0);

    let deleted = catalog.delete_asset_by_id(99999);
    assert!(!deleted);
}

#[test]
fn test_search_assets_simple() {
    let mut catalog = Catalog::new();
    catalog.upsert(item("/test/photo1.jpg", "/test", "photo1.jpg", "jpg", 1000, 1000000));
    catalog.upsert(item("/test/photo2.jpg", "/test", "photo2.jpg", "jpg", 2000, 2000000));

    let result = catalog.search_assets(&params("photo1"));
    assert_eq!(result.total, 1);
    assert_eq!(result.items.len(), 1);
    assert_eq!(result.items[0].filename, "photo1.jpg");
}

#[test]
fn test_search_assets_wildcard() {
    let mut catalog = Catalog::new();
    catalog.upsert(item("/test/photo1.jpg", "/test", "photo1.jpg", "jpg", 1000, 1000000));
    let mut png = item("/test/image2.png", "/test", "image2.png", "png", 2000, 2000000);
    png.mime = "image/png".to_string();
    catalog.upsert(png);

    let result = catalog.search_assets(&params("*.jpg"));
    assert_eq!(result.total, 1);
    assert_eq!(result.items[0].ext, "jpg");
}

#[test]
fn test_check_file_unchanged() {
    let mut catalog = Catalog::new();
    catalog.upsert(item("/test/1.jpg", "/test", "1.jpg", "jpg", 1000, 1000000));

    let result = catalog.check_file_unchanged("/test/1.jpg", 1000000, 1000);
    assert!(result.is_some());

    let result = catalog.check_file_unchanged("/test/1.jpg", 2000000, 1000);
    assert!(result.is_none());

    let result = catalog.check_file_unchanged("/test/nonexistent.jpg", 1000000, 1000);
    assert!(result.is_none());
}

#[test]
fn test_check_metadata_complete() {
    let mut catalog = Catalog::new();
    let mut complete = item("/test/1.jpg", "/test", "1.jpg", "jpg", 1000, 1000000);
    complete.width = Some(1920);
    complete.height = Some(1080);
    let id = catalog.upsert(complete);

    assert!(catalog.check_metadata_complete(id, "image/jpeg"));

    let id2 = catalog.upsert(item("/test/2.jpg", "/test", "2.jpg", "jpg", 1000, 1000000));
    assert!(!catalog.check_metadata_complete(id2, "image/jpeg"));
}

#[test]
fn test_get_scan_paths() {
    let mut catalog = Catalog::new();

    let paths = catalog.get_scan_paths();
    assert_eq!(paths.len(), 0);

    catalog.add_scan_path("/test/path1", 1000000);

    let paths = catalog.get_scan_paths();
    assert_eq!(paths.len(), 1);
    assert_eq!(paths[0], "/test/path1");
}

#[test]
fn test_list_assets_integration() {
    let mut catalog = Catalog::new();
    for i in 1..=10i64 {
        catalog.upsert(item(
            &format!("/test/photo{}.jpg", i),
            "/test",
            &format!("photo{}.jpg", i),
            "jpg",
            1000 * i,
            i * 1000000,
        ));
    }

    let result = catalog.list_assets(0, 5, "mtime_ns", "desc");
    assert_eq!(result.total, 10);
    assert_eq!(result.items.len(), 5);

    let mtimes: Vec<i64> = result.items.iter().map(|a| a.mtime_ns).collect();
    assert!(mtimes.windows(2).all(|w| w[0] >= w[1]));
}

#[test]
fn test_search_assets_integration() {
    let mut catalog = Catalog::new();
    catalog.upsert(item("/vacation/beach.jpg", "/vacation", "beach.jpg", "jpg", 1000, 1000000));
    catalog.upsert(item(
        "/vacation/mountain.jpg",
        "/vacation",
        "mountain.jpg",
        "jpg",
        2000,
        2000000,
    ));

    let result = catalog.search_assets(&params("beach"));
    assert_eq!(result.total, 1);
    assert_eq!(result.items[0].filename, "beach.jpg");

    let result = catalog.search_assets(&params("*.jpg"));
    assert_eq!(result.total, 2);
}

#[test]
fn test_search_with_filters() {
    let mut catalog = Catalog::new();
    let mut p1 = item("/test/photo1.jpg", "/test", "photo1.jpg", "jpg", 1000, 1000000);
    p1.taken_at = Some(1609459200000);
    p1.camera_make = Some("Canon".to_string());
    p1.camera_model = Some("EOS 5D".to_string());
    catalog.upsert(p1);
    let mut p2 = item("/test/photo2.jpg", "/test", "photo2.jpg", "jpg", 2000, 2000000);
    p2.taken_at = Some(1640995200000);
    p2.camera_make = Some("Nikon".to_string());
    p2.camera_model = Some("D850".to_string());
    catalog.upsert(p2);

    let mut p = params("");
    p.from = Some(1609459200000);
    p.to = Some(1640995200000);
    let result = catalog.search_assets(&p);
    assert_eq!(result.total, 2);

    let mut p = params("");
    p.camera_make = Some("Canon".to_string());
    let result = catalog.search_assets(&p);
    assert_eq!(result.total, 1);
    assert_eq!(result.items[0].camera_make, Some("Canon".to_string()));
}

#[test]
fn test_asset_with_special_characters() {
    let mut catalog = Catalog::new();
    let id = catalog.upsert(item(
        "/test/file with spaces.jpg",
        "/test",
        "file with spaces.jpg",
        "jpg",
        1000,
        1000000,
    ));
    let asset = catalog.get_asset_by_id(id);
    assert!(asset.is_some());
    assert_eq!(asset.unwrap().filename, "file with spaces.jpg");
}

#[test]
fn test_asset_with_unicode() {
    let mut catalog = Catalog::new();
    let id = catalog.upsert(item("/test/\u{7167}\u{7247}.jpg", "/test", "\u{7167}\u{7247}.jpg", "jpg", 1000, 1000000));
    let asset = catalog.get_asset_by_id(id);
    assert!(asset.is_some());
    assert_eq!(asset.unwrap().filename, "\u{7167}\u{7247}.jpg");
}

#[test]
fn test_asset_without_metadata() {
    let mut catalog = Catalog::new();
    let id = catalog.upsert(item("/test/photo.jpg", "/test", "photo.jpg", "jpg", 1000, 1000000));
    let asset = catalog.get_asset_by_id(id).unwrap();
    assert_eq!(asset.taken_at, None);
    assert_eq!(asset.width, None);
    assert_eq!(asset.height, None);
}

#[test]
fn test_duplicate_paths() {
    let mut catalog = Catalog::new();
    let id1 = catalog.upsert(item("/test/photo.jpg", "/test", "photo.jpg", "jpg", 1000, 1000000));
    // writing the same path again replaces the row in place, keeping one
    // row per path under the same id
    let id2 = catalog.upsert(item("/test/photo.jpg", "/test", "photo.jpg", "jpg", 2000, 2000000));
    assert_eq!(id1, id2);
    assert_eq!(catalog.count_assets(), 1);
    assert_eq!(catalog.get_asset_by_id(id1).unwrap().size_bytes, 2000);
}

#[test]
fn test_asset_with_null_values() {
    let mut catalog = Catalog::new();
    let id = catalog.upsert(item("/test/photo.jpg", "/test", "photo.jpg", "jpg", 1000, 1000000));
    let asset = catalog.get_asset_by_id(id).unwrap();
    assert_eq!(asset.sha256, None);
    assert_eq!(asset.xxh64, None);
    assert_eq!(asset.taken_at, None);
    assert_eq!(asset.camera_make, None);
}

#[test]
fn test_get_asset_by_id_not_found() {
    let catalog = Catalog::new();
    assert!(catalog.get_asset_by_id(99999).is_none());
}

#[test]
fn test_get_asset_path_not_found() {
    let catalog = Catalog::new();
    assert_eq!(catalog.get_asset_path(99999), None);
}

#[test]
fn test_delete_asset_by_id_not_found() {
    let mut catalog = Catalog::new();
    assert!(!catalog.delete_asset_by_id(99999));
}

#[test]
fn test_search_assets_empty_query() {
    let catalog = Catalog::new();
    let result = catalog.search_assets(&params(""));
    assert_eq!(result.total, 0);
    assert_eq!(result.items.len(), 0);
}

#[test]
fn test_list_assets_invalid_sort() {
    let catalog = Catalog::new();
    let result = catalog.list_assets(0, 10, "invalid_sort", "desc");
    assert_eq!(result.total, 0);
    assert_eq!(result.items.len(), 0);
}

#[test]
fn test_list_assets_negative_offset() {
    let catalog = Catalog::new();
    let result = catalog.list_assets(-10, 10, "none", "desc");
    assert_eq!(result.total, 0);
    assert_eq!(result.items.len(), 0);
}

#[test]
fn test_delete_asset_removes_fts_row() {
    let mut catalog = Catalog::new();
    let id = catalog.upsert(item("/test/photo.jpg", "/test", "photo.jpg", "jpg", 1000, 1000000));
    assert!(catalog.fts.contains(&id));
    assert!(catalog.delete_asset_by_id(id));
    assert!(!catalog.fts.contains(&id));
    // the row is gone from search as well
    let result = catalog.search_assets(&params("photo"));
    assert_eq!(result.total, 0);
}

#[test]
fn test_delete_assets_by_path_prefix() {
    let mut catalog = Catalog::new();
    catalog.upsert(item("/roots/a/1.jpg", "/roots/a", "1.jpg", "jpg", 1, 1));
    catalog.upsert(item("/roots/a/2.jpg", "/roots/a", "2.jpg", "jpg", 2, 2));
    catalog.upsert(item("/other/3.jpg", "/other", "3.jpg", "jpg", 3, 3));

    let removed = catalog.delete_assets_by_path_prefix("/roots/a");
    assert_eq!(removed, 2);
    assert_eq!(catalog.count_assets(), 1);
    assert!(catalog.find_by_path("/other/3.jpg").is_some());
}

#[test]
fn test_update_asset_path() {
    let mut catalog = Catalog::new();
    let id = catalog.upsert(item("/a/old.jpg", "/a", "old.jpg", "jpg", 1, 1));
    assert!(catalog.update_asset_path("/a/old.jpg", "/b/new.jpg"));
    let asset = catalog.get_asset_by_id(id).unwrap();
    assert_eq!(asset.path, "/b/new.jpg");
    assert_eq!(asset.dirname, "/b");
    assert_eq!(asset.filename, "new.jpg");
    assert!(!catalog.update_asset_path("/a/old.jpg", "/c/x.jpg"));
}

#[test]
fn test_get_thumb_info() {
    let mut catalog = Catalog::new();
    let mut it = item("/t/a.jpg", "/t", "a.jpg", "jpg", 1, 1);
    it.sha256 = Some("ab".repeat(32));
    let id = catalog.upsert(it);

    let (sha, mime) = catalog.get_thumb_info(id);
    assert_eq!(sha, Some("ab".repeat(32)));
    assert_eq!(mime, "image/jpeg");
    assert_eq!(catalog.get_asset_sha256(id), Some("ab".repeat(32)));

    let (sha, mime) = catalog.get_thumb_info(999);
    assert_eq!(sha, None);
    assert_eq!(mime, "");
    assert_eq!(catalog.get_asset_sha256(999), None);
}
