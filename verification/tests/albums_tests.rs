use nazr_backend_sqlite::catalog::{Catalog, DbWriteItem};

fn photo(path: &str, filename: &str, size: i64, mtime: i64) -> DbWriteItem {
    DbWriteItem {
        path: path.to_string(),
        dirname: "/test".to_string(),
        filename: filename.to_string(),
        ext: "jpg".to_string(),
        size_bytes: size,
        mtime_ns: mtime,
        ctime_ns: mtime,
        sha256: None,
        xxh64: None,
        taken_at: None,
        width: None,
        height: None,
        duration_ms: None,
        camera_make: None,
        camera_model: None,
        lens_model: None,
        iso: None,
        video_codec: None,
        mime: "image/jpeg".to_string(),
        flags: 0,
    }
}

#[test]
fn writer_integration_test_add_scan_path() {
    let mut catalog = Catalog::new();
    let added = catalog.add_scan_path("/test/path", 1000);
    assert!(added);
    let paths = catalog.get_scan_paths();
    assert_eq!(paths.len(), 1);
    assert_eq!(paths[0], "/test/path");
}

#[test]
fn writer_integration_test_remove_scan_path() {
    let mut catalog = Catalog::new();
    catalog.add_scan_path("/test/path", 1000);
    let removed = catalog.remove_scan_path("/test/path");
    assert!(removed);
    assert_eq!(catalog.get_scan_paths().len(), 0);
}

#[test]
fn writer_integration_test_create_album() {
    let mut catalog = Catalog::new();
    let id = catalog.create_album("Test Album", Some("Test Description"), 1000);
    assert!(id > 0);

    let (_, name, description, _, _, _) = catalog.get_album(id).unwrap();
    assert_eq!(name, "Test Album");
    assert_eq!(description, Some("Test Description".to_string()));
}

#[test]
fn writer_integration_test_update_album() {
    let mut catalog = Catalog::new();
    let id = catalog.create_album("Test Album", None, 1000);
    let updated = catalog.update_album(id, Some("Updated Album"), Some("Updated Description"), 2000);
    assert!(updated);

    let (_, name, description, _, _, _) = catalog.get_album(id).unwrap();
    assert_eq!(name, "Updated Album");
    assert_eq!(description, Some("Updated Description".to_string()));
}

#[test]
fn writer_integration_test_delete_album() {
    let mut catalog = Catalog::new();
    let id = catalog.create_album("Test Album", None, 1000);
    let deleted = catalog.delete_album(id);
    assert!(deleted);
    assert!(catalog.get_album(id).is_none());
}

#[test]
fn test_add_assets_to_album() {
    let mut catalog = Catalog::new();
    let album_id = catalog.create_album("Test Album", None, 1000);
    let asset_id1 = catalog.upsert(photo("/test/photo1.jpg", "photo1.jpg", 1000, 1000000));
    let asset_id2 = catalog.upsert(photo("/test/photo2.jpg", "photo2.jpg", 2000, 2000000));

    let count = catalog.add_assets_to_album(album_id, &vec![asset_id1, asset_id2], 2000);
    assert_eq!(count, 2);

    let (_, _, _, _, _, asset_ids) = catalog.get_album(album_id).unwrap();
    assert_eq!(asset_ids.len(), 2);
}

#[test]
fn test_remove_assets_from_album() {
    let mut catalog = Catalog::new();
    let album_id = catalog.create_album("Test Album", None, 1000);
    let asset_id = catalog.upsert(photo("/test/photo1.jpg", "photo1.jpg", 1000, 1000000));
    catalog.add_assets_to_album(album_id, &vec![asset_id], 2000);

    let count = catalog.remove_assets_from_album(album_id, &vec![asset_id], 3000);
    assert_eq!(count, 1);

    let (_, _, _, _, _, asset_ids) = catalog.get_album(album_id).unwrap();
    assert_eq!(asset_ids.len(), 0);
}

#[test]
fn test_album_add_is_idempotent() {
    let mut catalog = Catalog::new();
    let album_id = catalog.create_album("Test Album", None, 1000);
    let x = catalog.upsert(photo("/test/x.jpg", "x.jpg", 1, 1));
    let y = catalog.upsert(photo("/test/y.jpg", "y.jpg", 2, 2));

    assert_eq!(catalog.add_assets_to_album(album_id, &vec![x, y], 2000), 2);
    // re-adding the same members changes nothing and counts zero
    assert_eq!(catalog.add_assets_to_album(album_id, &vec![x, y], 3000), 0);
    let (_, _, _, _, updated_at, ids) = catalog.get_album(album_id).unwrap();
    assert_eq!(ids.len(), 2);
    // every membership call refreshes the album's clock
    assert_eq!(updated_at, 3000);
}

#[test]
fn test_album_queries() {
    let mut catalog = Catalog::new();
    let album_id = catalog.create_album("Test Album", Some("Test Description"), 1000000);
    let asset_id = catalog.upsert(photo("/test/photo1.jpg", "photo1.jpg", 1000, 1000000));
    catalog.add_assets_to_album(album_id, &vec![asset_id], 1000000);

    let album = catalog.get_album(album_id);
    assert!(album.is_some());
    let (id, name, _description, _, _, asset_ids) = album.unwrap();
    assert_eq!(id, album_id);
    assert_eq!(name, "Test Album");
    assert_eq!(asset_ids.len(), 1);
    assert_eq!(asset_ids[0], asset_id);

    let albums = catalog.get_albums_for_asset(asset_id);
    assert_eq!(albums.len(), 1);
    assert_eq!(albums[0], album_id);
}

#[test]
fn test_album_round_trip() {
    // create an album, attach two assets, read the membership back from
    // both directions, then delete the album and watch the membership go
    let mut catalog = Catalog::new();
    let x = catalog.upsert(photo("/test/x.jpg", "x.jpg", 1, 1));
    let y = catalog.upsert(photo("/test/y.jpg", "y.jpg", 2, 2));
    let k = catalog.create_album("A", None, 10);

    catalog.add_assets_to_album(k, &vec![x, y], 11);
    let (_, _, _, _, _, ids) = catalog.get_album(k).unwrap();
    assert_eq!(ids, vec![x, y]);
    assert!(catalog.get_albums_for_asset(x).contains(&k));

    assert!(catalog.delete_album(k));
    assert!(catalog.get_album(k).is_none());
    assert_eq!(catalog.get_albums_for_asset(x), Vec::<i64>::new());
}

#[test]
fn test_deleting_asset_cascades_membership() {
    let mut catalog = Catalog::new();
    let x = catalog.upsert(photo("/test/x.jpg", "x.jpg", 1, 1));
    let k = catalog.create_album("A", None, 10);
    catalog.add_assets_to_album(k, &vec![x], 11);

    assert!(catalog.delete_asset_by_id(x));
    let (_, _, _, _, _, ids) = catalog.get_album(k).unwrap();
    assert_eq!(ids.len(), 0);
}

#[test]
fn test_list_albums() {
    let mut catalog = Catalog::new();
    let a = catalog.create_album("First", None, 1);
    let b = catalog.create_album("Second", Some("desc"), 2);
    let all = catalog.list_albums();
    assert_eq!(all.len(), 2);
    assert_eq!(all[0].0, a);
    assert_eq!(all[1].0, b);
    assert_eq!(all[1].1, "Second");
}
