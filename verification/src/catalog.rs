//! The catalog: one row per absolute path, with a mirrored full-text-index
//! table, declared scan roots, and albums.
//!
//! Invariants: paths are unique; row ids are unique and below the id
//! counter; the full-text index holds exactly one entry per row; a digest,
//! when present, is the 64 hex digits of a SHA-256; only image and video
//! rows are stored.

use vstd::prelude::*;
use crate::bytes::utf8;
use crate::bytes::starts_with_bytes;
use crate::media::spec_is_media_mime;
use crate::text::str_eq;
use vstd::string::StringSliceAdditionalSpecFns;

verus! {

/// One write into the catalog: everything the pipeline knows about a file.
pub struct DbWriteItem {
    pub path: String,
    pub dirname: String,
    pub filename: String,
    pub ext: String,
    pub size_bytes: i64,
    pub mtime_ns: i64,
    pub ctime_ns: i64,
    /// Lowercase hex digest, 64 digits when present.
    pub sha256: Option<String>,
    pub xxh64: Option<i64>,
    pub taken_at: Option<i64>,
    pub width: Option<i64>,
    pub height: Option<i64>,
    pub duration_ms: Option<i64>,
    pub camera_make: Option<String>,
    pub camera_model: Option<String>,
    pub lens_model: Option<String>,
    pub iso: Option<i64>,
    pub video_codec: Option<String>,
    pub mime: String,
    pub flags: i64,
}

impl DbWriteItem {
    /// What the writer may commit: a media MIME and, when present, a
    /// 64-digit hex digest.
    pub open spec fn valid(self) -> bool {
        &&& spec_is_media_mime(utf8(self.mime@))
        &&& match self.sha256 {
            Some(d) => d@.len() == 64,
            None => true,
        }
    }
}

/// One catalog row.
pub struct Asset {
    pub id: i64,
    pub path: String,
    pub dirname: String,
    pub filename: String,
    pub ext: String,
    pub size_bytes: i64,
    pub mtime_ns: i64,
    pub ctime_ns: i64,
    /// Lowercase hex digest, 64 digits when present.
    pub sha256: Option<String>,
    pub xxh64: Option<i64>,
    pub taken_at: Option<i64>,
    pub width: Option<i64>,
    pub height: Option<i64>,
    pub duration_ms: Option<i64>,
    pub camera_make: Option<String>,
    pub camera_model: Option<String>,
    pub lens_model: Option<String>,
    pub iso: Option<i64>,
    pub video_codec: Option<String>,
    pub mime: String,
    pub flags: i64,
}

/// The row an upsert of `item` writes under `id`.
pub open spec fn spec_row(item: DbWriteItem, id: i64) -> Asset {
    Asset {
        id,
        path: item.path,
        dirname: item.dirname,
        filename: item.filename,
        ext: item.ext,
        size_bytes: item.size_bytes,
        mtime_ns: item.mtime_ns,
        ctime_ns: item.ctime_ns,
        sha256: item.sha256,
        xxh64: item.xxh64,
        taken_at: item.taken_at,
        width: item.width,
        height: item.height,
        duration_ms: item.duration_ms,
        camera_make: item.camera_make,
        camera_model: item.camera_model,
        lens_model: item.lens_model,
        iso: item.iso,
        video_codec: item.video_codec,
        mime: item.mime,
        flags: item.flags,
    }
}

/// A declared scan root.
pub struct ScanPath {
    pub path: String,
    pub created_at: i64,
}

/// An album: a named set of assets.
pub struct Album {
    pub id: i64,
    pub name: String,
    pub description: Option<String>,
    pub created_at: i64,
    pub updated_at: i64,
}

/// One album membership edge.
#[derive(Clone, Copy, Debug, PartialEq, Eq, Structural)]
pub struct AlbumEdge {
    pub album_id: i64,
    pub asset_id: i64,
}

/// Whether some row of `rows` carries path `p`.
pub open spec fn has_path(rows: Seq<Asset>, p: Seq<char>) -> bool {
    exists|i: int| 0 <= i < rows.len() && #[trigger] rows[i].path@ == p
}

/// Whether some row of `rows` carries id `id`.
pub open spec fn has_id(rows: Seq<Asset>, id: i64) -> bool {
    exists|i: int| 0 <= i < rows.len() && #[trigger] rows[i].id == id
}

pub struct Catalog {
    pub assets: Vec<Asset>,
    /// The ids that have a row in the full-text index.
    pub fts: Vec<i64>,
    pub next_id: i64,
    pub scan_paths: Vec<ScanPath>,
    pub albums: Vec<Album>,
    pub next_album_id: i64,
    pub album_assets: Vec<AlbumEdge>,
}

impl Catalog {
    pub open spec fn rows(self) -> Seq<Asset> {
        self.assets@
    }

    /// The catalog's invariants.
    pub open spec fn wf(self) -> bool {
        // paths unique
        &&& (forall|i: int, j: int|
            0 <= i < j < self.assets@.len() ==> #[trigger] self.assets@[i].path@ != #[trigger] self.assets@[j].path@)
        // ids unique and inside [1, next_id)
        &&& (forall|i: int, j: int|
            0 <= i < j < self.assets@.len() ==> #[trigger] self.assets@[i].id != #[trigger] self.assets@[j].id)
        &&& (forall|i: int|
            0 <= i < self.assets@.len() ==> 1 <= #[trigger] self.assets@[i].id < self.next_id)
        &&& self.assets@.len() < self.next_id
        &&& 1 <= self.next_id <= i64::MAX
        // rows hold media MIMEs and well-sized digests
        &&& (forall|i: int|
            0 <= i < self.assets@.len() ==> spec_is_media_mime(
                utf8(#[trigger] self.assets@[i].mime@),
            ))
        &&& (forall|i: int|
            0 <= i < self.assets@.len() ==> match #[trigger] self.assets@[i].sha256 {
                Some(d) => d@.len() == 64,
                None => true,
            })
        // the full-text index mirrors the rows: one entry per row, same ids
        &&& self.fts@.len() == self.assets@.len()
        &&& (forall|i: int|
            0 <= i < self.fts@.len() ==> has_id(self.assets@, #[trigger] self.fts@[i]))
        &&& (forall|i: int|
            0 <= i < self.assets@.len() ==> self.fts@.contains(#[trigger] self.assets@[i].id))
        &&& (forall|i: int, j: int|
            0 <= i < j < self.fts@.len() ==> #[trigger] self.fts@[i] != #[trigger] self.fts@[j])
        // scan roots are unique
        &&& (forall|i: int, j: int|
            0 <= i < j < self.scan_paths@.len() ==> #[trigger] self.scan_paths@[i].path@
                != #[trigger] self.scan_paths@[j].path@)
        // albums have unique ids below the album id counter
        &&& (forall|i: int, j: int|
            0 <= i < j < self.albums@.len() ==> #[trigger] self.albums@[i].id != #[trigger] self.albums@[j].id)
        &&& (forall|i: int|
            0 <= i < self.albums@.len() ==> 1 <= #[trigger] self.albums@[i].id < self.next_album_id)
        &&& 1 <= self.next_album_id <= i64::MAX
        // membership edges are unique pairs
        &&& (forall|i: int, j: int|
            0 <= i < j < self.album_assets@.len() ==> #[trigger] self.album_assets@[i]
                != #[trigger] self.album_assets@[j])
    }

    /// An empty catalog.
    pub fn new() -> (r: Catalog)
        ensures
            r.wf(),
            r.assets@.len() == 0,
            r.fts@.len() == 0,
            r.scan_paths@.len() == 0,
            r.albums@.len() == 0,
            r.album_assets@.len() == 0,
            r.next_id == 1,
            r.next_album_id == 1,
    {
        Catalog {
            assets: Vec::new(),
            fts: Vec::new(),
            next_id: 1,
            scan_paths: Vec::new(),
            albums: Vec::new(),
            next_album_id: 1,
            album_assets: Vec::new(),
        }
    }

    /// Number of rows.
    pub fn count_assets(&self) -> (r: i64)
        requires
            self.wf(),
        ensures
            r == self.assets@.len(),
    {
        self.assets.len() as i64
    }

    /// Index of the row carrying `path`, if any.
    pub fn find_by_path(&self, path: &str) -> (r: Option<usize>)
        ensures
            match r {
                Some(i) => i < self.assets@.len() && self.assets@[i as int].path@ == path@,
                None => !has_path(self.assets@, path@),
            },
    {
        let mut i: usize = 0;
        while i < self.assets.len()
            invariant
                i <= self.assets@.len(),
                forall|k: int| 0 <= k < i ==> #[trigger] self.assets@[k].path@ != path@,
            decreases self.assets@.len() - i,
        {
            if str_eq(self.assets[i].path.as_str(), path) {
                return Some(i);
            }
            i = i + 1;
        }
        None
    }

    /// Index of the row with `id`, if any.
    pub fn find_by_id(&self, id: i64) -> (r: Option<usize>)
        ensures
            match r {
                Some(i) => i < self.assets@.len() && self.assets@[i as int].id == id,
                None => !has_id(self.assets@, id),
            },
    {
        let mut i: usize = 0;
        while i < self.assets.len()
            invariant
                i <= self.assets@.len(),
                forall|k: int| 0 <= k < i ==> #[trigger] self.assets@[k].id != id,
            decreases self.assets@.len() - i,
        {
            if self.assets[i].id == id {
                return Some(i);
            }
            i = i + 1;
        }
        None
    }

    /// Write `item`, replacing the row at its path or creating one, and keep
    /// the full-text index in step.  Returns the row's id.
    pub fn upsert(&mut self, item: DbWriteItem) -> (r: i64)
        requires
            old(self).wf(),
            item.valid(),
            old(self).next_id < i64::MAX,
        ensures
            final(self).wf(),
            ({
                let rows = old(self).assets@;
                if has_path(rows, item.path@) {
                    let i = choose|i: int| 0 <= i < rows.len() && #[trigger] rows[i].path@ == item.path@;
                    &&& final(self).assets@ == rows.update(i, spec_row(item, rows[i].id))
                    &&& r == rows[i].id
                    &&& final(self).fts@ == old(self).fts@
                    &&& final(self).next_id == old(self).next_id
                } else {
                    &&& final(self).assets@ == rows.push(spec_row(item, old(self).next_id))
                    &&& r == old(self).next_id
                    &&& final(self).fts@ == old(self).fts@.push(r)
                    &&& final(self).next_id == old(self).next_id + 1
                }
            }),
            // exactly one row carries the item's path afterwards, and it
            // holds the written data
            has_path(final(self).assets@, item.path@),
            final(self).scan_paths@ == old(self).scan_paths@,
            final(self).albums@ == old(self).albums@,
            final(self).album_assets@ == old(self).album_assets@,
            final(self).next_album_id == old(self).next_album_id,
    {
        let found = self.find_by_path(item.path.as_str());
        match found {
            Some(i) => {
                let id = self.assets[i].id;
                let row = Asset {
                    id,
                    path: item.path,
                    dirname: item.dirname,
                    filename: item.filename,
                    ext: item.ext,
                    size_bytes: item.size_bytes,
                    mtime_ns: item.mtime_ns,
                    ctime_ns: item.ctime_ns,
                    sha256: item.sha256,
                    xxh64: item.xxh64,
                    taken_at: item.taken_at,
                    width: item.width,
                    height: item.height,
                    duration_ms: item.duration_ms,
                    camera_make: item.camera_make,
                    camera_model: item.camera_model,
                    lens_model: item.lens_model,
                    iso: item.iso,
                    video_codec: item.video_codec,
                    mime: item.mime,
                    flags: item.flags,
                };
                self.assets.set(i, row);
                proof {
                    let rows = old(self).assets@;
                    let j = choose|j: int| 0 <= j < rows.len() && #[trigger] rows[j].path@ == item.path@;
                    assert(rows[j].path@ == rows[i as int].path@);
                    assert(j == i as int);
                    assert(self.assets@ =~= rows.update(i as int, spec_row(item, rows[i as int].id)));
                    assert(self.assets@[i as int].path@ == item.path@);
                    assert(has_path(self.assets@, item.path@));
                    assert forall|a: int, b: int| 0 <= a < b < self.assets@.len() implies
                        #[trigger] self.assets@[a].path@ != #[trigger] self.assets@[b].path@ by {
                        assert(rows[a].path@ != rows[b].path@);
                    }
                    assert forall|k: int| 0 <= k < self.fts@.len() implies has_id(
                        self.assets@,
                        #[trigger] self.fts@[k],
                    ) by {
                        let m = choose|m: int|
                            0 <= m < rows.len() && #[trigger] rows[m].id == old(self).fts@[k];
                        assert(self.assets@[m].id == old(self).fts@[k]);
                    }
                    assert forall|k: int| 0 <= k < self.assets@.len() implies self.fts@.contains(
                        #[trigger] self.assets@[k].id,
                    ) by {
                        assert(self.assets@[k].id == rows[k].id);
                        assert(old(self).fts@.contains(rows[k].id));
                    }
                }
                id
            },
            None => {
                let id = self.next_id;
                let row = Asset {
                    id,
                    path: item.path,
                    dirname: item.dirname,
                    filename: item.filename,
                    ext: item.ext,
                    size_bytes: item.size_bytes,
                    mtime_ns: item.mtime_ns,
                    ctime_ns: item.ctime_ns,
                    sha256: item.sha256,
                    xxh64: item.xxh64,
                    taken_at: item.taken_at,
                    width: item.width,
                    height: item.height,
                    duration_ms: item.duration_ms,
                    camera_make: item.camera_make,
                    camera_model: item.camera_model,
                    lens_model: item.lens_model,
                    iso: item.iso,
                    video_codec: item.video_codec,
                    mime: item.mime,
                    flags: item.flags,
                };
                self.assets.push(row);
                self.fts.push(id);
                self.next_id = id + 1;
                proof {
                    let rows = old(self).assets@;
                    assert(self.assets@ =~= rows.push(spec_row(item, id)));
                    assert(self.fts@ =~= old(self).fts@.push(id));
                    assert(self.assets@[rows.len() as int].path@ == item.path@);
                    assert(has_path(self.assets@, item.path@));
                    assert(forall|k: int|
                        0 <= k < old(self).fts@.len() ==> has_id(rows, #[trigger] old(self).fts@[k]));
                    assert forall|k: int| 0 <= k < self.fts@.len() implies has_id(
                        self.assets@,
                        #[trigger] self.fts@[k],
                    ) by {
                        if k < old(self).fts@.len() {
                            let m = choose|m: int|
                                0 <= m < rows.len() && #[trigger] rows[m].id == old(self).fts@[k];
                            assert(self.assets@[m].id == old(self).fts@[k]);
                        } else {
                            assert(self.assets@[rows.len() as int].id == id);
                        }
                    }
                    assert forall|k: int| 0 <= k < self.assets@.len() implies self.fts@.contains(
                        #[trigger] self.assets@[k].id,
                    ) by {
                        if k < rows.len() {
                            assert(old(self).fts@.contains(rows[k].id));
                            let m = choose|m: int|
                                0 <= m < old(self).fts@.len() && old(self).fts@[m] == rows[k].id;
                            assert(self.fts@[m] == rows[k].id);
                        } else {
                            assert(self.fts@[old(self).fts@.len() as int] == id);
                        }
                    }
                }
                id
            },
        }
    }
}

/// Whether some album of `albums` carries id `id`.
pub open spec fn spec_album_exists(albums: Seq<Album>, id: i64) -> bool {
    exists|i: int| 0 <= i < albums.len() && #[trigger] albums[i].id == id
}

/// Clone an optional string, value for value.
pub fn clone_opt_string(o: &Option<String>) -> (r: Option<String>)
    ensures
        r == *o,
{
    match o {
        Some(s) => Some(s.clone()),
        None => None,
    }
}

/// Clone a write item, value for value.
pub fn clone_item(a: &DbWriteItem) -> (r: DbWriteItem)
    ensures
        r == *a,
{
    DbWriteItem {
        path: a.path.clone(),
        dirname: a.dirname.clone(),
        filename: a.filename.clone(),
        ext: a.ext.clone(),
        size_bytes: a.size_bytes,
        mtime_ns: a.mtime_ns,
        ctime_ns: a.ctime_ns,
        sha256: clone_opt_string(&a.sha256),
        xxh64: a.xxh64,
        taken_at: a.taken_at,
        width: a.width,
        height: a.height,
        duration_ms: a.duration_ms,
        camera_make: clone_opt_string(&a.camera_make),
        camera_model: clone_opt_string(&a.camera_model),
        lens_model: clone_opt_string(&a.lens_model),
        iso: a.iso,
        video_codec: clone_opt_string(&a.video_codec),
        mime: a.mime.clone(),
        flags: a.flags,
    }
}

/// Clone a catalog row, value for value.
pub fn clone_asset(a: &Asset) -> (r: Asset)
    ensures
        r == *a,
{
    Asset {
        id: a.id,
        path: a.path.clone(),
        dirname: a.dirname.clone(),
        filename: a.filename.clone(),
        ext: a.ext.clone(),
        size_bytes: a.size_bytes,
        mtime_ns: a.mtime_ns,
        ctime_ns: a.ctime_ns,
        sha256: clone_opt_string(&a.sha256),
        xxh64: a.xxh64,
        taken_at: a.taken_at,
        width: a.width,
        height: a.height,
        duration_ms: a.duration_ms,
        camera_make: clone_opt_string(&a.camera_make),
        camera_model: clone_opt_string(&a.camera_model),
        lens_model: clone_opt_string(&a.lens_model),
        iso: a.iso,
        video_codec: clone_opt_string(&a.video_codec),
        mime: a.mime.clone(),
        flags: a.flags,
    }
}

impl Catalog {
    /// The full record for an id.
    pub fn get_asset_by_id(&self, id: i64) -> (r: Option<Asset>)
        ensures
            match r {
                Some(a) => exists|i: int|
                    0 <= i < self.assets@.len() && #[trigger] self.assets@[i] == a
                        && self.assets@[i].id == id,
                None => !has_id(self.assets@, id),
            },
    {
        match self.find_by_id(id) {
            Some(i) => {
                let a = clone_asset(&self.assets[i]);
                assert(self.assets@[i as int] == a);
                Some(a)
            },
            None => None,
        }
    }

    /// The stored path for an id.
    pub fn get_asset_path(&self, id: i64) -> (r: Option<String>)
        ensures
            match r {
                Some(p) => exists|i: int|
                    0 <= i < self.assets@.len() && #[trigger] self.assets@[i].path@ == p@
                        && self.assets@[i].id == id,
                None => !has_id(self.assets@, id),
            },
    {
        match self.find_by_id(id) {
            Some(i) => {
                let p = self.assets[i].path.clone();
                assert(self.assets@[i as int].path@ == p@);
                Some(p)
            },
            None => None,
        }
    }

    /// The digest and MIME the derived-artifact endpoints need: the row's
    /// hex digest (when stored) and its MIME, or nothing at all for an
    /// unknown id.
    pub fn get_thumb_info(&self, id: i64) -> (r: (Option<String>, String))
        requires
            self.wf(),
        ensures
            if has_id(self.assets@, id) {
                exists|i: int|
                    0 <= i < self.assets@.len() && #[trigger] self.assets@[i].id == id
                        && r.0 == self.assets@[i].sha256 && r.1@ == self.assets@[i].mime@
            } else {
                r.0 is None && r.1@ == Seq::<char>::empty()
            },
    {
        match self.find_by_id(id) {
            Some(i) => {
                let sha = clone_opt_string(&self.assets[i].sha256);
                let mime = self.assets[i].mime.clone();
                assert(self.assets@[i as int].id == id);
                (sha, mime)
            },
            None => (None, String::new()),
        }
    }

    /// The stored hex digest of a row, when the row exists and carries one.
    pub fn get_asset_sha256(&self, id: i64) -> (r: Option<String>)
        requires
            self.wf(),
        ensures
            match r {
                Some(sha) => exists|i: int|
                    0 <= i < self.assets@.len() && #[trigger] self.assets@[i].id == id
                        && (self.assets@[i].sha256 matches Some(s) && sha@ == s@),
                None => forall|i: int|
                    0 <= i < self.assets@.len() && #[trigger] self.assets@[i].id == id
                        ==> self.assets@[i].sha256 is None,
            },
    {
        match self.find_by_id(id) {
            Some(i) => {
                proof {
                    assert forall|k: int|
                        0 <= k < self.assets@.len() && #[trigger] self.assets@[k].id == id
                            implies k == i as int by {
                        lemma_unique_id(*self, k, i as int);
                    }
                }
                clone_opt_string(&self.assets[i].sha256)
            },
            None => None,
        }
    }

    /// Remove the membership edges of asset `id`; used when a row is
    /// deleted.
    fn retain_edges_without_asset(&mut self, id: i64)
        requires
            forall|i: int, j: int|
                0 <= i < j < old(self).album_assets@.len()
                    ==> #[trigger] old(self).album_assets@[i]
                    != #[trigger] old(self).album_assets@[j],
        ensures
            forall|i: int, j: int|
                0 <= i < j < final(self).album_assets@.len()
                    ==> #[trigger] final(self).album_assets@[i]
                    != #[trigger] final(self).album_assets@[j],
            forall|e: AlbumEdge| #[trigger]
                final(self).album_assets@.contains(e) <==> (old(self).album_assets@.contains(e)
                    && e.asset_id != id),
            final(self).assets@ == old(self).assets@,
            final(self).fts@ == old(self).fts@,
            final(self).next_id == old(self).next_id,
            final(self).scan_paths@ == old(self).scan_paths@,
            final(self).albums@ == old(self).albums@,
            final(self).next_album_id == old(self).next_album_id,
    {
        let ghost edges = self.album_assets@;
        let mut out: Vec<AlbumEdge> = Vec::new();
        let mut i: usize = 0;
        while i < self.album_assets.len()
            invariant
                i <= edges.len(),
                edges == self.album_assets@,
                forall|a: int, b: int|
                    0 <= a < b < edges.len() ==> #[trigger] edges[a] != #[trigger] edges[b],
                forall|a: int, b: int|
                    0 <= a < b < out@.len() ==> #[trigger] out@[a] != #[trigger] out@[b],
                forall|e: AlbumEdge| #[trigger]
                    out@.contains(e) <==> (edges.take(i as int).contains(e) && e.asset_id
                        != id),
            decreases edges.len() - i,
        {
            let e = self.album_assets[i];
            let ghost prev = out@;
            if e.asset_id != id {
                proof {
                    // a distinct source never offers the same edge twice
                    if prev.contains(e) {
                        assert(edges.take(i as int).contains(e));
                        let m = choose|m: int|
                            0 <= m < i && #[trigger] edges.take(i as int)[m] == e;
                        assert(edges[m] == edges[i as int]);
                    }
                }
                out.push(e);
            }
            i = i + 1;
            proof {
                assert forall|x: AlbumEdge| #[trigger]
                    out@.contains(x) <==> (edges.take(i as int).contains(x) && x.asset_id
                        != id) by {
                    assert(edges.take(i as int).drop_last() =~= edges.take(i - 1));
                    assert(edges.take(i as int).last() == edges[i - 1]);
                    if out@.contains(x) {
                        if prev.contains(x) {
                            assert(edges.take(i - 1).contains(x));
                            let w = choose|w: int|
                                0 <= w < i - 1 && #[trigger] edges.take(i - 1)[w] == x;
                            assert(edges.take(i as int)[w] == x);
                        } else {
                            assert(x == edges[i - 1]);
                            assert(edges.take(i as int)[i - 1] == x);
                        }
                    }
                    if edges.take(i as int).contains(x) && x.asset_id != id {
                        let w = choose|w: int| 0 <= w < i && edges.take(i as int)[w] == x;
                        if w < i - 1 {
                            assert(edges.take(i - 1)[w] == x);
                            assert(prev.contains(x));
                            let v = choose|v: int| 0 <= v < prev.len() && prev[v] == x;
                            assert(out@[v] == x);
                        } else {
                            assert(x == edges[i - 1]);
                            assert(out@[out@.len() - 1] == x);
                        }
                    }
                }
            }
        }
        proof {
            assert(edges.take(edges.len() as int) =~= edges);
        }
        self.album_assets = out;
    }

    /// Delete a row by id: the row, its full-text entry, and its album
    /// membership all disappear together.
    pub fn delete_asset_by_id(&mut self, id: i64) -> (r: bool)
        requires
            old(self).wf(),
        ensures
            final(self).wf(),
            r == has_id(old(self).assets@, id),
            !has_id(final(self).assets@, id),
            // the full-text index row is gone with the catalog row
            !final(self).fts@.contains(id),
            forall|x: i64|
                x != id ==> (#[trigger] final(self).fts@.contains(x) <==> old(
                    self,
                ).fts@.contains(x)),
            ({
                if has_id(old(self).assets@, id) {
                    let i = choose|i: int|
                        0 <= i < old(self).assets@.len() && #[trigger] old(self).assets@[i].id
                            == id;
                    final(self).assets@ == old(self).assets@.remove(i)
                } else {
                    final(self).assets@ == old(self).assets@
                }
            }),
            forall|e: AlbumEdge| #[trigger]
                final(self).album_assets@.contains(e) <==> (old(self).album_assets@.contains(e)
                    && (!has_id(old(self).assets@, id) || e.asset_id != id)),
            final(self).scan_paths@ == old(self).scan_paths@,
            final(self).albums@ == old(self).albums@,
            final(self).next_album_id == old(self).next_album_id,
            final(self).next_id == old(self).next_id,
    {
        let found = self.find_by_id(id);
        match found {
            Some(i) => {
                let ghost rows = self.assets@;
                let ghost oldfts = self.fts@;
                self.assets.remove(i);
                // drop the matching full-text entry
                let mut k: usize = 0;
                let mut fts_at: Option<usize> = None;
                while k < self.fts.len()
                    invariant
                        k <= self.fts@.len(),
                        self.fts@ == oldfts,
                        match fts_at {
                            Some(m) => m < self.fts@.len() && self.fts@[m as int] == id,
                            None => forall|m: int| 0 <= m < k ==> #[trigger] self.fts@[m] != id,
                        },
                    decreases self.fts@.len() - k,
                {
                    if matches!(fts_at, None) {
                        if self.fts[k] == id {
                            fts_at = Some(k);
                        }
                    }
                    k = k + 1;
                }
                let fi = match fts_at {
                    Some(m) => m,
                    None => {
                        proof {
                            assert(oldfts.contains(rows[i as int].id));
                            let w = choose|w: int|
                                0 <= w < oldfts.len() && oldfts[w] == rows[i as int].id;
                            assert(self.fts@[w] == id);
                        }
                        // unreachable: the invariant guarantees an entry
                        0
                    },
                };
                self.fts.remove(fi);
                self.retain_edges_without_asset(id);
                proof {
                    let j = choose|j: int| 0 <= j < rows.len() && #[trigger] rows[j].id == id;
                    assert(rows[j].id == rows[i as int].id);
                    assert(j == i as int);
                    lemma_after_row_removal(rows, oldfts, i as int, fi as int, self.assets@, self.fts@);
                }
                true
            },
            None => {
                proof {
                    if old(self).fts@.contains(id) {
                        let w = choose|w: int|
                            0 <= w < old(self).fts@.len() && old(self).fts@[w] == id;
                        assert(has_id(old(self).assets@, old(self).fts@[w]));
                    }
                }
                false
            },
        }
    }

    /// Delete a row by path.
    pub fn delete_asset_by_path(&mut self, path: &str) -> (r: bool)
        requires
            old(self).wf(),
        ensures
            final(self).wf(),
            r == has_path(old(self).assets@, path@),
            !has_path(final(self).assets@, path@),
            ({
                if has_path(old(self).assets@, path@) {
                    let i = choose|i: int|
                        0 <= i < old(self).assets@.len() && #[trigger] old(self).assets@[i].path@
                            == path@;
                    &&& final(self).assets@ == old(self).assets@.remove(i)
                    &&& !final(self).fts@.contains(old(self).assets@[i].id)
                } else {
                    final(self).assets@ == old(self).assets@
                }
            }),
            final(self).scan_paths@ == old(self).scan_paths@,
            final(self).albums@ == old(self).albums@,
    {
        let found = self.find_by_path(path);
        match found {
            Some(i) => {
                let id = self.assets[i].id;
                proof {
                    let j = choose|j: int|
                        0 <= j < self.assets@.len() && #[trigger] self.assets@[j].path@ == path@;
                    assert(self.assets@[j].path@ == self.assets@[i as int].path@);
                    assert(j == i as int);
                    assert(has_id(self.assets@, id));
                }
                let r = self.delete_asset_by_id(id);
                proof {
                    let j = choose|j: int|
                        0 <= j < old(self).assets@.len() && #[trigger] old(self).assets@[j].id
                            == id;
                    assert(old(self).assets@[j].id == old(self).assets@[i as int].id);
                    assert(j == i as int);
                    if has_path(self.assets@, path@) {
                        let w = choose|w: int|
                            0 <= w < self.assets@.len() && #[trigger] self.assets@[w].path@
                                == path@;
                        let ow = if w < i as int {
                            w
                        } else {
                            w + 1
                        };
                        assert(old(self).assets@[ow].path@ == path@);
                        assert(old(self).assets@[ow].path@ == old(self).assets@[i as int].path@);
                    }
                }
                r
            },
            None => false,
        }
    }
}

/// Whether a row matches the skip-gate key `(path, mtime_ns, size_bytes)`.
pub open spec fn spec_key_match(a: Asset, p: Seq<char>, mtime_ns: i64, size_bytes: i64) -> bool {
    a.path@ == p && a.mtime_ns == mtime_ns && a.size_bytes == size_bytes
}

/// Whether a row's stored attributes are complete for its kind: images need
/// pixel dimensions, videos a duration or dimensions; anything else counts
/// as incomplete.
pub open spec fn spec_metadata_complete(a: Asset, mime: Seq<u8>) -> bool {
    if crate::media::spec_is_image_mime(mime) {
        a.width is Some && a.height is Some
    } else if crate::media::spec_is_video_mime(mime) {
        a.duration_ms is Some || (a.width is Some && a.height is Some)
    } else {
        false
    }
}

/// A directory prefix, with a path separator appended unless one (either
/// kind) is already there.
pub open spec fn spec_normalize_prefix(p: Seq<u8>) -> Seq<u8> {
    if p.len() > 0 && (p.last() == 47 || p.last() == 92) {
        p
    } else {
        p.push(47)
    }
}

/// Whether a row falls under a root prefix: its path extends the normalized
/// prefix, or equals the raw prefix outright.
pub open spec fn spec_under_prefix(a: Asset, raw: Seq<u8>, raw_chars: Seq<char>) -> bool {
    crate::bytes::is_prefix_of(spec_normalize_prefix(raw), utf8(a.path@)) || a.path@ == raw_chars
}

impl Catalog {
    /// The skip-gate lookup: the row matching `(path, mtime_ns, size_bytes)`
    /// exactly, with its id, fingerprint and digest.
    pub fn check_file_unchanged(&self, path: &str, mtime_ns: i64, size_bytes: i64) -> (r: Option<
        (i64, Option<i64>, Option<String>),
    >)
        requires
            self.wf(),
        ensures
            match r {
                Some(t) => exists|i: int|
                    0 <= i < self.assets@.len() && spec_key_match(
                        #[trigger] self.assets@[i],
                        path@,
                        mtime_ns,
                        size_bytes,
                    ) && self.assets@[i].id == t.0 && self.assets@[i].xxh64 == t.1
                        && self.assets@[i].sha256 == t.2,
                None => forall|i: int|
                    0 <= i < self.assets@.len() ==> !spec_key_match(
                        #[trigger] self.assets@[i],
                        path@,
                        mtime_ns,
                        size_bytes,
                    ),
            },
    {
        let mut i: usize = 0;
        while i < self.assets.len()
            invariant
                i <= self.assets@.len(),
                forall|k: int|
                    0 <= k < i ==> !spec_key_match(
                        #[trigger] self.assets@[k],
                        path@,
                        mtime_ns,
                        size_bytes,
                    ),
            decreases self.assets@.len() - i,
        {
            let a = &self.assets[i];
            if a.mtime_ns == mtime_ns && a.size_bytes == size_bytes && str_eq(
                a.path.as_str(),
                path,
            ) {
                let sha = clone_opt_string(&a.sha256);
                assert(spec_key_match(self.assets@[i as int], path@, mtime_ns, size_bytes));
                return Some((a.id, a.xxh64, sha));
            }
            i = i + 1;
        }
        None
    }

    /// Whether the row with `id` already has everything the metadata stage
    /// would extract for this MIME.
    pub fn check_metadata_complete(&self, id: i64, mime: &str) -> (r: bool)
        requires
            self.wf(),
        ensures
            r == exists|i: int|
                0 <= i < self.assets@.len() && #[trigger] self.assets@[i].id == id
                    && spec_metadata_complete(self.assets@[i], mime.spec_bytes()),
    {
        match self.find_by_id(id) {
            Some(i) => {
                let a = &self.assets[i];
                let complete = if crate::media::is_image_mime(mime) {
                    a.width.is_some() && a.height.is_some()
                } else if crate::media::is_video_mime(mime) {
                    a.duration_ms.is_some() || (a.width.is_some() && a.height.is_some())
                } else {
                    false
                };
                proof {
                    if !complete && exists|k: int|
                        0 <= k < self.assets@.len() && #[trigger] self.assets@[k].id == id
                            && spec_metadata_complete(self.assets@[k], mime.spec_bytes()) {
                        let k = choose|k: int|
                            0 <= k < self.assets@.len() && #[trigger] self.assets@[k].id == id
                                && spec_metadata_complete(self.assets@[k], mime.spec_bytes());
                        lemma_unique_id(*self, k, i as int);
                    }
                }
                complete
            },
            None => false,
        }
    }

    /// Declare a scan root unless it is already declared.
    pub fn add_scan_path(&mut self, path: &str, now: i64) -> (r: bool)
        requires
            old(self).wf(),
        ensures
            final(self).wf(),
            r == !spec_has_scan_path(old(self).scan_paths@, path@),
            spec_has_scan_path(final(self).scan_paths@, path@),
            if r {
                final(self).scan_paths@.len() == old(self).scan_paths@.len() + 1
                    && final(self).scan_paths@.take(old(self).scan_paths@.len() as int)
                    == old(self).scan_paths@ && final(self).scan_paths@.last().path@ == path@
                    && final(self).scan_paths@.last().created_at == now
            } else {
                final(self).scan_paths@ == old(self).scan_paths@
            },
            final(self).assets@ == old(self).assets@,
            final(self).fts@ == old(self).fts@,
            final(self).albums@ == old(self).albums@,
            final(self).album_assets@ == old(self).album_assets@,
    {
        let mut i: usize = 0;
        while i < self.scan_paths.len()
            invariant
                self == old(self),
                old(self).wf(),
                i <= self.scan_paths@.len(),
                forall|k: int| 0 <= k < i ==> #[trigger] self.scan_paths@[k].path@ != path@,
            decreases self.scan_paths@.len() - i,
        {
            if str_eq(self.scan_paths[i].path.as_str(), path) {
                assert(spec_has_scan_path(self.scan_paths@, path@));
                return false;
            }
            i = i + 1;
        }
        let sp = ScanPath { path: String::from_str(path), created_at: now };
        let ghost prev = self.scan_paths@;
        self.scan_paths.push(sp);
        proof {
            assert(self.scan_paths@.take(prev.len() as int) =~= prev);
            assert(self.scan_paths@.last().path@ == path@);
        }
        true
    }

    /// Drop a declared scan root.
    pub fn remove_scan_path(&mut self, path: &str) -> (r: bool)
        requires
            old(self).wf(),
        ensures
            final(self).wf(),
            r == spec_has_scan_path(old(self).scan_paths@, path@),
            !spec_has_scan_path(final(self).scan_paths@, path@),
            if r {
                final(self).scan_paths@ == old(self).scan_paths@.remove(
                    choose|i: int|
                        0 <= i < old(self).scan_paths@.len() && #[trigger] old(
                            self,
                        ).scan_paths@[i].path@ == path@,
                )
            } else {
                final(self).scan_paths@ == old(self).scan_paths@
            },
            final(self).assets@ == old(self).assets@,
            final(self).fts@ == old(self).fts@,
            final(self).albums@ == old(self).albums@,
            final(self).album_assets@ == old(self).album_assets@,
    {
        let mut i: usize = 0;
        while i < self.scan_paths.len()
            invariant
                self == old(self),
                old(self).wf(),
                i <= self.scan_paths@.len(),
                forall|k: int| 0 <= k < i ==> #[trigger] self.scan_paths@[k].path@ != path@,
            decreases self.scan_paths@.len() - i,
        {
            if str_eq(self.scan_paths[i].path.as_str(), path) {
                let ghost prev = self.scan_paths@;
                assert(prev[i as int].path@ == path@);
                self.scan_paths.remove(i);
                proof {
                    let j = choose|j: int|
                        0 <= j < prev.len() && #[trigger] prev[j].path@ == path@;
                    assert(prev[j].path@ == prev[i as int].path@);
                    assert(j == i as int);
                    if spec_has_scan_path(self.scan_paths@, path@) {
                        let w = choose|w: int|
                            0 <= w < self.scan_paths@.len() && #[trigger] self.scan_paths@[w].path@
                                == path@;
                        let ow = if w < i as int {
                            w
                        } else {
                            w + 1
                        };
                        assert(prev[ow].path@ == path@);
                        assert(prev[ow].path@ == prev[i as int].path@);
                    }
                }
                return true;
            }
            i = i + 1;
        }
        false
    }

    /// The declared scan roots, in declaration order.
    pub fn get_scan_paths(&self) -> (r: Vec<String>)
        ensures
            r@.len() == self.scan_paths@.len(),
            forall|i: int|
                0 <= i < r@.len() ==> #[trigger] r@[i]@ == self.scan_paths@[i].path@,
    {
        let mut out: Vec<String> = Vec::new();
        let mut i: usize = 0;
        while i < self.scan_paths.len()
            invariant
                i <= self.scan_paths@.len(),
                out@.len() == i,
                forall|k: int| 0 <= k < i ==> #[trigger] out@[k]@ == self.scan_paths@[k].path@,
            decreases self.scan_paths@.len() - i,
        {
            out.push(self.scan_paths[i].path.clone());
            i = i + 1;
        }
        out
    }

    /// Drop every row, its full-text entries, and all album membership.
    /// Returns how many rows were removed (and two zero counts kept for the
    /// optional face feature's tally).
    pub fn clear_all_data(&mut self) -> (r: (usize, usize, usize))
        requires
            old(self).wf(),
        ensures
            final(self).wf(),
            r.0 == old(self).assets@.len(),
            r.1 == 0 && r.2 == 0,
            final(self).assets@.len() == 0,
            final(self).fts@.len() == 0,
            final(self).album_assets@.len() == 0,
            final(self).scan_paths@ == old(self).scan_paths@,
            final(self).albums@ == old(self).albums@,
    {
        let n = self.assets.len();
        self.assets.clear();
        self.fts.clear();
        self.album_assets.clear();
        (n, 0, 0)
    }
}

impl Catalog {
    /// Delete every row under a root prefix, with full-text entries and
    /// album membership.  Returns how many rows were removed.
    pub fn delete_assets_by_path_prefix(&mut self, path_prefix: &str) -> (r: usize)
        requires
            old(self).wf(),
        ensures
            final(self).wf(),
            r == old(self).assets@.len() - final(self).assets@.len(),
            forall|k: int|
                0 <= k < final(self).assets@.len() ==> !spec_under_prefix(
                    #[trigger] final(self).assets@[k],
                    path_prefix.spec_bytes(),
                    path_prefix@,
                ),
            forall|k: int|
                0 <= k < final(self).assets@.len() ==> old(self).assets@.contains(
                    #[trigger] final(self).assets@[k],
                ),
            forall|a: Asset|
                old(self).assets@.contains(a) && !spec_under_prefix(
                    a,
                    path_prefix.spec_bytes(),
                    path_prefix@,
                ) ==> final(self).assets@.contains(a),
            final(self).scan_paths@ == old(self).scan_paths@,
            final(self).albums@ == old(self).albums@,
    {
        let raw = path_prefix.as_bytes();
        let mut norm: Vec<u8> = Vec::new();
        let mut k: usize = 0;
        while k < raw.len()
            invariant
                k <= raw@.len(),
                norm@ == raw@.take(k as int),
            decreases raw@.len() - k,
        {
            norm.push(raw[k]);
            k = k + 1;
            assert(norm@ =~= raw@.take(k as int));
        }
        assert(norm@ =~= raw@);
        if norm.len() == 0 || (norm[norm.len() - 1] != 47 && norm[norm.len() - 1] != 92) {
            norm.push(47);
        }
        assert(norm@ == spec_normalize_prefix(raw@));
        let ghost orig = self.assets@;
        let orig_len = self.assets.len();
        assert(orig.len() == orig_len);
        let mut i: usize = 0;
        let mut removed: usize = 0;
        while i < self.assets.len()
            invariant
                self.wf(),
                old(self).wf(),
                norm@ == spec_normalize_prefix(path_prefix.spec_bytes()),
                i <= self.assets@.len(),
                removed + self.assets@.len() == orig.len(),
                orig.len() <= usize::MAX,
                orig == old(self).assets@,
                forall|k: int|
                    0 <= k < i ==> !spec_under_prefix(
                        #[trigger] self.assets@[k],
                        path_prefix.spec_bytes(),
                        path_prefix@,
                    ),
                forall|k: int|
                    0 <= k < self.assets@.len() ==> orig.contains(#[trigger] self.assets@[k]),
                forall|a: Asset|
                    orig.contains(a) && !spec_under_prefix(
                        a,
                        path_prefix.spec_bytes(),
                        path_prefix@,
                    ) ==> self.assets@.contains(a),
                self.scan_paths@ == old(self).scan_paths@,
                self.albums@ == old(self).albums@,
            decreases self.assets@.len() - i,
        {
            let under = {
                let a = &self.assets[i];
                starts_with_bytes(a.path.as_str().as_bytes(), norm.as_slice()) || str_eq(
                    a.path.as_str(),
                    path_prefix,
                )
            };
            assert(under == spec_under_prefix(
                self.assets@[i as int],
                path_prefix.spec_bytes(),
                path_prefix@,
            ));
            if under {
                let ghost cur = self.assets@;
                let id = self.assets[i].id;
                assert(cur[i as int].id == id);
                assert(has_id(cur, id));
                let deleted = self.delete_asset_by_id(id);
                removed = removed + 1;
                proof {
                    let j = choose|j: int| 0 <= j < cur.len() && #[trigger] cur[j].id == id;
                    assert(cur[j].id == cur[i as int].id);
                    assert(j == i as int);
                    assert(self.assets@ == cur.remove(i as int));
                    assert forall|k: int|
                        0 <= k < self.assets@.len() implies orig.contains(
                        #[trigger] self.assets@[k],
                    ) by {
                        if k < i as int {
                            assert(self.assets@[k] == cur[k]);
                        } else {
                            assert(self.assets@[k] == cur[k + 1]);
                        }
                    }
                    assert forall|a: Asset|
                        orig.contains(a) && !spec_under_prefix(
                            a,
                            path_prefix.spec_bytes(),
                            path_prefix@,
                        ) implies self.assets@.contains(a) by {
                        assert(cur.contains(a));
                        let w = choose|w: int| 0 <= w < cur.len() && cur[w] == a;
                        assert(w != i as int);
                        if w < i as int {
                            assert(self.assets@[w] == a);
                        } else {
                            assert(self.assets@[w - 1] == a);
                        }
                    }
                    assert forall|k: int|
                        0 <= k < i as int implies !spec_under_prefix(
                        #[trigger] self.assets@[k],
                        path_prefix.spec_bytes(),
                        path_prefix@,
                    ) by {
                        assert(self.assets@[k] == cur[k]);
                    }
                }
            } else {
                i = i + 1;
            }
        }
        removed
    }

    /// Move a row to a new path, rederiving its directory and file name.
    /// Refused when no row holds `old_path` or another row already holds
    /// `new_path`.
    pub fn update_asset_path(&mut self, old_path: &str, new_path: &str) -> (r: bool)
        requires
            old(self).wf(),
        ensures
            final(self).wf(),
            r == (has_path(old(self).assets@, old_path@) && (old_path@ == new_path@ || !has_path(
                old(self).assets@,
                new_path@,
            ))),
            if r {
                ({
                    let i = choose|i: int|
                        0 <= i < old(self).assets@.len() && #[trigger] old(self).assets@[i].path@
                            == old_path@;
                    let d = crate::text::last_slash(new_path@);
                    &&& final(self).assets@.len() == old(self).assets@.len()
                    &&& (forall|k: int|
                        0 <= k < old(self).assets@.len() && k != i
                            ==> #[trigger] final(self).assets@[k] == old(self).assets@[k])
                    &&& final(self).assets@[i].path@ == new_path@
                    &&& final(self).assets@[i].filename@ == (if d >= 0 {
                        new_path@.subrange(d + 1, new_path@.len() as int)
                    } else {
                        new_path@
                    })
                    &&& final(self).assets@[i].dirname@ == (if d >= 0 {
                        new_path@.subrange(0, d)
                    } else {
                        Seq::<char>::empty()
                    })
                    &&& final(self).assets@[i].id == old(self).assets@[i].id
                    &&& final(self).assets@[i].size_bytes == old(self).assets@[i].size_bytes
                    &&& final(self).assets@[i].mtime_ns == old(self).assets@[i].mtime_ns
                    &&& final(self).assets@[i].sha256 == old(self).assets@[i].sha256
                    &&& final(self).assets@[i].mime == old(self).assets@[i].mime
                })
            } else {
                final(self).assets@ == old(self).assets@
            },
            final(self).fts@ == old(self).fts@,
            final(self).scan_paths@ == old(self).scan_paths@,
            final(self).albums@ == old(self).albums@,
            final(self).album_assets@ == old(self).album_assets@,
    {
        let found = self.find_by_path(old_path);
        let i = match found {
            Some(i) => i,
            None => {
                return false;
            },
        };
        if !str_eq(old_path, new_path) {
            match self.find_by_path(new_path) {
                Some(_) => {
                    return false;
                },
                None => {},
            }
        }
        let (dirname, filename) = crate::text::split_path(new_path);
        let mut row = clone_asset(&self.assets[i]);
        row.path = String::from_str(new_path);
        row.dirname = dirname;
        row.filename = filename;
        let ghost rows = self.assets@;
        self.assets.set(i, row);
        proof {
            let j = choose|j: int| 0 <= j < rows.len() && #[trigger] rows[j].path@ == old_path@;
            assert(rows[j].path@ == rows[i as int].path@);
            assert(j == i as int);
            assert forall|a: int, b: int| 0 <= a < b < self.assets@.len() implies #[trigger] self.assets@[a].path@
                != #[trigger] self.assets@[b].path@ by {
                assert(rows[a].path@ != rows[b].path@);
                if a == i as int {
                    if old_path@ != new_path@ {
                        assert(!has_path(rows, new_path@));
                        assert(rows[b].path@ != new_path@);
                    }
                } else if b == i as int {
                    if old_path@ != new_path@ {
                        assert(!has_path(rows, new_path@));
                        assert(rows[a].path@ != new_path@);
                    }
                }
            }
            assert forall|k: int| 0 <= k < self.fts@.len() implies has_id(
                self.assets@,
                #[trigger] self.fts@[k],
            ) by {
                let m = choose|m: int|
                    0 <= m < rows.len() && #[trigger] rows[m].id == self.fts@[k];
                assert(self.assets@[m].id == self.fts@[k]);
            }
            assert forall|k: int| 0 <= k < self.assets@.len() implies self.fts@.contains(
                #[trigger] self.assets@[k].id,
            ) by {
                assert(self.assets@[k].id == rows[k].id);
            }
        }
        true
    }
}

/// Whether some declared root carries path `p`.
pub open spec fn spec_has_scan_path(paths: Seq<ScanPath>, p: Seq<char>) -> bool {
    exists|i: int| 0 <= i < paths.len() && #[trigger] paths[i].path@ == p
}

/// In a well-formed catalog there is at most one row per id.
pub proof fn lemma_unique_id(c: Catalog, i: int, j: int)
    requires
        c.wf(),
        0 <= i < c.assets@.len(),
        0 <= j < c.assets@.len(),
        c.assets@[i].id == c.assets@[j].id,
    ensures
        i == j,
{
}

/// Removing row `i` (with its full-text entry at `fi`) from a well-formed
/// catalog's tables leaves the remaining tables mirroring each other.
proof fn lemma_after_row_removal(
    rows: Seq<Asset>,
    fts: Seq<i64>,
    i: int,
    fi: int,
    new_rows: Seq<Asset>,
    new_fts: Seq<i64>,
)
    requires
        0 <= i < rows.len(),
        0 <= fi < fts.len(),
        fts[fi] == rows[i].id,
        new_rows == rows.remove(i),
        new_fts == fts.remove(fi),
        fts.len() == rows.len(),
        forall|a: int, b: int| 0 <= a < b < rows.len() ==> #[trigger] rows[a].id != #[trigger] rows[b].id,
        forall|a: int, b: int| 0 <= a < b < fts.len() ==> #[trigger] fts[a] != #[trigger] fts[b],
        forall|k: int| 0 <= k < fts.len() ==> has_id(rows, #[trigger] fts[k]),
        forall|k: int| 0 <= k < rows.len() ==> fts.contains(#[trigger] rows[k].id),
    ensures
        !new_fts.contains(rows[i].id),
        !has_id(new_rows, rows[i].id),
        forall|k: int| 0 <= k < new_fts.len() ==> has_id(new_rows, #[trigger] new_fts[k]),
        forall|k: int| 0 <= k < new_rows.len() ==> new_fts.contains(#[trigger] new_rows[k].id),
        forall|x: i64| x != rows[i].id ==> (#[trigger] new_fts.contains(x) <==> fts.contains(x)),
{
    let id = rows[i].id;
    assert forall|k: int| 0 <= k < new_fts.len() implies has_id(
        new_rows,
        #[trigger] new_fts[k],
    ) by {
        let ok = if k < fi {
            k
        } else {
            k + 1
        };
        assert(new_fts[k] == fts[ok]);
        assert(fts[ok] != id);
        let m = choose|m: int| 0 <= m < rows.len() && #[trigger] rows[m].id == fts[ok];
        assert(m != i);
        if m < i {
            assert(new_rows[m].id == fts[ok]);
        } else {
            assert(new_rows[m - 1].id == fts[ok]);
        }
    }
    assert forall|k: int| 0 <= k < new_rows.len() implies new_fts.contains(
        #[trigger] new_rows[k].id,
    ) by {
        let ok = if k < i {
            k
        } else {
            k + 1
        };
        assert(new_rows[k] == rows[ok]);
        assert(rows[ok].id != id);
        assert(fts.contains(rows[ok].id));
        let m = choose|m: int| 0 <= m < fts.len() && fts[m] == rows[ok].id;
        assert(m != fi);
        if m < fi {
            assert(new_fts[m] == rows[ok].id);
        } else {
            assert(new_fts[m - 1] == rows[ok].id);
        }
    }
    if new_fts.contains(id) {
        let w = choose|w: int| 0 <= w < new_fts.len() && new_fts[w] == id;
        let ow = if w < fi {
            w
        } else {
            w + 1
        };
        assert(fts[ow] == id);
        assert(fts[fi] == id);
    }
    if has_id(new_rows, id) {
        let w = choose|w: int| 0 <= w < new_rows.len() && #[trigger] new_rows[w].id == id;
        let ow = if w < i {
            w
        } else {
            w + 1
        };
        assert(rows[ow].id == id);
        assert(rows[i].id == id);
    }
    assert forall|x: i64| x != id implies (#[trigger] new_fts.contains(x) <==> fts.contains(
        x,
    )) by {
        if new_fts.contains(x) {
            let w = choose|w: int| 0 <= w < new_fts.len() && new_fts[w] == x;
            let ow = if w < fi {
                w
            } else {
                w + 1
            };
            assert(fts[ow] == x);
        }
        if fts.contains(x) {
            let w = choose|w: int| 0 <= w < fts.len() && fts[w] == x;
            assert(w != fi);
            if w < fi {
                assert(new_fts[w] == x);
            } else {
                assert(new_fts[w - 1] == x);
            }
        }
    }
}

/// In a well-formed catalog the full-text index mirrors the rows exactly:
/// an id has a full-text entry if and only if it has a catalog row.  In
/// particular, every deletion leaves no full-text row behind.
pub proof fn lemma_fts_mirrors_rows(c: Catalog, id: i64)
    requires
        c.wf(),
    ensures
        c.fts@.contains(id) <==> has_id(c.assets@, id),
{
    if c.fts@.contains(id) {
        let w = choose|w: int| 0 <= w < c.fts@.len() && c.fts@[w] == id;
        assert(has_id(c.assets@, c.fts@[w]));
    }
    if has_id(c.assets@, id) {
        let w = choose|w: int| 0 <= w < c.assets@.len() && #[trigger] c.assets@[w].id == id;
        assert(c.fts@.contains(c.assets@[w].id));
    }
}

/// In a well-formed catalog there is at most one row per path: any two
/// indices carrying the same path are the same index.
pub proof fn lemma_unique_path(c: Catalog, i: int, j: int)
    requires
        c.wf(),
        0 <= i < c.assets@.len(),
        0 <= j < c.assets@.len(),
        c.assets@[i].path@ == c.assets@[j].path@,
    ensures
        i == j,
{
}

} // verus!
