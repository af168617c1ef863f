//! The request and response shapes of the HTTP surface.  These are plain
//! data; the process edge that parses and serialises them keeps mirror
//! types with its wire derives and converts through `From`.

use vstd::prelude::*;
use vstd::string::StringExecFns;

verus! {

/// `GET /assets` query parameters.
pub struct ListQuery {
    pub offset: Option<i64>,
    pub limit: Option<i64>,
    pub sort: Option<String>,
    pub order: Option<String>,
}

/// `GET /assets/search` query parameters.
pub struct SearchQuery {
    pub q: String,
    pub from: Option<i64>,
    pub to: Option<i64>,
    pub camera_make: Option<String>,
    pub camera_model: Option<String>,
    pub platform_type: Option<String>,
    pub offset: Option<i64>,
    pub limit: Option<i64>,
}

/// `POST /paths` body.
pub struct AddPathReq {
    pub path: String,
}

/// `DELETE /paths` query parameters.
pub struct RemovePathQuery {
    pub path: String,
}

/// Body of the per-root scan, pause and resume calls.
pub struct PathActionReq {
    pub path: String,
}

/// `POST /assets/permanent` body.
pub struct BulkPermanentDeleteRequest {
    pub ids: Vec<i64>,
}

/// `GET /browse` query parameters.
pub struct BrowseQuery {
    pub path: Option<String>,
}

/// `POST /asset/{id}/orientation` body.
pub struct SaveOrientationRequest {
    pub rotation: i32,
}

/// `POST /albums` body.
pub struct CreateAlbumRequest {
    pub name: String,
    pub description: Option<String>,
}

/// One album as the API reports it.
pub struct AlbumResponse {
    pub id: i64,
    pub name: String,
    pub description: Option<String>,
    pub asset_ids: Vec<i64>,
    pub created_at: i64,
    pub updated_at: i64,
}

/// `PUT /albums/{id}` body.
pub struct UpdateAlbumRequest {
    pub name: Option<String>,
    pub description: Option<String>,
}

/// Body of the album membership calls.
pub struct AddAssetsToAlbumRequest {
    pub asset_ids: Vec<i64>,
}

/// A bare pagination pair, as several endpoints take it.
pub struct PageQ {
    pub offset: Option<i64>,
    pub limit: Option<i64>,
}

impl ListQuery {
    /// The effective paging and ordering of a listing call: offset 0,
    /// limit 200, natural order descending unless asked otherwise.
    pub fn effective(&self) -> (r: (i64, i64, String, String))
        ensures
            r.0 == (match self.offset {
                Some(o) => o,
                None => 0,
            }),
            r.1 == (match self.limit {
                Some(l) => l,
                None => 200,
            }),
            r.2@ == (match self.sort {
                Some(s) => s@,
                None => "none"@,
            }),
            r.3@ == (match self.order {
                Some(o) => o@,
                None => "desc"@,
            }),
    {
        let offset = match &self.offset {
            Some(o) => *o,
            None => 0,
        };
        let limit = match &self.limit {
            Some(l) => *l,
            None => 200,
        };
        let sort = match &self.sort {
            Some(s) => s.clone(),
            None => String::from_str("none"),
        };
        let order = match &self.order {
            Some(o) => o.clone(),
            None => String::from_str("desc"),
        };
        (offset, limit, sort, order)
    }
}

impl SearchQuery {
    /// The search parameters of a search call: offset 0 and limit 200
    /// unless given.
    pub fn into_params(self) -> (r: crate::query::SearchParams)
        ensures
            r.q == self.q,
            r.from == self.from,
            r.to == self.to,
            r.camera_make == self.camera_make,
            r.camera_model == self.camera_model,
            r.platform_type == self.platform_type,
            r.offset == (match self.offset {
                Some(o) => o,
                None => 0,
            }),
            r.limit == (match self.limit {
                Some(l) => l,
                None => 200,
            }),
    {
        let offset = match self.offset {
            Some(o) => o,
            None => 0,
        };
        let limit = match self.limit {
            Some(l) => l,
            None => 200,
        };
        crate::query::SearchParams {
            q: self.q,
            from: self.from,
            to: self.to,
            camera_make: self.camera_make,
            camera_model: self.camera_model,
            platform_type: self.platform_type,
            offset,
            limit,
        }
    }
}

} // verus!
