//! Permanent deletion: the original file must leave the disk first; only
//! then do the catalog row and its derived artifacts go.  A read-only
//! filesystem refuses the whole operation, distinctly from other failures,
//! and a file already gone counts as removed.

use vstd::prelude::*;
use vstd::string::StringExecFns;
use vstd::string::StringSliceAdditionalSpecFns;
use crate::bytes::{contains_seq, lower_bytes};
use crate::catalog::{has_id, Catalog};

verus! {

/// The bytes of `read-only`.
pub open spec fn read_only_needle() -> Seq<u8> {
    seq![114u8, 101u8, 97u8, 100u8, 45u8, 111u8, 110u8, 108u8, 121u8]
}

/// Whether a removal failure means a read-only filesystem: either the
/// permission was denied outright or the error text mentions `read-only`.
pub fn is_read_only_error(permission_denied: bool, message: &str) -> (r: bool)
    ensures
        r == (permission_denied || contains_seq(
            lower_bytes(message.spec_bytes()),
            read_only_needle(),
        )),
{
    if permission_denied {
        return true;
    }
    let lowered = crate::bytes::to_lower_bytes(message.as_bytes());
    let needle: Vec<u8> = vec![114u8, 101u8, 97u8, 100u8, 45u8, 111u8, 110u8, 108u8, 121u8];
    assert(needle@ =~= read_only_needle());
    crate::bytes::contains_bytes(lowered.as_slice(), needle.as_slice())
}

/// What removing the original file from disk came to.
pub enum DiskRemoveOutcome {
    /// Removed, or already absent (removal is idempotent).
    Removed,
    /// The filesystem refused: read-only.
    ReadOnly { message: String },
    /// Some other I/O failure.
    Failed { message: String },
}

/// What a permanent delete reports.
pub struct PermanentDeleteResponse {
    pub success: bool,
    pub deleted_from_disk: bool,
    pub read_only: bool,
    pub path: Option<String>,
    pub error: Option<String>,
}

impl PermanentDeleteResponse {
    /// The file and its row are gone.
    pub fn success(path: Option<String>) -> (r: PermanentDeleteResponse)
        ensures
            r.success,
            r.deleted_from_disk,
            !r.read_only,
            r.path == path,
            r.error is None,
    {
        PermanentDeleteResponse {
            success: true,
            deleted_from_disk: true,
            read_only: false,
            path,
            error: None,
        }
    }

    /// No such asset.
    pub fn not_found() -> (r: PermanentDeleteResponse)
        ensures
            !r.success,
            !r.deleted_from_disk,
            !r.read_only,
            r.path is None,
            r.error is Some,
    {
        PermanentDeleteResponse {
            success: false,
            deleted_from_disk: false,
            read_only: false,
            path: None,
            error: Some(String::from_str("Asset not found")),
        }
    }

    /// The underlying file sits on a read-only filesystem: refused.
    pub fn read_only(path: Option<String>, error: String) -> (r: PermanentDeleteResponse)
        ensures
            !r.success,
            !r.deleted_from_disk,
            r.read_only,
            r.path == path,
            r.error == Some(error),
    {
        PermanentDeleteResponse {
            success: false,
            deleted_from_disk: false,
            read_only: true,
            path,
            error: Some(error),
        }
    }
}

impl Catalog {
    /// Settle a permanent delete once the disk removal has been attempted:
    /// only a removed (or already absent) file lets the row go; a read-only
    /// or failed removal leaves the catalog untouched and reports why.
    pub fn apply_permanent_delete(&mut self, id: i64, disk: DiskRemoveOutcome) -> (r:
        PermanentDeleteResponse)
        requires
            old(self).wf(),
        ensures
            final(self).wf(),
            ({
                &&& r.success <==> (has_id(old(self).assets@, id) && disk is Removed)
                &&& (r.success ==> !has_id(final(self).assets@, id)
                    && !final(self).fts@.contains(id))
                &&& (r.read_only ==> final(self).assets@ == old(self).assets@ && (
                disk is ReadOnly))
                &&& (!(disk is Removed) || !has_id(old(self).assets@, id)
                    ==> final(self).assets@ == old(self).assets@)
            }),
    {
        let path = self.get_asset_path(id);
        match path {
            None => {
                proof {
                    if has_id(self.assets@, id) {
                        let w = choose|w: int|
                            0 <= w < self.assets@.len() && #[trigger] self.assets@[w].id == id;
                    }
                }
                PermanentDeleteResponse::not_found()
            },
            Some(p) => {
                assert(has_id(self.assets@, id));
                match disk {
                    DiskRemoveOutcome::Removed => {
                        let deleted = self.delete_asset_by_id(id);
                        assert(deleted);
                        PermanentDeleteResponse::success(Some(p))
                    },
                    DiskRemoveOutcome::ReadOnly { message } => {
                        PermanentDeleteResponse::read_only(Some(p), message)
                    },
                    DiskRemoveOutcome::Failed { message } => {
                        PermanentDeleteResponse {
                            success: false,
                            deleted_from_disk: false,
                            read_only: false,
                            path: Some(p),
                            error: Some(message),
                        }
                    },
                }
            },
        }
    }
}

} // verus!
