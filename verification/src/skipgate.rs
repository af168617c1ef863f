//! The skip-gate: between discovery and hashing, it consults the catalog by
//! `(path, mtime_ns, size_bytes)` and decides how much of the pipeline a
//! file must run through again.

use vstd::prelude::*;
use vstd::string::StringSliceAdditionalSpecFns;
use crate::bytes::utf8;
use crate::catalog::{spec_key_match, spec_metadata_complete, Catalog};
use crate::media::spec_is_media_mime;

verus! {

/// What happens to a discovered file.
pub enum SkipDecision {
    /// Not an image or video: dropped before the pipeline.
    DropNonMedia,
    /// New or changed: hash it.
    Forward,
    /// Unchanged, digest present, metadata complete: nothing to do.
    SkipEntirely,
    /// Unchanged with a digest but incomplete metadata: skip hashing and go
    /// straight to metadata extraction with the stored fingerprints.
    BypassToMetadata { xxh64: Option<i64>, sha256: String },
    /// Unchanged but the digest is missing: hash again (videos need the
    /// digest for thumbnail addressing).
    Rehash,
}

impl Catalog {
    /// Decide the pipeline route for one discovered file.  Unchanged files
    /// with a digest never reach the hasher again; of those, fully indexed
    /// ones leave the pipeline entirely.
    pub fn skip_gate_decision(
        &self,
        path: &str,
        mtime_ns: i64,
        size_bytes: i64,
        mime: &str,
    ) -> (r: SkipDecision)
        requires
            self.wf(),
        ensures
            (r is DropNonMedia) <==> !spec_is_media_mime(mime.spec_bytes()),
            spec_is_media_mime(mime.spec_bytes()) ==> ({
                if !(exists|i: int|
                    0 <= i < self.assets@.len() && spec_key_match(
                        #[trigger] self.assets@[i],
                        path@,
                        mtime_ns,
                        size_bytes,
                    )) {
                    r is Forward
                } else {
                    let i = choose|i: int|
                        0 <= i < self.assets@.len() && spec_key_match(
                            #[trigger] self.assets@[i],
                            path@,
                            mtime_ns,
                            size_bytes,
                        );
                    match self.assets@[i].sha256 {
                        Some(stored) => if spec_metadata_complete(
                            self.assets@[i],
                            mime.spec_bytes(),
                        ) {
                            r is SkipEntirely
                        } else {
                            r matches SkipDecision::BypassToMetadata { xxh64, sha256 }
                                && xxh64 == self.assets@[i].xxh64 && sha256@ == stored@
                        },
                        None => r is Rehash,
                    }
                }
            }),
    {
        if !crate::media::is_media_mime(mime) {
            return SkipDecision::DropNonMedia;
        }
        match self.check_file_unchanged(path, mtime_ns, size_bytes) {
            None => SkipDecision::Forward,
            Some((id, xxh64, sha)) => {
                proof {
                    let i = choose|i: int|
                        0 <= i < self.assets@.len() && spec_key_match(
                            #[trigger] self.assets@[i],
                            path@,
                            mtime_ns,
                            size_bytes,
                        ) && self.assets@[i].id == id && self.assets@[i].xxh64 == xxh64
                            && self.assets@[i].sha256 == sha;
                    let j = choose|j: int|
                        0 <= j < self.assets@.len() && spec_key_match(
                            #[trigger] self.assets@[j],
                            path@,
                            mtime_ns,
                            size_bytes,
                        );
                    crate::catalog::lemma_unique_path(*self, i, j);
                }
                match sha {
                    Some(stored) => {
                        if self.check_metadata_complete(id, mime) {
                            proof {
                                let i = choose|i: int|
                                    0 <= i < self.assets@.len() && spec_key_match(
                                        #[trigger] self.assets@[i],
                                        path@,
                                        mtime_ns,
                                        size_bytes,
                                    ) && self.assets@[i].id == id && self.assets@[i].xxh64
                                        == xxh64;
                                let k = choose|k: int|
                                    0 <= k < self.assets@.len()
                                        && #[trigger] self.assets@[k].id == id
                                        && spec_metadata_complete(
                                        self.assets@[k],
                                        mime.spec_bytes(),
                                    );
                                crate::catalog::lemma_unique_id(*self, i, k);
                            }
                            SkipDecision::SkipEntirely
                        } else {
                            proof {
                                let i = choose|i: int|
                                    0 <= i < self.assets@.len() && spec_key_match(
                                        #[trigger] self.assets@[i],
                                        path@,
                                        mtime_ns,
                                        size_bytes,
                                    ) && self.assets@[i].id == id;
                            }
                            SkipDecision::BypassToMetadata { xxh64, sha256: stored }
                        }
                    },
                    None => SkipDecision::Rehash,
                }
            },
        }
    }
}

/// An unchanged catalog row with its digest present is never routed back to
/// the hasher: a repeated scan of an unchanged tree does no hashing work.
pub proof fn lemma_rescan_never_hashes(
    c: Catalog,
    r: SkipDecision,
    i: int,
    p: Seq<char>,
    mtime_ns: i64,
    size_bytes: i64,
    mime: Seq<u8>,
)
    requires
        c.wf(),
        0 <= i < c.assets@.len(),
        spec_key_match(c.assets@[i], p, mtime_ns, size_bytes),
        c.assets@[i].sha256 is Some,
        spec_is_media_mime(mime),
        ({
            let j = choose|j: int|
                0 <= j < c.assets@.len() && spec_key_match(
                    #[trigger] c.assets@[j],
                    p,
                    mtime_ns,
                    size_bytes,
                );
            match c.assets@[j].sha256 {
                Some(stored) => if spec_metadata_complete(c.assets@[j], mime) {
                    r is SkipEntirely
                } else {
                    r is BypassToMetadata
                },
                None => r is Rehash,
            }
        }),
    ensures
        !(r is Forward),
        !(r is Rehash),
{
    let j = choose|j: int|
        0 <= j < c.assets@.len() && spec_key_match(#[trigger] c.assets@[j], p, mtime_ns, size_bytes);
    crate::catalog::lemma_unique_path(c, i, j);
}

} // verus!
