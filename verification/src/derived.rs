//! Derived artifacts: SHA-addressed paths for thumbnails, previews and
//! transcodes, and the serving decisions over them.

use vstd::prelude::*;
use vstd::string::StrSliceExecFns;
use vstd::string::StringSliceAdditionalSpecFns;
use vstd::string::StringExecFns;
use crate::media::TranscodePolicy;
use crate::text::dec_chars_of;

verus! {

/// The default thumbnail edge length in pixels.
pub const THUMB_SIZE: u32 = 256;

/// The default preview edge length in pixels.
pub const PREVIEW_SIZE: u32 = 1600;

/// The path of a thumbnail or preview below the derived directory:
/// `<first two hex digits>/<sha>-<size>.webp`.
pub open spec fn spec_thumb_rel_path(sha: Seq<char>, size: nat) -> Seq<char> {
    sha.subrange(0, 2) + "/"@ + sha + "-"@ + dec_chars_of(size) + ".webp"@
}

/// Build the relative path of a thumbnail or preview artifact.
pub fn thumb_path(sha_hex: &str, size: u32) -> (r: String)
    requires
        sha_hex@.len() >= 2,
    ensures
        r@ == spec_thumb_rel_path(sha_hex@, size as nat),
{
    let sub = sha_hex.substring_char(0, 2);
    let mut r = String::from_str(sub);
    r.append("/");
    r.append(sha_hex);
    r.append("-");
    r.append(crate::text::u64_to_string(size as u64).as_str());
    r.append(".webp");
    r
}

/// The path of a transcoded video below the derived directory:
/// `<first two hex digits>/<sha>-transcoded.<ext>`, or flat when the digest
/// is too short for a subdirectory.
pub open spec fn spec_transcoded_rel_path(sha: Seq<char>, webm: bool) -> Seq<char> {
    let tail = if webm {
        "-transcoded.webm"@
    } else {
        "-transcoded.mp4"@
    };
    if sha.len() >= 2 {
        sha.subrange(0, 2) + "/"@ + sha + tail
    } else {
        sha + tail
    }
}

/// Build the relative path of a transcoded video.
pub fn get_transcoded_video_path(sha256: &str, webm: bool) -> (r: String)
    ensures
        r@ == spec_transcoded_rel_path(sha256@, webm),
{
    let mut r = if sha256.unicode_len() >= 2 {
        let sub = sha256.substring_char(0, 2);
        let mut r = String::from_str(sub);
        r.append("/");
        r.append(sha256);
        r
    } else {
        String::from_str(sha256)
    };
    if webm {
        r.append("-transcoded.webm");
    } else {
        r.append("-transcoded.mp4");
    }
    r
}

/// How a video request is answered.
#[derive(Clone, Copy, Debug, PartialEq, Eq, Structural)]
pub enum VideoPlan {
    /// The original container is playable: serve the original file.
    ServeOriginal,
    /// A cached MP4 transcode exists: serve it.
    ServeCachedMp4,
    /// A cached WebM transcode exists: serve it.
    ServeCachedWebm,
    /// Transcode now, then serve the output.
    Transcode,
    /// A transcode is called for but no digest addresses a cache slot:
    /// serve the original and let the client cope.
    OriginalNoDigest,
}

/// Decide how to answer a video request: serve the original when the
/// policy and codec allow it, else prefer a cached transcode (MP4 first),
/// else transcode now — unless no digest is stored, in which case the
/// original is served as a last resort.
pub fn plan_video_serve(
    mime: &str,
    codec: Option<&str>,
    policy: TranscodePolicy,
    has_sha256: bool,
    cached_mp4: bool,
    cached_webm: bool,
) -> (r: VideoPlan)
    ensures
        r == ({
            let original = crate::media::spec_serve_original(
                mime@,
                mime.spec_bytes(),
                match codec {
                    Some(c) => Some(c.spec_bytes()),
                    None => None,
                },
                policy,
            );
            if original {
                VideoPlan::ServeOriginal
            } else if !has_sha256 {
                VideoPlan::OriginalNoDigest
            } else if cached_mp4 {
                VideoPlan::ServeCachedMp4
            } else if cached_webm {
                VideoPlan::ServeCachedWebm
            } else {
                VideoPlan::Transcode
            }
        }),
{
    if crate::media::serve_original(mime, codec, policy) {
        VideoPlan::ServeOriginal
    } else if !has_sha256 {
        VideoPlan::OriginalNoDigest
    } else if cached_mp4 {
        VideoPlan::ServeCachedMp4
    } else if cached_webm {
        VideoPlan::ServeCachedWebm
    } else {
        VideoPlan::Transcode
    }
}

/// What to do with a transcoder's output file.
#[derive(Clone, Copy, Debug, PartialEq, Eq, Structural)]
pub enum TranscodeOutcome {
    /// The run succeeded and left a non-empty file: keep and serve it.
    Keep,
    /// Anything else: remove the partial output so it never persists.
    RemovePartial,
}

/// Judge a transcoder run.  An artifact is kept exactly when the tool
/// succeeded and its output file exists with more than zero bytes; every
/// other outcome removes the partial file.
pub fn check_transcode_output(success: bool, output_exists: bool, output_size: u64) -> (r:
    TranscodeOutcome)
    ensures
        (r is Keep) <==> (success && output_exists && output_size > 0),
        (r is Keep) ==> output_size > 0,
{
    if success && output_exists && output_size > 0 {
        TranscodeOutcome::Keep
    } else {
        TranscodeOutcome::RemovePartial
    }
}

/// How a thumbnail or preview request is answered.
pub enum DerivedServe {
    /// Serve the bytes of the file at exactly this derived path.
    Hit { rel_path: String },
    /// No digest, or no artifact on disk: not found.
    Miss,
}

/// Decide a derived-artifact request: a 200 serves exactly the file at the
/// digest's addressed path, and only when that file exists.
pub fn plan_derived_serve(sha256_hex: Option<&str>, size: u32, file_exists: bool) -> (r:
    DerivedServe)
    requires
        match sha256_hex {
            Some(s) => s@.len() >= 2,
            None => true,
        },
    ensures
        match r {
            DerivedServe::Hit { rel_path } => sha256_hex matches Some(s) && file_exists
                && rel_path@ == spec_thumb_rel_path(s@, size as nat),
            DerivedServe::Miss => sha256_hex is None || !file_exists,
        },
{
    match sha256_hex {
        Some(s) => {
            if file_exists {
                DerivedServe::Hit { rel_path: thumb_path(s, size) }
            } else {
                DerivedServe::Miss
            }
        },
        None => DerivedServe::Miss,
    }
}

} // verus!
