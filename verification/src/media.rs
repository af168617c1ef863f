//! MIME classification, the browser-compatibility decision for video
//! serving, and the orientation-rewrite rule.

use vstd::prelude::*;
use vstd::string::StringSliceAdditionalSpecFns;
use crate::bytes::{contains_seq, is_prefix_of, lower_bytes, starts_with_bytes, to_lower_bytes};
use crate::text::str_eq;
use vstd::string::StringExecFns;

verus! {

/// The bytes of `image/`.
pub open spec fn image_prefix() -> Seq<u8> {
    seq![105u8, 109u8, 97u8, 103u8, 101u8, 47u8]
}

/// The bytes of `video/`.
pub open spec fn video_prefix() -> Seq<u8> {
    seq![118u8, 105u8, 100u8, 101u8, 111u8, 47u8]
}

pub open spec fn spec_is_image_mime(m: Seq<u8>) -> bool {
    is_prefix_of(image_prefix(), m)
}

pub open spec fn spec_is_video_mime(m: Seq<u8>) -> bool {
    is_prefix_of(video_prefix(), m)
}

/// Only image and video files enter the catalog.
pub open spec fn spec_is_media_mime(m: Seq<u8>) -> bool {
    spec_is_image_mime(m) || spec_is_video_mime(m)
}

pub fn is_image_mime(mime: &str) -> (r: bool)
    ensures
        r == spec_is_image_mime(mime.spec_bytes()),
{
    let p: Vec<u8> = vec![105u8, 109u8, 97u8, 103u8, 101u8, 47u8];
    assert(p@ =~= image_prefix());
    starts_with_bytes(mime.as_bytes(), p.as_slice())
}

pub fn is_video_mime(mime: &str) -> (r: bool)
    ensures
        r == spec_is_video_mime(mime.spec_bytes()),
{
    let p: Vec<u8> = vec![118u8, 105u8, 100u8, 101u8, 111u8, 47u8];
    assert(p@ =~= video_prefix());
    starts_with_bytes(mime.as_bytes(), p.as_slice())
}

pub fn is_media_mime(mime: &str) -> (r: bool)
    ensures
        r == spec_is_media_mime(mime.spec_bytes()),
{
    is_image_mime(mime) || is_video_mime(mime)
}

/// Containers browsers play natively, before any codec refinement.
pub open spec fn spec_is_browser_compatible_video(m: Seq<char>) -> bool {
    m == "video/mp4"@ || m == "video/webm"@ || m == "video/ogg"@ || m == "video/ogv"@
}

pub fn is_browser_compatible_video(mime: &str) -> (r: bool)
    ensures
        r == spec_is_browser_compatible_video(mime@),
{
    str_eq(mime, "video/mp4") || str_eq(mime, "video/webm") || str_eq(mime, "video/ogg")
        || str_eq(mime, "video/ogv")
}

/// The MP4 transcode policy, `auto` unless overridden.
#[derive(Clone, Copy, Debug, PartialEq, Eq, Structural)]
pub enum TranscodePolicy {
    Auto,
    Never,
    Always,
}

pub open spec fn spec_parse_transcode_policy(s: Seq<char>) -> TranscodePolicy {
    if s == "never"@ || s == "off"@ || s == "false"@ {
        TranscodePolicy::Never
    } else if s == "always"@ || s == "force"@ {
        TranscodePolicy::Always
    } else {
        TranscodePolicy::Auto
    }
}

/// Parse the already-lowercased policy override; unknown values mean `auto`.
pub fn parse_transcode_policy(s: &str) -> (r: TranscodePolicy)
    ensures
        r == spec_parse_transcode_policy(s@),
{
    if str_eq(s, "never") || str_eq(s, "off") || str_eq(s, "false") {
        TranscodePolicy::Never
    } else if str_eq(s, "always") || str_eq(s, "force") {
        TranscodePolicy::Always
    } else {
        TranscodePolicy::Auto
    }
}

/// The bytes of `hevc`.
pub open spec fn hevc_bytes() -> Seq<u8> {
    seq![104u8, 101u8, 118u8, 99u8]
}

/// The bytes of `h265`.
pub open spec fn h265_bytes() -> Seq<u8> {
    seq![104u8, 50u8, 54u8, 53u8]
}

/// A stored codec forces a transcode when its lowercase form mentions HEVC.
pub open spec fn spec_codec_needs_transcode(codec: Seq<u8>) -> bool {
    contains_seq(lower_bytes(codec), hevc_bytes()) || contains_seq(
        lower_bytes(codec),
        h265_bytes(),
    )
}

pub fn codec_needs_transcode(codec: &str) -> (r: bool)
    ensures
        r == spec_codec_needs_transcode(codec.spec_bytes()),
{
    let lowered = to_lower_bytes(codec.as_bytes());
    let hevc: Vec<u8> = vec![104u8, 101u8, 118u8, 99u8];
    let h265: Vec<u8> = vec![104u8, 50u8, 54u8, 53u8];
    assert(hevc@ =~= hevc_bytes());
    assert(h265@ =~= h265_bytes());
    crate::bytes::contains_bytes(lowered.as_slice(), hevc.as_slice()) || crate::bytes::contains_bytes(
        lowered.as_slice(),
        h265.as_slice(),
    )
}

/// Whether the original file is served as-is.  MIME compatibility decides,
/// except for MP4, where the transcode policy is consulted: `never` keeps
/// the original, `always` forces a transcode, and `auto` transcodes exactly
/// when the stored codec mentions HEVC/H.265.
pub open spec fn spec_serve_original(
    mime: Seq<char>,
    mime_bytes: Seq<u8>,
    codec: Option<Seq<u8>>,
    policy: TranscodePolicy,
) -> bool {
    if mime == "video/mp4"@ {
        match policy {
            TranscodePolicy::Never => true,
            TranscodePolicy::Always => false,
            TranscodePolicy::Auto => match codec {
                Some(c) => !spec_codec_needs_transcode(c),
                None => spec_is_browser_compatible_video(mime),
            },
        }
    } else {
        spec_is_browser_compatible_video(mime)
    }
}

pub fn serve_original(mime: &str, codec: Option<&str>, policy: TranscodePolicy) -> (r: bool)
    ensures
        r == spec_serve_original(
            mime@,
            mime.spec_bytes(),
            match codec {
                Some(c) => Some(c.spec_bytes()),
                None => None,
            },
            policy,
        ),
{
    let mut compatible = is_browser_compatible_video(mime);
    if str_eq(mime, "video/mp4") {
        match policy {
            TranscodePolicy::Never => {
                compatible = true;
            },
            TranscodePolicy::Always => {
                compatible = false;
            },
            TranscodePolicy::Auto => {
                if let Some(c) = codec {
                    compatible = !codec_needs_transcode(c);
                }
            },
        }
    }
    compatible
}

/// The histogram bucket a MIME string falls in: the common image and
/// video types each get their own bucket, the rest collapse into
/// per-family `other` buckets, audio into one, and everything else into
/// `other`.
pub open spec fn spec_classify_mime(m: Seq<char>, mb: Seq<u8>) -> Seq<char> {
    if m == "image/jpeg"@ || m == "image/jpg"@ {
        "image/jpeg"@
    } else if m == "image/png"@ {
        "image/png"@
    } else if m == "image/webp"@ {
        "image/webp"@
    } else if m == "image/gif"@ {
        "image/gif"@
    } else if m == "image/heic"@ || m == "image/heif"@ {
        "image/heic"@
    } else if m == "image/raw"@ || m == "image/x-raw"@ || m == "image/dng"@ {
        "image/raw"@
    } else if spec_is_image_mime(mb) {
        "image/other"@
    } else if m == "video/mp4"@ {
        "video/mp4"@
    } else if m == "video/quicktime"@ || m == "video/x-quicktime"@ {
        "video/mov"@
    } else if m == "video/x-msvideo"@ || m == "video/avi"@ {
        "video/avi"@
    } else if m == "video/x-matroska"@ || m == "video/mkv"@ {
        "video/mkv"@
    } else if m == "video/webm"@ {
        "video/webm"@
    } else if spec_is_video_mime(mb) {
        "video/other"@
    } else if crate::bytes::is_prefix_of(audio_prefix(), mb) {
        "audio"@
    } else {
        "other"@
    }
}

/// The bytes of `audio/`.
pub open spec fn audio_prefix() -> Seq<u8> {
    seq![97u8, 117u8, 100u8, 105u8, 111u8, 47u8]
}

/// Put a MIME string in its histogram bucket.
pub fn classify_mime(mime: &str) -> (r: String)
    ensures
        r@ == spec_classify_mime(mime@, mime.spec_bytes()),
{
    if str_eq(mime, "image/jpeg") || str_eq(mime, "image/jpg") {
        String::from_str("image/jpeg")
    } else if str_eq(mime, "image/png") {
        String::from_str("image/png")
    } else if str_eq(mime, "image/webp") {
        String::from_str("image/webp")
    } else if str_eq(mime, "image/gif") {
        String::from_str("image/gif")
    } else if str_eq(mime, "image/heic") || str_eq(mime, "image/heif") {
        String::from_str("image/heic")
    } else if str_eq(mime, "image/raw") || str_eq(mime, "image/x-raw") || str_eq(
        mime,
        "image/dng",
    ) {
        String::from_str("image/raw")
    } else if is_image_mime(mime) {
        String::from_str("image/other")
    } else if str_eq(mime, "video/mp4") {
        String::from_str("video/mp4")
    } else if str_eq(mime, "video/quicktime") || str_eq(mime, "video/x-quicktime") {
        String::from_str("video/mov")
    } else if str_eq(mime, "video/x-msvideo") || str_eq(mime, "video/avi") {
        String::from_str("video/avi")
    } else if str_eq(mime, "video/x-matroska") || str_eq(mime, "video/mkv") {
        String::from_str("video/mkv")
    } else if str_eq(mime, "video/webm") {
        String::from_str("video/webm")
    } else if is_video_mime(mime) {
        String::from_str("video/other")
    } else {
        let p: Vec<u8> = vec![97u8, 117u8, 100u8, 105u8, 111u8, 47u8];
        assert(p@ =~= audio_prefix());
        if starts_with_bytes(mime.as_bytes(), p.as_slice()) {
            String::from_str("audio")
        } else {
            String::from_str("other")
        }
    }
}

/// Normalize a requested rotation to one quarter turn.  Succeeds exactly on
/// whole multiples of 90 degrees, reducing them into `{0, 90, 180, 270}`.
pub fn normalize_rotation(rotation: i32) -> (r: Option<u32>)
    ensures
        match r {
            Some(n) => (n == 0 || n == 90 || n == 180 || n == 270) && (exists|k: int|
                rotation == n + #[trigger] (360 * k)),
            None => forall|k: int| rotation != #[trigger] (90 * k),
        },
{
    let wide: i64 = rotation as i64;
    let rem: i64 = wide % 360;
    let t: i64 = wide / 360;
    let norm: i64 = (rem + 360) % 360;
    let u: i64 = (rem + 360) / 360;
    assert(wide == 360 * t + rem);
    assert(rem + 360 == 360 * u + norm);
    let ghost kk: int = t + u - 1;
    assert(0 <= norm < 360);
    assert(wide == norm + 360 * kk) by {
        assert(360 * (t + u - 1) == 360 * t + 360 * u - 360) by (nonlinear_arith);
    }
    if norm == 0 || norm == 90 || norm == 180 || norm == 270 {
        assert(rotation == norm + 360 * kk);
        Some(norm as u32)
    } else {
        proof {
            assert forall|k: int| rotation != #[trigger] (90 * k) by {
                if rotation == 90 * k {
                    // Then norm = 90 * (k - 4 * kk) lies in {0, 90, 180, 270},
                    // contradicting the branch.
                    let j = k - 4 * kk;
                    assert(norm == 90 * j);
                    assert(0 <= 90 * j < 360);
                    assert(0 <= j < 4) by (nonlinear_arith)
                        requires
                            0 <= 90 * j < 360,
                    ;
                    assert(j == 0 || j == 1 || j == 2 || j == 3);
                }
            }
        }
        None
    }
}

} // verus!
