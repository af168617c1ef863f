//! Audio extraction: MP3 out of any audio or video asset, with an encoder
//! preference ladder and an AAC/M4A fallback when no MP3 encoder is built
//! in.  Sources that already are MP3 stream through untouched.

use vstd::prelude::*;
use vstd::string::StringExecFns;
use vstd::string::StringSliceAdditionalSpecFns;
use crate::media::{spec_is_media_mime, spec_is_video_mime};
use crate::text::str_eq;

verus! {

/// How an audio request is answered.
#[derive(Clone, Copy, Debug, PartialEq, Eq, Structural)]
pub enum AudioPlan {
    /// Not an audio or video source: refused.
    Reject,
    /// Already MP3: stream the original bytes.
    PassThroughMp3,
    /// Extract and encode to MP3 (AAC/M4A if every MP3 encoder fails).
    Extract,
}

/// The bytes of `audio/`.
pub open spec fn spec_is_audio_mime(m: Seq<u8>) -> bool {
    crate::bytes::is_prefix_of(crate::media::audio_prefix(), m)
}

/// Decide an audio request: only audio and video sources qualify; MP3
/// sources pass through; everything else is extracted.
pub fn plan_audio_extract(mime: &str) -> (r: AudioPlan)
    ensures
        r == (if !(spec_is_video_mime(mime.spec_bytes()) || spec_is_audio_mime(
            mime.spec_bytes(),
        )) {
            AudioPlan::Reject
        } else if mime@ == "audio/mpeg"@ {
            AudioPlan::PassThroughMp3
        } else {
            AudioPlan::Extract
        }),
{
    let p: Vec<u8> = vec![97u8, 117u8, 100u8, 105u8, 111u8, 47u8];
    assert(p@ =~= crate::media::audio_prefix());
    let is_audio = crate::bytes::starts_with_bytes(mime.as_bytes(), p.as_slice());
    if !(crate::media::is_video_mime(mime) || is_audio) {
        AudioPlan::Reject
    } else if str_eq(mime, "audio/mpeg") {
        AudioPlan::PassThroughMp3
    } else {
        AudioPlan::Extract
    }
}

/// The MP3 extraction argument list for one encoder: audio only, 192k,
/// MP3 container on stdout.
pub open spec fn spec_audio_mp3_args(src: Seq<char>, encoder: Seq<char>) -> Seq<Seq<char>> {
    seq![
        "-i"@,
        src,
        "-vn"@,
        "-acodec"@,
        encoder,
        "-ab"@,
        "192k"@,
        "-f"@,
        "mp3"@,
        "-map"@,
        "a:0"@,
        "-hide_banner"@,
        "-loglevel"@,
        "warning"@,
        "-"@,
    ]
}

/// Build the MP3 extraction arguments for one encoder of the ladder.
pub fn build_audio_mp3_args(src: &str, encoder: &str) -> (r: Vec<String>)
    ensures
        r@.map_values(|s: String| s@) == spec_audio_mp3_args(src@, encoder@),
{
    let mut args: Vec<String> = Vec::new();
    args.push(String::from_str("-i"));
    args.push(String::from_str(src));
    args.push(String::from_str("-vn"));
    args.push(String::from_str("-acodec"));
    args.push(String::from_str(encoder));
    args.push(String::from_str("-ab"));
    args.push(String::from_str("192k"));
    args.push(String::from_str("-f"));
    args.push(String::from_str("mp3"));
    args.push(String::from_str("-map"));
    args.push(String::from_str("a:0"));
    args.push(String::from_str("-hide_banner"));
    args.push(String::from_str("-loglevel"));
    args.push(String::from_str("warning"));
    args.push(String::from_str("-"));
    proof {
        assert(args@.map_values(|s: String| s@) =~= spec_audio_mp3_args(src@, encoder@));
    }
    args
}

/// The AAC/M4A fallback argument list, for builds without an MP3 encoder.
pub open spec fn spec_audio_aac_args(src: Seq<char>) -> Seq<Seq<char>> {
    seq![
        "-i"@,
        src,
        "-vn"@,
        "-c:a"@,
        "aac"@,
        "-b:a"@,
        "192k"@,
        "-movflags"@,
        "+faststart"@,
        "-f"@,
        "mp4"@,
        "-map"@,
        "a:0"@,
        "-hide_banner"@,
        "-loglevel"@,
        "error"@,
        "-"@,
    ]
}

/// Build the AAC/M4A fallback arguments.
pub fn build_audio_aac_args(src: &str) -> (r: Vec<String>)
    ensures
        r@.map_values(|s: String| s@) == spec_audio_aac_args(src@),
{
    let mut args: Vec<String> = Vec::new();
    args.push(String::from_str("-i"));
    args.push(String::from_str(src));
    args.push(String::from_str("-vn"));
    args.push(String::from_str("-c:a"));
    args.push(String::from_str("aac"));
    args.push(String::from_str("-b:a"));
    args.push(String::from_str("192k"));
    args.push(String::from_str("-movflags"));
    args.push(String::from_str("+faststart"));
    args.push(String::from_str("-f"));
    args.push(String::from_str("mp4"));
    args.push(String::from_str("-map"));
    args.push(String::from_str("a:0"));
    args.push(String::from_str("-hide_banner"));
    args.push(String::from_str("-loglevel"));
    args.push(String::from_str("error"));
    args.push(String::from_str("-"));
    proof {
        assert(args@.map_values(|s: String| s@) =~= spec_audio_aac_args(src@));
    }
    args
}

} // verus!
