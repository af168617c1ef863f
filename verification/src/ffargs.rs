//! Argument lists for the external video tool: frame extraction for
//! thumbnails (always to an MJPEG pipe, never a temp file) and transcoding
//! to a browser-playable container.

use vstd::prelude::*;
use vstd::string::StringExecFns;
use crate::breaker::GpuAccel;
use crate::text::dec_chars_of;

verus! {

/// One string argument with a known view.
fn lit(s: &str) -> (r: String)
    ensures
        r@ == s@,
{
    String::from_str(s)
}

/// The scale filter expression for one accelerator.
pub open spec fn spec_scale_filter(size: nat, accel: GpuAccel) -> Seq<char> {
    match accel {
        GpuAccel::Cuda => "scale_cuda="@ + dec_chars_of(size) + ":-1"@,
        GpuAccel::Qsv => "scale_qsv=w="@ + dec_chars_of(size)
            + ":h=-1:force_original_aspect_ratio=decrease"@,
        _ => "scale="@ + dec_chars_of(size) + ":-1"@,
    }
}

/// The frame-extraction argument list: hardware decode where the
/// accelerator offers it, a single frame at one second (seeking before the
/// input on the hardware paths and after it on the CPU path), scaled, and
/// MJPEG bytes on stdout.
pub open spec fn spec_thumb_args(src: Seq<char>, size: nat, accel: GpuAccel) -> Seq<
    Seq<char>,
> {
    let tail = seq![
        "-vframes"@,
        "1"@,
        "-vf"@,
        spec_scale_filter(size, accel),
        "-f"@,
        "image2pipe"@,
        "-vcodec"@,
        "mjpeg"@,
        "pipe:1"@,
    ];
    match accel {
        GpuAccel::Cuda => seq![
            "-hwaccel"@,
            "cuda"@,
            "-hwaccel_output_format"@,
            "cuda"@,
            "-ss"@,
            "1"@,
            "-i"@,
            src,
        ] + tail,
        GpuAccel::Qsv => seq!["-hwaccel"@, "qsv"@, "-ss"@, "1"@, "-i"@, src] + tail,
        GpuAccel::D3d11va => seq!["-hwaccel"@, "d3d11va"@, "-ss"@, "1"@, "-i"@, src] + tail,
        GpuAccel::VideoToolbox => seq!["-hwaccel"@, "videotoolbox"@, "-ss"@, "1"@, "-i"@, src]
            + tail,
        GpuAccel::Cpu => seq!["-i"@, src, "-ss"@, "1"@] + tail,
    }
}

fn scale_filter(size: u32, accel: GpuAccel) -> (r: String)
    ensures
        r@ == spec_scale_filter(size as nat, accel),
{
    let n = crate::text::u64_to_string(size as u64);
    match accel {
        GpuAccel::Cuda => {
            let mut r = lit("scale_cuda=");
            r.append(n.as_str());
            r.append(":-1");
            r
        },
        GpuAccel::Qsv => {
            let mut r = lit("scale_qsv=w=");
            r.append(n.as_str());
            r.append(":h=-1:force_original_aspect_ratio=decrease");
            r
        },
        _ => {
            let mut r = lit("scale=");
            r.append(n.as_str());
            r.append(":-1");
            r
        },
    }
}

/// Build the frame-extraction arguments for one source file.
pub fn build_ffmpeg_args(src: &str, size: u32, accel: GpuAccel) -> (r: Vec<String>)
    ensures
        r@.map_values(|s: String| s@) == spec_thumb_args(src@, size as nat, accel),
{
    let mut args: Vec<String> = Vec::new();
    match accel {
        GpuAccel::Cuda => {
            args.push(lit("-hwaccel"));
            args.push(lit("cuda"));
            args.push(lit("-hwaccel_output_format"));
            args.push(lit("cuda"));
        },
        GpuAccel::Qsv => {
            args.push(lit("-hwaccel"));
            args.push(lit("qsv"));
        },
        GpuAccel::D3d11va => {
            args.push(lit("-hwaccel"));
            args.push(lit("d3d11va"));
        },
        GpuAccel::VideoToolbox => {
            args.push(lit("-hwaccel"));
            args.push(lit("videotoolbox"));
        },
        GpuAccel::Cpu => {},
    }
    if matches!(accel, GpuAccel::Cpu) {
        args.push(lit("-i"));
        args.push(lit(src));
        args.push(lit("-ss"));
        args.push(lit("1"));
    } else {
        args.push(lit("-ss"));
        args.push(lit("1"));
        args.push(lit("-i"));
        args.push(lit(src));
    }
    args.push(lit("-vframes"));
    args.push(lit("1"));
    args.push(lit("-vf"));
    args.push(scale_filter(size, accel));
    args.push(lit("-f"));
    args.push(lit("image2pipe"));
    args.push(lit("-vcodec"));
    args.push(lit("mjpeg"));
    args.push(lit("pipe:1"));
    proof {
        assert(args@.map_values(|s: String| s@) =~= spec_thumb_args(src@, size as nat, accel));
    }
    args
}

/// The video-encoder arguments for one accelerator when transcoding to
/// MP4.
pub open spec fn spec_encoder_args(accel: GpuAccel) -> Seq<Seq<char>> {
    match accel {
        GpuAccel::Cuda => seq!["-c:v"@, "h264_nvenc"@, "-preset"@, "p4"@, "-cq"@, "23"@],
        GpuAccel::Qsv => seq![
            "-c:v"@,
            "h264_qsv"@,
            "-preset"@,
            "medium"@,
            "-global_quality"@,
            "23"@,
        ],
        GpuAccel::D3d11va => seq!["-c:v"@, "h264_nvenc"@, "-preset"@, "p4"@, "-cq"@, "23"@],
        GpuAccel::VideoToolbox => seq!["-c:v"@, "h264_videotoolbox"@, "-b:v"@, "5M"@],
        GpuAccel::Cpu => seq!["-c:v"@, "libx264"@, "-preset"@, "medium"@, "-crf"@, "23"@],
    }
}

/// The decode prefix for one accelerator.
pub open spec fn spec_hwaccel_prefix(accel: GpuAccel) -> Seq<Seq<char>> {
    match accel {
        GpuAccel::Cuda => seq!["-hwaccel"@, "cuda"@],
        GpuAccel::Qsv => seq!["-hwaccel"@, "qsv"@],
        GpuAccel::D3d11va => seq!["-hwaccel"@, "d3d11va"@],
        GpuAccel::VideoToolbox => seq!["-hwaccel"@, "videotoolbox"@],
        GpuAccel::Cpu => Seq::empty(),
    }
}

/// The whole MP4 transcode argument list: overwrite, hardware decode where
/// available, the accelerator's H.264 encoder, AAC 192k audio, and a
/// faststart MP4 written to `dst`.
pub open spec fn spec_transcode_args(src: Seq<char>, dst: Seq<char>, accel: GpuAccel) -> Seq<
    Seq<char>,
> {
    seq!["-y"@] + spec_hwaccel_prefix(accel) + seq!["-i"@, src] + spec_encoder_args(accel)
        + seq![
        "-c:a"@,
        "aac"@,
        "-b:a"@,
        "192k"@,
        "-movflags"@,
        "+faststart"@,
        "-f"@,
        "mp4"@,
        dst,
    ]
}

/// Build the MP4 transcode arguments for one source and destination.
pub fn build_transcode_args(src: &str, dst: &str, accel: GpuAccel) -> (r: Vec<String>)
    ensures
        r@.map_values(|s: String| s@) == spec_transcode_args(src@, dst@, accel),
{
    let mut args: Vec<String> = Vec::new();
    args.push(lit("-y"));
    match accel {
        GpuAccel::Cuda => {
            args.push(lit("-hwaccel"));
            args.push(lit("cuda"));
        },
        GpuAccel::Qsv => {
            args.push(lit("-hwaccel"));
            args.push(lit("qsv"));
        },
        GpuAccel::D3d11va => {
            args.push(lit("-hwaccel"));
            args.push(lit("d3d11va"));
        },
        GpuAccel::VideoToolbox => {
            args.push(lit("-hwaccel"));
            args.push(lit("videotoolbox"));
        },
        GpuAccel::Cpu => {},
    }
    args.push(lit("-i"));
    args.push(lit(src));
    match accel {
        GpuAccel::Cuda => {
            args.push(lit("-c:v"));
            args.push(lit("h264_nvenc"));
            args.push(lit("-preset"));
            args.push(lit("p4"));
            args.push(lit("-cq"));
            args.push(lit("23"));
        },
        GpuAccel::Qsv => {
            args.push(lit("-c:v"));
            args.push(lit("h264_qsv"));
            args.push(lit("-preset"));
            args.push(lit("medium"));
            args.push(lit("-global_quality"));
            args.push(lit("23"));
        },
        GpuAccel::D3d11va => {
            args.push(lit("-c:v"));
            args.push(lit("h264_nvenc"));
            args.push(lit("-preset"));
            args.push(lit("p4"));
            args.push(lit("-cq"));
            args.push(lit("23"));
        },
        GpuAccel::VideoToolbox => {
            args.push(lit("-c:v"));
            args.push(lit("h264_videotoolbox"));
            args.push(lit("-b:v"));
            args.push(lit("5M"));
        },
        GpuAccel::Cpu => {
            args.push(lit("-c:v"));
            args.push(lit("libx264"));
            args.push(lit("-preset"));
            args.push(lit("medium"));
            args.push(lit("-crf"));
            args.push(lit("23"));
        },
    }
    args.push(lit("-c:a"));
    args.push(lit("aac"));
    args.push(lit("-b:a"));
    args.push(lit("192k"));
    args.push(lit("-movflags"));
    args.push(lit("+faststart"));
    args.push(lit("-f"));
    args.push(lit("mp4"));
    args.push(lit(dst));
    proof {
        assert(args@.map_values(|s: String| s@) =~= spec_transcode_args(src@, dst@, accel));
    }
    args
}

/// The CPU fallback encoder ladder, tried in order until one produces a
/// non-empty output; each entry is the encoder name and whether it writes
/// WebM rather than MP4.
pub open spec fn spec_cpu_encoder_ladder() -> Seq<(Seq<char>, bool)> {
    seq![
        ("libx264"@, false),
        ("h264_v4l2m2m"@, false),
        ("libx265"@, false),
        ("h264_qsv"@, false),
        ("libvpx-vp9"@, true),
        ("libvpx"@, true),
        ("mpeg4"@, false),
    ]
}

/// The CPU fallback encoder ladder.
pub fn cpu_encoder_ladder() -> (r: Vec<(String, bool)>)
    ensures
        r@.map_values(|e: (String, bool)| (e.0@, e.1)) == spec_cpu_encoder_ladder(),
{
    let mut r: Vec<(String, bool)> = Vec::new();
    r.push((lit("libx264"), false));
    r.push((lit("h264_v4l2m2m"), false));
    r.push((lit("libx265"), false));
    r.push((lit("h264_qsv"), false));
    r.push((lit("libvpx-vp9"), true));
    r.push((lit("libvpx"), true));
    r.push((lit("mpeg4"), false));
    proof {
        assert(r@.map_values(|e: (String, bool)| (e.0@, e.1)) =~= spec_cpu_encoder_ladder());
    }
    r
}

/// The MP3 encoder preference for audio extraction, tried in order; when
/// all fail, the AAC/M4A fallback takes over.
pub open spec fn spec_audio_encoder_ladder() -> Seq<Seq<char>> {
    seq!["libmp3lame"@, "libshine"@, "mp3"@]
}

/// The MP3 encoder preference for audio extraction.
pub fn audio_encoder_ladder() -> (r: Vec<String>)
    ensures
        r@.map_values(|s: String| s@) == spec_audio_encoder_ladder(),
{
    let mut r: Vec<String> = Vec::new();
    r.push(lit("libmp3lame"));
    r.push(lit("libshine"));
    r.push(lit("mp3"));
    proof {
        assert(r@.map_values(|s: String| s@) =~= spec_audio_encoder_ladder());
    }
    r
}

} // verus!
