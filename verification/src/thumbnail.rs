//! Video thumbnailing: the ladder of frame-extraction attempts and the
//! judgement of each attempt's outcome.
//!
//! A frame is tried on the GPU first (with a short timeout, to fail fast),
//! then on the CPU, then without the one-second seek, then with a minimal
//! argument list; the frame bytes always arrive on stdout, never in a
//! temporary file.  A failed write removes its partial output.

use vstd::prelude::*;
use vstd::string::StringExecFns;
use crate::breaker::{FfmpegConfig, GpuAccel};
use crate::ffargs::{build_ffmpeg_args, spec_thumb_args};

verus! {

/// The GPU attempt's timeout in milliseconds: short, to fail fast.
pub const GPU_TIMEOUT_MS: u64 = 2500;

/// The CPU attempts' timeout in milliseconds.
pub const CPU_TIMEOUT_MS: u64 = 15000;

/// One rung of the frame-extraction ladder.
#[derive(Clone, Copy, Debug, PartialEq, Eq, Structural)]
pub enum ThumbStage {
    /// Hardware decode and scale, seeking to one second.
    Gpu,
    /// CPU decode and scale, seeking to one second.
    Cpu,
    /// CPU without the seek, for files the seek breaks.
    CpuNoSeek,
    /// A minimal argument list as the last resort.
    Minimal,
}

/// Where the ladder starts: on the GPU when the gateway offers one.
pub fn first_thumb_stage(config: &FfmpegConfig) -> (r: ThumbStage)
    ensures
        r == (if config.enabled {
            ThumbStage::Gpu
        } else {
            ThumbStage::Cpu
        }),
{
    if config.enabled {
        ThumbStage::Gpu
    } else {
        ThumbStage::Cpu
    }
}

/// The rung tried after a failure, if any is left.
pub fn next_thumb_stage(stage: ThumbStage) -> (r: Option<ThumbStage>)
    ensures
        r == (match stage {
            ThumbStage::Gpu => Some(ThumbStage::Cpu),
            ThumbStage::Cpu => Some(ThumbStage::CpuNoSeek),
            ThumbStage::CpuNoSeek => Some(ThumbStage::Minimal),
            ThumbStage::Minimal => None::<ThumbStage>,
        }),
{
    match stage {
        ThumbStage::Gpu => Some(ThumbStage::Cpu),
        ThumbStage::Cpu => Some(ThumbStage::CpuNoSeek),
        ThumbStage::CpuNoSeek => Some(ThumbStage::Minimal),
        ThumbStage::Minimal => None,
    }
}

/// The seekless argument list: the seek flag and its value dropped from
/// the CPU list.
pub open spec fn spec_no_seek_args(src: Seq<char>, size: nat) -> Seq<Seq<char>> {
    seq!["-i"@, src, "-vframes"@, "1"@, "-vf"@, crate::ffargs::spec_scale_filter(
        size,
        GpuAccel::Cpu,
    ), "-f"@, "image2pipe"@, "-vcodec"@, "mjpeg"@, "pipe:1"@]
}

/// The argument list and timeout of one rung.
pub fn thumb_attempt(stage: ThumbStage, src: &str, size: u32, accel: GpuAccel) -> (r: (
    Vec<String>,
    u64,
))
    ensures
        r.0@.map_values(|s: String| s@) == (match stage {
            ThumbStage::Gpu => spec_thumb_args(src@, size as nat, accel),
            ThumbStage::Cpu => spec_thumb_args(src@, size as nat, GpuAccel::Cpu),
            ThumbStage::CpuNoSeek => spec_no_seek_args(src@, size as nat),
            ThumbStage::Minimal => spec_no_seek_args(src@, size as nat),
        }),
        r.1 == (if stage is Gpu {
            GPU_TIMEOUT_MS
        } else {
            CPU_TIMEOUT_MS
        }),
{
    match stage {
        ThumbStage::Gpu => (build_ffmpeg_args(src, size, accel), GPU_TIMEOUT_MS),
        ThumbStage::Cpu => (build_ffmpeg_args(src, size, GpuAccel::Cpu), CPU_TIMEOUT_MS),
        ThumbStage::CpuNoSeek | ThumbStage::Minimal => {
            let mut args: Vec<String> = Vec::new();
            args.push(String::from_str("-i"));
            args.push(String::from_str(src));
            args.push(String::from_str("-vframes"));
            args.push(String::from_str("1"));
            args.push(String::from_str("-vf"));
            let mut vf = String::from_str("scale=");
            vf.append(crate::text::u64_to_string(size as u64).as_str());
            vf.append(":-1");
            args.push(vf);
            args.push(String::from_str("-f"));
            args.push(String::from_str("image2pipe"));
            args.push(String::from_str("-vcodec"));
            args.push(String::from_str("mjpeg"));
            args.push(String::from_str("pipe:1"));
            proof {
                assert(args@.map_values(|s: String| s@) =~= spec_no_seek_args(
                    src@,
                    size as nat,
                ));
            }
            (args, CPU_TIMEOUT_MS)
        },
    }
}

/// What one attempt produced.
#[derive(Clone, Copy, Debug, PartialEq, Eq, Structural)]
pub enum FrameOutcome {
    /// The tool succeeded and piped out frame bytes: encode them.
    EncodeFrame,
    /// No usable frame: try the next rung.
    TryNext,
}

/// Judge one attempt: a frame is usable exactly when the tool succeeded
/// and wrote more than zero bytes to its pipe.
pub fn judge_frame(success: bool, stdout_len: usize) -> (r: FrameOutcome)
    ensures
        (r is EncodeFrame) <==> (success && stdout_len > 0),
{
    if success && stdout_len > 0 {
        FrameOutcome::EncodeFrame
    } else {
        FrameOutcome::TryNext
    }
}

/// Whether an existing pair of derived artifacts still needs work: a job
/// runs only for a missing thumbnail or preview, and existing files are
/// kept.
pub fn needs_thumb_work(thumb_exists: bool, preview_exists: bool) -> (r: bool)
    ensures
        r == (!thumb_exists || !preview_exists),
{
    !thumb_exists || !preview_exists
}

} // verus!
