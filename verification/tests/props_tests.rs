use nazr_backend_sqlite::breaker::GpuAccel;
use nazr_backend_sqlite::catalog::{Catalog, DbWriteItem};
use nazr_backend_sqlite::derived::{
    check_transcode_output, get_transcoded_video_path, plan_derived_serve, plan_video_serve,
    thumb_path, DerivedServe, TranscodeOutcome, VideoPlan,
};
use nazr_backend_sqlite::discover::{
    duration_str_to_ms, extension_of, has_image_video_extension, is_hidden, make_discover_item,
};
use nazr_backend_sqlite::ffargs::build_ffmpeg_args;
use nazr_backend_sqlite::hashing::{hash_bytes, hex_encode, sha256_digest, xxh3_digest};
use nazr_backend_sqlite::media::{
    is_browser_compatible_video, is_media_mime, normalize_rotation, parse_transcode_policy,
    serve_original, TranscodePolicy,
};
use nazr_backend_sqlite::query::SearchParams;
use nazr_backend_sqlite::range::{content_range_value, parse_range, plan_serve, ServePlan};
use nazr_backend_sqlite::text::u64_to_string;
use nazr_backend_sqlite::media::classify_mime;
use nazr_backend_sqlite::discover::{map_host_to_container, resolve_asset_path};
use nazr_backend_sqlite::deletion::is_read_only_error;
use nazr_backend_sqlite::breaker::FfmpegConfig;
use nazr_backend_sqlite::thumbnail::{
    first_thumb_stage, judge_frame, next_thumb_stage, thumb_attempt, FrameOutcome, ThumbStage,
};
use nazr_backend_sqlite::audio::{
    build_audio_aac_args, build_audio_mp3_args, plan_audio_extract, AudioPlan,
};
use nazr_backend_sqlite::stats::classify_status;
use nazr_backend_sqlite::probe::{
    choose_accel, count_lines_matching, count_nonempty_lines, error_line_excerpt, error_needles,
};
use nazr_backend_sqlite::browse::{order_browse_entries, BrowseEntry};

fn photo(path: &str, filename: &str, mtime: i64) -> DbWriteItem {
    DbWriteItem {
        path: path.to_string(),
        dirname: "/test".to_string(),
        filename: filename.to_string(),
        ext: filename.rsplit('.').next().unwrap_or("").to_string(),
        size_bytes: 1000,
        mtime_ns: mtime,
        ctime_ns: mtime,
        sha256: None,
        xxh64: None,
        taken_at: None,
        width: None,
        height: None,
        duration_ms: None,
        camera_make: None,
        camera_model: None,
        lens_model: None,
        iso: None,
        video_codec: None,
        mime: if filename.ends_with(".png") {
            "image/png".to_string()
        } else {
            "image/jpeg".to_string()
        },
        flags: 0,
    }
}

fn params(q: &str) -> SearchParams {
    SearchParams {
        q: q.to_string(),
        from: None,
        to: None,
        camera_make: None,
        camera_model: None,
        platform_type: None,
        offset: 0,
        limit: 100,
    }
}

#[test]
fn test_range_single_byte() {
    // bytes=0-0 asks for exactly one byte
    assert_eq!(parse_range("bytes=0-0", 5), Some((0, 0)));
    match plan_serve(Some("bytes=0-0"), 5) {
        ServePlan::Partial { start, end, len } => {
            assert_eq!((start, end, len), (0, 0, 1));
        }
        _ => panic!("expected a partial response"),
    }
    assert_eq!(content_range_value(0, 0, 5), "bytes 0-0/5");
}

#[test]
fn test_range_invalid_falls_through_to_full() {
    // start beyond end, and end beyond the file, both fall back to 200-full
    assert_eq!(parse_range("bytes=5-4", 10), None);
    assert_eq!(parse_range("bytes=0-10", 10), None);
    assert_eq!(parse_range("bytes=10-12", 10), None);
    assert_eq!(plan_serve(Some("bytes=5-4"), 10), ServePlan::Full { size: 10 });
    assert_eq!(plan_serve(Some("garbage"), 10), ServePlan::Full { size: 10 });
}

#[test]
fn test_range_streaming_window() {
    let n: u64 = 1000;
    assert_eq!(parse_range("bytes=10-19", n), Some((10, 19)));
    match plan_serve(Some("bytes=10-19"), n) {
        ServePlan::Partial { start, end, len } => {
            assert_eq!((start, end, len), (10, 19, 10));
        }
        _ => panic!("expected a partial response"),
    }
    assert_eq!(content_range_value(10, 19, n), "bytes 10-19/1000");
    // open-ended forms
    assert_eq!(parse_range("bytes=990-", n), Some((990, 999)));
    assert_eq!(parse_range("bytes=-5", n), Some((0, 5)));
}

#[test]
fn test_rotation_normalization() {
    assert_eq!(normalize_rotation(0), Some(0));
    assert_eq!(normalize_rotation(90), Some(90));
    assert_eq!(normalize_rotation(180), Some(180));
    assert_eq!(normalize_rotation(270), Some(270));
    assert_eq!(normalize_rotation(360), Some(0));
    assert_eq!(normalize_rotation(-90), Some(270));
    assert_eq!(normalize_rotation(45), None);
}

#[test]
fn test_wildcard_search_orders_by_filename() {
    let mut catalog = Catalog::new();
    catalog.upsert(photo("/t/photo2.jpg", "photo2.jpg", 5));
    catalog.upsert(photo("/t/photo1.jpg", "photo1.jpg", 9));
    catalog.upsert(photo("/t/image.png", "image.png", 7));

    let result = catalog.search_assets(&params("*.jpg"));
    assert_eq!(result.total, 2);
    assert!(result.items.iter().all(|a| a.ext == "jpg"));
    let names: Vec<&str> = result.items.iter().map(|a| a.filename.as_str()).collect();
    assert_eq!(names, vec!["photo1.jpg", "photo2.jpg"]);
    // wildcard-only totals are reported as filename hits
    let counts = result.match_counts.unwrap();
    assert_eq!(counts.filename, 2);
    assert_eq!(counts.dirname, 0);
}

#[test]
fn test_star_dot_star_returns_all_by_filename() {
    let mut catalog = Catalog::new();
    catalog.upsert(photo("/t/c.jpg", "c.jpg", 1));
    catalog.upsert(photo("/t/a.jpg", "a.jpg", 2));
    catalog.upsert(photo("/t/b.png", "b.png", 3));

    let result = catalog.search_assets(&params("*.*"));
    assert_eq!(result.total, 3);
    let names: Vec<&str> = result.items.iter().map(|a| a.filename.as_str()).collect();
    assert_eq!(names, vec!["a.jpg", "b.png", "c.jpg"]);
}

#[test]
fn test_spaces_only_query_takes_listing_order() {
    let mut catalog = Catalog::new();
    let mut old_taken = photo("/t/a.jpg", "a.jpg", 10);
    old_taken.taken_at = Some(100);
    catalog.upsert(old_taken);
    let mut new_taken = photo("/t/b.jpg", "b.jpg", 5);
    new_taken.taken_at = Some(200);
    catalog.upsert(new_taken);
    let no_taken = photo("/t/c.jpg", "c.jpg", 50);
    catalog.upsert(no_taken);

    let result = catalog.search_assets(&params("   "));
    assert_eq!(result.total, 3);
    // capture time descending, nulls last
    let names: Vec<&str> = result.items.iter().map(|a| a.filename.as_str()).collect();
    assert_eq!(names, vec!["b.jpg", "a.jpg", "c.jpg"]);
    assert!(result.match_counts.is_none());
}

#[test]
fn test_text_search_matches_token_prefixes_only() {
    let mut catalog = Catalog::new();
    catalog.upsert(photo("/test/photo1.jpg", "photo1.jpg", 1));

    // a term matching a token prefix hits
    assert_eq!(catalog.search_assets(&params("photo")).total, 1);
    assert_eq!(catalog.search_assets(&params("photo1")).total, 1);
    // terms hit across the filename, dirname and path columns
    assert_eq!(catalog.search_assets(&params("test")).total, 1);
    assert_eq!(catalog.search_assets(&params("jpg")).total, 1);
    // case-folded
    assert_eq!(catalog.search_assets(&params("PHOTO")).total, 1);
    // a mid-word fragment is no token prefix: no hit
    assert_eq!(catalog.search_assets(&params("hoto")).total, 0);
    assert_eq!(catalog.search_assets(&params("esting")).total, 0);
}

#[test]
fn test_text_search_priority_order() {
    let mut catalog = Catalog::new();
    // "trip" in the dirname only
    let mut a = photo("/trip/x.jpg", "x.jpg", 1);
    a.dirname = "/trip".to_string();
    catalog.upsert(a);
    // "trip" in the filename
    let mut b = photo("/t/trip.jpg", "trip.jpg", 1);
    b.dirname = "/t".to_string();
    catalog.upsert(b);

    let result = catalog.search_assets(&params("trip"));
    assert_eq!(result.total, 2);
    // filename hits rank before dirname hits
    assert_eq!(result.items[0].filename, "trip.jpg");
    let counts = result.match_counts.unwrap();
    assert_eq!(counts.filename, 1);
    assert_eq!(counts.dirname, 1);
    assert_eq!(counts.path, 0);
}

#[test]
fn test_platform_filter() {
    let mut catalog = Catalog::new();
    catalog.upsert(photo("/t/ABC-20240101-WA0001.jpg", "ABC-20240101-WA0001.jpg", 1));
    catalog.upsert(photo("/t/PXL_20240101_123456789.jpg", "PXL_20240101_123456789.jpg", 2));
    catalog.upsert(photo("/t/plain.jpg", "plain.jpg", 3));

    let mut p = params("");
    p.platform_type = Some("whatsapp".to_string());
    assert_eq!(catalog.search_assets(&p).total, 1);
    let mut p = params("");
    p.platform_type = Some("pxl".to_string());
    assert_eq!(catalog.search_assets(&p).total, 1);
}

#[test]
fn test_browser_compatibility_policy() {
    assert!(is_browser_compatible_video("video/mp4"));
    assert!(is_browser_compatible_video("video/webm"));
    assert!(!is_browser_compatible_video("video/x-matroska"));

    // auto: HEVC inside MP4 forces a transcode
    assert!(!serve_original("video/mp4", Some("hevc"), TranscodePolicy::Auto));
    assert!(!serve_original("video/mp4", Some("HEVC"), TranscodePolicy::Auto));
    assert!(serve_original("video/mp4", Some("h264"), TranscodePolicy::Auto));
    // never keeps the original, always forces
    assert!(serve_original("video/mp4", Some("hevc"), TranscodePolicy::Never));
    assert!(!serve_original("video/mp4", Some("h264"), TranscodePolicy::Always));

    assert_eq!(parse_transcode_policy("never"), TranscodePolicy::Never);
    assert_eq!(parse_transcode_policy("always"), TranscodePolicy::Always);
    assert_eq!(parse_transcode_policy("auto"), TranscodePolicy::Auto);
    assert_eq!(parse_transcode_policy("whatever"), TranscodePolicy::Auto);
}

#[test]
fn test_transcode_fallback_plan() {
    // an HEVC MP4 without a cached artifact is transcoded
    let plan = plan_video_serve("video/mp4", Some("hevc"), TranscodePolicy::Auto, true, false, false);
    assert_eq!(plan, VideoPlan::Transcode);
    // with a cached MP4, the cache wins
    let plan = plan_video_serve("video/mp4", Some("hevc"), TranscodePolicy::Auto, true, true, false);
    assert_eq!(plan, VideoPlan::ServeCachedMp4);
    // the WebM cache is second choice
    let plan = plan_video_serve("video/mp4", Some("hevc"), TranscodePolicy::Auto, true, false, true);
    assert_eq!(plan, VideoPlan::ServeCachedWebm);
    // a playable container is served as-is
    let plan = plan_video_serve("video/webm", None, TranscodePolicy::Auto, true, false, false);
    assert_eq!(plan, VideoPlan::ServeOriginal);
    // without a digest there is nowhere to cache: fall back to the original
    let plan = plan_video_serve("video/x-matroska", None, TranscodePolicy::Auto, false, false, false);
    assert_eq!(plan, VideoPlan::OriginalNoDigest);
}

#[test]
fn test_transcode_output_judgement() {
    // an artifact reaches disk only with more than zero bytes
    assert_eq!(check_transcode_output(true, true, 1024), TranscodeOutcome::Keep);
    assert_eq!(check_transcode_output(true, true, 0), TranscodeOutcome::RemovePartial);
    assert_eq!(check_transcode_output(true, false, 0), TranscodeOutcome::RemovePartial);
    assert_eq!(check_transcode_output(false, true, 1024), TranscodeOutcome::RemovePartial);
}

#[test]
fn test_derived_paths() {
    let sha = "ab12cd34";
    assert_eq!(thumb_path(sha, 256), "ab/ab12cd34-256.webp");
    assert_eq!(thumb_path(sha, 1600), "ab/ab12cd34-1600.webp");
    assert_eq!(get_transcoded_video_path(sha, false), "ab/ab12cd34-transcoded.mp4");
    assert_eq!(get_transcoded_video_path(sha, true), "ab/ab12cd34-transcoded.webm");
    assert_eq!(get_transcoded_video_path("x", false), "x-transcoded.mp4");
}

#[test]
fn test_derived_serve_uses_addressed_path() {
    match plan_derived_serve(Some("ab12cd34"), 256, true) {
        DerivedServe::Hit { rel_path } => assert_eq!(rel_path, "ab/ab12cd34-256.webp"),
        DerivedServe::Miss => panic!("expected a hit"),
    }
    assert!(matches!(plan_derived_serve(Some("ab12cd34"), 256, false), DerivedServe::Miss));
    assert!(matches!(plan_derived_serve(None, 256, true), DerivedServe::Miss));
}

#[test]
fn test_sha256_digest_is_real() {
    let d = sha256_digest(b"abc");
    assert_eq!(
        hex_encode(&d),
        "ba7816bf8f01cfea414140de5dae2223b00361a396177a9cb410ff61f20015ad"
    );
}

#[test]
fn test_xxh3_digest_matches_reference() {
    let data = b"the quick brown fox";
    assert_eq!(xxh3_digest(data), xxhash_rust::xxh3::xxh3_64(data));
    assert_ne!(xxh3_digest(b"a"), xxh3_digest(b"b"));
}

#[test]
fn test_hex_encode_is_real() {
    assert_eq!(hex_encode(&[0x00, 0xff, 0xab]), "00ffab");
    assert_eq!(hex_encode(&[]), "");
}

#[test]
fn test_hash_policy() {
    // small files and all videos get a digest; big non-videos do not
    let small = hash_bytes(b"x", false, 1);
    assert!(small.sha256.is_some());
    let video = hash_bytes(b"x", true, 200 * 1024 * 1024);
    assert!(video.sha256.is_some());
    let big = hash_bytes(b"x", false, 200 * 1024 * 1024);
    assert!(big.sha256.is_none());
}

#[test]
fn test_discover_filters() {
    assert!(is_hidden(".DS_Store"));
    assert!(!is_hidden("photo.jpg"));
    assert!(has_image_video_extension("photo.JPG"));
    assert!(has_image_video_extension("clip.Mp4"));
    assert!(!has_image_video_extension("notes.txt"));
    assert!(!has_image_video_extension("Makefile"));
    assert_eq!(extension_of("a.tar.gz"), Some("gz".to_string()));
    assert_eq!(extension_of("noext"), None);
}

#[test]
fn test_make_discover_item_fields() {
    let it = make_discover_item("/photos/trip/IMG_01.JPG", 123, 456, 789);
    assert_eq!(it.path, "/photos/trip/IMG_01.JPG");
    assert_eq!(it.dirname, "/photos/trip");
    assert_eq!(it.filename, "IMG_01.JPG");
    assert_eq!(it.ext, "jpg");
    assert_eq!(it.mime, "image/jpeg");
    assert_eq!(it.size_bytes, 123);
}

#[test]
fn test_media_mime_classification() {
    assert!(is_media_mime("image/jpeg"));
    assert!(is_media_mime("video/mp4"));
    assert!(!is_media_mime("text/plain"));
    assert!(!is_media_mime("application/octet-stream"));
}

#[test]
fn test_duration_parse() {
    assert_eq!(duration_str_to_ms("12"), Some(12000));
    assert_eq!(duration_str_to_ms("12.345678"), Some(12345));
    assert_eq!(duration_str_to_ms("0.5"), Some(500));
    assert_eq!(duration_str_to_ms("3."), Some(3000));
    assert_eq!(duration_str_to_ms(""), None);
    assert_eq!(duration_str_to_ms("abc"), None);
    assert_eq!(duration_str_to_ms("1.2.3"), None);
}

#[test]
fn test_decimal_formatting() {
    assert_eq!(u64_to_string(0), "0");
    assert_eq!(u64_to_string(907), "907");
    assert_eq!(u64_to_string(u64::MAX), "18446744073709551615");
}

#[test]
fn test_ffmpeg_thumb_args_shape() {
    // the CPU path seeks after the input
    let cpu = build_ffmpeg_args("/v/a.mp4", 256, GpuAccel::Cpu);
    assert_eq!(
        cpu,
        vec![
            "-i", "/v/a.mp4", "-ss", "1", "-vframes", "1", "-vf", "scale=256:-1", "-f",
            "image2pipe", "-vcodec", "mjpeg", "pipe:1"
        ]
    );
    // the hardware paths seek before the input
    let cuda = build_ffmpeg_args("/v/a.mp4", 256, GpuAccel::Cuda);
    assert_eq!(cuda[0], "-hwaccel");
    assert_eq!(cuda[1], "cuda");
    assert_eq!(&cuda[4..8], &["-ss", "1", "-i", "/v/a.mp4"]);
    assert!(cuda.contains(&"scale_cuda=256:-1".to_string()));
    assert_eq!(cuda.last().unwrap(), "pipe:1");
    let qsv = build_ffmpeg_args("/v/a.mp4", 256, GpuAccel::Qsv);
    assert_eq!(&qsv[2..6], &["-ss", "1", "-i", "/v/a.mp4"]);
}

#[test]
fn test_classify_mime_buckets() {
    assert_eq!(classify_mime("image/jpeg"), "image/jpeg");
    assert_eq!(classify_mime("image/jpg"), "image/jpeg");
    assert_eq!(classify_mime("image/x-sony-arw"), "image/other");
    assert_eq!(classify_mime("video/quicktime"), "video/mov");
    assert_eq!(classify_mime("video/x-flv"), "video/other");
    assert_eq!(classify_mime("audio/mpeg"), "audio");
    assert_eq!(classify_mime("application/pdf"), "other");
}

#[test]
fn test_map_host_to_container() {
    assert_eq!(
        map_host_to_container("/host/path/test.jpg", "/host/path", "/photos"),
        Some("/photos/test.jpg".to_string())
    );
    assert_eq!(map_host_to_container("/host/path", "/host/path", "/photos"), Some("/photos".to_string()));
    assert_eq!(map_host_to_container("/elsewhere/x.jpg", "/host/path", "/photos"), None);
    // a path that exists locally resolves to itself
    assert_eq!(resolve_asset_path("/a/b.jpg", Some("/host"), "/photos", true), "/a/b.jpg");
    // an absent one maps through the configured host root
    assert_eq!(
        resolve_asset_path("/host/b.jpg", Some("/host"), "/photos", false),
        "/photos/b.jpg"
    );
    assert_eq!(resolve_asset_path("/nowhere/b.jpg", None, "/photos", false), "/nowhere/b.jpg");
}

#[test]
fn test_resolve_asset_path_nonexistent() {
    let resolved = resolve_asset_path("/nonexistent/file.jpg", None, "/photos", false);
    assert_eq!(resolved, "/nonexistent/file.jpg");
}

#[test]
fn test_is_read_only_error() {
    assert!(is_read_only_error(true, "whatever"));
    assert!(is_read_only_error(false, "Read-Only file system"));
    assert!(!is_read_only_error(false, "no space left on device"));
}

#[test]
fn test_thumbnail_ladder() {
    let gpu_cfg = FfmpegConfig { accel: GpuAccel::Cuda, enabled: true };
    assert_eq!(first_thumb_stage(&gpu_cfg), ThumbStage::Gpu);
    let cpu_cfg = FfmpegConfig { accel: GpuAccel::Cpu, enabled: false };
    assert_eq!(first_thumb_stage(&cpu_cfg), ThumbStage::Cpu);

    assert_eq!(next_thumb_stage(ThumbStage::Gpu), Some(ThumbStage::Cpu));
    assert_eq!(next_thumb_stage(ThumbStage::Cpu), Some(ThumbStage::CpuNoSeek));
    assert_eq!(next_thumb_stage(ThumbStage::CpuNoSeek), Some(ThumbStage::Minimal));
    assert_eq!(next_thumb_stage(ThumbStage::Minimal), None);

    let (gpu_args, gpu_timeout) = thumb_attempt(ThumbStage::Gpu, "/v/a.mp4", 256, GpuAccel::Cuda);
    assert_eq!(gpu_timeout, 2500);
    assert!(gpu_args.contains(&"-ss".to_string()));
    let (args, timeout) = thumb_attempt(ThumbStage::CpuNoSeek, "/v/a.mp4", 256, GpuAccel::Cuda);
    assert_eq!(timeout, 15000);
    assert!(!args.contains(&"-ss".to_string()));
    assert_eq!(args.last().unwrap(), "pipe:1");

    assert_eq!(judge_frame(true, 10), FrameOutcome::EncodeFrame);
    assert_eq!(judge_frame(true, 0), FrameOutcome::TryNext);
    assert_eq!(judge_frame(false, 10), FrameOutcome::TryNext);
}

#[test]
fn test_audio_extraction_plan() {
    assert_eq!(plan_audio_extract("image/jpeg"), AudioPlan::Reject);
    assert_eq!(plan_audio_extract("audio/mpeg"), AudioPlan::PassThroughMp3);
    assert_eq!(plan_audio_extract("audio/flac"), AudioPlan::Extract);
    assert_eq!(plan_audio_extract("video/mp4"), AudioPlan::Extract);

    let args = build_audio_mp3_args("/v/a.mp4", "libmp3lame");
    assert_eq!(args[0], "-i");
    assert!(args.contains(&"libmp3lame".to_string()));
    assert!(args.contains(&"mp3".to_string()));
    assert_eq!(args.last().unwrap(), "-");

    let aac = build_audio_aac_args("/v/a.mp4");
    assert!(aac.contains(&"aac".to_string()));
    assert!(aac.contains(&"+faststart".to_string()));

    let ladder = nazr_backend_sqlite::ffargs::audio_encoder_ladder();
    assert_eq!(ladder, vec!["libmp3lame", "libshine", "mp3"]);
}

#[test]
fn test_status_classification() {
    assert_eq!(classify_status(100000, false), "idle");
    assert_eq!(classify_status(60000, true), "excellent");
    assert_eq!(classify_status(30000, true), "good");
    assert_eq!(classify_status(15000, true), "average");
    assert_eq!(classify_status(500, true), "slow");
    assert_eq!(classify_status(50, true), "idle");
}

#[test]
fn test_accel_detection() {
    // the environment override wins outright
    assert_eq!(choose_accel(Some("OFF"), "cuda\nqsv\n", true, true, 2, true), GpuAccel::Cpu);
    assert_eq!(choose_accel(Some("cuda"), "", false, false, 0, false), GpuAccel::Cuda);
    // CUDA needs its filter and a physical device
    assert_eq!(choose_accel(None, "cuda\n", true, false, 1, false), GpuAccel::Cuda);
    assert_eq!(choose_accel(None, "cuda\n", true, false, 0, false), GpuAccel::Cpu);
    assert_eq!(choose_accel(None, "cuda\n", false, false, 3, false), GpuAccel::Cpu);
    // QSV needs its filter and an Intel device
    assert_eq!(choose_accel(None, "qsv\n", false, true, 0, true), GpuAccel::Qsv);
    // decode-only accelerators only need to be listed
    assert_eq!(choose_accel(None, "d3d11va\n", false, false, 0, false), GpuAccel::D3d11va);
    assert_eq!(choose_accel(None, "videotoolbox\n", false, false, 0, false), GpuAccel::VideoToolbox);
    assert_eq!(choose_accel(Some("auto"), "nothing\n", false, false, 0, false), GpuAccel::Cpu);
}

#[test]
fn test_error_line_excerpt() {
    let needles = error_needles();
    let out = error_line_excerpt(
        "frame=1
Error while decoding
ok
conversion Failed here
ERROR: no device
",
        &needles,
        2,
    );
    assert_eq!(out, b"Error while decoding; conversion Failed here".to_vec());
    let none = error_line_excerpt("all quiet
", &needles, 3);
    assert_eq!(none, Vec::<u8>::new());
}

#[test]
fn test_probe_output_counting() {
    assert_eq!(count_nonempty_lines("GPU 0\nGPU 1\n\n  \n"), 2);
    assert_eq!(count_nonempty_lines(""), 0);
    let needles: Vec<Vec<u8>> = vec![b"GPU".to_vec(), b"NVIDIA".to_vec()];
    assert_eq!(
        count_lines_matching("GPU 0: a\nsomething NVIDIA\nneither\n", &needles),
        2
    );
}

#[test]
fn test_browse_ordering() {
    let mk = |name: &str, is_dir: bool| BrowseEntry {
        name: name.to_string(),
        path: format!("/x/{}", name),
        is_dir,
    };
    let input = vec![
        mk("zeta.txt", false),
        mk("beta", true),
        mk("alpha.txt", false),
        mk("gamma", true),
    ];
    let out = order_browse_entries(&input);
    let names: Vec<&str> = out.iter().map(|e| e.name.as_str()).collect();
    assert_eq!(names, vec!["beta", "gamma", "alpha.txt", "zeta.txt"]);
}

#[test]
fn test_metrics_counter_text() {
    let text = nazr_backend_sqlite::stats::metrics_counter_text(12, 34, 56);
    assert_eq!(
        text,
        "seen_uptime_seconds 12\nseen_processed_files_total 34\nseen_processed_bytes_total 56\n"
    );
}
