use nazr_backend_sqlite::breaker::{GpuAccel, MediaGateway};
use nazr_backend_sqlite::catalog::Catalog;
use nazr_backend_sqlite::discover::{
    build_write_item, hash_job_of, make_discover_item, watch_event_action, MetaJob, WatchAction,
    WatchEventKind,
};
use nazr_backend_sqlite::hashing::{hash_bytes, hex_encode};
use nazr_backend_sqlite::skipgate::SkipDecision;
use nazr_backend_sqlite::stats::Stats;
use nazr_backend_sqlite::supervisor::Supervisor;
use nazr_backend_sqlite::writer::{commit_batch, BoundedQueue};
use nazr_backend_sqlite::deletion::DiskRemoveOutcome;
use nazr_backend_sqlite::discover::hash_stage_result;

// Run one file through the in-memory pipeline stages: discover, hash,
// metadata, catalog write.
fn ingest(
    catalog: &mut Catalog,
    stats: &mut Stats,
    thumb_q: &mut BoundedQueue,
    path: &str,
    data: &[u8],
    mtime_ns: i64,
) -> i64 {
    let item = make_discover_item(path, data.len() as i64, mtime_ns, mtime_ns);
    let job = hash_job_of(item);
    let outcome = hash_bytes(data, false, data.len() as i64);
    let meta = MetaJob {
        job,
        xxh64: Some(outcome.xxh64 as i64),
        sha256: outcome.sha256.as_ref().map(|d| hex_encode(d)),
    };
    let write = build_write_item(meta, Some(64), Some(48), None, None);
    let (enq, _drop) = commit_batch(catalog, stats, thumb_q, vec![write]);
    assert!(enq >= 1);
    catalog.find_by_path(path).map(|i| catalog.assets[i].id).unwrap()
}

#[test]
fn test_full_scan_of_two_files_commits_both() {
    let mut catalog = Catalog::new();
    let mut stats = Stats::new();
    let mut thumb_q = BoundedQueue::new(16384);

    ingest(&mut catalog, &mut stats, &mut thumb_q, "/root/a.jpg", b"jpeg-bytes-a", 1);
    ingest(&mut catalog, &mut stats, &mut thumb_q, "/root/b.jpg", b"jpeg-bytes-b", 2);

    assert_eq!(catalog.count_assets(), 2);
    assert_eq!(stats.files_committed(), 2);
    // both committed rows carried a digest, so both got a thumbnail job
    assert_eq!(thumb_q.items.len(), 2);
    let listed = catalog.list_assets(0, 10, "filename", "asc");
    assert_eq!(listed.items.len(), 2);
    assert!(listed.items.iter().all(|a| a.ext == "jpg"));
    // the derived artifact for either is addressed by its digest
    let sha = listed.items[0].sha256.clone().unwrap();
    let rel = nazr_backend_sqlite::derived::thumb_path(&sha, 256);
    assert!(rel.starts_with(&sha[0..2]));
    assert!(rel.ends_with("-256.webp"));
}

#[test]
fn test_rescan_is_idempotent() {
    let mut catalog = Catalog::new();
    let mut stats = Stats::new();
    let mut thumb_q = BoundedQueue::new(16384);

    ingest(&mut catalog, &mut stats, &mut thumb_q, "/root/a.jpg", b"payload", 7);
    assert_eq!(catalog.count_assets(), 1);
    let committed = stats.files_committed();

    // a second discovery of the unchanged file leaves the pipeline at the
    // gate: no hashing, no write, no change in the committed count
    let size = b"payload".len() as i64;
    let decision = catalog.skip_gate_decision("/root/a.jpg", 7, size, "image/jpeg");
    assert!(matches!(decision, SkipDecision::SkipEntirely));
    assert_eq!(catalog.count_assets(), 1);
    assert_eq!(stats.files_committed(), committed);
}

#[test]
fn test_skip_gate_routes() {
    let mut catalog = Catalog::new();
    let mut stats = Stats::new();
    let mut thumb_q = BoundedQueue::new(8);

    // unknown file: forward to the hasher
    let decision = catalog.skip_gate_decision("/root/new.jpg", 1, 10, "image/jpeg");
    assert!(matches!(decision, SkipDecision::Forward));

    // not media at all: dropped
    let decision = catalog.skip_gate_decision("/root/notes.txt", 1, 10, "text/plain");
    assert!(matches!(decision, SkipDecision::DropNonMedia));

    // known file with a digest but incomplete metadata: straight to the
    // metadata stage with the stored fingerprints
    let item = make_discover_item("/root/a.jpg", 3, 9, 9);
    let job = hash_job_of(item);
    let outcome = hash_bytes(b"abc", false, 3);
    let sha_hex = hex_encode(outcome.sha256.as_ref().unwrap());
    let meta = MetaJob { job, xxh64: Some(5), sha256: Some(sha_hex.clone()) };
    let write = build_write_item(meta, None, None, None, None);
    commit_batch(&mut catalog, &mut stats, &mut thumb_q, vec![write]);
    let decision = catalog.skip_gate_decision("/root/a.jpg", 9, 3, "image/jpeg");
    match decision {
        SkipDecision::BypassToMetadata { xxh64, sha256 } => {
            assert_eq!(xxh64, Some(5));
            assert_eq!(sha256, sha_hex);
        }
        _ => panic!("expected a bypass to the metadata stage"),
    }
}

#[test]
fn test_thumbnail_jobs_drop_on_full_queue() {
    let mut catalog = Catalog::new();
    let mut stats = Stats::new();
    // room for one job only
    let mut thumb_q = BoundedQueue::new(1);

    ingest(&mut catalog, &mut stats, &mut thumb_q, "/root/a.jpg", b"aaa", 1);
    assert_eq!(thumb_q.items.len(), 1);

    // the second digest-bearing commit finds the queue full: the job is
    // dropped, the commit still lands
    let item = make_discover_item("/root/b.jpg", 3, 2, 2);
    let job = hash_job_of(item);
    let outcome = hash_bytes(b"bbb", false, 3);
    let meta = MetaJob {
        job,
        xxh64: Some(outcome.xxh64 as i64),
        sha256: outcome.sha256.as_ref().map(|d| hex_encode(d)),
    };
    let write = build_write_item(meta, None, None, None, None);
    let (enq, dropped) = commit_batch(&mut catalog, &mut stats, &mut thumb_q, vec![write]);
    assert_eq!(enq, 0);
    assert_eq!(dropped, 1);
    assert_eq!(thumb_q.items.len(), 1);
    assert_eq!(catalog.count_assets(), 2);
}

#[test]
fn test_no_thumbnail_job_without_digest() {
    let mut catalog = Catalog::new();
    let mut stats = Stats::new();
    let mut thumb_q = BoundedQueue::new(16);

    let item = make_discover_item("/root/large.jpg", 100, 1, 1);
    let job = hash_job_of(item);
    let meta = MetaJob { job, xxh64: Some(1), sha256: None };
    let write = build_write_item(meta, None, None, None, None);
    let (enq, dropped) = commit_batch(&mut catalog, &mut stats, &mut thumb_q, vec![write]);
    assert_eq!(enq, 0);
    assert_eq!(dropped, 0);
    assert_eq!(thumb_q.items.len(), 0);
}

#[test]
fn test_committed_counter_monotone_and_deletion_exact() {
    let mut stats = Stats::new();
    stats.inc_files_committed(5);
    assert_eq!(stats.files_committed(), 5);
    stats.inc_files_committed(3);
    assert_eq!(stats.files_committed(), 8);
    // only an explicit deletion lowers it, by exactly the deletion count
    stats.dec_files_committed(2);
    assert_eq!(stats.files_committed(), 6);
    // and never below zero
    stats.dec_files_committed(100);
    assert_eq!(stats.files_committed(), 0);
}

#[test]
fn test_stats_scan_snapshot() {
    let mut stats = Stats::new();
    stats.inc_files(10);
    stats.start_scan();
    stats.inc_files(4);
    assert_eq!(stats.scan_files_processed(), 4);
    stats.finish_scan();
    assert_eq!(stats.last_completed_scan_files, 4);
    assert!(!stats.scan_active);
}

#[test]
fn test_gpu_breaker_trips_after_three_failures() {
    let mut gw = MediaGateway::new(GpuAccel::Cuda);
    gw.record_gpu_failure();
    assert!(!gw.get_gpu_stats().auto_disabled);
    gw.record_gpu_failure();
    assert!(!gw.get_gpu_stats().auto_disabled);
    gw.record_gpu_failure();
    assert!(gw.get_gpu_stats().auto_disabled);
    assert_eq!(gw.get_gpu_stats().consecutive_failures, 3);

    // while tripped, configs come back CPU-only
    assert!(!gw.get_gpu_config().enabled);

    // one success re-enables the GPU and clears the streak
    gw.increment_gpu_job();
    assert!(!gw.get_gpu_stats().auto_disabled);
    assert_eq!(gw.get_gpu_stats().consecutive_failures, 0);
    assert!(gw.get_gpu_config().enabled);
}

#[test]
fn test_gpu_breaker_retry_window() {
    let mut gw = MediaGateway::new(GpuAccel::Cuda);
    gw.record_gpu_failure();
    gw.record_gpu_failure();
    gw.record_gpu_failure();
    assert!(gw.get_gpu_stats().auto_disabled);
    // nine CPU jobs are not enough to open the retry window
    for _ in 0..9 {
        gw.increment_cpu_job();
        }
    assert!(!gw.get_gpu_config().enabled);
    // the tenth is
    gw.increment_cpu_job();
    assert!(gw.get_gpu_config().enabled);
    // and the window closes again after the one attempt
    assert!(!gw.get_gpu_config().enabled);
}

#[test]
fn test_supervisor_global_flag_follows_roots() {
    let mut sup = Supervisor::new();
    assert!(!sup.any_scanning());

    assert!(sup.start_scan("/roots/a"));
    assert!(sup.any_scanning());

    // starting the same root again is refused while it runs
    assert!(!sup.start_scan("/roots/a"));

    assert!(sup.start_scan("/roots/b"));
    sup.finish_root_scan("/roots/a");
    // one root still scanning keeps the global flag up
    assert!(sup.any_scanning());
    sup.finish_root_scan("/roots/b");
    assert!(!sup.any_scanning());
}

#[test]
fn test_supervisor_pause_resume_status() {
    let mut sup = Supervisor::new();
    sup.start_scan("/roots/a");
    sup.pause("/roots/a");
    let (scanning, paused, _watching) = sup.status("/roots/a");
    assert!(!scanning);
    assert!(paused);
    assert!(!sup.any_scanning());

    sup.resume("/roots/a");
    let (_, paused, _) = sup.status("/roots/a");
    assert!(!paused);

    sup.remove("/roots/a");
    assert_eq!(sup.status("/roots/a"), (false, false, false));
}

#[test]
fn test_watch_event_actions() {
    assert_eq!(
        watch_event_action(WatchEventKind::CreateOrModify, false, true),
        WatchAction::ForwardMedia
    );
    assert_eq!(
        watch_event_action(WatchEventKind::CreateOrModify, false, false),
        WatchAction::Skip
    );
    assert_eq!(watch_event_action(WatchEventKind::Remove, false, true), WatchAction::DeleteByPath);
    assert_eq!(
        watch_event_action(WatchEventKind::CreateOrModify, true, true),
        WatchAction::Skip
    );
    assert_eq!(watch_event_action(WatchEventKind::Other, false, true), WatchAction::Skip);
}

#[test]
fn test_remove_root_decrements_by_deletion_count() {
    let mut catalog = Catalog::new();
    let mut stats = Stats::new();
    let mut thumb_q = BoundedQueue::new(16);
    ingest(&mut catalog, &mut stats, &mut thumb_q, "/roots/a/1.jpg", b"one", 1);
    ingest(&mut catalog, &mut stats, &mut thumb_q, "/roots/a/2.jpg", b"two", 2);
    ingest(&mut catalog, &mut stats, &mut thumb_q, "/other/3.jpg", b"three", 3);
    assert_eq!(stats.files_committed(), 3);

    let removed = catalog.delete_assets_by_path_prefix("/roots/a");
    stats.dec_files_committed(removed as u64);
    assert_eq!(removed, 2);
    assert_eq!(stats.files_committed(), 1);
    assert_eq!(catalog.count_assets(), 1);
}

#[test]
fn test_permanent_delete_paths() {
    let mut catalog = Catalog::new();
    let mut stats = Stats::new();
    let mut thumb_q = BoundedQueue::new(4);
    let id = ingest(&mut catalog, &mut stats, &mut thumb_q, "/t/a.jpg", b"abc", 1);

    // a read-only filesystem refuses the delete and keeps the row
    let r = catalog.apply_permanent_delete(
        id,
        DiskRemoveOutcome::ReadOnly { message: "read-only file system".to_string() },
    );
    assert!(!r.success);
    assert!(r.read_only);
    assert_eq!(catalog.count_assets(), 1);

    // a removed original lets the row and its index entry go
    let r = catalog.apply_permanent_delete(id, DiskRemoveOutcome::Removed);
    assert!(r.success);
    assert_eq!(r.path, Some("/t/a.jpg".to_string()));
    assert_eq!(catalog.count_assets(), 0);

    // an unknown id reports not found
    let r = catalog.apply_permanent_delete(999, DiskRemoveOutcome::Removed);
    assert!(!r.success);
    assert!(r.error.is_some());
}

#[test]
fn test_hash_failure_proceeds_with_zero_fingerprint() {
    let job = hash_job_of(make_discover_item("/root/gone.jpg", 9, 1, 1));
    // an unreadable file still proceeds: zero fingerprint, no digest
    let r = hash_stage_result(job, None, false, 9);
    assert_eq!(r.xxh64, 0);
    assert!(r.sha256.is_none());
    // a readable one is fingerprinted as usual
    let job = hash_job_of(make_discover_item("/root/ok.jpg", 3, 1, 1));
    let r = hash_stage_result(job, Some(b"abc"), false, 3);
    assert_ne!(r.xxh64, 0);
    assert_eq!(r.sha256.as_ref().map(|d| d.len()), Some(32));
}

#[test]
fn test_writer_flush_rule() {
    // a full batch flushes, an elapsed interval flushes, anything less waits
    assert!(nazr_backend_sqlite::writer::should_flush(500, 0));
    assert!(nazr_backend_sqlite::writer::should_flush(0, 2000));
    assert!(!nazr_backend_sqlite::writer::should_flush(499, 1999));
}
