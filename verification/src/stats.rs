//! Runtime counters: files discovered, bytes and files committed, and the
//! per-scan baselines the rate displays are computed from.
//!
//! The committed-files counter moves in one direction only: commits raise
//! it, and only an explicit deletion lowers it, by exactly the deletion
//! count (never below zero).

use vstd::prelude::*;
use vstd::string::StringExecFns;

verus! {

pub struct Stats {
    pub files_total: u64,
    pub bytes_total: u64,
    pub files_committed: u64,
    /// Discovery count at the start of the running scan.
    pub last_scan_files: u64,
    /// Commit count at the start of the running scan.
    pub last_scan_committed_files: u64,
    /// Files handled by the most recently completed scan.
    pub last_completed_scan_files: u64,
    /// Whether a scan timer is running.
    pub scan_active: bool,
    /// Whether a processing timer is running (set by the first commit).
    pub processing_active: bool,
}

/// Saturating add on `u64`, as the counters use it.
pub open spec fn sat_add(a: u64, b: u64) -> u64 {
    if a + b <= u64::MAX {
        (a + b) as u64
    } else {
        u64::MAX
    }
}

impl Stats {
    pub fn new() -> (r: Stats)
        ensures
            r.files_total == 0,
            r.bytes_total == 0,
            r.files_committed == 0,
            !r.scan_active,
            !r.processing_active,
    {
        Stats {
            files_total: 0,
            bytes_total: 0,
            files_committed: 0,
            last_scan_files: 0,
            last_scan_committed_files: 0,
            last_completed_scan_files: 0,
            scan_active: false,
            processing_active: false,
        }
    }

    /// Count discovered files.
    pub fn inc_files(&mut self, n: u64)
        ensures
            final(self).files_total == sat_add(old(self).files_total, n),
            *final(self) == (Stats { files_total: final(self).files_total, ..*old(self) }),
    {
        self.files_total = if self.files_total <= u64::MAX - n {
            self.files_total + n
        } else {
            u64::MAX
        };
    }

    /// Count committed bytes.
    pub fn inc_bytes(&mut self, n: u64)
        ensures
            final(self).bytes_total == sat_add(old(self).bytes_total, n),
            *final(self) == (Stats { bytes_total: final(self).bytes_total, ..*old(self) }),
    {
        self.bytes_total = if self.bytes_total <= u64::MAX - n {
            self.bytes_total + n
        } else {
            u64::MAX
        };
    }

    /// Count durably committed files; the first commit starts the
    /// processing timer.  The counter never decreases here.
    pub fn inc_files_committed(&mut self, n: u64)
        ensures
            final(self).files_committed == sat_add(old(self).files_committed, n),
            final(self).files_committed >= old(self).files_committed,
            final(self).processing_active,
            *final(self) == (Stats {
                files_committed: final(self).files_committed,
                processing_active: true,
                ..*old(self)
            }),
    {
        self.processing_active = true;
        self.files_committed = if self.files_committed <= u64::MAX - n {
            self.files_committed + n
        } else {
            u64::MAX
        };
    }

    /// Seed the committed counter from the catalog at startup.
    pub fn init_files_committed(&mut self, count: u64)
        ensures
            final(self).files_committed == count,
            final(self).last_scan_committed_files == count,
            *final(self) == (Stats {
                files_committed: count,
                last_scan_committed_files: count,
                ..*old(self)
            }),
    {
        self.files_committed = count;
        self.last_scan_committed_files = count;
    }

    /// Lower the committed counter after an explicit deletion: by exactly
    /// `n`, never below zero; the scan baseline follows down so derived
    /// figures stay non-negative.
    pub fn dec_files_committed(&mut self, n: u64)
        ensures
            final(self).files_committed == (if n <= old(self).files_committed {
                (old(self).files_committed - n) as u64
            } else {
                0u64
            }),
            final(self).files_committed <= old(self).files_committed,
            final(self).last_scan_committed_files == (if final(self).files_committed < old(
                self,
            ).last_scan_committed_files {
                final(self).files_committed
            } else {
                old(self).last_scan_committed_files
            }),
            final(self).files_total == old(self).files_total,
            final(self).bytes_total == old(self).bytes_total,
            final(self).scan_active == old(self).scan_active,
            final(self).processing_active == old(self).processing_active,
    {
        let current = self.files_committed;
        let new_value = if n <= current {
            current - n
        } else {
            0
        };
        self.files_committed = new_value;
        if new_value < self.last_scan_committed_files {
            self.last_scan_committed_files = new_value;
        }
    }

    pub fn files_committed(&self) -> (r: u64)
        ensures
            r == self.files_committed,
    {
        self.files_committed
    }

    pub fn files_total(&self) -> (r: u64)
        ensures
            r == self.files_total,
    {
        self.files_total
    }

    pub fn bytes_total(&self) -> (r: u64)
        ensures
            r == self.bytes_total,
    {
        self.bytes_total
    }

    /// A scan begins: remember the baselines and restart the processing
    /// timer.
    pub fn start_scan(&mut self)
        ensures
            final(self).scan_active,
            !final(self).processing_active,
            final(self).last_scan_files == old(self).files_total,
            final(self).last_scan_committed_files == old(self).files_committed,
            final(self).files_total == old(self).files_total,
            final(self).bytes_total == old(self).bytes_total,
            final(self).files_committed == old(self).files_committed,
    {
        self.scan_active = true;
        self.processing_active = false;
        self.last_scan_files = self.files_total;
        self.last_scan_committed_files = self.files_committed;
    }

    /// Files handled since the running scan started.
    pub fn scan_files_processed(&self) -> (r: u64)
        ensures
            r == (if self.last_scan_files <= self.files_total {
                (self.files_total - self.last_scan_files) as u64
            } else {
                0u64
            }),
    {
        if self.last_scan_files <= self.files_total {
            self.files_total - self.last_scan_files
        } else {
            0
        }
    }

    /// Files committed since the running scan started.
    pub fn processing_files_committed(&self) -> (r: u64)
        ensures
            r == (if self.last_scan_committed_files <= self.files_committed {
                (self.files_committed - self.last_scan_committed_files) as u64
            } else {
                0u64
            }),
    {
        if self.last_scan_committed_files <= self.files_committed {
            self.files_committed - self.last_scan_committed_files
        } else {
            0
        }
    }

    /// The scan ends: freeze its file count before any further time passes
    /// and clear the scan timer.
    pub fn finish_scan(&mut self)
        ensures
            !final(self).scan_active,
            final(self).last_completed_scan_files == (if old(self).last_scan_files <= old(
                self,
            ).files_total {
                (old(self).files_total - old(self).last_scan_files) as u64
            } else {
                0u64
            }),
            final(self).files_total == old(self).files_total,
            final(self).bytes_total == old(self).bytes_total,
            final(self).files_committed == old(self).files_committed,
            final(self).processing_active == old(self).processing_active,
    {
        self.last_completed_scan_files = self.scan_files_processed();
        self.scan_active = false;
    }

    /// Processing is over: clear the processing timer.
    pub fn stop_processing(&mut self)
        ensures
            !final(self).processing_active,
            *final(self) == (Stats { processing_active: false, ..*old(self) }),
    {
        self.processing_active = false;
    }

    /// Reset every counter and baseline.
    pub fn reset_stats(&mut self)
        ensures
            final(self).files_total == 0,
            final(self).bytes_total == 0,
            final(self).files_committed == 0,
            final(self).last_scan_files == 0,
            final(self).last_scan_committed_files == 0,
            !final(self).scan_active,
            !final(self).processing_active,
    {
        self.files_total = 0;
        self.bytes_total = 0;
        self.files_committed = 0;
        self.last_scan_files = 0;
        self.last_scan_committed_files = 0;
        self.scan_active = false;
        self.processing_active = false;
    }
}

/// The status label for a processing rate given in thousandths of a file
/// per second: idle below a tenth of a file per second (or when nothing is
/// active), then slow, average above ten, good above twenty, excellent
/// above fifty.
pub open spec fn spec_status_label(rate_milli: u64, is_active: bool) -> Seq<char> {
    if !is_active {
        "idle"@
    } else if rate_milli > 50000 {
        "excellent"@
    } else if rate_milli > 20000 {
        "good"@
    } else if rate_milli > 10000 {
        "average"@
    } else if rate_milli > 100 {
        "slow"@
    } else {
        "idle"@
    }
}

/// Classify a processing rate (in thousandths of a file per second).
pub fn classify_status(rate_milli: u64, is_active: bool) -> (r: String)
    ensures
        r@ == spec_status_label(rate_milli, is_active),
{
    if !is_active {
        String::from_str("idle")
    } else if rate_milli > 50000 {
        String::from_str("excellent")
    } else if rate_milli > 20000 {
        String::from_str("good")
    } else if rate_milli > 10000 {
        String::from_str("average")
    } else if rate_milli > 100 {
        String::from_str("slow")
    } else {
        String::from_str("idle")
    }
}

/// The counter lines of the metrics text: uptime, cumulative files and
/// cumulative bytes, one per line.  The rate gauges join them at the
/// process edge.
pub open spec fn spec_metrics_counter_text(uptime: u64, files: u64, bytes: u64) -> Seq<char> {
    "seen_uptime_seconds "@ + crate::text::dec_chars_of(uptime as nat) + "\n"@
        + "seen_processed_files_total "@ + crate::text::dec_chars_of(files as nat) + "\n"@
        + "seen_processed_bytes_total "@ + crate::text::dec_chars_of(bytes as nat) + "\n"@
}

/// Render the counter lines of the metrics text.
pub fn metrics_counter_text(uptime: u64, files: u64, bytes: u64) -> (r: String)
    ensures
        r@ == spec_metrics_counter_text(uptime, files, bytes),
{
    let mut r = String::from_str("seen_uptime_seconds ");
    r.append(crate::text::u64_to_string(uptime).as_str());
    r.append("\n");
    r.append("seen_processed_files_total ");
    r.append(crate::text::u64_to_string(files).as_str());
    r.append("\n");
    r.append("seen_processed_bytes_total ");
    r.append(crate::text::u64_to_string(bytes).as_str());
    r.append("\n");
    r
}

/// A cache of the expensive catalog counts, refreshed when older than its
/// time-to-live.
pub struct StatsCache {
    pub asset_count: i64,
    pub photo_count: i64,
    pub video_count: i64,
    /// Seconds since the epoch when the cache was last refreshed.
    pub last_updated: u64,
    /// Whether processing was active at the last stats reading.
    pub was_processing_active: bool,
}

impl StatsCache {
    pub fn new() -> (r: StatsCache)
        ensures
            r.asset_count == 0,
            r.photo_count == 0,
            r.video_count == 0,
            r.last_updated == 0,
            !r.was_processing_active,
    {
        StatsCache {
            asset_count: 0,
            photo_count: 0,
            video_count: 0,
            last_updated: 0,
            was_processing_active: false,
        }
    }

    /// Whether the cache is older than `ttl_secs` at time `now`.
    pub fn is_stale(&self, now: u64, ttl_secs: u64) -> (r: bool)
        ensures
            r == (now > self.last_updated && now - self.last_updated > ttl_secs),
    {
        if now > self.last_updated {
            now - self.last_updated > ttl_secs
        } else {
            false
        }
    }

    /// Refresh all cached counts at time `now`.
    pub fn update(&mut self, assets: i64, photos: i64, videos: i64, now: u64)
        ensures
            final(self).asset_count == assets,
            final(self).photo_count == photos,
            final(self).video_count == videos,
            final(self).last_updated == now,
            final(self).was_processing_active == old(self).was_processing_active,
    {
        self.asset_count = assets;
        self.photo_count = photos;
        self.video_count = videos;
        self.last_updated = now;
    }

    /// The cached counts.
    pub fn get(&self) -> (r: (i64, i64, i64))
        ensures
            r.0 == self.asset_count,
            r.1 == self.photo_count,
            r.2 == self.video_count,
    {
        (self.asset_count, self.photo_count, self.video_count)
    }
}

} // verus!
