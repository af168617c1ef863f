//! Media toolchain gateway state: the selected hardware acceleration and the
//! circuit breaker that tracks consecutive GPU failures.
//!
//! The breaker auto-disables GPU use after three consecutive failures.  While
//! disabled, every tenth CPU job opens a one-shot retry window; a single
//! successful GPU job re-enables GPU use and clears the failure count.

use vstd::prelude::*;

verus! {

/// How many consecutive failures trip the breaker.
pub const FAILURE_LIMIT: u32 = 3;

/// How many CPU jobs must pass while the breaker is tripped before one GPU
/// retry is allowed.
pub const RETRY_INTERVAL: u32 = 10;

/// The hardware acceleration mode selected for the external video tool.
#[derive(Clone, Copy, Debug, PartialEq, Eq, Structural)]
pub enum GpuAccel {
    Cuda,
    Qsv,
    D3d11va,
    VideoToolbox,
    Cpu,
}

/// The effective configuration handed to one invocation of the external tool.
#[derive(Clone, Copy, Debug, PartialEq, Eq, Structural)]
pub struct FfmpegConfig {
    pub accel: GpuAccel,
    pub enabled: bool,
}

/// A snapshot of the gateway's counters, as exposed by the API.
#[derive(Clone, Copy, Debug, PartialEq, Eq, Structural)]
pub struct GpuStats {
    pub jobs_gpu: u64,
    pub jobs_cpu: u64,
    pub consecutive_failures: u32,
    pub auto_disabled: bool,
}

/// Process-wide gateway state: the acceleration detected at startup plus the
/// failure-tracking breaker.
pub struct MediaGateway {
    pub accel: GpuAccel,
    /// Whether the detected acceleration is usable at all (false when the
    /// detection settled on CPU).
    pub enabled: bool,
    pub jobs_gpu: u64,
    pub jobs_cpu: u64,
    pub consecutive_failures: u32,
    pub auto_disabled: bool,
    pub cpu_jobs_since_last_retry: u32,
}

impl MediaGateway {
    /// The breaker is tripped exactly when it has seen `FAILURE_LIMIT` or
    /// more consecutive failures without an intervening success.
    pub open spec fn wf(self) -> bool {
        &&& self.auto_disabled == (self.consecutive_failures >= FAILURE_LIMIT)
        &&& (self.enabled == (self.accel != GpuAccel::Cpu))
    }

    pub fn new(accel: GpuAccel) -> (r: MediaGateway)
        ensures
            r.wf(),
            r.accel == accel,
            r.jobs_gpu == 0,
            r.jobs_cpu == 0,
            r.consecutive_failures == 0,
            !r.auto_disabled,
    {
        MediaGateway {
            accel,
            enabled: !matches!(accel, GpuAccel::Cpu),
            jobs_gpu: 0,
            jobs_cpu: 0,
            consecutive_failures: 0,
            auto_disabled: false,
            cpu_jobs_since_last_retry: 0,
        }
    }

    /// One more GPU invocation failed.  The third consecutive failure trips
    /// the breaker; further failures keep it tripped.
    pub fn record_gpu_failure(&mut self)
        requires
            old(self).wf(),
        ensures
            final(self).wf(),
            final(self).consecutive_failures == (if old(self).consecutive_failures
                < u32::MAX {
                old(self).consecutive_failures + 1
            } else {
                old(self).consecutive_failures as int
            }),
            final(self).auto_disabled == (old(self).consecutive_failures + 1 >= FAILURE_LIMIT
                || old(self).consecutive_failures == u32::MAX),
            final(self).jobs_gpu == old(self).jobs_gpu,
            final(self).jobs_cpu == old(self).jobs_cpu,
            final(self).accel == old(self).accel,
            final(self).enabled == old(self).enabled,
            final(self).cpu_jobs_since_last_retry == old(self).cpu_jobs_since_last_retry,
    {
        self.consecutive_failures = if self.consecutive_failures < u32::MAX {
            self.consecutive_failures + 1
        } else {
            self.consecutive_failures
        };
        if self.consecutive_failures >= FAILURE_LIMIT {
            self.auto_disabled = true;
        }
    }

    /// One GPU invocation succeeded: count it, clear the failure streak and
    /// re-enable GPU use if the breaker was tripped.
    pub fn increment_gpu_job(&mut self)
        requires
            old(self).wf(),
        ensures
            final(self).wf(),
            final(self).jobs_gpu == (if old(self).jobs_gpu < u64::MAX {
                old(self).jobs_gpu + 1
            } else {
                old(self).jobs_gpu as int
            }),
            final(self).consecutive_failures == 0,
            !final(self).auto_disabled,
            final(self).jobs_cpu == old(self).jobs_cpu,
            final(self).accel == old(self).accel,
            final(self).enabled == old(self).enabled,
            final(self).cpu_jobs_since_last_retry == 0,
    {
        self.jobs_gpu = if self.jobs_gpu < u64::MAX {
            self.jobs_gpu + 1
        } else {
            self.jobs_gpu
        };
        self.consecutive_failures = 0;
        self.cpu_jobs_since_last_retry = 0;
        self.auto_disabled = false;
    }

    /// One CPU invocation ran.  While the breaker is tripped, CPU jobs are
    /// counted toward the next retry window.
    pub fn increment_cpu_job(&mut self)
        requires
            old(self).wf(),
        ensures
            final(self).wf(),
            final(self).jobs_cpu == (if old(self).jobs_cpu < u64::MAX {
                old(self).jobs_cpu + 1
            } else {
                old(self).jobs_cpu as int
            }),
            final(self).cpu_jobs_since_last_retry == (if old(self).auto_disabled {
                if old(self).cpu_jobs_since_last_retry < u32::MAX {
                    old(self).cpu_jobs_since_last_retry + 1
                } else {
                    old(self).cpu_jobs_since_last_retry as int
                }
            } else {
                old(self).cpu_jobs_since_last_retry as int
            }),
            final(self).jobs_gpu == old(self).jobs_gpu,
            final(self).consecutive_failures == old(self).consecutive_failures,
            final(self).auto_disabled == old(self).auto_disabled,
            final(self).accel == old(self).accel,
            final(self).enabled == old(self).enabled,
    {
        self.jobs_cpu = if self.jobs_cpu < u64::MAX {
            self.jobs_cpu + 1
        } else {
            self.jobs_cpu
        };
        if self.auto_disabled {
            self.cpu_jobs_since_last_retry = if self.cpu_jobs_since_last_retry
                < u32::MAX {
                self.cpu_jobs_since_last_retry + 1
            } else {
                self.cpu_jobs_since_last_retry
            };
        }
    }

    /// The configuration for the next invocation.  While the breaker is
    /// tripped, GPU use is reported as disabled, except that every
    /// `RETRY_INTERVAL` CPU jobs one invocation is allowed to try the GPU
    /// again (and the window counter restarts).
    pub fn get_gpu_config(&mut self) -> (cfg: FfmpegConfig)
        requires
            old(self).wf(),
        ensures
            final(self).wf(),
            cfg.accel == old(self).accel,
            // GPU is offered iff the base config allows it and the breaker
            // either is not tripped or grants a retry this time.
            cfg.enabled == (old(self).enabled && (!old(self).auto_disabled || old(
                self,
            ).cpu_jobs_since_last_retry >= RETRY_INTERVAL)),
            final(self).cpu_jobs_since_last_retry == (if old(self).auto_disabled && old(
                self,
            ).enabled && old(self).cpu_jobs_since_last_retry >= RETRY_INTERVAL {
                0
            } else {
                old(self).cpu_jobs_since_last_retry as int
            }),
            final(self).jobs_gpu == old(self).jobs_gpu,
            final(self).jobs_cpu == old(self).jobs_cpu,
            final(self).consecutive_failures == old(self).consecutive_failures,
            final(self).auto_disabled == old(self).auto_disabled,
            final(self).accel == old(self).accel,
            final(self).enabled == old(self).enabled,
    {
        let mut enabled = self.enabled;
        if self.auto_disabled && enabled {
            if self.cpu_jobs_since_last_retry >= RETRY_INTERVAL {
                self.cpu_jobs_since_last_retry = 0;
            } else {
                enabled = false;
            }
        } else if self.auto_disabled {
            enabled = false;
        }
        FfmpegConfig { accel: self.accel, enabled }
    }

    /// Counter snapshot for the API.
    pub fn get_gpu_stats(&self) -> (r: GpuStats)
        ensures
            r.jobs_gpu == self.jobs_gpu,
            r.jobs_cpu == self.jobs_cpu,
            r.consecutive_failures == self.consecutive_failures,
            r.auto_disabled == self.auto_disabled,
    {
        GpuStats {
            jobs_gpu: self.jobs_gpu,
            jobs_cpu: self.jobs_cpu,
            consecutive_failures: self.consecutive_failures,
            auto_disabled: self.auto_disabled,
        }
    }
}

/// The breaker trips after exactly `FAILURE_LIMIT` consecutive failures: two
/// failures leave GPU use enabled, the third disables it, and the first
/// success after any retry window re-enables it.
pub proof fn lemma_breaker_trips_after_exactly_three(s0: MediaGateway)
    requires
        s0.wf(),
        s0.consecutive_failures == 0,
    ensures
        ({
            let s1 = spec_after_failure(s0);
            let s2 = spec_after_failure(s1);
            let s3 = spec_after_failure(s2);
            &&& !s1.auto_disabled
            &&& !s2.auto_disabled
            &&& s3.auto_disabled
            &&& !spec_after_gpu_success(s3).auto_disabled
            &&& spec_after_gpu_success(s3).consecutive_failures == 0
        }),
{
}

/// What `record_gpu_failure` does to the state, as a spec-level transition.
pub open spec fn spec_after_failure(s: MediaGateway) -> MediaGateway {
    let bumped = if s.consecutive_failures < u32::MAX {
        (s.consecutive_failures + 1) as u32
    } else {
        s.consecutive_failures
    };
    MediaGateway {
        consecutive_failures: bumped,
        auto_disabled: bumped >= FAILURE_LIMIT,
        ..s
    }
}

/// What `increment_gpu_job` does to the state, as a spec-level transition.
pub open spec fn spec_after_gpu_success(s: MediaGateway) -> MediaGateway {
    MediaGateway {
        jobs_gpu: if s.jobs_gpu < u64::MAX {
            (s.jobs_gpu + 1) as u64
        } else {
            s.jobs_gpu
        },
        consecutive_failures: 0,
        cpu_jobs_since_last_retry: 0,
        auto_disabled: false,
        ..s
    }
}

} // verus!
