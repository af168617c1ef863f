//! Verified core of a self-hosted media library indexer.
//!
//! The library models the ingestion pipeline (discover, skip-gate, hash,
//! metadata, catalog write, thumbnail fan-out), the backing catalog with its
//! full-text index, ranked search, range-request handling for derived
//! artifacts, the media toolchain gateway with its GPU circuit breaker, and
//! the per-root scan supervisor.  Everything that decides or computes lives
//! here with a contract; the surrounding process (file systems, sockets,
//! external encoders) hands in plain values and carries plain values out.

pub mod albums;
pub mod api;
pub mod audio;
pub mod breaker;
pub mod browse;
pub mod bytes;
pub mod catalog;
pub mod config;
pub mod deletion;
pub mod derived;
pub mod discover;
pub mod ffargs;
pub mod hashing;
pub mod media;
pub mod order;
pub mod probe;
pub mod query;
pub mod range;
pub mod skipgate;
pub mod stats;
pub mod supervisor;
pub mod text;
pub mod thumbnail;
pub mod writer;

use vstd::prelude::*;

verus! {

/// Queue depth gauges mirroring the in-flight work of the five pipeline
/// stages.
pub struct QueueDepths {
    pub discover: usize,
    pub hash: usize,
    pub metadata: usize,
    pub db_write: usize,
    pub thumb: usize,
}

impl QueueDepths {
    /// True when any stage still holds queued work.
    pub fn has_queued_items(&self) -> (r: bool)
        ensures
            r == (self.discover > 0 || self.hash > 0 || self.metadata > 0 || self.db_write > 0
                || self.thumb > 0),
    {
        self.discover > 0 || self.hash > 0 || self.metadata > 0 || self.db_write > 0
            || self.thumb > 0
    }
}

/// The externally visible depth gauges of the five queues: a producer
/// raises a gauge on send, the consumer lowers it on receive.
pub struct QueueGauges {
    pub discover: usize,
    pub hash: usize,
    pub metadata: usize,
    pub db_write: usize,
    pub thumb: usize,
}

impl QueueGauges {
    pub fn new() -> (r: QueueGauges)
        ensures
            r.discover == 0 && r.hash == 0 && r.metadata == 0 && r.db_write == 0 && r.thumb
                == 0,
    {
        QueueGauges { discover: 0, hash: 0, metadata: 0, db_write: 0, thumb: 0 }
    }

    /// A snapshot of all five depths.
    pub fn depths(&self) -> (r: QueueDepths)
        ensures
            r.discover == self.discover,
            r.hash == self.hash,
            r.metadata == self.metadata,
            r.db_write == self.db_write,
            r.thumb == self.thumb,
    {
        QueueDepths {
            discover: self.discover,
            hash: self.hash,
            metadata: self.metadata,
            db_write: self.db_write,
            thumb: self.thumb,
        }
    }
}

} // verus!
