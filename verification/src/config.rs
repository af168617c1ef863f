//! Process configuration: paths and tuning knobs, with their defaults.
//! The process edge reads the environment and fills one of these in.

use vstd::prelude::*;
use vstd::string::StringExecFns;

verus! {

/// The tuning knobs of the process.
pub struct Config {
    pub root: String,
    pub root_host: Option<String>,
    pub data: String,
    pub port: u16,
    pub hash_threads: usize,
    pub meta_threads: usize,
    pub thumb_threads: usize,
    pub thumb_size: u32,
    pub preview_size: u32,
}

impl Config {
    /// The built-in defaults: one root under `/photos`, data under
    /// `/flash-data`, port 9161, two hashers, two extractors, one
    /// thumbnailer, 256 and 1600 pixel derived sizes.
    pub fn defaults() -> (r: Config)
        ensures
            r.root@ == "/photos"@,
            r.root_host is None,
            r.data@ == "/flash-data"@,
            r.port == 9161,
            r.hash_threads == 2,
            r.meta_threads == 2,
            r.thumb_threads == 1,
            r.thumb_size == 256,
            r.preview_size == 1600,
    {
        Config {
            root: String::from_str("/photos"),
            root_host: None,
            data: String::from_str("/flash-data"),
            port: 9161,
            hash_threads: 2,
            meta_threads: 2,
            thumb_threads: 1,
            thumb_size: 256,
            preview_size: 1600,
        }
    }
}

/// The directories the process works in.
pub struct AppPaths {
    pub root: String,
    pub root_host: Option<String>,
    pub data: String,
    pub db_path: String,
    pub derived: String,
}

} // verus!
