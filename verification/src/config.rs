//! What a deployment chooses: where to watch, what to take for a video, how
//! names encode time, and how long to wait between steps.

use crate::codec::Convention;
use vstd::prelude::*;

verus! {

/// The longest interval, in seconds, at which the watched tree may be polled.
pub const MAX_POLL_INTERVAL_SECS: u64 = 30;

/// The extension of video files, without its dot.
pub const DEFAULT_EXTENSION: &'static str = "mp4";

/// How many samples of a file's size are taken to judge it.
pub const DEFAULT_SAMPLE_COUNT: u32 = 3;

/// The time between two samples of a file's size, in milliseconds.
pub const DEFAULT_SAMPLE_INTERVAL_MS: u64 = 2000;

/// How long the ingestion loop waits on an empty queue before it looks
/// again without having been woken, in seconds.
pub const DEFAULT_IDLE_FALLBACK_SECS: u64 = 30;

/// The pause after each file, in milliseconds.
pub const DEFAULT_PAUSE_MS: u64 = 500;

/// The time between two sweeps for deleted files, in seconds.
pub const DEFAULT_SWEEP_INTERVAL_SECS: u64 = 3600;

/// The settings of one deployment.
#[derive(Clone, Debug, PartialEq, Eq)]
pub struct IngestConfig {
    /// The directory that is watched, with all below it.
    pub root: String,
    /// The extension of video files, without its dot.
    pub extension: String,
    /// How directory names encode the day and the hour.
    pub convention: Convention,
    /// The interval at which the watched tree is polled, in seconds.
    pub poll_interval_secs: u64,
    /// How many samples of a file's size are taken to judge it.
    pub sample_count: u32,
    /// The time between two samples, in milliseconds.
    pub sample_interval_ms: u64,
    /// The wait on an empty queue, in seconds.
    pub idle_fallback_secs: u64,
    /// The pause after each file, in milliseconds.
    pub pause_ms: u64,
    /// The time between two sweeps, in seconds.
    pub sweep_interval_secs: u64,
}

impl IngestConfig {
    /// Whether the settings can be run with: events are not delayed beyond
    /// the bound on polling, a file can be judged stable at all, which takes
    /// two samples, and the sweep does not spin.
    pub open spec fn wf(&self) -> bool {
        &&& 1 <= self.poll_interval_secs <= MAX_POLL_INTERVAL_SECS
        &&& self.sample_count >= 2
        &&& self.sweep_interval_secs >= 1
    }

    /// The usual settings for the tree under `root`.
    pub fn new(root: &str) -> (config: IngestConfig)
        ensures
            config.wf(),
            config.root@ == root@,
            config.extension@ == DEFAULT_EXTENSION@,
            config.convention == Convention::Prefixed,
            config.poll_interval_secs == MAX_POLL_INTERVAL_SECS,
            config.sample_count == DEFAULT_SAMPLE_COUNT,
            config.sample_interval_ms == DEFAULT_SAMPLE_INTERVAL_MS,
            config.idle_fallback_secs == DEFAULT_IDLE_FALLBACK_SECS,
            config.pause_ms == DEFAULT_PAUSE_MS,
            config.sweep_interval_secs == DEFAULT_SWEEP_INTERVAL_SECS,
    {
        IngestConfig {
            root: root.to_owned(),
            extension: DEFAULT_EXTENSION.to_owned(),
            convention: Convention::Prefixed,
            poll_interval_secs: MAX_POLL_INTERVAL_SECS,
            sample_count: DEFAULT_SAMPLE_COUNT,
            sample_interval_ms: DEFAULT_SAMPLE_INTERVAL_MS,
            idle_fallback_secs: DEFAULT_IDLE_FALLBACK_SECS,
            pause_ms: DEFAULT_PAUSE_MS,
            sweep_interval_secs: DEFAULT_SWEEP_INTERVAL_SECS,
        }
    }

    /// Whether the settings can be run with.
    pub fn is_valid(&self) -> (b: bool)
        ensures
            b == self.wf(),
    {
        1 <= self.poll_interval_secs && self.poll_interval_secs <= MAX_POLL_INTERVAL_SECS
            && self.sample_count >= 2 && self.sweep_interval_secs >= 1
    }
}

} // verus!
