//! Decision logic of a camera-footage ingestion engine: deriving timestamps
//! from path names, judging write stability, queueing work without
//! duplicates, and reconciling stored records with the files on disk.

pub mod calendar;
pub mod codec;
pub mod config;
pub mod cron_job;
pub mod models;
pub mod path;
pub mod queue;
pub mod stability;
pub mod text;
pub mod worker;
