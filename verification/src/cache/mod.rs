//! Cache bookkeeping: buckets, entries, statistics, song download metadata,
//! eviction planning, the entry catalog, settings, and file naming.

pub mod catalog;
pub mod error;
pub mod eviction;
pub mod keys;
pub mod settings;
pub mod song;
pub mod song_plan;
pub mod song_source;
pub mod storage;
pub mod types;
