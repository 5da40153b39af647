//! Audio streaming decisions: the throttled cache file shared by reader and
//! writer, seek and trim arithmetic, the playback clock, output formats and
//! output-device naming.

pub mod storage_state;
pub mod source;
pub mod seek;
pub mod playback;
pub mod download_control;
pub mod cache_tracker;
pub mod formats;
pub mod devices;
pub mod device_listing;
pub mod http_range;
pub mod output_config;
