//! Date-range resolution and hourly-series compaction for a weather forecast client.

pub mod calendar;
pub mod text;
pub mod request;
pub mod instant;
pub mod zone;
pub mod resolve;
pub mod width;
pub mod weather;
pub mod compact;
pub mod dedup;
pub mod table;
