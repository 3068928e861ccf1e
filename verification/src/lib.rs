//! Codec for a sync-delimited binary telemetry protocol: a frame codec
//! (header, length-prefixed payload records, running-sum checksum), a generic
//! schema-driven record field decoder, per-category record dispatch, and a
//! byte-at-a-time stream synchronizer that recovers frame boundaries.

pub mod dispatch;
pub mod error;
pub mod field;
pub mod packet;
pub mod records;
pub mod sync;
