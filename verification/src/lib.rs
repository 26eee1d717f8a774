//! Verified core of a parachain resource-utilization tracker.
//!
//! The library covers the logic of the tracker: normalizing raw per-block
//! weight figures into utilization samples, the durable record format of the
//! per-collector shard logs, consolidation of redundant shards into one
//! canonical series, the query engine over that series (time-range filtering,
//! pagination, time-bucket aggregation), and reconstruction plus matching of
//! the on-chain subscription payment. File and network I/O around this core
//! live outside the library.

pub mod api;
pub mod chaindata;
pub mod consolidator;
pub mod parachains;
pub mod payment;
pub mod query;
pub mod registry;
pub mod sampler;
pub mod storage;
pub mod text;
pub mod time;
pub mod types;
pub mod watcher;
