//! Streams with their encoder processes, and reports.
use crate::cache::CacheStatsSnapshot;
use crate::clock::Timestamp;
use crate::metrics::{MetricPoint, ThroughputMetrics};
use crate::models::StatsSnapshot;
use vstd::prelude::*;

verus! {

/// An active stream and the process that encodes it.
#[derive(Debug, Clone, Copy, PartialEq)]
pub struct StreamInfo {
    pub pid: u32,
    pub started_at: Timestamp,
    pub last_accessed: Timestamp,
}

/// What is reported of an active stream.
#[derive(Debug, Clone, PartialEq)]
pub struct StreamStatus {
    pub key: String,
    pub pid: u32,
    pub uptime: i64,
    pub last_accessed: i64,
    pub viewers: usize,
}

#[derive(Debug, PartialEq)]
pub struct StatusResponse {
    pub active_streams: Vec<StreamStatus>,
    pub pending_streams: Vec<String>,
    pub failed_streams: Vec<String>,
    pub stats: StatsSnapshot,
    pub cache_stats: CacheStatsSnapshot,
    pub uptime_seconds: i64,
    pub throughput: ThroughputMetrics,
    pub metrics_history: Vec<MetricPoint>,
}

} // verus!
