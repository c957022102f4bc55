//! Counters and reports.
use crate::clock::Timestamp;
use vstd::prelude::*;

verus! {

/// An active stream: when it started, when it was last asked for, and what it served
/// since its metrics were last taken.
#[derive(Debug, Clone, Copy, PartialEq)]
pub struct StreamInfo {
    pub started_at: Timestamp,
    pub last_accessed: Timestamp,
    pub bytes_served: u64,
    pub requests_served: u64,
    pub segments_served: u64,
    pub playlists_served: u64,
    pub cache_hits: u64,
    pub cache_misses: u64,
    pub last_metrics_timestamp: Timestamp,
}

impl StreamInfo {
    /// A stream that starts at `now`.
    pub open spec fn started(now: Timestamp) -> StreamInfo {
        StreamInfo {
            started_at: now,
            last_accessed: now,
            bytes_served: 0,
            requests_served: 0,
            segments_served: 0,
            playlists_served: 0,
            cache_hits: 0,
            cache_misses: 0,
            last_metrics_timestamp: now,
        }
    }

    /// A stream that starts at `now`.
    pub fn new(now: Timestamp) -> (r: Self)
        ensures
            r == StreamInfo::started(now),
    {
        StreamInfo {
            started_at: now,
            last_accessed: now,
            bytes_served: 0,
            requests_served: 0,
            segments_served: 0,
            playlists_served: 0,
            cache_hits: 0,
            cache_misses: 0,
            last_metrics_timestamp: now,
        }
    }
}

/// What was served within some time. The rates per second, the bit rate and the cache
/// hit rate follow from these numbers.
#[derive(Debug, Clone, Copy, PartialEq, Eq)]
pub struct RateSample {
    pub elapsed_millis: i64,
    pub bytes: u64,
    pub requests: u64,
    pub segments: u64,
    pub cache_hits: u64,
    pub cache_misses: u64,
}

/// What is reported of an active stream.
#[derive(Debug, Clone, PartialEq)]
pub struct StreamStatus {
    pub key: String,
    pub uptime: i64,
    pub last_accessed: i64,
    pub viewers: usize,
    pub rates: RateSample,
}

/// What a server counts over its life. Each counter wraps around at its end.
#[derive(Debug, Clone, Copy, PartialEq, Eq)]
pub struct Stats {
    pub started: u64,
    pub stopped: u64,
    pub failed: u64,
    pub requests: u64,
    pub total_viewers: u64,
    pub bytes_served: u64,
    pub segments_served: u64,
    pub playlists_served: u64,
}

impl Stats {
    /// Nothing counted.
    pub open spec fn zero() -> Stats {
        Stats {
            started: 0,
            stopped: 0,
            failed: 0,
            requests: 0,
            total_viewers: 0,
            bytes_served: 0,
            segments_served: 0,
            playlists_served: 0,
        }
    }

    /// Counts that start at nothing.
    pub fn new() -> (r: Self)
        ensures
            r == Stats::zero(),
    {
        Stats {
            started: 0,
            stopped: 0,
            failed: 0,
            requests: 0,
            total_viewers: 0,
            bytes_served: 0,
            segments_served: 0,
            playlists_served: 0,
        }
    }

    /// The counts as they stand.
    pub open spec fn snapshot(self) -> StatsSnapshot {
        StatsSnapshot {
            started: self.started as usize,
            stopped: self.stopped as usize,
            failed: self.failed as usize,
            requests: self.requests as usize,
            total_viewers: self.total_viewers as usize,
            bytes_served: self.bytes_served,
            segments_served: self.segments_served,
            playlists_served: self.playlists_served,
        }
    }

    /// The counts as they stand.
    pub fn to_snapshot(&self) -> (r: StatsSnapshot)
        ensures
            r == self.snapshot(),
    {
        StatsSnapshot {
            started: self.started as usize,
            stopped: self.stopped as usize,
            failed: self.failed as usize,
            requests: self.requests as usize,
            total_viewers: self.total_viewers as usize,
            bytes_served: self.bytes_served,
            segments_served: self.segments_served,
            playlists_served: self.playlists_served,
        }
    }
}

#[derive(Debug, Clone, Copy, PartialEq, Eq)]
pub struct StatsSnapshot {
    pub started: usize,
    pub stopped: usize,
    pub failed: usize,
    pub requests: usize,
    pub total_viewers: usize,
    pub bytes_served: u64,
    pub segments_served: u64,
    pub playlists_served: u64,
}

#[derive(Debug, Clone, PartialEq)]
pub struct HealthResponse {
    pub status: String,
    pub active_streams: usize,
    pub pending_streams: usize,
    pub max_streams: usize,
    pub stats: StatsSnapshot,
}

#[derive(Debug, Clone, PartialEq)]
pub struct StatusResponse {
    pub active_streams: Vec<StreamStatus>,
    pub pending_streams: Vec<String>,
    pub uptime_seconds: i64,
}

/// A report of the counts gives each of them as it stands.
pub proof fn law_snapshot_tells_each_count(s: Stats)
    requires
        s.started <= usize::MAX,
        s.stopped <= usize::MAX,
        s.failed <= usize::MAX,
        s.requests <= usize::MAX,
        s.total_viewers <= usize::MAX,
    ensures
        s.snapshot().started == s.started,
        s.snapshot().stopped == s.stopped,
        s.snapshot().failed == s.failed,
        s.snapshot().requests == s.requests,
        s.snapshot().total_viewers == s.total_viewers,
        s.snapshot().bytes_served == s.bytes_served,
        s.snapshot().segments_served == s.segments_served,
        s.snapshot().playlists_served == s.playlists_served,
{
}

} // verus!
