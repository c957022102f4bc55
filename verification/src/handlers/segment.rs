//! Segments of streams.
use crate::cache::CachedSegment;
use crate::handlers::common::requested;
use crate::handlers::reply::{plain, plain_reply, segment, segment_reply, Reply};
use crate::manager::{ManagerView, StreamManager};
use crate::models::{Stats, StreamInfo};
use vstd::prelude::*;
use vstd::string::*;

verus! {

broadcast use vstd::string::group_string_axioms;

/// A stream after one of its segments was served.
pub open spec fn segment_counted(info: StreamInfo, size: nat, was_cached: bool) -> StreamInfo {
    StreamInfo {
        segments_served: info.segments_served.wrapping_add(1),
        bytes_served: info.bytes_served.wrapping_add(size as u64),
        requests_served: info.requests_served.wrapping_add(1),
        cache_hits: if was_cached {
            info.cache_hits.wrapping_add(1)
        } else {
            info.cache_hits
        },
        cache_misses: if was_cached {
            info.cache_misses
        } else {
            info.cache_misses.wrapping_add(1)
        },
        ..info
    }
}

/// After a segment of a stream was served.
pub open spec fn segment_served(
    v: ManagerView,
    key: Seq<char>,
    size: nat,
    was_cached: bool,
) -> ManagerView {
    ManagerView {
        active: if v.active.contains_key(key) {
            v.active.insert(key, segment_counted(v.active[key], size, was_cached))
        } else {
            v.active
        },
        stats: requested(
            Stats { segments_served: v.stats.segments_served.wrapping_add(1), ..v.stats },
            size,
        ),
        ..v
    }
}

/// Why a segment could not be had at all.
#[derive(Debug, Clone, Copy, PartialEq, Eq)]
pub enum SegmentError {
    Cache,
}

/// Serves a segment, given what the cache made of the request: the segment and whether
/// it was kept already, nothing, or an error.
pub fn serve_segment_file(
    manager: &mut StreamManager,
    stream_key: &str,
    loaded: Result<Option<(CachedSegment, bool)>, SegmentError>,
) -> (r: Reply)
    requires
        old(manager).wf(),
    ensures
        final(manager).wf(),
        match loaded {
            Ok(Some((s, was_cached))) => {
                &&& r@ == segment(s.content_type@, "max-age=10"@, s.data@)
                &&& final(manager)@ == segment_served(
                    old(manager)@,
                    stream_key@,
                    s.data@.len(),
                    was_cached,
                )
            },
            Ok(None) => r@ == plain(404, "Segment not found"@) && final(manager)@ == old(manager)@,
            Err(_) => r@ == plain(500, "Internal server error"@) && final(manager)@ == old(manager)@,
        },
{
    match loaded {
        Ok(Some((s, was_cached))) => {
            let size: usize = s.data.len();
            if let Some(info) = manager.active_streams.get_mut(stream_key) {
                info.segments_served = info.segments_served.wrapping_add(1);
                info.bytes_served = info.bytes_served.wrapping_add(size as u64);
                info.requests_served = info.requests_served.wrapping_add(1);
                if was_cached {
                    info.cache_hits = info.cache_hits.wrapping_add(1);
                } else {
                    info.cache_misses = info.cache_misses.wrapping_add(1);
                }
            }
            manager.stats.segments_served = manager.stats.segments_served.wrapping_add(1);
            manager.stats.bytes_served = manager.stats.bytes_served.wrapping_add(size as u64);
            manager.stats.requests = manager.stats.requests.wrapping_add(1);
            segment_reply(s.content_type, "max-age=10", s.data)
        },
        Ok(None) => plain_reply(404, "Segment not found"),
        Err(_) => plain_reply(500, "Internal server error"),
    }
}

} // verus!
