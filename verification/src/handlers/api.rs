//! How the server is.
use crate::clock::{elapsed_millis, elapsed_seconds, millis_between, seconds_between, utc_now, Timestamp};
use crate::elasticsearch::{MetricsDocument, MetricsSubject};
use crate::handlers::reply::{plain, plain_reply, Reply};
use crate::handlers::segment::segment_served;
use crate::manager::{reports, served, ManagerView, StreamManager};
use crate::models::{HealthResponse, RateSample, Stats, StatusResponse, StreamInfo, StreamStatus};
use crate::text::texts;
use vstd::prelude::*;
use vstd::string::*;

verus! {

broadcast use vstd::string::group_string_axioms;

/// The counts with the number of viewers at `now`.
pub open spec fn with_viewers(v: ManagerView, now: Timestamp) -> Stats {
    Stats { total_viewers: v.sessions.total_viewers(now) as u64, ..v.stats }
}

/// Fewer streams run than may.
pub open spec fn is_healthy(v: ManagerView) -> bool {
    v.active.dom().len() < v.settings.max_concurrent_streams
}

/// What a look at the server's health says, and what it changes: the count of viewers.
pub open spec fn health(
    before: ManagerView,
    now: Timestamp,
    status: u16,
    r: HealthResponse,
    after: ManagerView,
) -> bool {
    &&& status == (if is_healthy(before) { 200u16 } else { 503u16 })
    &&& r.status@ == (if is_healthy(before) { "healthy"@ } else { "unhealthy"@ })
    &&& r.active_streams == before.active.dom().len()
    &&& r.pending_streams == before.pending.dom().len()
    &&& r.max_streams == before.settings.max_concurrent_streams
    &&& r.stats == with_viewers(before, now).snapshot()
    &&& after == (ManagerView { stats: with_viewers(before, now), ..before })
}

/// What a stream served, over at least a millisecond: where no time has passed, over a
/// second.
pub open spec fn recent(info: StreamInfo, now: Timestamp) -> RateSample {
    if millis_between(now, info.last_metrics_timestamp) > 0 {
        served(info, now)
    } else {
        RateSample { elapsed_millis: 1000, ..served(info, now) }
    }
}

/// What is reported of an active stream at `now`.
pub open spec fn describes(r: StreamStatus, v: ManagerView, key: Seq<char>, now: Timestamp) -> bool {
    &&& r.key@ == key
    &&& r.uptime == seconds_between(now, v.active[key].started_at)
    &&& r.last_accessed == seconds_between(now, v.active[key].last_accessed)
    &&& r.viewers == v.sessions.stream_viewers(key, now)
    &&& r.rates == recent(v.active[key], now)
}

/// Looks at the server's health now.
pub fn health_check(manager: &mut StreamManager) -> (r: (u16, HealthResponse))
    requires
        old(manager).wf(),
    ensures
        final(manager).wf(),
        exists|now: Timestamp| #[trigger] health(old(manager)@, now, r.0, r.1, final(manager)@),
{
    let now = utc_now();
    health_check_at(manager, now)
}

/// Looks at the server's health at `now`.
pub fn health_check_at(manager: &mut StreamManager, now: Timestamp) -> (r: (u16, HealthResponse))
    requires
        old(manager).wf(),
    ensures
        final(manager).wf(),
        health(old(manager)@, now, r.0, r.1, final(manager)@),
{
    let viewers: usize = manager.session_manager.total_viewer_count_at(now);
    manager.stats.total_viewers = viewers as u64;
    let active_streams: usize = manager.active_streams.len();
    let healthy = active_streams < manager.max_concurrent_streams;
    let response = HealthResponse {
        status: if healthy {
            "healthy".to_owned()
        } else {
            "unhealthy".to_owned()
        },
        active_streams,
        pending_streams: manager.pending_streams.len(),
        max_streams: manager.max_concurrent_streams,
        stats: manager.stats.to_snapshot(),
    };
    if healthy {
        (200, response)
    } else {
        (503, response)
    }
}

/// Reports what runs now.
pub fn status(manager: &StreamManager) -> (r: StatusResponse)
    requires
        manager.wf(),
    ensures
        texts(r.pending_streams@) == manager.pending_streams.order(),
        r.active_streams@.len() == manager.active_streams.order().len(),
        exists|now: Timestamp|
            {
                &&& r.uptime_seconds == #[trigger] seconds_between(now, manager.server_started_at)
                &&& forall|i: int|
                    0 <= i < r.active_streams@.len() ==> describes(
                        #[trigger] r.active_streams@[i],
                        manager@,
                        manager.active_streams.order()[i],
                        now,
                    )
            },
{
    let now = utc_now();
    status_at(manager, now)
}

/// Reports what runs at `now`.
pub fn status_at(manager: &StreamManager, now: Timestamp) -> (r: StatusResponse)
    requires
        manager.wf(),
    ensures
        texts(r.pending_streams@) == manager.pending_streams.order(),
        r.active_streams@.len() == manager.active_streams.order().len(),
        r.uptime_seconds == seconds_between(now, manager.server_started_at),
        forall|i: int|
            0 <= i < r.active_streams@.len() ==> describes(
                #[trigger] r.active_streams@[i],
                manager@,
                manager.active_streams.order()[i],
                now,
            ),
{
    let ghost order = manager.active_streams.order();
    let mut active_streams: Vec<StreamStatus> = Vec::new();
    let mut i: usize = 0;
    while i < manager.active_streams.len()
        invariant
            manager.wf(),
            order == manager.active_streams.order(),
            0 <= i <= order.len(),
            active_streams@.len() == i,
            forall|j: int|
                0 <= j < i ==> describes(#[trigger] active_streams@[j], manager@, order[j], now),
        decreases order.len() - i,
    {
        proof {
            manager.active_streams.lemma_order();
        }
        let key = manager.active_streams.key_at(i);
        let info = manager.active_streams.value_at(i);
        assert(manager@.active[order[i as int]] == *info);
        let elapsed: i64 = elapsed_millis(now, info.last_metrics_timestamp);
        active_streams.push(
            StreamStatus {
                key: key.clone(),
                uptime: elapsed_seconds(now, info.started_at),
                last_accessed: elapsed_seconds(now, info.last_accessed),
                viewers: manager.session_manager.stream_viewer_count_at(key.as_str(), now),
                rates: RateSample {
                    elapsed_millis: if elapsed > 0 {
                        elapsed
                    } else {
                        1000
                    },
                    bytes: info.bytes_served,
                    requests: info.requests_served,
                    segments: info.segments_served,
                    cache_hits: info.cache_hits,
                    cache_misses: info.cache_misses,
                },
            },
        );
        i = i + 1;
    }
    StatusResponse {
        active_streams,
        pending_streams: manager.pending_streams.keys(),
        uptime_seconds: elapsed_seconds(now, manager.server_started_at),
    }
}

/// There is no dashboard any more.
pub fn dashboard() -> (r: Reply)
    ensures
        r@ == plain(404, "Dashboard has been removed"@),
{
    plain_reply(404, "Dashboard has been removed")
}

// ---------------------------------------------------------------------------
// Laws
// ---------------------------------------------------------------------------

/// After some segments of a stream were served, each of some size, from the cache or not.
pub open spec fn after_segments(v: ManagerView, key: Seq<char>, served: Seq<(nat, bool)>) -> ManagerView
    decreases served.len(),
{
    if served.len() == 0 {
        v
    } else {
        segment_served(
            after_segments(v, key, served.drop_last()),
            key,
            served.last().0,
            served.last().1,
        )
    }
}

/// How many of some segments came from the cache.
pub open spec fn from_cache(served: Seq<(nat, bool)>) -> nat
    decreases served.len(),
{
    if served.len() == 0 {
        0
    } else {
        from_cache(served.drop_last()) + (if served.last().1 {
            1nat
        } else {
            0
        })
    }
}

/// How many bytes some segments have.
pub open spec fn total_size(served: Seq<(nat, bool)>) -> nat
    decreases served.len(),
{
    if served.len() == 0 {
        0
    } else {
        total_size(served.drop_last()) + served.last().0
    }
}

proof fn lemma_after_segments(v: ManagerView, key: Seq<char>, served: Seq<(nat, bool)>)
    requires
        v.active.contains_key(key),
        v.active[key].bytes_served + total_size(served) <= u64::MAX,
        v.active[key].requests_served + served.len() <= u64::MAX,
        v.active[key].segments_served + served.len() <= u64::MAX,
        v.active[key].cache_hits + served.len() <= u64::MAX,
        v.active[key].cache_misses + served.len() <= u64::MAX,
    ensures
        ({
            let (a, b) = (v.active[key], after_segments(v, key, served).active[key]);
            &&& from_cache(served) <= served.len()
            &&& after_segments(v, key, served).active.contains_key(key)
            &&& b.bytes_served == a.bytes_served + total_size(served)
            &&& b.requests_served == a.requests_served + served.len()
            &&& b.segments_served == a.segments_served + served.len()
            &&& b.cache_hits == a.cache_hits + from_cache(served)
            &&& b.cache_misses == a.cache_misses + (served.len() - from_cache(served))
            &&& b.last_metrics_timestamp == a.last_metrics_timestamp
            &&& b.started_at == a.started_at
            &&& b.last_accessed == a.last_accessed
            &&& after_segments(v, key, served).sessions == v.sessions
        }),
    decreases served.len(),
{
    if served.len() > 0 {
        lemma_after_segments(v, key, served.drop_last());
    }
}

/// What is reported of a stream is what it served since its metrics were last taken: as many
/// segments as were served, as many hits as came from the cache and as many misses as did
/// not, and their bytes; in the metrics and in the status alike, whatever was served in
/// whatever order.
pub proof fn law_reports_tell_what_was_served(
    v: ManagerView,
    key: Seq<char>,
    served: Seq<(nat, bool)>,
    taken: Timestamp,
    now: Timestamp,
    doc: MetricsDocument,
    status: StreamStatus,
)
    requires
        v.active.contains_key(key),
        millis_between(taken, v.active[key].last_metrics_timestamp) > 0,
        total_size(served) <= u64::MAX,
        served.len() <= u64::MAX,
        reports(doc, after_segments(v.metered(taken), key, served), key, now),
        describes(status, after_segments(v.metered(taken), key, served), key, now),
    ensures
        doc.rates.segments == served.len(),
        doc.rates.requests == served.len(),
        doc.rates.bytes == total_size(served),
        doc.rates.cache_hits == from_cache(served),
        doc.rates.cache_misses == served.len() - from_cache(served),
        millis_between(now, taken) == doc.rates.elapsed_millis || !(i64::MIN <= millis_between(now, taken)
            <= i64::MAX),
        status.rates.segments == served.len(),
        status.rates.requests == served.len(),
        status.rates.bytes == total_size(served),
        status.rates.cache_hits == from_cache(served),
        status.rates.cache_misses == served.len() - from_cache(served),
        status.uptime == seconds_between(now, v.active[key].started_at),
        status.last_accessed == seconds_between(now, v.active[key].last_accessed),
        doc.viewers == v.sessions.stream_viewers(key, now),
        status.viewers == v.sessions.stream_viewers(key, now),
        doc.timestamp == now,
        status.key@ == key,
        doc.subject == (MetricsSubject::Stream { stream_name: doc.subject->stream_name }),
        doc.subject->stream_name@ == key,
{
    let w = v.metered(taken);
    assert(w.active[key].cache_hits == 0 && w.active[key].cache_misses == 0);
    lemma_after_segments(w, key, served);
}

/// One segment more adds one to the hits or to the misses that are reported, never to both,
/// and adds its bytes.
pub proof fn law_segment_adds_hit_or_miss(
    v: ManagerView,
    key: Seq<char>,
    size: nat,
    was_cached: bool,
    other: Seq<char>,
    now: Timestamp,
)
    requires
        v.active.contains_key(key),
        v.active[key].cache_hits < u64::MAX,
        v.active[key].cache_misses < u64::MAX,
        v.active[key].segments_served < u64::MAX,
        v.active[key].bytes_served + size <= u64::MAX,
        v.stats.bytes_served + size <= u64::MAX,
        v.stats.segments_served < u64::MAX,
        v.stats.requests < u64::MAX,
        other != key,
    ensures
        ({
            let w = segment_served(v, key, size, was_cached);
            let (a, b) = (served(v.active[key], now), served(w.active[key], now));
            let (x, y) = (recent(v.active[key], now), recent(w.active[key], now));
            &&& b.cache_hits == a.cache_hits + (if was_cached { 1int } else { 0 })
            &&& b.cache_misses == a.cache_misses + (if was_cached { 0int } else { 1 })
            &&& b.segments == a.segments + 1
            &&& b.bytes == a.bytes + size
            &&& y.cache_hits == x.cache_hits + (if was_cached { 1int } else { 0 })
            &&& y.cache_misses == x.cache_misses + (if was_cached { 0int } else { 1 })
            &&& y.segments == x.segments + 1
            &&& y.bytes == x.bytes + size
            &&& w.stats.segments_served == v.stats.segments_served + 1
            &&& w.stats.requests == v.stats.requests + 1
            &&& w.stats.bytes_served == v.stats.bytes_served + size
            &&& w.stats.playlists_served == v.stats.playlists_served
            &&& v.active.contains_key(other) ==> w.active[other] == v.active[other]
        }),
{
}

/// The server is well exactly while fewer streams run than may, and its health tells how
/// many viewers there are and how many streams run and are pending.
pub proof fn law_health_tells_room_and_viewers(
    v: ManagerView,
    now: Timestamp,
    status: u16,
    r: HealthResponse,
    after: ManagerView,
)
    requires
        health(v, now, status, r, after),
        v.sessions.total_viewers(now) <= usize::MAX,
    ensures
        v.active.dom().len() < v.settings.max_concurrent_streams ==> status == 200 && r.status@
            == "healthy"@,
        v.active.dom().len() >= v.settings.max_concurrent_streams ==> status == 503 && r.status@
            == "unhealthy"@,
        r.stats.total_viewers == v.sessions.total_viewers(now),
        r.active_streams == v.active.dom().len(),
        r.pending_streams == v.pending.dom().len(),
        r.max_streams == v.settings.max_concurrent_streams,
        r.stats.bytes_served == v.stats.bytes_served,
        r.stats.segments_served == v.stats.segments_served,
        r.stats.playlists_served == v.stats.playlists_served,
        after.active == v.active && after.pending == v.pending && after.sessions == v.sessions,
{
}

/// What is reported of a stream covers the whole milliseconds since its metrics were last
/// taken, or a second where none has passed.
pub proof fn law_reports_cover_the_time_since(info: StreamInfo, now: Timestamp)
    requires
        millis_between(now, info.last_metrics_timestamp) <= i64::MAX,
    ensures
        ({
            let millis = millis_between(now, info.last_metrics_timestamp);
            &&& millis > 0 ==> recent(info, now).elapsed_millis == millis
            &&& millis > 0 ==> served(info, now).elapsed_millis == millis
            &&& millis <= 0 ==> recent(info, now).elapsed_millis == 1000
        }),
{
}

} // verus!
