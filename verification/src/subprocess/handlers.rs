//! What each HTTP request is answered.
use crate::cache::{CacheStatsSnapshot, CachedSegment};
use crate::clock::{elapsed_seconds, seconds_between, utc_now, Timestamp};
use crate::handlers::common::{
    ensure_stream_ready, lemma_endings, rewrite_playlist_urls, rewritten, rewritten_line, unavailable,
};
use crate::handlers::playlist::{redirect_playlist, redirect_text};
use crate::handlers::reply::{
    plain, plain_reply, playlist, playlist_reply, segment, segment_reply, BodyView, Reply, ReplyBody,
    ReplyView,
};
use crate::handlers::segment::SegmentError;
use crate::launch::stream_dir;
use crate::metrics::points_of;
use crate::models::{HealthResponse, Stats, StatsSnapshot};
use crate::paths::{join_path, joined, law_names_stand_below_directories};
use crate::subprocess::manager::{ManagerView, StreamManager};
use crate::subprocess::models::{StatusResponse, StreamStatus};
use crate::text::{
    before, cat3, cat5, decimal, decimal_text, ends_with, has_suffix, join, lemma_split_extend,
    lemma_split_join, lemma_split_single, pairs, same_text, split, split_text, text_of, texts,
};
use vstd::prelude::*;
use vstd::string::*;
use vstd::utf8::{encode_utf8, valid_utf8};

verus! {

broadcast use vstd::string::group_string_axioms;

/// What a path asks for.
#[derive(Debug, PartialEq)]
pub enum Route {
    /// Something that is not there, or not understood.
    Refused { status: u16, message: &'static str },
    /// A stream, for a viewer without a session.
    Welcome { stream_key: String },
    /// The playlist of a stream, for a viewer with a session.
    Playlist { stream_key: String, session: Option<String> },
    /// The playlist that lists the renditions of a stream.
    Master { stream_key: String },
    /// The playlist of a rendition.
    Variant { stream_key: String, variant: String },
    /// A segment of a stream.
    Segment { stream_key: String, segment: String },
    /// A segment of a rendition.
    VariantSegment { stream_key: String, variant: String, segment: String },
}

/// What a path asks for.
pub enum RouteView {
    Refused(u16, Seq<char>),
    Welcome(Seq<char>),
    Playlist(Seq<char>, Option<Seq<char>>),
    Master(Seq<char>),
    Variant(Seq<char>, Seq<char>),
    Segment(Seq<char>, Seq<char>),
    VariantSegment(Seq<char>, Seq<char>, Seq<char>),
}

impl View for Route {
    type V = RouteView;

    open spec fn view(&self) -> RouteView {
        match self {
            Route::Refused { status, message } => RouteView::Refused(*status, message@),
            Route::Welcome { stream_key } => RouteView::Welcome(stream_key@),
            Route::Playlist { stream_key, session } => RouteView::Playlist(
                stream_key@,
                text_of(*session),
            ),
            Route::Master { stream_key } => RouteView::Master(stream_key@),
            Route::Variant { stream_key, variant } => RouteView::Variant(stream_key@, variant@),
            Route::Segment { stream_key, segment } => RouteView::Segment(stream_key@, segment@),
            Route::VariantSegment { stream_key, variant, segment } => RouteView::VariantSegment(
                stream_key@,
                variant@,
                segment@,
            ),
        }
    }
}

/// What a path to a playlist asks for.
pub open spec fn playlist_route(path: Seq<char>, session: Option<Seq<char>>) -> RouteView {
    let parts = split(path, '/');
    if parts.len() == 1 && path.len() > 5 {
        RouteView::Welcome(path.take(path.len() - 5))
    } else if parts.len() == 2 {
        if parts[1] == "master.m3u8"@ {
            RouteView::Master(parts[0])
        } else if parts[1] == "index.m3u8"@ {
            if session is None {
                RouteView::Welcome(parts[0])
            } else {
                RouteView::Playlist(parts[0], session)
            }
        } else {
            RouteView::Refused(404, "Unknown playlist file"@)
        }
    } else if parts.len() == 3 {
        if parts[2] == "index.m3u8"@ {
            RouteView::Variant(parts[0], parts[1])
        } else {
            RouteView::Refused(404, "Invalid variant playlist path"@)
        }
    } else {
        RouteView::Refused(404, "Invalid playlist path"@)
    }
}

/// What a path below the live root asks for. Empty path components count.
pub open spec fn route_for(path: Seq<char>, session: Option<Seq<char>>) -> RouteView {
    let parts = split(path, '/');
    if has_suffix(path, ".m3u8"@) {
        playlist_route(path, session)
    } else if has_suffix(path, ".ts"@) {
        if parts.len() == 2 {
            RouteView::Segment(parts[0], parts[1])
        } else if parts.len() == 3 {
            RouteView::VariantSegment(parts[0], parts[1], parts[2])
        } else {
            RouteView::Refused(404, "Invalid segment path"@)
        }
    } else {
        RouteView::Refused(400, "Invalid file type"@)
    }
}

fn find_playlist(path: &str, session: Option<String>) -> (r: Route)
    requires
        has_suffix(path@, ".m3u8"@),
    ensures
        r@ == playlist_route(path@, text_of(session)),
{
    let parts = split_text(path, '/');
    let ghost pieces = split(path@, '/');
    assert(forall|i: int| 0 <= i < parts@.len() ==> pieces[i] == #[trigger] parts@[i]@);
    let size: usize = path.unicode_len();
    if parts.len() == 1 && size > 5 {
        Route::Welcome { stream_key: before(path, size - 5) }
    } else if parts.len() == 2 {
        if same_text(parts[1].as_str(), "master.m3u8") {
            Route::Master { stream_key: parts[0].clone() }
        } else if same_text(parts[1].as_str(), "index.m3u8") {
            if session.is_none() {
                Route::Welcome { stream_key: parts[0].clone() }
            } else {
                Route::Playlist { stream_key: parts[0].clone(), session }
            }
        } else {
            Route::Refused { status: 404, message: "Unknown playlist file" }
        }
    } else if parts.len() == 3 {
        if same_text(parts[2].as_str(), "index.m3u8") {
            Route::Variant { stream_key: parts[0].clone(), variant: parts[1].clone() }
        } else {
            Route::Refused { status: 404, message: "Invalid variant playlist path" }
        }
    } else {
        Route::Refused { status: 404, message: "Invalid playlist path" }
    }
}

/// Reads a path below the live root, with the session that the query names.
pub fn find_route(path: &str, session: Option<String>) -> (r: Route)
    ensures
        r@ == route_for(path@, text_of(session)),
{
    if ends_with(path, ".m3u8") {
        return find_playlist(path, session);
    }
    if !ends_with(path, ".ts") {
        return Route::Refused { status: 400, message: "Invalid file type" };
    }
    let parts = split_text(path, '/');
    let ghost pieces = split(path@, '/');
    assert(forall|i: int| 0 <= i < parts@.len() ==> pieces[i] == #[trigger] parts@[i]@);
    if parts.len() == 2 {
        Route::Segment { stream_key: parts[0].clone(), segment: parts[1].clone() }
    } else if parts.len() == 3 {
        Route::VariantSegment {
            stream_key: parts[0].clone(),
            variant: parts[1].clone(),
            segment: parts[2].clone(),
        }
    } else {
        Route::Refused { status: 404, message: "Invalid segment path" }
    }
}

/// What a request needs first.
#[derive(Debug, PartialEq)]
pub enum HlsStep {
    /// Nothing: this is the answer.
    Answer(Reply),
    /// The stream, for a viewer without a session.
    Welcome { stream_key: String },
    /// The playlist of the stream.
    ReadPlaylist { stream_key: String, file_path: String },
    /// The stream, which does not run, and then the playlist that lists its renditions.
    StartForMaster { stream_key: String, file_path: String },
    /// The playlist that lists the renditions.
    ReadMaster { file_path: String },
    /// The playlist of a rendition.
    ReadVariant { file_path: String },
    /// A segment, from the cache or from its file.
    LoadSegment { stream_key: String, cache_key: String, file_path: String },
    /// A segment of a rendition, from the cache or from its file.
    LoadVariantSegment { cache_key: String, file_path: String },
}

/// One more request counted.
pub open spec fn one_request(v: ManagerView) -> ManagerView {
    ManagerView { stats: Stats { requests: v.stats.requests.wrapping_add(1), ..v.stats }, ..v }
}

/// What a request needs first, and what it changes.
pub open spec fn hls_step(
    v: ManagerView,
    path: Seq<char>,
    session: Option<Seq<char>>,
    now: Timestamp,
    step: HlsStep,
    after: ManagerView,
) -> bool {
    let hls = v.settings.hls_path;
    match route_for(path, session) {
        RouteView::Refused(status, message) => {
            &&& step is Answer
            &&& step->Answer_0@ == plain(status, message)
            &&& after == v
        },
        RouteView::Welcome(key) => {
            &&& step is Welcome
            &&& step->Welcome_stream_key@ == key
            &&& after == v
        },
        RouteView::Playlist(key, id) => {
            &&& step is ReadPlaylist
            &&& step->ReadPlaylist_stream_key@ == key
            &&& step->ReadPlaylist_file_path@ == joined(stream_dir(hls, key), "index.m3u8"@)
            &&& after == one_request(
                ManagerView {
                    sessions: match id {
                        Some(id) => v.sessions.touched(id, now),
                        None => v.sessions,
                    },
                    ..v
                },
            ).accessed(key, now)
        },
        RouteView::Master(key) => {
            &&& after == v.accessed(key, now)
            &&& if v.active.contains_key(key) {
                &&& step is ReadMaster
                &&& step->ReadMaster_file_path@ == joined(stream_dir(hls, key), "master.m3u8"@)
            } else {
                &&& step is StartForMaster
                &&& step->StartForMaster_stream_key@ == key
                &&& step->StartForMaster_file_path@ == joined(stream_dir(hls, key), "master.m3u8"@)
            }
        },
        RouteView::Variant(key, variant) => {
            &&& step is ReadVariant
            &&& step->ReadVariant_file_path@ == joined(
                joined(stream_dir(hls, key), variant),
                "index.m3u8"@,
            )
            &&& after == v.accessed(key, now)
        },
        RouteView::Segment(key, segment) => {
            &&& step is LoadSegment
            &&& step->LoadSegment_stream_key@ == key
            &&& step->LoadSegment_cache_key@ == key + "/"@ + segment
            &&& step->LoadSegment_file_path@ == joined(stream_dir(hls, key), segment)
            &&& after == one_request(v).accessed(key, now)
        },
        RouteView::VariantSegment(key, variant, segment) => {
            &&& step is LoadVariantSegment
            &&& step->LoadVariantSegment_cache_key@ == key + "/"@ + variant + "/"@ + segment
            &&& step->LoadVariantSegment_file_path@ == joined(
                joined(stream_dir(hls, key), variant),
                segment,
            )
            &&& after == v.accessed(key, now)
        },
    }
}

/// Reads a request for HLS content now.
pub fn serve_hls_content(manager: &mut StreamManager, path: &str, session: Option<String>) -> (r: HlsStep)
    requires
        old(manager).wf(),
    ensures
        final(manager).wf(),
        exists|now: Timestamp| #[trigger]
            hls_step(old(manager)@, path@, text_of(session), now, r, final(manager)@),
{
    let now = utc_now();
    serve_hls_content_at(manager, path, session, now)
}

/// Reads a request for HLS content at `now`.
pub fn serve_hls_content_at(
    manager: &mut StreamManager,
    path: &str,
    session: Option<String>,
    now: Timestamp,
) -> (r: HlsStep)
    requires
        old(manager).wf(),
    ensures
        final(manager).wf(),
        hls_step(old(manager)@, path@, text_of(session), now, r, final(manager)@),
{
    match find_route(path, session) {
        Route::Refused { status, message } => HlsStep::Answer(plain_reply(status, message)),
        Route::Welcome { stream_key } => HlsStep::Welcome { stream_key },
        Route::Playlist { stream_key, session } => {
            if let Some(id) = &session {
                manager.session_manager.update_session_at(id.as_str(), now);
            }
            manager.stats.requests = manager.stats.requests.wrapping_add(1);
            manager.update_stream_access_at(stream_key.as_str(), now);
            let file_path = manager.playlist_path(stream_key.as_str());
            HlsStep::ReadPlaylist { stream_key, file_path }
        },
        Route::Master { stream_key } => {
            manager.update_stream_access_at(stream_key.as_str(), now);
            let dir = manager.stream_dir(stream_key.as_str());
            let file_path = join_path(dir.as_str(), "master.m3u8");
            if manager.active_streams.contains_key(stream_key.as_str()) {
                HlsStep::ReadMaster { file_path }
            } else {
                HlsStep::StartForMaster { stream_key, file_path }
            }
        },
        Route::Variant { stream_key, variant } => {
            manager.update_stream_access_at(stream_key.as_str(), now);
            let dir = manager.stream_dir(stream_key.as_str());
            let variant_dir = join_path(dir.as_str(), variant.as_str());
            HlsStep::ReadVariant { file_path: join_path(variant_dir.as_str(), "index.m3u8") }
        },
        Route::Segment { stream_key, segment } => {
            manager.stats.requests = manager.stats.requests.wrapping_add(1);
            manager.update_stream_access_at(stream_key.as_str(), now);
            let dir = manager.stream_dir(stream_key.as_str());
            let file_path = join_path(dir.as_str(), segment.as_str());
            let cache_key = cat3(stream_key.as_str(), "/", segment.as_str());
            HlsStep::LoadSegment { stream_key, cache_key, file_path }
        },
        Route::VariantSegment { stream_key, variant, segment } => {
            manager.update_stream_access_at(stream_key.as_str(), now);
            let dir = manager.stream_dir(stream_key.as_str());
            let variant_dir = join_path(dir.as_str(), variant.as_str());
            HlsStep::LoadVariantSegment {
                cache_key: cat5(
                    stream_key.as_str(),
                    "/",
                    variant.as_str(),
                    "/",
                    segment.as_str(),
                ),
                file_path: join_path(variant_dir.as_str(), segment.as_str()),
            }
        },
    }
}

/// After a viewer was given a session on a stream.
pub open spec fn welcomed(v: ManagerView, key: Seq<char>, session: Seq<char>, now: Timestamp) -> ManagerView {
    let w = one_request(v);
    ManagerView { sessions: w.sessions.opened(session, key, now), ..w }
}

/// Answers a first request for a stream: with a new session, where the stream is ready.
pub fn serve_master_playlist(
    manager: &mut StreamManager,
    stream_key: &str,
    ready: bool,
    master_exists: bool,
) -> (r: Reply)
    requires
        old(manager).wf(),
    ensures
        final(manager).wf(),
        !ready ==> r@ == unavailable(old(manager)@.failed.contains_key(stream_key@))
            && final(manager)@ == old(manager)@,
        ready ==> exists|session: Seq<char>, now: Timestamp|
            {
                &&& old(manager)@.sessions.offers(session)
                &&& final(manager)@ == #[trigger] welcomed(old(manager)@, stream_key@, session, now)
                &&& r@ == playlist(redirect_playlist(stream_key@, session, master_exists))
            },
{
    match ensure_stream_ready(ready, manager.failed_streams.contains_key(stream_key)) {
        Some(reply) => reply,
        None => {
            let session_id = manager.session_manager.offer_session_id();
            let now = utc_now();
            welcome_viewer_at(manager, stream_key, session_id.as_str(), master_exists, now)
        },
    }
}

/// Answers a first request for a stream that is ready, with the given session, which no
/// other viewer may have where viewers are tracked.
pub fn welcome_viewer_at(
    manager: &mut StreamManager,
    stream_key: &str,
    session_id: &str,
    master_exists: bool,
    now: Timestamp,
) -> (r: Reply)
    requires
        old(manager).wf(),
        old(manager)@.sessions.tracking ==> old(manager)@.sessions.unused(session_id@),
    ensures
        final(manager).wf(),
        final(manager)@ == welcomed(old(manager)@, stream_key@, session_id@, now),
        r@ == playlist(redirect_playlist(stream_key@, session_id@, master_exists)),
{
    manager.stats.requests = manager.stats.requests.wrapping_add(1);
    manager.session_manager.open_session(stream_key, session_id, now);
    playlist_reply(redirect_text(stream_key, session_id, master_exists))
}

/// The text of some bytes, with a replacement for what is no valid UTF-8.
pub uninterp spec fn lossy_text(data: Seq<u8>) -> Seq<char>;

/// `String::from_utf8_lossy` of the standard library reads bytes as text and puts a
/// replacement in the place of what is no valid UTF-8; valid bytes are read as they are.
#[verifier::external_body]
fn read_lossy(data: &Vec<u8>) -> (r: String)
    ensures
        r@ == lossy_text(data@),
        valid_utf8(data@) ==> encode_utf8(r@) == data@,
{
    String::from_utf8_lossy(data).into_owned()
}

/// After a playlist was served.
pub open spec fn playlist_counted(v: ManagerView, body: Seq<char>) -> ManagerView {
    ManagerView {
        stats: Stats {
            playlists_served: v.stats.playlists_served.wrapping_add(1),
            bytes_served: v.stats.bytes_served.wrapping_add(encode_utf8(body).len() as u64),
            ..v.stats
        },
        ..v
    }
}

/// Serves the playlist of a stream, given the bytes that were read of it.
pub fn serve_actual_playlist(manager: &mut StreamManager, stream_key: &str, data: Option<Vec<u8>>) -> (r:
    Reply)
    requires
        old(manager).wf(),
    ensures
        final(manager).wf(),
        match data {
            Some(bytes) => {
                let body = rewritten(lossy_text(bytes@), stream_key@);
                &&& r@ == playlist(body)
                &&& final(manager)@ == playlist_counted(old(manager)@, body)
            },
            None => r@ == plain(404, "Playlist not found"@) && final(manager)@ == old(manager)@,
        },
{
    match data {
        Some(data) => {
            let content = read_lossy(&data);
            serve_playlist_text(manager, stream_key, content.as_str())
        },
        None => plain_reply(404, "Playlist not found"),
    }
}

/// Serves the playlist of a stream.
pub fn serve_playlist_text(manager: &mut StreamManager, stream_key: &str, content: &str) -> (r: Reply)
    requires
        old(manager).wf(),
    ensures
        final(manager).wf(),
        r@ == playlist(rewritten(content@, stream_key@)),
        final(manager)@ == playlist_counted(old(manager)@, rewritten(content@, stream_key@)),
{
    let body = rewrite_playlist_urls(content, stream_key);
    let size: usize = body.as_str().as_bytes().len();
    manager.stats.playlists_served = manager.stats.playlists_served.wrapping_add(1);
    manager.stats.bytes_served = manager.stats.bytes_served.wrapping_add(size as u64);
    playlist_reply(body)
}

/// Why a stream could not even be tried.
#[derive(Debug, Clone, Copy, PartialEq, Eq)]
pub enum StartFailure {
    Io,
}

/// Answers a request for the playlist that lists renditions, whose stream was started
/// first and does not run; lets it pass where the stream runs.
pub fn master_start_result(started: Result<bool, StartFailure>) -> (r: Option<Reply>)
    ensures
        match started {
            Ok(true) => r is None,
            Ok(false) => r is Some && r->0@ == plain(503, "Stream not available"@),
            Err(_) => r is Some && r->0@ == plain(500, "Failed to start stream"@),
        },
{
    match started {
        Ok(started) => if started {
            None
        } else {
            Some(plain_reply(503, "Stream not available"))
        },
        Err(_) => Some(plain_reply(500, "Failed to start stream")),
    }
}

/// Serves the playlist that lists renditions, given what was read of it.
pub fn serve_abr_master_playlist(content: Option<String>) -> (r: Reply)
    ensures
        match content {
            Some(text) => r@ == playlist(text@),
            None => r@ == plain(404, "Master playlist not found"@),
        },
{
    match content {
        Some(text) => playlist_reply(text),
        None => plain_reply(404, "Master playlist not found"),
    }
}

/// Serves the playlist of a rendition, given what was read of it.
pub fn serve_variant_playlist(content: Option<String>) -> (r: Reply)
    ensures
        match content {
            Some(text) => r@ == playlist(text@),
            None => r@ == plain(404, "Variant playlist not found"@),
        },
{
    match content {
        Some(text) => playlist_reply(text),
        None => plain_reply(404, "Variant playlist not found"),
    }
}

/// After a segment was served.
pub open spec fn segment_counted(v: ManagerView, size: nat) -> ManagerView {
    ManagerView {
        stats: Stats {
            segments_served: v.stats.segments_served.wrapping_add(1),
            bytes_served: v.stats.bytes_served.wrapping_add(size as u64),
            ..v.stats
        },
        ..v
    }
}

fn count_segment(manager: &mut StreamManager, size: usize)
    requires
        old(manager).wf(),
    ensures
        final(manager).wf(),
        final(manager)@ == segment_counted(old(manager)@, size as nat),
{
    manager.stats.segments_served = manager.stats.segments_served.wrapping_add(1);
    manager.stats.bytes_served = manager.stats.bytes_served.wrapping_add(size as u64);
}

/// Serves a segment, given what the cache made of the request.
pub fn serve_segment(
    manager: &mut StreamManager,
    loaded: Result<Option<(CachedSegment, bool)>, SegmentError>,
) -> (r: Reply)
    requires
        old(manager).wf(),
    ensures
        final(manager).wf(),
        match loaded {
            Ok(Some((s, _))) => {
                &&& r@ == segment(s.content_type@, "max-age=10"@, s.data@)
                &&& final(manager)@ == segment_counted(old(manager)@, s.data@.len())
            },
            Ok(None) => r@ == plain(404, "Segment not found"@) && final(manager)@ == old(manager)@,
            Err(_) => r@ == plain(500, "Internal server error"@) && final(manager)@ == old(manager)@,
        },
{
    match loaded {
        Ok(Some((s, _))) => {
            count_segment(manager, s.data.len());
            segment_reply(s.content_type, "max-age=10", s.data)
        },
        Ok(None) => plain_reply(404, "Segment not found"),
        Err(_) => plain_reply(500, "Internal server error"),
    }
}

/// A segment of a rendition, which never changes and may be kept for a year.
pub open spec fn variant_segment(data: Seq<u8>) -> ReplyView {
    ReplyView {
        status: 200,
        headers: seq![
            ("content-type"@, "video/mp2t"@),
            ("content-length"@, decimal(data.len())),
            ("cache-control"@, "public, max-age=31536000"@),
        ],
        body: BodyView::Bytes(data),
    }
}

/// Serves a segment of a rendition, given what the cache made of the request.
pub fn serve_variant_segment(
    manager: &mut StreamManager,
    loaded: Result<Option<(CachedSegment, bool)>, SegmentError>,
) -> (r: Reply)
    requires
        old(manager).wf(),
    ensures
        final(manager).wf(),
        match loaded {
            Ok(Some((s, _))) => {
                &&& r@ == variant_segment(s.data@)
                &&& final(manager)@ == segment_counted(old(manager)@, s.data@.len())
            },
            Ok(None) => r@ == plain(404, "Segment not found"@) && final(manager)@ == old(manager)@,
            Err(_) => r@ == plain(500, "Failed to load segment"@) && final(manager)@ == old(manager)@,
        },
{
    match loaded {
        Ok(Some((s, _))) => {
            let size: usize = s.data.len();
            count_segment(manager, size);
            let mut headers: Vec<(String, String)> = Vec::new();
            headers.push(("content-type".to_owned(), "video/mp2t".to_owned()));
            headers.push(("content-length".to_owned(), decimal_text(size as u64)));
            headers.push(("cache-control".to_owned(), "public, max-age=31536000".to_owned()));
            assert(pairs(headers@) =~= variant_segment(s.data@).headers);
            Reply { status: 200, headers, body: ReplyBody::Bytes(s.data) }
        },
        Ok(None) => plain_reply(404, "Segment not found"),
        Err(_) => plain_reply(500, "Failed to load segment"),
    }
}

/// The counts with the number of viewers at `now`.
pub open spec fn with_viewers(v: ManagerView, now: Timestamp) -> Stats {
    Stats { total_viewers: v.sessions.total_viewers(now) as u64, ..v.stats }
}

/// What a look at the server's health says, and what it changes: the count of viewers.
pub open spec fn health(
    before: ManagerView,
    now: Timestamp,
    status: u16,
    r: HealthResponse,
    after: ManagerView,
) -> bool {
    let healthy = before.active.dom().len() < before.settings.max_concurrent_streams;
    &&& status == (if healthy { 200u16 } else { 503u16 })
    &&& r.status@ == (if healthy { "healthy"@ } else { "unhealthy"@ })
    &&& r.active_streams == before.active.dom().len()
    &&& r.pending_streams == before.pending.dom().len()
    &&& r.max_streams == before.settings.max_concurrent_streams
    &&& r.stats == with_viewers(before, now).snapshot()
    &&& after == (ManagerView { stats: with_viewers(before, now), ..before })
}

/// Looks at the server's health now.
pub fn health_check(manager: &mut StreamManager) -> (r: (u16, HealthResponse))
    requires
        old(manager).wf(),
    ensures
        final(manager).wf(),
        exists|now: Timestamp| #[trigger] health(old(manager)@, now, r.0, r.1, final(manager)@),
{
    let now = utc_now();
    health_check_at(manager, now)
}

/// Looks at the server's health at `now`.
pub fn health_check_at(manager: &mut StreamManager, now: Timestamp) -> (r: (u16, HealthResponse))
    requires
        old(manager).wf(),
    ensures
        final(manager).wf(),
        health(old(manager)@, now, r.0, r.1, final(manager)@),
{
    let stats = refresh_stats_at(manager, now);
    let active_streams: usize = manager.active_streams.len();
    let healthy = active_streams < manager.max_concurrent_streams;
    let response = HealthResponse {
        status: if healthy {
            "healthy".to_owned()
        } else {
            "unhealthy".to_owned()
        },
        active_streams,
        pending_streams: manager.pending_streams.len(),
        max_streams: manager.max_concurrent_streams,
        stats,
    };
    if healthy {
        (200, response)
    } else {
        (503, response)
    }
}

fn refresh_stats_at(manager: &mut StreamManager, now: Timestamp) -> (r: StatsSnapshot)
    requires
        old(manager).wf(),
    ensures
        final(manager).wf(),
        final(manager)@ == (ManagerView { stats: with_viewers(old(manager)@, now), ..old(manager)@ }),
        r == with_viewers(old(manager)@, now).snapshot(),
        final(manager).active_streams == old(manager).active_streams,
        final(manager).pending_streams == old(manager).pending_streams,
        final(manager).failed_streams == old(manager).failed_streams,
{
    let viewers: usize = manager.session_manager.total_viewer_count_at(now);
    manager.stats.total_viewers = viewers as u64;
    manager.stats.to_snapshot()
}

/// What is reported of an active stream at `now`.
pub open spec fn describes(r: StreamStatus, v: ManagerView, key: Seq<char>, now: Timestamp) -> bool {
    &&& r.key@ == key
    &&& r.pid == v.active[key].pid
    &&& r.uptime == seconds_between(now, v.active[key].started_at)
    &&& r.last_accessed == seconds_between(now, v.active[key].last_accessed)
    &&& r.viewers == v.sessions.stream_viewers(key, now)
}

/// What a report at `now` says, and what it changes: the count of viewers. The streams
/// stand in the given orders.
pub open spec fn report(
    before: ManagerView,
    active: Seq<Seq<char>>,
    pending: Seq<Seq<char>>,
    failed: Seq<Seq<char>>,
    entry_count: u64,
    now: Timestamp,
    r: StatusResponse,
    after: ManagerView,
) -> bool {
    &&& r.active_streams@.len() == active.len()
    &&& forall|i: int|
        0 <= i < active.len() ==> describes(#[trigger] r.active_streams@[i], before, active[i], now)
    &&& texts(r.pending_streams@) == pending
    &&& texts(r.failed_streams@) == failed
    &&& r.stats == with_viewers(before, now).snapshot()
    &&& r.cache_stats == (CacheStatsSnapshot {
        total_entries: entry_count as usize,
        hits: before.cache.stats.hits,
        misses: before.cache.stats.misses,
        memory_bytes: before.cache.stats.memory_bytes,
    })
    &&& r.uptime_seconds == seconds_between(now, before.settings.server_started_at)
    &&& r.throughput == before.history.throughput()
    &&& points_of(r.metrics_history@) == before.history.points
    &&& after == (ManagerView { stats: with_viewers(before, now), ..before })
}

/// Reports how the server is now, with the number of entries in the cache.
pub fn status(manager: &mut StreamManager, entry_count: u64) -> (r: StatusResponse)
    requires
        old(manager).wf(),
    ensures
        final(manager).wf(),
        exists|now: Timestamp| #[trigger]
            report(
                old(manager)@,
                old(manager).active_streams.order(),
                old(manager).pending_streams.order(),
                old(manager).failed_streams.order(),
                entry_count,
                now,
                r,
                final(manager)@,
            ),
{
    let now = utc_now();
    status_at(manager, entry_count, now)
}

/// Reports how the server is at `now`.
pub fn status_at(manager: &mut StreamManager, entry_count: u64, now: Timestamp) -> (r: StatusResponse)
    requires
        old(manager).wf(),
    ensures
        final(manager).wf(),
        report(
            old(manager)@,
            old(manager).active_streams.order(),
            old(manager).pending_streams.order(),
            old(manager).failed_streams.order(),
            entry_count,
            now,
            r,
            final(manager)@,
        ),
{
    let active_streams = list_streams_at(manager, now);
    let stats = refresh_stats_at(manager, now);
    StatusResponse {
        active_streams,
        pending_streams: manager.pending_streams.keys(),
        failed_streams: manager.failed_streams.keys(),
        stats,
        cache_stats: manager.cache.stats(entry_count),
        uptime_seconds: elapsed_seconds(now, manager.server_started_at),
        throughput: manager.metrics_history.get_current_throughput(),
        metrics_history: manager.metrics_history.get_history(),
    }
}

fn list_streams_at(manager: &StreamManager, now: Timestamp) -> (r: Vec<StreamStatus>)
    requires
        manager.wf(),
    ensures
        r@.len() == manager.active_streams.order().len(),
        forall|i: int|
            0 <= i < r@.len() ==> describes(
                #[trigger] r@[i],
                manager@,
                manager.active_streams.order()[i],
                now,
            ),
{
    let ghost order = manager.active_streams.order();
    let mut r: Vec<StreamStatus> = Vec::new();
    let mut i: usize = 0;
    while i < manager.active_streams.len()
        invariant
            manager.wf(),
            order == manager.active_streams.order(),
            0 <= i <= order.len(),
            r@.len() == i,
            forall|j: int| 0 <= j < i ==> describes(#[trigger] r@[j], manager@, order[j], now),
        decreases order.len() - i,
    {
        proof {
            manager.active_streams.lemma_order();
        }
        let key = manager.active_streams.key_at(i);
        let info = manager.active_streams.value_at(i);
        assert(manager@.active[order[i as int]] == *info);
        r.push(
            StreamStatus {
                key: key.clone(),
                pid: info.pid,
                uptime: elapsed_seconds(now, info.started_at),
                last_accessed: elapsed_seconds(now, info.last_accessed),
                viewers: manager.session_manager.stream_viewer_count_at(key.as_str(), now),
            },
        );
        i = i + 1;
    }
    r
}

/// Where the dashboard may stand.
pub open spec fn dashboard_places() -> Seq<Seq<char>> {
    seq!["dashboard.html"@, "/dashboard.html"@, "cascade/dashboard.html"@]
}

/// Where the dashboard may stand, in the order to look.
pub fn dashboard_paths() -> (r: Vec<String>)
    ensures
        texts(r@) == dashboard_places(),
{
    let mut r: Vec<String> = Vec::new();
    r.push("dashboard.html".to_owned());
    r.push("/dashboard.html".to_owned());
    r.push("cascade/dashboard.html".to_owned());
    assert(texts(r@) =~= dashboard_places());
    r
}

/// The dashboard, as a page.
pub open spec fn page(html: Seq<char>) -> ReplyView {
    ReplyView {
        status: 200,
        headers: seq![("content-type"@, "text/html; charset=utf-8"@)],
        body: BodyView::Text(html),
    }
}

/// Serves the first dashboard that could be read.
pub fn dashboard(contents: Vec<Option<String>>) -> (r: Reply)
    ensures
        forall|i: int|
            0 <= i < contents@.len() && (#[trigger] contents@[i]) is Some && (forall|j: int|
                0 <= j < i ==> (#[trigger] contents@[j]) is None) ==> r@ == page(contents@[i]->0@),
        (forall|i: int| 0 <= i < contents@.len() ==> (#[trigger] contents@[i]) is None) ==> r@ == plain(
            500,
            "Dashboard not available"@,
        ),
{
    let mut i: usize = 0;
    while i < contents.len()
        invariant
            0 <= i <= contents@.len(),
            forall|j: int| 0 <= j < i ==> (#[trigger] contents@[j]) is None,
        decreases contents@.len() - i,
    {
        if let Some(html) = &contents[i] {
            let mut headers: Vec<(String, String)> = Vec::new();
            headers.push(("content-type".to_owned(), "text/html; charset=utf-8".to_owned()));
            let r = Reply { status: 200, headers, body: ReplyBody::Text(html.clone()) };
            assert(r@.headers =~= page(html@).headers);
            assert(contents@[i as int] is Some);
            return r;
        }
        i = i + 1;
    }
    plain_reply(500, "Dashboard not available")
}

/// What a viewer is sent on with leads to the playlist of the stream, and what that
/// playlist names a segment leads to the segment.
pub proof fn law_viewer_is_led_on(key: Seq<char>, session: Seq<char>, name: Seq<char>)
    requires
        !key.contains('/'),
        !name.contains('/'),
        has_suffix(name, ".ts"@),
    ensures
        route_for(key + "/"@ + "index.m3u8"@, Some(session)) == RouteView::Playlist(key, Some(session)),
        route_for(key + "/"@ + "master.m3u8"@, Some(session)) == RouteView::Master(key),
        rewritten_line(name, key).skip("/live/"@.len() as int) == key + "/"@ + name,
        route_for(key + "/"@ + name, None) == RouteView::Segment(key, name),
{
    reveal_strlit("/");
    reveal_strlit("index.m3u8");
    reveal_strlit("master.m3u8");
    reveal_strlit(".m3u8");
    reveal_strlit(".ts");
    assert("/"@ =~= seq!['/']);
    lemma_split_single(key, '/');
    assert(!"index.m3u8"@.contains('/'));
    assert(!"master.m3u8"@.contains('/'));
    lemma_split_extend(key, "index.m3u8"@, '/');
    lemma_split_extend(key, "master.m3u8"@, '/');
    lemma_split_extend(key, name, '/');
    let index = key + "/"@ + "index.m3u8"@;
    let master = key + "/"@ + "master.m3u8"@;
    let path = key + "/"@ + name;
    assert(index.skip(index.len() - 5) =~= ".m3u8"@);
    assert(master.skip(master.len() - 5) =~= ".m3u8"@);
    assert(path.skip(path.len() - 3) =~= name.skip(name.len() - 3));
    assert(!has_suffix(path, ".m3u8"@)) by {
        if has_suffix(path, ".m3u8"@) {
            assert(path.skip(path.len() - 5)[4] == '8');
            assert(name.skip(name.len() - 3)[2] == 's');
        }
    }
    assert("index.m3u8"@.len() != "master.m3u8"@.len());
    assert(rewritten_line(name, key).skip("/live/"@.len() as int) =~= path);
}

/// A path to a playlist of two components asks for the list of the renditions or for the
/// playlist of the stream, for which a viewer without session is given one first; of three,
/// for the playlist of a rendition; of one, for the stream that it names before `.m3u8`.
pub proof fn law_playlist_paths(
    key: Seq<char>,
    variant: Seq<char>,
    file: Seq<char>,
    session: Option<Seq<char>>,
)
    requires
        !key.contains('/'),
        !variant.contains('/'),
        !file.contains('/'),
        file.len() >= 5,
        file.skip(file.len() - 5) == seq!['.', 'm', '3', 'u', '8'],
    ensures
        ({
            let r = route_for(key + "/"@ + file, session);
            &&& file == "master.m3u8"@ ==> r == RouteView::Master(key)
            &&& file == "index.m3u8"@ && session is None ==> r == RouteView::Welcome(key)
            &&& file == "index.m3u8"@ && session is Some ==> r == RouteView::Playlist(key, session)
            &&& file != "master.m3u8"@ && file != "index.m3u8"@ ==> r == RouteView::Refused(
                404,
                "Unknown playlist file"@,
            )
        }),
        ({
            let r = route_for(key + "/"@ + variant + "/"@ + file, session);
            &&& file == "index.m3u8"@ ==> r == RouteView::Variant(key, variant)
            &&& file != "index.m3u8"@ ==> r == RouteView::Refused(
                404,
                "Invalid variant playlist path"@,
            )
        }),
        file.len() > 5 ==> route_for(file, session) == RouteView::Welcome(file.take(file.len() - 5)),
        file.len() == 5 ==> route_for(file, session) == RouteView::Refused(
            404,
            "Invalid playlist path"@,
        ),
{
    reveal_strlit("/");
    reveal_strlit(".m3u8");
    assert("/"@ =~= seq!['/']);
    reveal_strlit("index.m3u8");
    reveal_strlit("master.m3u8");
    assert("index.m3u8"@.len() != "master.m3u8"@.len());
    assert(".m3u8"@ =~= seq!['.', 'm', '3', 'u', '8']);
    lemma_split_single(key, '/');
    lemma_split_single(file, '/');
    lemma_split_extend(key, file, '/');
    lemma_split_extend(key, variant, '/');
    lemma_split_extend(key + "/"@ + variant, file, '/');
    let two = key + "/"@ + file;
    let three = key + "/"@ + variant + "/"@ + file;
    assert(two.skip(two.len() - 5) =~= file.skip(file.len() - 5));
    assert(three.skip(three.len() - 5) =~= file.skip(file.len() - 5));
}

/// A path to a segment of two components asks for a segment of the stream, one of three for
/// a segment of the rendition, and one of a single component is refused; a file that ends
/// neither in `.ts` nor in `.m3u8` is refused.
pub proof fn law_segment_paths(
    key: Seq<char>,
    variant: Seq<char>,
    file: Seq<char>,
    session: Option<Seq<char>>,
)
    requires
        !key.contains('/'),
        !variant.contains('/'),
        !file.contains('/'),
        !has_suffix(file, ".m3u8"@),
    ensures
        ({
            let n = file.len() as int;
            let ends_in_ts = n >= 3 && file[n - 3] == '.' && file[n - 2] == 't' && file[n - 1] == 's';
            let wrong = RouteView::Refused(400, "Invalid file type"@);
            &&& ends_in_ts ==> {
                &&& route_for(key + "/"@ + file, session) == RouteView::Segment(key, file)
                &&& route_for(key + "/"@ + variant + "/"@ + file, session)
                    == RouteView::VariantSegment(key, variant, file)
                &&& route_for(file, session) == RouteView::Refused(404, "Invalid segment path"@)
            }
            &&& !ends_in_ts ==> {
                &&& route_for(key + "/"@ + file, session) == wrong
                &&& route_for(key + "/"@ + variant + "/"@ + file, session) == wrong
                &&& route_for(file, session) == wrong
            }
        }),
{
    reveal_strlit("/");
    assert("/"@ =~= seq!['/']);
    lemma_split_single(key, '/');
    lemma_split_single(file, '/');
    lemma_split_extend(key, file, '/');
    lemma_split_extend(key, variant, '/');
    lemma_split_extend(key + "/"@ + variant, file, '/');
    let two = key + "/"@ + file;
    let three = key + "/"@ + variant + "/"@ + file;
    lemma_endings(file);
    lemma_same_endings(two, key + "/"@, file);
    lemma_same_endings(three, key + "/"@ + variant + "/"@, file);
}

proof fn lemma_same_endings(path: Seq<char>, dir: Seq<char>, file: Seq<char>)
    requires
        path == dir + file,
        dir.len() > 0,
        dir.last() == '/',
    ensures
        has_suffix(path, ".ts"@) <==> has_suffix(file, ".ts"@),
        has_suffix(path, ".m3u8"@) <==> has_suffix(file, ".m3u8"@),
{
    lemma_endings(path);
    lemma_endings(file);
    let (n, m) = (file.len() as int, path.len() as int);
    assert(path[m - n - 1] == '/');
    assert(n >= 1 ==> path[m - 1] == file[n - 1]);
    assert(n >= 2 ==> path[m - 2] == file[n - 2]);
    assert(n >= 3 ==> path[m - 3] == file[n - 3]);
    assert(n >= 4 ==> path[m - 4] == file[n - 4]);
    assert(n >= 5 ==> path[m - 5] == file[n - 5]);
}

/// A path of more than three components is refused.
pub proof fn law_deep_paths_are_refused(parts: Seq<Seq<char>>, session: Option<Seq<char>>)
    requires
        parts.len() > 3,
        forall|i: int| 0 <= i < parts.len() ==> !(#[trigger] parts[i]).contains('/'),
    ensures
        route_for(join(parts, seq!['/']), session) is Refused,
{
    lemma_split_join(parts, '/');
}

/// What a viewer asks for is read from the directory of the stream, under the name that was
/// asked for, and cached under a key of that stream; each such request counts as an access
/// to the stream at that moment.
pub proof fn law_requests_are_read_from_their_stream(
    v: ManagerView,
    path: Seq<char>,
    session: Option<Seq<char>>,
    now: Timestamp,
    step: HlsStep,
    after: ManagerView,
    key: Seq<char>,
)
    requires
        hls_step(v, path, session, now, step, after),
        v.settings.hls_path.len() > 0,
        v.settings.hls_path.last() != '/',
        key.len() > 0,
        !key.contains('/'),
        v.active.contains_key(key),
    ensures
        ({
            let dir = v.settings.hls_path + seq!['/'] + key;
            let route = route_for(path, session);
            &&& route matches RouteView::Playlist(k, id) ==> k == key ==> {
                &&& step is ReadPlaylist
                &&& step->ReadPlaylist_stream_key@ == key
                &&& step->ReadPlaylist_file_path@ == dir + seq!['/'] + "index.m3u8"@
                &&& after.active[key].last_accessed == now
                &&& v.stats.requests < u64::MAX ==> after.stats.requests == v.stats.requests + 1
                &&& id matches Some(id) ==> v.sessions.tracking && v.sessions.sessions.contains_key(id)
                    ==> after.sessions.sessions[id].last_seen == now
            }
            &&& route matches RouteView::Master(k) ==> k == key ==> {
                &&& step is ReadMaster
                &&& step->ReadMaster_file_path@ == dir + seq!['/'] + "master.m3u8"@
                &&& after.active[key].last_accessed == now
            }
            &&& route matches RouteView::Variant(k, name) ==> k == key && name.len() > 0
                && !name.contains('/') ==> {
                &&& step is ReadVariant
                &&& step->ReadVariant_file_path@ == dir + seq!['/'] + name + seq!['/'] + "index.m3u8"@
                &&& after.active[key].last_accessed == now
            }
            &&& route matches RouteView::Segment(k, file) ==> k == key && file.len() > 0
                && !file.contains('/') ==> {
                &&& step is LoadSegment
                &&& step->LoadSegment_stream_key@ == key
                &&& step->LoadSegment_cache_key@ == key + "/"@ + file
                &&& step->LoadSegment_file_path@ == dir + seq!['/'] + file
                &&& after.active[key].last_accessed == now
                &&& v.stats.requests < u64::MAX ==> after.stats.requests == v.stats.requests + 1
            }
            &&& route matches RouteView::VariantSegment(k, name, file) ==> k == key && name.len() > 0
                && !name.contains('/') && file.len() > 0 && !file.contains('/') ==> {
                &&& step is LoadVariantSegment
                &&& step->LoadVariantSegment_cache_key@ == key + "/"@ + name + "/"@ + file
                &&& step->LoadVariantSegment_file_path@ == dir + seq!['/'] + name + seq!['/'] + file
                &&& after.active[key].last_accessed == now
            }
            &&& route is Refused ==> step is Answer && after == v
            &&& route is Welcome ==> step is Welcome && after == v
        }),
{
    reveal_strlit("index.m3u8");
    reveal_strlit("master.m3u8");
    let dir = v.settings.hls_path + seq!['/'] + key;
    assert(key[0] != '/');
    assert(key.last() != '/');
    law_names_stand_below_directories(v.settings.hls_path, key);
    assert(dir.last() == key.last());
    law_names_stand_below_directories(dir, "index.m3u8"@);
    law_names_stand_below_directories(dir, "master.m3u8"@);
    match route_for(path, session) {
        RouteView::Variant(k, name) => {
            if name.len() > 0 && !name.contains('/') {
                assert(name[0] != '/');
                assert(name.last() != '/');
                law_names_stand_below_directories(dir, name);
                let below = dir + seq!['/'] + name;
                assert(below.last() == name.last());
                law_names_stand_below_directories(below, "index.m3u8"@);
            }
        },
        RouteView::Segment(k, file) => {
            if file.len() > 0 && !file.contains('/') {
                assert(file[0] != '/');
                law_names_stand_below_directories(dir, file);
            }
        },
        RouteView::VariantSegment(k, name, file) => {
            if name.len() > 0 && !name.contains('/') && file.len() > 0 && !file.contains('/') {
                assert(name[0] != '/');
                assert(name.last() != '/');
                assert(file[0] != '/');
                law_names_stand_below_directories(dir, name);
                let below = dir + seq!['/'] + name;
                assert(below.last() == name.last());
                law_names_stand_below_directories(below, file);
            }
        },
        _ => {},
    }
}

/// The list of the renditions of a stream that does not run has the stream started first.
pub proof fn law_master_starts_its_stream(
    v: ManagerView,
    path: Seq<char>,
    session: Option<Seq<char>>,
    now: Timestamp,
    step: HlsStep,
    after: ManagerView,
    key: Seq<char>,
)
    requires
        hls_step(v, path, session, now, step, after),
        route_for(path, session) == RouteView::Master(key),
        !v.active.contains_key(key),
    ensures
        step is StartForMaster,
        step->StartForMaster_stream_key@ == key,
        after == v,
{
}

/// A segment served is one segment and its bytes, a playlist served is one playlist and as
/// many bytes as its text has, a viewer welcomed is one request; nothing else is counted.
pub proof fn law_served_content_is_counted(
    v: ManagerView,
    size: nat,
    body: Seq<char>,
    key: Seq<char>,
    session: Seq<char>,
    now: Timestamp,
)
    requires
        v.stats.segments_served < u64::MAX,
        v.stats.playlists_served < u64::MAX,
        v.stats.requests < u64::MAX,
        v.stats.bytes_served + size <= u64::MAX,
        v.stats.bytes_served + encode_utf8(body).len() <= u64::MAX,
    ensures
        segment_counted(v, size).stats == (Stats {
            segments_served: (v.stats.segments_served + 1) as u64,
            bytes_served: (v.stats.bytes_served + size) as u64,
            ..v.stats
        }),
        playlist_counted(v, body).stats == (Stats {
            playlists_served: (v.stats.playlists_served + 1) as u64,
            bytes_served: (v.stats.bytes_served + encode_utf8(body).len()) as u64,
            ..v.stats
        }),
        welcomed(v, key, session, now).stats == (Stats {
            requests: (v.stats.requests + 1) as u64,
            ..v.stats
        }),
        segment_counted(v, size).active == v.active,
        playlist_counted(v, body).active == v.active,
        welcomed(v, key, session, now).active == v.active,
{
}

/// A viewer who was welcomed counts for the stream at once, and the session names it.
pub proof fn law_welcomed_viewer_counts(
    v: ManagerView,
    key: Seq<char>,
    session: Seq<char>,
    now: Timestamp,
)
    requires
        v.sessions.consistent(),
        v.sessions.tracking,
        v.sessions.timeout as i64 >= 0,
    ensures
        welcomed(v, key, session, now).sessions.stream_of(session, now) == Some(key),
        welcomed(v, key, session, now).sessions.stream_viewers(key, now) > 0,
{
    let w = v.sessions.opened(session, key, now);
    let live = |id: Seq<char>| w.live(id, now);
    let here = w.listed(key).filter(live);
    assert(here.contains(session));
    assert(w.listed(key).finite());
    w.listed(key).lemma_len_filter(live);
    if here.len() == 0 {
        assert(here =~= Set::<Seq<char>>::empty());
    }
}

/// A segment of a rendition is sent whole, with its length, and may be kept for a year; a
/// page is sent as one.
pub proof fn law_rendition_segment_is_sent_whole(data: Seq<u8>, html: Seq<char>)
    ensures
        variant_segment(data).status == 200,
        variant_segment(data).body == BodyView::Bytes(data),
        variant_segment(data).headers.contains(("content-type"@, "video/mp2t"@)),
        variant_segment(data).headers.contains(("content-length"@, decimal(data.len()))),
        variant_segment(data).headers.contains(("cache-control"@, "public, max-age=31536000"@)),
        variant_segment(data).headers.len() == 3,
        page(html).status == 200,
        page(html).body == BodyView::Text(html),
        page(html).headers == seq![("content-type"@, "text/html; charset=utf-8"@)],
        dashboard_places() == seq!["dashboard.html"@, "/dashboard.html"@, "cascade/dashboard.html"@],
{
    let headers = variant_segment(data).headers;
    assert(headers[0] == ("content-type"@, "video/mp2t"@));
    assert(headers[1] == ("content-length"@, decimal(data.len())));
    assert(headers[2] == ("cache-control"@, "public, max-age=31536000"@));
}

/// The server is well exactly while fewer streams run than may, and its health tells how
/// many viewers there are and how many streams run and are being started.
pub proof fn law_health_tells_room_and_viewers(
    v: ManagerView,
    now: Timestamp,
    status: u16,
    r: HealthResponse,
    after: ManagerView,
)
    requires
        health(v, now, status, r, after),
        v.sessions.total_viewers(now) <= usize::MAX,
    ensures
        v.active.dom().len() < v.settings.max_concurrent_streams ==> status == 200 && r.status@
            == "healthy"@,
        v.active.dom().len() >= v.settings.max_concurrent_streams ==> status == 503 && r.status@
            == "unhealthy"@,
        r.stats.total_viewers == v.sessions.total_viewers(now),
        r.stats.bytes_served == v.stats.bytes_served,
        r.stats.segments_served == v.stats.segments_served,
        r.stats.playlists_served == v.stats.playlists_served,
        r.active_streams == v.active.dom().len(),
        r.pending_streams == v.pending.dom().len(),
        r.max_streams == v.settings.max_concurrent_streams,
        after.active == v.active && after.pending == v.pending && after.sessions == v.sessions,
{
}

/// A report tells of each stream that runs, in order, its process, since how many whole
/// seconds it runs and when it was last asked for, and its viewers; and of the server, since
/// how many whole seconds it runs and what was found in the cache and what was not.
pub proof fn law_report_tells_of_each_stream(
    v: ManagerView,
    active: Seq<Seq<char>>,
    pending: Seq<Seq<char>>,
    failed: Seq<Seq<char>>,
    entry_count: u64,
    now: Timestamp,
    r: StatusResponse,
    after: ManagerView,
    i: int,
)
    requires
        report(v, active, pending, failed, entry_count, now, r, after),
        0 <= i < active.len(),
        entry_count <= usize::MAX,
        v.sessions.total_viewers(now) <= usize::MAX,
    ensures
        r.active_streams@.len() == active.len(),
        r.active_streams@[i].key@ == active[i],
        r.active_streams@[i].pid == v.active[active[i]].pid,
        r.active_streams@[i].uptime == seconds_between(now, v.active[active[i]].started_at),
        r.active_streams@[i].last_accessed == seconds_between(
            now,
            v.active[active[i]].last_accessed,
        ),
        r.active_streams@[i].viewers == v.sessions.stream_viewers(active[i], now),
        texts(r.pending_streams@) == pending,
        texts(r.failed_streams@) == failed,
        r.stats.total_viewers == v.sessions.total_viewers(now),
        r.cache_stats.total_entries == entry_count,
        r.cache_stats.hits == v.cache.stats.hits,
        r.cache_stats.misses == v.cache.stats.misses,
        r.cache_stats.memory_bytes == v.cache.stats.memory_bytes,
        r.stats.bytes_served == v.stats.bytes_served,
        r.stats.segments_served == v.stats.segments_served,
        r.stats.playlists_served == v.stats.playlists_served,
        points_of(r.metrics_history@) == v.history.points,
        v.history.points.len() > 0 ==> r.throughput.bytes == v.history.points.last().rates.bytes,
        v.history.points.len() > 0 ==> r.throughput.requests == v.history.points.last().rates.requests,
        v.history.points.len() > 0 ==> r.throughput.segments == v.history.points.last().rates.segments,
        r.uptime_seconds == seconds_between(now, v.settings.server_started_at),
        after.active == v.active && after.failed == v.failed && after.pending == v.pending,
{
    assert(describes(r.active_streams@[i], v, active[i], now));
}

} // verus!
