use cascade::cache::CachedSegment;
use cascade::clock::Timestamp;
use cascade::config::Config;
use cascade::handlers::api::{dashboard, health_check, health_check_at, status, status_at};
use cascade::handlers::common::{ensure_stream_ready, track_request_stats, ContextQuery};
use cascade::handlers::playlist::{
    handle_initial_request_with_session, open_playlist, open_playlist_at, serve_playlist,
    welcome_viewer_at,
};
use cascade::handlers::reply::{Reply, ReplyBody};
use cascade::handlers::segment::{serve_segment_file, SegmentError};
use cascade::handlers::{serve_hls_content, serve_hls_content_at, HlsStep};
use cascade::manager::{LaunchOutcome, StreamManager};
use cascade::models::Stats;

fn at(seconds: i64) -> Timestamp {
    Timestamp::at(seconds, 0).unwrap()
}

fn manager() -> StreamManager {
    let mut c = Config::default();
    c.abr.enabled = false;
    let mut m = StreamManager::starting_at(&c, at(0));
    m.start_stream_at("cam", &vec![], at(0));
    m.finish_start_at("cam", LaunchOutcome::Running, at(0)).unwrap();
    m
}

fn query(session: Option<&str>) -> ContextQuery {
    ContextQuery { hls_ctx: session.map(|s| s.to_string()) }
}

fn text(r: &Reply) -> &str {
    match &r.body {
        ReplyBody::Text(t) => t,
        ReplyBody::Bytes(_) => panic!("no text"),
    }
}

fn header<'a>(r: &'a Reply, name: &str) -> Option<&'a str> {
    r.headers.iter().find(|(n, _)| n == name).map(|(_, v)| v.as_str())
}

#[test]
fn a_wrong_path_is_a_bad_request() {
    let mut m = manager();
    match serve_hls_content_at(&mut m, "just_stream", query(None), at(5)) {
        HlsStep::Answer(r) => {
            assert_eq!(r.status, 400);
            assert_eq!(text(&r), "Invalid path format");
            assert!(r.headers.is_empty());
        }
        other => panic!("{:?}", other),
    }
    assert_eq!(m.stats, { let mut s = Stats::new(); s.started = 1; s });
}

#[test]
fn a_request_says_what_it_needs() {
    let mut m = manager();
    assert_eq!(
        serve_hls_content_at(&mut m, "cam.m3u8", query(Some("s")), at(5)),
        HlsStep::Welcome { stream_key: "cam".to_string() }
    );
    assert_eq!(
        serve_hls_content_at(&mut m, "cam/720p/index.m3u8", query(Some("s")), at(5)),
        HlsStep::Playlist {
            stream_key: "cam".to_string(),
            playlist_path: "720p/index.m3u8".to_string(),
            session: Some("s".to_string()),
            needs_url_rewrite: false,
        }
    );
    assert_eq!(m.active_streams.get("cam").unwrap().last_accessed, at(0));
    assert_eq!(
        serve_hls_content_at(&mut m, "cam/720p/segment_001.ts", query(None), at(5)),
        HlsStep::Segment {
            stream_key: "cam".to_string(),
            cache_key: "cam/720p/segment_001.ts".to_string(),
            file_path: "/hls/cam/720p/segment_001.ts".to_string(),
        }
    );
    assert_eq!(m.active_streams.get("cam").unwrap().last_accessed, at(5));
    assert!(matches!(serve_hls_content(&mut m, "cam/a.ts", query(None)), HlsStep::Segment { .. }));
    assert!(m.active_streams.get("cam").unwrap().last_accessed.seconds() > 1_000_000);
}

#[test]
fn a_stream_that_is_not_ready_is_answered_so() {
    assert!(ensure_stream_ready(true, false).is_none());
    let later = ensure_stream_ready(false, false).unwrap();
    assert_eq!(later.status, 503);
    assert_eq!(header(&later, "retry-after"), Some("5"));
    assert_eq!(text(&later), "Stream not available");
    let never = ensure_stream_ready(false, true).unwrap();
    assert_eq!(never.status, 404);
    assert_eq!(text(&never), "Stream not found");
    let mut m = manager();
    let r = handle_initial_request_with_session(&mut m, "cam", false, false, false);
    assert_eq!(r, later);
    assert_eq!(m.stats.requests, 0);
    assert_eq!(open_playlist_at(&mut m, "cam", "index.m3u8", &None, false, true, at(3)), Err(never));
}

#[test]
fn a_first_request_gets_a_session_and_is_sent_on() {
    let mut m = manager();
    let r = welcome_viewer_at(&mut m, "cam", "abcd1234", false, at(7));
    assert_eq!(r.status, 200);
    assert_eq!(header(&r, "content-type"), Some("application/vnd.apple.mpegurl"));
    assert_eq!(header(&r, "cache-control"), Some("no-cache"));
    assert_eq!(
        text(&r),
        "#EXTM3U\n#EXT-X-STREAM-INF:BANDWIDTH=1,AVERAGE-BANDWIDTH=1\n/live/cam/index.m3u8?hls_ctx=abcd1234"
    );
    assert_eq!((m.stats.requests, m.stats.bytes_served), (1, 0));
    assert_eq!(m.session_manager.validate_session_at("abcd1234", at(7)), Some("cam".to_string()));
    let r = welcome_viewer_at(&mut m, "cam", "abcd1235", true, at(7));
    assert!(text(&r).ends_with("\n/live/cam/master.m3u8?hls_ctx=abcd1235"));
}

#[test]
fn every_first_request_opens_a_session() {
    let mut m = manager();
    let r = handle_initial_request_with_session(&mut m, "cam", true, false, true);
    let id = text(&r).rsplit('=').next().unwrap().to_string();
    assert_eq!(id.len(), 8);
    assert_eq!(m.session_manager.validate_session(&id), Some("cam".to_string()));
    handle_initial_request_with_session(&mut m, "cam", true, false, true);
    assert_eq!(m.session_manager.get_stream_viewer_count("cam"), 2);
}

#[test]
fn a_playlist_request_keeps_viewer_and_stream() {
    let mut m = manager();
    m.session_manager.open_session("cam", "abcd1234", at(0));
    let path =
        open_playlist_at(&mut m, "cam", "index.m3u8", &Some("abcd1234".to_string()), true, false, at(25));
    assert_eq!(path, Ok("/hls/cam/index.m3u8".to_string()));
    assert_eq!(m.active_streams.get("cam").unwrap().last_accessed, at(25));
    assert_eq!(m.session_manager.stream_viewer_count_at("cam", at(55)), 1);
    assert_eq!(m.session_manager.stream_viewer_count_at("cam", at(56)), 0);
    assert!(open_playlist(&mut m, "cam", "master.m3u8", &None, true, false).is_ok());
}

#[test]
fn a_playlist_is_served_fresh_and_counted() {
    let mut m = manager();
    let r = serve_playlist(&mut m, "cam", true, Some("#EXTM3U\nä.ts\n".to_string()));
    assert_eq!(r.status, 200);
    assert_eq!(text(&r), "#EXTM3U\n/live/cam/ä.ts");
    assert_eq!(header(&r, "cache-control"), Some("no-cache"));
    assert_eq!((m.stats.playlists_served, m.stats.requests), (1, 1));
    assert_eq!(m.stats.bytes_served, "#EXTM3U\n/live/cam/ä.ts".len() as u64);
    let r = serve_playlist(&mut m, "cam", false, Some("x.ts\n".to_string()));
    assert_eq!(text(&r), "x.ts\n");
    let r = serve_playlist(&mut m, "cam", true, None);
    assert_eq!((r.status, text(&r)), (404, "Playlist not found"));
    assert_eq!(m.stats.playlists_served, 2);
}

#[test]
fn a_segment_counts_for_the_stream_and_the_server() {
    let mut m = manager();
    let segment = CachedSegment { data: vec![1, 2, 3], content_type: "video/MP2T" };
    let r = serve_segment_file(&mut m, "cam", Ok(Some((segment.clone(), false))));
    assert_eq!(r.status, 200);
    assert_eq!(header(&r, "content-type"), Some("video/MP2T"));
    assert_eq!(header(&r, "cache-control"), Some("max-age=10"));
    assert_eq!(r.body, ReplyBody::Bytes(vec![1, 2, 3]));
    serve_segment_file(&mut m, "cam", Ok(Some((segment.clone(), true))));
    serve_segment_file(&mut m, "gone", Ok(Some((segment, true))));
    let info = m.active_streams.get("cam").unwrap();
    assert_eq!((info.segments_served, info.bytes_served, info.requests_served), (2, 6, 2));
    assert_eq!((info.cache_hits, info.cache_misses), (1, 1));
    assert_eq!((m.stats.segments_served, m.stats.bytes_served, m.stats.requests), (3, 9, 3));
    let r = serve_segment_file(&mut m, "cam", Ok(None));
    assert_eq!((r.status, text(&r)), (404, "Segment not found"));
    let r = serve_segment_file(&mut m, "cam", Err(SegmentError::Cache));
    assert_eq!((r.status, text(&r)), (500, "Internal server error"));
    assert_eq!(m.stats.requests, 3);
}

#[test]
fn counters_wrap_around() {
    let mut s = Stats::new();
    s.requests = u64::MAX;
    track_request_stats(&mut s, 7);
    assert_eq!((s.requests, s.bytes_served), (0, 7));
    assert_eq!(s.to_snapshot().bytes_served, 7);
}

#[test]
fn health_tells_of_room_and_viewers() {
    let mut m = manager();
    m.max_concurrent_streams = 2;
    m.session_manager.open_session("cam", "abcd1234", at(0));
    let (code, h) = health_check_at(&mut m, at(10));
    assert_eq!((code, h.status.as_str()), (200, "healthy"));
    assert_eq!((h.active_streams, h.pending_streams, h.max_streams), (1, 0, 2));
    assert_eq!((h.stats.total_viewers, h.stats.started), (1, 1));
    assert_eq!(m.stats.total_viewers, 1);
    m.max_concurrent_streams = 1;
    let (code, h) = health_check_at(&mut m, at(100));
    assert_eq!((code, h.status.as_str(), h.stats.total_viewers), (503, "unhealthy", 0));
    assert_eq!(health_check(&mut m).0, 503);
}

#[test]
fn the_status_lists_what_runs() {
    let mut m = manager();
    m.start_stream_at("next", &vec![], at(1));
    m.session_manager.open_session("cam", "abcd1234", at(0));
    m.active_streams.get_mut("cam").unwrap().bytes_served = 500;
    let s = status_at(&m, Timestamp::at(12, 345_678_901).unwrap());
    assert_eq!(s.uptime_seconds, 12);
    assert_eq!(s.pending_streams, vec!["next".to_string()]);
    assert_eq!(s.active_streams.len(), 1);
    let cam = &s.active_streams[0];
    assert_eq!((cam.key.as_str(), cam.uptime, cam.last_accessed, cam.viewers), ("cam", 12, 12, 1));
    assert_eq!((cam.rates.elapsed_millis, cam.rates.bytes), (12_345, 500));
    // A clock that was set back gives negative times; rates are then per second.
    let s = status_at(&m, Timestamp::at(-2, 500_000_000).unwrap());
    assert_eq!(s.uptime_seconds, -1);
    assert_eq!(s.active_streams[0].rates.elapsed_millis, 1000);
    assert!(status(&m).uptime_seconds > 1_000_000_000);
}

#[test]
fn the_dashboard_is_gone() {
    let r = dashboard();
    assert_eq!((r.status, text(&r)), (404, "Dashboard has been removed"));
}

#[test]
fn viewers_read_what_the_encoder_writes() {
    let c = Config::default();
    let mut m = StreamManager::starting_at(&c, at(0));
    let plan = m.launcher.plan("cam", &vec![1, 2, 3, 4]);
    for (variant, output) in c.abr.variants.iter().zip(&plan.outputs) {
        let url = format!("cam/{}/index.m3u8", variant.name);
        match serve_hls_content_at(&mut m, &url, query(None), at(1)) {
            HlsStep::Playlist { stream_key, playlist_path, session, .. } => {
                let path = open_playlist_at(&mut m, &stream_key, &playlist_path, &session, true, false, at(1));
                assert_eq!(path, Ok(output.path.clone()));
            }
            other => panic!("{:?}", other),
        }
    }
}
