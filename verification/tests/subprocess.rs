use cascade::cache::{CachedSegment, Lookup};
use cascade::clock::Timestamp;
use cascade::handlers::reply::{Reply, ReplyBody};
use cascade::handlers::segment::SegmentError;
use cascade::manager::WaitStart;
use cascade::subprocess::client_info::{extract_client_info, listen_address};
use cascade::subprocess::handlers::{
    dashboard, dashboard_paths, find_route, health_check, health_check_at, master_start_result,
    serve_abr_master_playlist, serve_actual_playlist, serve_hls_content, serve_hls_content_at,
    serve_master_playlist, serve_segment, serve_variant_playlist, serve_variant_segment, status,
    status_at, welcome_viewer_at, HlsStep, Route, StartFailure,
};
use cascade::subprocess::manager::{ManagerVars, StartStep, StreamManager, WaitStep};

fn at(seconds: i64) -> Timestamp {
    Timestamp::at(seconds, 0).unwrap()
}

fn unset() -> ManagerVars {
    ManagerVars {
        source_host: None,
        source_port: None,
        hls_path: None,
        stream_timeout: None,
        max_concurrent_streams: None,
        stream_start_timeout: None,
        cache_max_entries: None,
        cache_max_segment_size: None,
        viewer_timeout_seconds: None,
        viewer_tracking_enabled: None,
    }
}

fn manager() -> StreamManager {
    StreamManager::starting_at(&unset(), at(0))
}

fn run(m: &mut StreamManager, key: &str, now: Timestamp) {
    assert!(matches!(m.start_stream_at(key, now), StartStep::Launch(_)));
    assert!(m.finish_start_at(key, Some(Some(42)), now));
}

fn text(r: &Reply) -> &str {
    match &r.body {
        ReplyBody::Text(t) => t,
        ReplyBody::Bytes(_) => panic!("no text"),
    }
}

#[test]
fn variables_set_up_the_edge() {
    let m = manager();
    assert_eq!((m.srs_host.as_str(), m.srs_port.as_str(), m.hls_path.as_str()), ("rtmp.example.com", "1935", "./hls"));
    assert_eq!((m.stream_timeout, m.max_concurrent_streams, m.stream_start_timeout), (30, 50, 15));
    assert_eq!((m.cache.max_entries, m.cache.max_file_size, m.cache.ttl_seconds), (200, 10_485_760, 300));
    let mut v = unset();
    v.source_host = Some("src".to_string());
    v.max_concurrent_streams = Some("3".to_string());
    v.stream_timeout = Some("x".to_string());
    v.cache_max_segment_size = Some("5".to_string());
    let m = StreamManager::new(&v);
    assert_eq!((m.srs_host.as_str(), m.max_concurrent_streams, m.stream_timeout), ("src", 3, 30));
    assert_eq!(m.cache.max_file_size, 5);
}

#[test]
fn a_stream_is_encoded_by_a_command() {
    let mut m = manager();
    match m.start_stream_at("cam", at(1)) {
        StartStep::Launch(c) => {
            assert_eq!((c.stream_dir.as_str(), c.program.as_str()), ("./hls/cam", "ffmpeg"));
            assert_eq!(
                c.args.join(" "),
                "-nostdin -loglevel warning -i rtmp://rtmp.example.com:1935/live/cam -c copy -f hls \
                 -hls_time 5 -hls_list_size 20 -hls_flags delete_segments+append_list \
                 -hls_segment_filename ./hls/cam/cam_%03d.ts ./hls/cam/index.m3u8"
            );
        }
        other => panic!("{:?}", other),
    }
    assert_eq!(m.start_stream_at("cam", at(1)), StartStep::AlreadyPending);
    assert!(m.finish_start_at("cam", Some(None), at(2)));
    assert_eq!(m.active_streams.get("cam").unwrap().pid, 0);
    assert_eq!(m.start_stream_at("cam", at(3)), StartStep::AlreadyActive);
}

#[test]
fn a_stream_that_failed_rests_for_a_while() {
    let mut m = manager();
    assert!(matches!(m.start_stream_at("cam", at(1)), StartStep::Launch(_)));
    assert!(!m.finish_start_at("cam", None, at(10)));
    assert_eq!((m.stats.failed, m.stats.started), (1, 0));
    assert_eq!(m.start_stream_at("cam", at(39)), StartStep::RecentlyFailed);
    assert_eq!(m.poll_stream_at("cam", false, 0, 200, at(11)), WaitStep::Failed);
    assert_eq!(m.poll_stream_at("cam", true, 0, 200, at(11)), WaitStep::Ready);
    assert!(matches!(m.start_stream_at("cam", at(40)), StartStep::Launch(_)));
    m.cleanup_idle_streams_at(at(309));
    assert!(m.failed_streams.contains_key("cam"));
    m.cleanup_idle_streams_at(at(310));
    assert!(!m.failed_streams.contains_key("cam"));
}

#[test]
fn the_edge_keeps_its_limit() {
    let mut v = unset();
    v.max_concurrent_streams = Some("1".to_string());
    let mut m = StreamManager::starting_at(&v, at(0));
    run(&mut m, "a", at(1));
    assert_eq!(m.start_stream_at("b", at(1)), StartStep::AtCapacity);
    assert_eq!(health_check_at(&mut m, at(2)).0, 503);
    assert_eq!(m.start_stream_at("a", at(1)), StartStep::AlreadyActive);
    assert!(m.stop_stream("a"));
    assert_eq!(health_check_at(&mut m, at(2)).0, 200);
    // A stream that is being started takes the place of one that runs.
    assert!(matches!(m.start_stream_at("b", at(3)), StartStep::Launch(_)));
    assert_eq!(m.start_stream_at("c", at(3)), StartStep::AtCapacity);
    assert!(m.finish_start_at("b", Some(Some(7)), at(3)));
    assert_eq!(m.start_stream_at("c", at(3)), StartStep::AtCapacity);
    assert_eq!(m.active_streams.len(), 1);
}

#[test]
fn stopping_forgets_the_viewers_of_a_stream() {
    let mut m = manager();
    run(&mut m, "cam", at(1));
    m.session_manager.open_session("cam", "id000001", at(1));
    m.track_viewer("cam", "10.0.0.1", None);
    assert_eq!((m.get_stream_viewer_count("cam"), m.get_total_viewer_count()), (1, 1));
    assert!(m.stop_stream("cam"));
    assert_eq!((m.get_stream_viewer_count("cam"), m.get_total_viewer_count()), (0, 0));
    assert_eq!(m.session_manager.total_viewer_count_at(at(1)), 0);
    assert_eq!(m.stats.stopped, 1);
}

#[test]
fn a_refused_start_ends_the_wait_at_the_edge() {
    assert!(StreamManager::waits_after_start(Ok(true)));
    assert!(!StreamManager::waits_after_start(Ok(false)));
    assert!(!StreamManager::waits_after_start(Err(StartFailure::Io)));
    let mut m = manager();
    assert_eq!(m.start_stream_at("cam", at(1)).answer(), None);
    assert_eq!(m.start_stream_at("cam", at(1)).answer(), Some(true));
    assert!(!m.finish_start_at("cam", None, at(2)));
    assert_eq!(m.start_stream_at("cam", at(3)).answer(), Some(false));
    assert_eq!(StartStep::AtCapacity.answer(), Some(false));
    assert_eq!(StartStep::AlreadyActive.answer(), Some(true));
}

#[test]
fn stopping_drops_the_cached_segments_of_a_stream() {
    let mut m = manager();
    let segment = CachedSegment { data: vec![9], content_type: "video/MP2T" };
    m.cache.loaded("cam/a.ts", Ok(segment.clone()));
    m.cache.loaded("door/a.ts", Ok(segment.clone()));
    assert!(!m.stop_stream("cam"));
    assert_eq!(m.cache.get_or_load("cam/a.ts", Some(segment.clone())), Lookup::Load);
    assert_eq!(m.cache.get_or_load("door/a.ts", Some(segment.clone())), Lookup::Hit(segment));
}

#[test]
fn cleaning_and_shutdown_stop_streams() {
    let mut m = manager();
    run(&mut m, "a", at(0));
    run(&mut m, "b", at(0));
    m.update_stream_access_at("b", at(10));
    assert_eq!(m.cleanup_idle_streams_at(at(31)), vec!["a".to_string()]);
    assert!(matches!(m.start_stream_at("c", at(31)), StartStep::Launch(_)));
    assert_eq!(m.graceful_shutdown(), vec!["b".to_string()]);
    assert_eq!((m.active_streams.len(), m.pending_streams.len(), m.stats.stopped), (0, 0, 2));
}

#[test]
fn a_viewer_of_the_edge_waits_for_the_playlist() {
    let mut m = manager();
    assert_eq!(m.playlist_path("cam"), "./hls/cam/index.m3u8");
    assert!(StreamManager::stream_ready(&Some("x.ts".to_string())));
    assert!(!StreamManager::stream_ready(&Some("#EXTM3U".to_string())));
    assert!(!StreamManager::stream_ready(&None));
    assert_eq!(m.wait_for_stream_at("cam", false, at(1)), WaitStart::Start);
    run(&mut m, "cam", at(1));
    assert_eq!(m.wait_for_stream_at("cam", false, at(2)), WaitStart::Wait);
    assert_eq!(m.wait_for_stream_at("cam", true, at(3)), WaitStart::Ready);
    assert_eq!(m.active_streams.get("cam").unwrap().last_accessed, at(3));
    assert_eq!(m.poll_stream_at("cam", false, 0, 500, at(4)), WaitStep::Sleep { millis: 500, next_millis: 600 });
    assert_eq!(m.poll_stream_at("cam", true, 15_000_000_000, 500, at(4)), WaitStep::TimedOut);
}

fn refused(path: &str) -> (u16, &'static str) {
    match find_route(path, None) {
        Route::Refused { status, message } => (status, message),
        other => panic!("{:?}", other),
    }
}

#[test]
fn paths_lead_to_what_they_name() {
    let key = || "cam".to_string();
    assert_eq!(find_route("cam.m3u8", None), Route::Welcome { stream_key: key() });
    assert_eq!(find_route("cam/index.m3u8", None), Route::Welcome { stream_key: key() });
    assert_eq!(
        find_route("cam/index.m3u8", Some("s".to_string())),
        Route::Playlist { stream_key: key(), session: Some("s".to_string()) }
    );
    assert_eq!(find_route("cam/master.m3u8", None), Route::Master { stream_key: key() });
    assert_eq!(
        find_route("cam/720p/index.m3u8", None),
        Route::Variant { stream_key: key(), variant: "720p".to_string() }
    );
    assert_eq!(
        find_route("cam/a.ts", None),
        Route::Segment { stream_key: key(), segment: "a.ts".to_string() }
    );
    assert_eq!(
        find_route("cam/720p/a.ts", None),
        Route::VariantSegment { stream_key: key(), variant: "720p".to_string(), segment: "a.ts".to_string() }
    );
    assert_eq!(refused("cam/other.m3u8"), (404, "Unknown playlist file"));
    assert_eq!(refused("cam/720p/other.m3u8"), (404, "Invalid variant playlist path"));
    assert_eq!(refused("a/b/c/index.m3u8"), (404, "Invalid playlist path"));
    assert_eq!(refused(".m3u8"), (404, "Invalid playlist path"));
    assert_eq!(refused("a.ts"), (404, "Invalid segment path"));
    assert_eq!(refused("cam/x.xyz"), (400, "Invalid file type"));
    // Empty components count.
    assert_eq!(refused("/cam/720p/a.ts"), (404, "Invalid segment path"));
}

#[test]
fn requests_to_the_edge_say_what_they_need() {
    let mut m = manager();
    run(&mut m, "cam", at(0));
    m.session_manager.open_session("cam", "id000001", at(0));
    assert_eq!(
        serve_hls_content_at(&mut m, "cam/index.m3u8", Some("id000001".to_string()), at(20)),
        HlsStep::ReadPlaylist { stream_key: "cam".to_string(), file_path: "./hls/cam/index.m3u8".to_string() }
    );
    assert_eq!(m.stats.requests, 1);
    assert_eq!(m.session_manager.stream_viewer_count_at("cam", at(50)), 1);
    assert_eq!(m.active_streams.get("cam").unwrap().last_accessed, at(20));
    assert_eq!(
        serve_hls_content_at(&mut m, "cam/master.m3u8", None, at(21)),
        HlsStep::ReadMaster { file_path: "./hls/cam/master.m3u8".to_string() }
    );
    assert_eq!(
        serve_hls_content_at(&mut m, "new/master.m3u8", None, at(21)),
        HlsStep::StartForMaster {
            stream_key: "new".to_string(),
            file_path: "./hls/new/master.m3u8".to_string()
        }
    );
    assert_eq!(
        serve_hls_content_at(&mut m, "cam/720p/index.m3u8", None, at(21)),
        HlsStep::ReadVariant { file_path: "./hls/cam/720p/index.m3u8".to_string() }
    );
    assert_eq!(m.stats.requests, 1);
    assert_eq!(
        serve_hls_content_at(&mut m, "cam/a.ts", None, at(22)),
        HlsStep::LoadSegment {
            stream_key: "cam".to_string(),
            cache_key: "cam/a.ts".to_string(),
            file_path: "./hls/cam/a.ts".to_string()
        }
    );
    assert_eq!(m.stats.requests, 2);
    assert_eq!(
        serve_hls_content_at(&mut m, "cam/720p/a.ts", None, at(23)),
        HlsStep::LoadVariantSegment {
            cache_key: "cam/720p/a.ts".to_string(),
            file_path: "./hls/cam/720p/a.ts".to_string()
        }
    );
    assert_eq!(m.active_streams.get("cam").unwrap().last_accessed, at(23));
    match serve_hls_content(&mut m, "cam/x.xyz", None) {
        HlsStep::Answer(r) => assert_eq!((r.status, text(&r)), (400, "Invalid file type")),
        other => panic!("{:?}", other),
    }
}

#[test]
fn a_first_request_to_the_edge_gets_a_session() {
    let mut m = manager();
    let r = serve_master_playlist(&mut m, "cam", false, false);
    assert_eq!((r.status, text(&r)), (503, "Stream not available"));
    m.start_stream_at("cam", at(0));
    m.finish_start_at("cam", None, at(0));
    let r = serve_master_playlist(&mut m, "cam", false, false);
    assert_eq!((r.status, text(&r)), (404, "Stream not found"));
    let r = serve_master_playlist(&mut m, "cam", true, true);
    assert_eq!(r.status, 200);
    assert!(text(&r).contains("/live/cam/master.m3u8?hls_ctx="));
    assert_eq!(m.session_manager.get_stream_viewer_count("cam"), 1);
    let r = welcome_viewer_at(&mut m, "cam", "id000009", false, at(5));
    assert!(text(&r).ends_with("/live/cam/index.m3u8?hls_ctx=id000009"));
    assert_eq!(m.session_manager.validate_session_at("id000009", at(5)), Some("cam".to_string()));
    assert_eq!(m.stats.requests, 2);
}

#[test]
fn playlists_of_the_edge_are_read_as_text() {
    let mut m = manager();
    let r = serve_actual_playlist(&mut m, "cam", Some(b"#EXTM3U\na.ts".to_vec()));
    assert_eq!(text(&r), "#EXTM3U\n/live/cam/a.ts");
    assert_eq!((m.stats.playlists_served, m.stats.bytes_served), (1, 22));
    let r = serve_actual_playlist(&mut m, "cam", Some(vec![b'#', 0xff, b'\n', b'x']));
    assert_eq!(text(&r), "#\u{fffd}\nx");
    let r = serve_actual_playlist(&mut m, "cam", None);
    assert_eq!((r.status, text(&r)), (404, "Playlist not found"));
    assert_eq!(text(&serve_abr_master_playlist(Some("m".to_string()))), "m");
    let r = serve_abr_master_playlist(None);
    assert_eq!((r.status, text(&r)), (404, "Master playlist not found"));
    assert_eq!(text(&serve_variant_playlist(Some("v.ts".to_string()))), "v.ts");
    let r = serve_variant_playlist(None);
    assert_eq!((r.status, text(&r)), (404, "Variant playlist not found"));
    assert!(master_start_result(Ok(true)).is_none());
    let r = master_start_result(Ok(false)).unwrap();
    assert_eq!((r.status, text(&r), r.headers.len()), (503, "Stream not available", 0));
    let r = master_start_result(Err(StartFailure::Io)).unwrap();
    assert_eq!((r.status, text(&r)), (500, "Failed to start stream"));
}

#[test]
fn segments_of_the_edge_are_counted() {
    let mut m = manager();
    let s = CachedSegment { data: vec![0; 12], content_type: "video/MP2T" };
    let r = serve_segment(&mut m, Ok(Some((s.clone(), true))));
    assert_eq!(r.headers[0], ("content-type".to_string(), "video/MP2T".to_string()));
    assert_eq!(r.headers[1], ("cache-control".to_string(), "max-age=10".to_string()));
    let r = serve_variant_segment(&mut m, Ok(Some((s, false))));
    assert_eq!(
        r.headers,
        vec![
            ("content-type".to_string(), "video/mp2t".to_string()),
            ("content-length".to_string(), "12".to_string()),
            ("cache-control".to_string(), "public, max-age=31536000".to_string()),
        ]
    );
    assert_eq!((m.stats.segments_served, m.stats.bytes_served, m.stats.requests), (2, 24, 0));
    let r = serve_segment(&mut m, Ok(None));
    assert_eq!((r.status, text(&r)), (404, "Segment not found"));
    let r = serve_segment(&mut m, Err(SegmentError::Cache));
    assert_eq!((r.status, text(&r)), (500, "Internal server error"));
    let r = serve_variant_segment(&mut m, Ok(None));
    assert_eq!((r.status, text(&r)), (404, "Segment not found"));
    let r = serve_variant_segment(&mut m, Err(SegmentError::Cache));
    assert_eq!((r.status, text(&r)), (500, "Failed to load segment"));
}

#[test]
fn the_edge_reports_how_it_is() {
    let mut m = manager();
    run(&mut m, "cam", at(10));
    m.session_manager.open_session("cam", "id000001", at(10));
    m.start_stream_at("bad", at(10));
    m.finish_start_at("bad", None, at(10));
    m.start_stream_at("next", at(10));
    let s = status_at(&mut m, 5, at(25));
    assert_eq!(s.active_streams.len(), 1);
    let cam = &s.active_streams[0];
    assert_eq!((cam.key.as_str(), cam.pid, cam.uptime, cam.last_accessed, cam.viewers), ("cam", 42, 15, 15, 1));
    assert_eq!((s.pending_streams, s.failed_streams), (vec!["next".to_string()], vec!["bad".to_string()]));
    assert_eq!((s.stats.total_viewers, s.stats.failed, s.cache_stats.total_entries), (1, 1, 5));
    assert_eq!((s.uptime_seconds, s.throughput.bytes, s.metrics_history.len()), (25, 0, 0));
    let (code, h) = health_check_at(&mut m, at(25));
    assert_eq!((code, h.status.as_str(), h.stats.total_viewers), (200, "healthy", 1));
    assert_eq!((h.active_streams, h.pending_streams, h.max_streams), (1, 1, 50));
    assert_eq!(health_check(&mut m).0, 200);
    assert!(status(&mut m, 0).uptime_seconds > 1_000_000_000);
}

#[test]
fn the_first_dashboard_that_can_be_read_is_served() {
    assert_eq!(dashboard_paths(), vec!["dashboard.html", "/dashboard.html", "cascade/dashboard.html"]);
    let r = dashboard(vec![None, Some("<p>".to_string()), Some("no".to_string())]);
    assert_eq!((r.status, text(&r)), (200, "<p>"));
    assert_eq!(r.headers, vec![("content-type".to_string(), "text/html; charset=utf-8".to_string())]);
    let r = dashboard(vec![None, None]);
    assert_eq!((r.status, text(&r)), (500, "Dashboard not available"));
}

#[test]
fn a_client_is_known_by_proxy_connection_or_not_at_all() {
    let c = extract_client_info(Some(" 10.0.0.1 , 10.0.0.2"), Some("127.0.0.1"), Some("VLC"));
    assert_eq!((c.ip.as_str(), c.user_agent.as_deref()), ("10.0.0.1", Some("VLC")));
    assert_eq!(extract_client_info(None, Some("127.0.0.1"), None).ip, "127.0.0.1");
    let c = extract_client_info(None, None, None);
    assert_eq!((c.ip.as_str(), c.user_agent), ("unknown", None));
    assert_eq!(extract_client_info(Some(""), Some("x"), None).ip, "");
    assert_eq!(listen_address(Some("81")), "0.0.0.0:81");
    assert_eq!(listen_address(None), "0.0.0.0:8080");
}

#[test]
fn the_edge_follows_the_system_clock() {
    let mut m = StreamManager::new(&unset());
    assert!(matches!(m.start_stream("cam"), StartStep::Launch(_)));
    assert!(m.finish_start("cam", Some(Some(7))));
    assert_eq!(m.wait_for_stream("cam", true), WaitStart::Ready);
    assert_eq!(m.poll_stream("cam", true, 0, 200), WaitStep::Ready);
    m.update_stream_access_at("cam", at(0));
    m.update_stream_access("cam");
    assert!(m.cleanup_idle_streams().is_empty());
    m.update_stream_access_at("cam", at(0));
    assert_eq!(m.cleanup_idle_streams(), vec!["cam".to_string()]);
}
