use cascade::cache::{CachedSegment, Lookup};
use cascade::clock::Timestamp;
use cascade::config::Config;
use cascade::elasticsearch::MetricsSubject;
use cascade::launch::LaunchPlan;
use cascade::manager::{
    LaunchOutcome, MonitorStep, StartError, StartStep, StreamManager, WaitStart, WaitStep,
};

fn at(seconds: i64) -> Timestamp {
    Timestamp::at(seconds, 0).unwrap()
}

fn config(max_streams: usize, adaptive: bool) -> Config {
    let mut c = Config::default();
    c.stream.max_concurrent_streams = max_streams;
    c.abr.enabled = adaptive;
    c
}

fn maxrates(c: &Config) -> Vec<u32> {
    c.abr.variants.iter().map(|v| (v.bitrate as f32 * 1.1) as u32).collect()
}

fn start(m: &mut StreamManager, key: &str, now: Timestamp) -> StartStep {
    m.start_stream_at(key, &maxrates(&Config::default()), now)
}

fn run(m: &mut StreamManager, key: &str, now: Timestamp) {
    match start(m, key, now) {
        StartStep::Launch(_) => {}
        other => panic!("not launched: {:?}", other),
    }
    assert_eq!(m.finish_start_at(key, LaunchOutcome::Running, now), Ok(true));
}

fn launched(step: StartStep) -> LaunchPlan {
    match step {
        StartStep::Launch(plan) => plan,
        other => panic!("not launched: {:?}", other),
    }
}

fn owned(pairs: &[(&str, &str)]) -> Vec<(String, String)> {
    pairs.iter().map(|(a, b)| (a.to_string(), b.to_string())).collect()
}

#[test]
fn a_stream_that_is_passed_on_has_one_output() {
    let mut m = StreamManager::starting_at(&config(5, false), at(0));
    let plan = launched(start(&mut m, "cam", at(1)));
    assert_eq!(plan.rtmp_url, "rtmp://rtmp.example.com:1935/live/cam");
    assert_eq!(plan.stream_dir, "/hls/cam");
    assert!(plan.variant_dirs.is_empty());
    assert_eq!(
        plan.input_opts,
        owned(&[("rw_timeout", "100000"), ("analyzeduration", "2000000"), ("probesize", "1M")])
    );
    assert_eq!(plan.filter_desc, "");
    assert!(plan.master_playlist.is_none());
    assert_eq!(plan.outputs.len(), 1);
    let out = &plan.outputs[0];
    assert_eq!(out.path, "/hls/cam/index.m3u8");
    assert_eq!(out.stream_maps, vec!["0:v", "0:a"]);
    assert_eq!((out.format.as_str(), out.video_codec.as_str(), out.audio_codec.as_str()), ("hls", "copy", "copy"));
    assert!(out.video_codec_opts.is_empty() && out.audio_codec_opts.is_empty());
    assert_eq!(
        out.format_opts,
        owned(&[
            ("hls_time", "1"),
            ("hls_list_size", "20"),
            ("hls_flags", "delete_segments+append_list"),
            ("hls_segment_filename", "/hls/cam/cam_%03d.ts"),
        ])
    );
}

#[test]
fn a_stream_that_is_encoded_has_an_output_for_each_rung() {
    let c = config(5, true);
    let mut m = StreamManager::starting_at(&c, at(0));
    let plan = launched(m.start_stream_at("cam", &maxrates(&c), at(1)));
    assert_eq!(plan.variant_dirs, vec!["/hls/cam/360p", "/hls/cam/480p", "/hls/cam/720p", "/hls/cam/1080p"]);
    assert_eq!(
        plan.filter_desc,
        "[0:v]split=4[split0][split1][split2][split3]\
         ;[split0]scale=640:360,fps=30[vout0]\
         ;[split1]scale=854:480,fps=30[vout1]\
         ;[split2]scale=1280:720,fps=30[vout2]\
         ;[split3]scale=1920:1080,fps=30[vout3]"
    );
    assert_eq!(plan.outputs.len(), 4);
    let out = &plan.outputs[3];
    assert_eq!(out.path, "/hls/cam/1080p/index.m3u8");
    assert_eq!(out.stream_maps, vec!["vout3", "0:a"]);
    assert_eq!((out.video_codec.as_str(), out.audio_codec.as_str()), ("libx264", "aac"));
    assert_eq!(
        out.video_codec_opts,
        owned(&[
            ("preset", "veryfast"),
            ("profile", "high"),
            ("b", "5000k"),
            ("maxrate", "5500k"),
            ("bufsize", "10000k"),
            ("g", "60"),
            ("keyint_min", "30"),
            ("sc_threshold", "0"),
        ])
    );
    assert_eq!(out.audio_codec_opts, owned(&[("b", "192k"), ("ac", "2")]));
    assert_eq!(
        out.format_opts,
        owned(&[
            ("hls_time", "1"),
            ("hls_list_size", "20"),
            ("hls_flags", "delete_segments+append_list"),
            ("hls_segment_type", "mpegts"),
            ("hls_segment_filename", "/hls/cam/1080p/segment_%03d.ts"),
        ])
    );
    let master = plan.master_playlist.unwrap();
    assert_eq!(master.path, "/hls/cam/master.m3u8");
    assert_eq!(
        master.content,
        "#EXTM3U\n#EXT-X-VERSION:3\n\
         #EXT-X-STREAM-INF:BANDWIDTH=896000,RESOLUTION=640x360,FRAMERATE=30\n360p/index.m3u8\n\
         #EXT-X-STREAM-INF:BANDWIDTH=1528000,RESOLUTION=854x480,FRAMERATE=30\n480p/index.m3u8\n\
         #EXT-X-STREAM-INF:BANDWIDTH=2928000,RESOLUTION=1280x720,FRAMERATE=30\n720p/index.m3u8\n\
         #EXT-X-STREAM-INF:BANDWIDTH=5192000,RESOLUTION=1920x1080,FRAMERATE=30\n1080p/index.m3u8\n"
    );
    // Whether the stream is ready is read off the files that the outputs write.
    let written: Vec<String> = plan.outputs.iter().map(|o| o.path.clone()).collect();
    assert_eq!(m.launcher.ready_paths("cam"), written);
    assert_eq!(m.launcher.master_path("cam"), "/hls/cam/master.m3u8");
}

#[test]
fn a_stream_is_launched_once() {
    let mut m = StreamManager::starting_at(&config(5, false), at(0));
    launched(start(&mut m, "cam", at(1)));
    assert_eq!(start(&mut m, "cam", at(2)), StartStep::AlreadyPending);
    assert_eq!(m.finish_start_at("cam", LaunchOutcome::Running, at(3)), Ok(true));
    assert_eq!(start(&mut m, "cam", at(4)), StartStep::AlreadyActive);
    assert_eq!(m.active_streams.get("cam").unwrap().started_at, at(3));
    assert_eq!(m.pending_streams.len(), 0);
    assert_eq!(m.stats.started, 1);
}

#[test]
fn a_failed_launch_may_be_tried_again() {
    let mut m = StreamManager::starting_at(&config(5, false), at(0));
    launched(start(&mut m, "cam", at(1)));
    assert_eq!(m.finish_start_at("cam", LaunchOutcome::Failed, at(2)), Ok(false));
    assert_eq!(m.stats.failed, 1);
    assert_eq!(m.stats.started, 0);
    launched(start(&mut m, "cam", at(3)));
}

#[test]
fn a_launch_without_master_playlist_stays_pending() {
    let mut m = StreamManager::starting_at(&config(5, false), at(0));
    launched(start(&mut m, "cam", at(1)));
    assert_eq!(
        m.finish_start_at("cam", LaunchOutcome::Unwritten, at(2)),
        Err(StartError::MasterPlaylist)
    );
    assert_eq!(start(&mut m, "cam", at(3)), StartStep::AlreadyPending);
    assert_eq!((m.stats.started, m.stats.failed), (0, 0));
}

#[test]
fn an_attempt_that_ended_takes_no_place() {
    let mut m = StreamManager::starting_at(&config(1, false), at(0));
    for (i, key) in ["a", "b", "c"].iter().enumerate() {
        launched(start(&mut m, key, at(1)));
        assert_eq!(start(&mut m, "other", at(1)), StartStep::AtCapacity);
        assert!(m.finish_start_at(key, LaunchOutcome::Unwritten, at(2)).is_err());
        assert_eq!((m.pending_streams.len(), m.launching_streams.len()), (i + 1, 0));
    }
    launched(start(&mut m, "d", at(3)));
    assert_eq!(m.finish_start_at("d", LaunchOutcome::Failed, at(3)), Ok(false));
    run(&mut m, "e", at(4));
    assert_eq!(start(&mut m, "f", at(4)), StartStep::AtCapacity);
    assert_eq!(start(&mut m, "a", at(4)), StartStep::AlreadyPending);
    m.graceful_shutdown_at(at(5));
    assert_eq!((m.pending_streams.len(), m.active_streams.len()), (0, 0));
    launched(start(&mut m, "a", at(6)));
}

#[test]
fn a_refused_start_ends_the_wait() {
    assert!(StreamManager::waits_after_start(Ok(true)));
    assert!(!StreamManager::waits_after_start(Ok(false)));
    assert!(!StreamManager::waits_after_start(Err(StartError::MasterPlaylist)));
    let mut m = StreamManager::starting_at(&config(1, false), at(0));
    let step = start(&mut m, "cam", at(1));
    assert_eq!(step.answer(), None);
    assert_eq!(start(&mut m, "cam", at(1)).answer(), Some(true));
    assert_eq!(start(&mut m, "door", at(1)).answer(), Some(false));
    assert_eq!(StartStep::AlreadyActive.answer(), Some(true));
}

#[test]
fn no_more_streams_run_than_may() {
    let mut m = StreamManager::starting_at(&config(2, false), at(0));
    run(&mut m, "a", at(1));
    run(&mut m, "b", at(1));
    assert_eq!(start(&mut m, "c", at(1)), StartStep::AtCapacity);
    assert_eq!(m.active_streams.len(), 2);
    assert!(m.stop_stream("a"));
    run(&mut m, "c", at(2));
    assert_eq!(m.active_streams.len(), 2);
}

#[test]
fn overlapping_starts_keep_the_limit() {
    let mut m = StreamManager::starting_at(&config(1, false), at(0));
    assert!(m.grants_launch("a"));
    launched(start(&mut m, "a", at(1)));
    assert!(!m.grants_launch("a"));
    assert!(!m.grants_launch("b"));
    assert_eq!(start(&mut m, "b", at(1)), StartStep::AtCapacity);
    assert_eq!(m.finish_start_at("a", LaunchOutcome::Running, at(2)), Ok(true));
    assert_eq!(start(&mut m, "b", at(2)), StartStep::AtCapacity);
    assert_eq!(start(&mut m, "a", at(2)), StartStep::AlreadyActive);
    assert_eq!((m.active_streams.len(), m.pending_streams.len(), m.stats.started), (1, 0, 1));
}

#[test]
fn peak_rates_matter_only_where_a_stream_is_launched() {
    let c = config(1, true);
    let mut m = StreamManager::starting_at(&c, at(0));
    launched(m.start_stream_at("cam", &maxrates(&c), at(1)));
    assert_eq!(m.start_stream_at("cam", &vec![], at(1)), StartStep::AlreadyPending);
    assert_eq!(m.start_stream_at("door", &vec![], at(1)), StartStep::AtCapacity);
}

#[test]
fn a_stream_whose_encoder_ended_can_start_again() {
    let mut m = StreamManager::starting_at(&config(1, false), at(0));
    run(&mut m, "cam", at(1));
    m.session_manager.open_session("cam", "id000001", at(1));
    assert_eq!(m.monitor_step("cam", Some(false)), MonitorStep::Continue);
    assert_eq!(m.monitor_step("cam", None), MonitorStep::Finished);
    assert_eq!(
        m.monitor_step("cam", Some(true)),
        MonitorStep::CleanUp { stream_dir: "/hls/cam".to_string() }
    );
    assert_eq!(m.stats.failed, 1);
    assert_eq!(m.session_manager.stream_viewer_count_at("cam", at(1)), 0);
    assert_eq!(m.monitor_step("cam", Some(true)), MonitorStep::Finished);
    run(&mut m, "cam", at(2));
}

#[test]
fn a_stopped_stream_is_gone_with_its_viewers() {
    let mut m = StreamManager::starting_at(&config(5, false), at(0));
    run(&mut m, "cam", at(1));
    m.session_manager.open_session("cam", "id000001", at(1));
    m.session_manager.open_session("ghost", "id000002", at(1));
    let segment = CachedSegment { data: vec![9], content_type: "video/MP2T" };
    m.cache.loaded("cam/a.ts", Ok(segment.clone()));
    m.cache.loaded("door/a.ts", Ok(segment.clone()));
    assert!(m.stop_stream("cam"));
    assert_eq!(m.cache.get_or_load("cam/a.ts", Some(segment.clone())), Lookup::Load);
    assert_eq!(m.cache.get_or_load("door/a.ts", Some(segment.clone())), Lookup::Hit(segment));
    assert!(!m.stop_stream("cam"));
    assert!(!m.stop_stream("ghost"));
    assert_eq!(m.stats.stopped, 1);
    assert_eq!(m.active_streams.len(), 0);
    assert_eq!(m.session_manager.total_viewer_count_at(at(1)), 0);
}

#[test]
fn cleaning_stops_the_idle_streams_only() {
    let mut m = StreamManager::starting_at(&config(5, false), at(0));
    run(&mut m, "a", at(0));
    run(&mut m, "b", at(0));
    m.session_manager.open_session("b", "id000001", at(0));
    m.update_stream_access_at("b", at(20));
    assert_eq!(m.idle_streams_at(at(30)), Vec::<String>::new());
    assert_eq!(m.cleanup_idle_streams_at(at(31)), vec!["a".to_string()]);
    assert!(m.active_streams.contains_key("b") && !m.active_streams.contains_key("a"));
    assert_eq!(m.stats.stopped, 1);
    // The session on the other stream has expired and was forgotten.
    assert!(!m.session_manager.update_session_at("id000001", at(31)));
    assert_eq!(m.cleanup_idle_streams_at(at(51)), vec!["b".to_string()]);
}

#[test]
fn a_shutdown_leaves_nothing() {
    let mut c = config(5, false);
    c.elasticsearch.enabled = true;
    c.elasticsearch.flush_interval_seconds = 1000;
    let mut m = StreamManager::starting_at(&c, at(0));
    run(&mut m, "a", at(0));
    run(&mut m, "b", at(0));
    launched(start(&mut m, "c", at(0)));
    let docs = m.collect_stream_metrics_at(at(5));
    assert_eq!(docs.len(), 2);
    for doc in docs {
        assert!(m.elasticsearch.index_metrics_at(doc, at(5)).is_empty());
    }
    let (mut stopped, batch) = m.graceful_shutdown_at(at(6));
    stopped.sort();
    assert_eq!(stopped, vec!["a".to_string(), "b".to_string()]);
    assert_eq!(batch.len(), 2);
    assert_eq!((m.active_streams.len(), m.pending_streams.len()), (0, 0));
    assert_eq!(m.stats.stopped, 2);
    assert!(m.elasticsearch.flush_at(at(7)).is_empty());
}

#[test]
fn a_viewer_waits_for_what_is_missing() {
    let mut m = StreamManager::starting_at(&config(5, false), at(0));
    assert_eq!(m.wait_for_stream_at("cam", false, at(1)), WaitStart::Start);
    assert_eq!(m.wait_for_stream_at("cam", true, at(1)), WaitStart::Start);
    launched(start(&mut m, "cam", at(1)));
    assert_eq!(m.wait_for_stream_at("cam", false, at(1)), WaitStart::Wait);
    assert_eq!(m.finish_start_at("cam", LaunchOutcome::Running, at(2)), Ok(true));
    assert_eq!(m.wait_for_stream_at("cam", false, at(3)), WaitStart::Wait);
    assert_eq!(m.active_streams.get("cam").unwrap().last_accessed, at(2));
    assert_eq!(m.wait_for_stream_at("cam", true, at(4)), WaitStart::Ready);
    assert_eq!(m.active_streams.get("cam").unwrap().last_accessed, at(4));
}

#[test]
fn a_waiting_viewer_looks_until_the_time_is_up() {
    let mut m = StreamManager::starting_at(&config(5, false), at(0));
    run(&mut m, "cam", at(1));
    let second = 1_000_000_000u128;
    assert_eq!(
        m.poll_stream_at("cam", false, 0, StreamManager::first_interval(), at(2)),
        WaitStep::Sleep { millis: 200, next_millis: 240 }
    );
    assert_eq!(m.poll_stream_at("cam", true, 15 * second - 1, 240, at(9)), WaitStep::Ready);
    assert_eq!(m.active_streams.get("cam").unwrap().last_accessed, at(9));
    assert_eq!(m.poll_stream_at("cam", true, 15 * second, 240, at(10)), WaitStep::TimedOut);
    assert_eq!(m.active_streams.get("cam").unwrap().last_accessed, at(9));
    assert_eq!(
        m.poll_stream_at("cam", false, second, 1000, at(10)),
        WaitStep::Sleep { millis: 1000, next_millis: 1000 }
    );
}

#[test]
fn pauses_grow_by_a_fifth_up_to_a_second() {
    let mut m = StreamManager::starting_at(&config(5, false), at(0));
    for millis in (0u64..=3000).chain([1 << 40, u64::MAX]) {
        let expected = std::cmp::min((millis as f64 * 1.2) as u64, 1000);
        assert_eq!(
            m.poll_stream_at("cam", false, 0, millis, at(0)),
            WaitStep::Sleep { millis, next_millis: expected }
        );
    }
}

#[test]
fn a_stream_is_ready_when_a_playlist_names_a_segment() {
    let single = StreamManager::starting_at(&config(5, false), at(0));
    let some = |s: &str| Some(s.to_string());
    assert!(single.stream_ready(false, &vec![some("#EXTM3U\ncam_000.ts\n")]));
    assert!(!single.stream_ready(true, &vec![some("#EXTM3U\n")]));
    assert!(!single.stream_ready(true, &vec![None]));
    let ladder = StreamManager::starting_at(&config(5, true), at(0));
    assert!(ladder.stream_ready(true, &vec![None, some("#EXTM3U"), some("a.ts"), None]));
    assert!(!ladder.stream_ready(false, &vec![some("a.ts")]));
    assert!(!ladder.stream_ready(true, &vec![None, None]));
}

#[test]
fn metrics_are_taken_once() {
    let mut m = StreamManager::starting_at(&config(5, false), at(0));
    run(&mut m, "cam", at(0));
    m.session_manager.open_session("cam", "id000001", at(0));
    {
        let info = m.active_streams.get_mut("cam").unwrap();
        info.bytes_served = 4000;
        info.requests_served = 3;
        info.segments_served = 2;
        info.playlists_served = 9;
        info.cache_hits = 1;
        info.cache_misses = 1;
    }
    let docs = m.collect_stream_metrics_at(Timestamp::at(2, 1_500_000).unwrap());
    assert_eq!(docs.len(), 1);
    assert_eq!(docs[0].rates.elapsed_millis, 2001);
    assert_eq!(docs[0].rates.bytes, 4000);
    assert_eq!(docs[0].rates.requests, 3);
    assert_eq!(docs[0].rates.segments, 2);
    assert_eq!((docs[0].rates.cache_hits, docs[0].rates.cache_misses), (1, 1));
    assert_eq!(docs[0].viewers, 1);
    assert_eq!(docs[0].server_name, "");
    assert_eq!(docs[0].subject, MetricsSubject::Stream { stream_name: "cam".to_string() });
    assert!(m.collect_stream_metrics_at(Timestamp::at(2, 1_500_000).unwrap()).is_empty());
    let again = m.collect_stream_metrics_at(at(4));
    assert_eq!(again[0].rates.bytes, 0);
    assert_eq!(m.active_streams.get("cam").unwrap().playlists_served, 9);
}

#[test]
fn only_playlists_and_segments_are_left_overs() {
    let paths: Vec<String> = ["/hls/a.m3u8", "/hls/b.ts", "/hls/c.txt", "/hls/.ts", "/hls/dir", "/hls/x.m3u8.bak"]
        .iter()
        .map(|s| s.to_string())
        .collect();
    assert_eq!(
        StreamManager::stale_files(&paths),
        vec!["/hls/a.m3u8".to_string(), "/hls/b.ts".to_string()]
    );
}

#[test]
fn the_manager_follows_the_system_clock() {
    let c = config(5, false);
    let mut m = StreamManager::new(&c);
    let now = chrono::Utc::now().timestamp();
    assert!((now - m.server_started_at.seconds()).abs() < 60);
    launched(m.start_stream("cam", &maxrates(&c)));
    assert_eq!(m.finish_start("cam", LaunchOutcome::Running), Ok(true));
    assert!((now - m.active_streams.get("cam").unwrap().started_at.seconds()).abs() < 60);
    assert_eq!(m.wait_for_stream("cam", true), WaitStart::Ready);
    assert_eq!(m.poll_stream("cam", true, 0, 200), WaitStep::Ready);
    m.update_stream_access_at("cam", at(0));
    m.update_stream_access("cam");
    assert!(m.cleanup_idle_streams().is_empty());
    m.update_stream_access_at("cam", at(0));
    assert_eq!(m.cleanup_idle_streams(), vec!["cam".to_string()]);
    assert_eq!(m.graceful_shutdown().0.len(), 0);
    assert!(m.collect_stream_metrics().is_empty());
}
