use cascade::handlers::playlist::redirect_text;
use cascade::handlers::common::rewrite_playlist_urls;
use cascade::load_test::client::{HlsClient, Segment};
use cascade::load_test::metrics::{Figure, Metrics, ReportLine, DROPPED_SAMPLES, MAX_SAMPLES};
use cascade::load_test::{random_viewer_from, LoadPlan, PlaybackBehavior, ViewerPlan};
use std::time::Duration;

fn plan(behavior: PlaybackBehavior, viewers: usize, duration: u64, ramp_up: u64) -> LoadPlan {
    LoadPlan { behavior, viewers, duration, ramp_up }
}

fn client() -> HlsClient {
    HlsClient::new("http://localhost:8080".to_string(), "cam".to_string())
}

#[test]
fn steady_viewers_join_at_once_or_over_the_ramp() {
    let at_once = plan(PlaybackBehavior::Steady, 3, 60, 0).spawn_viewers();
    assert_eq!(
        at_once,
        vec![ViewerPlan { join_delay: 0, play_duration: 60_000_000_000, pause_after: 0 }; 3]
    );
    let ramp = plan(PlaybackBehavior::Steady, 7, 60, 10).spawn_viewers();
    assert_eq!(ramp[6].pause_after, (Duration::from_secs(10) / 7).as_nanos());
    assert!(plan(PlaybackBehavior::Steady, 0, 60, 10).spawn_viewers().is_empty());
}

#[test]
fn half_of_a_spike_comes_later() {
    let viewers = plan(PlaybackBehavior::Spike, 5, 61, 0).spawn_viewers();
    let delays: Vec<u128> = viewers.iter().map(|v| v.join_delay / 1_000_000_000).collect();
    assert_eq!(delays, vec![0, 0, 15, 15, 15]);
    assert!(viewers.iter().all(|v| v.play_duration == 61_000_000_000 && v.pause_after == 0));
}

#[test]
fn a_wave_joins_over_the_first_third_and_ends_together() {
    let p = plan(PlaybackBehavior::Wave, 7, 100, 0);
    assert!(p.is_feasible());
    let viewers = p.spawn_viewers();
    for (i, v) in viewers.iter().enumerate() {
        let period = Duration::from_secs(100 / 3);
        assert_eq!(v.join_delay, ((period * i as u32) / 7).as_nanos());
        assert_eq!(v.join_delay + v.play_duration, 100_000_000_000);
        assert!(v.join_delay <= 33_000_000_000);
    }
    assert!(viewers.windows(2).all(|w| w[0].join_delay <= w[1].join_delay));
}

#[test]
fn a_test_that_cannot_be_timed_is_noticed() {
    assert!(!plan(PlaybackBehavior::Wave, 10, u64::MAX, 0).is_feasible());
    assert!(plan(PlaybackBehavior::Wave, 1, u64::MAX, 0).is_feasible());
    assert!(plan(PlaybackBehavior::Wave, 0, 60, 0).is_feasible());
    assert!(!plan(PlaybackBehavior::Steady, 1 << 32, 60, 1).is_feasible());
    assert!(plan(PlaybackBehavior::Steady, 1 << 32, 60, 0).is_feasible());
    assert!(plan(PlaybackBehavior::Random, 1 << 32, 60, 1).is_feasible());
}

#[test]
fn viewers_at_random_stay_half_a_minute_at_least() {
    assert_eq!(
        random_viewer_from(100, 37, 250),
        ViewerPlan { join_delay: 7_000_000_000, play_duration: 80_000_000_000, pause_after: 0 }
    );
    assert_eq!(random_viewer_from(5, 0, 65).play_duration, 35_000_000_000);
    let viewers = plan(PlaybackBehavior::Random, 200, 60, 9).spawn_viewers();
    assert_eq!(viewers.len(), 200);
    for v in &viewers {
        assert!(v.join_delay < 10_000_000_000);
        assert!(v.play_duration >= 30_000_000_000 && v.play_duration < 90_000_000_000);
        assert_eq!(v.pause_after, 0);
    }
    assert!(viewers.iter().any(|v| *v != viewers[0]));
}

#[test]
fn percentiles_are_read_off_the_sorted_latencies() {
    let mut m = Metrics::new();
    assert_eq!(m.get_latency_percentiles(), (0, 0, 0));
    for i in (1..=100u128).rev() {
        m.record_latency(i * 10);
    }
    assert_eq!(m.get_latency_percentiles(), (510, 960, 1000));
    assert_eq!(m.latencies[0], 1000);
    assert_eq!(Metrics::percentiles(&vec![7]), (7, 7, 7));
}

#[test]
fn only_recent_latencies_are_kept() {
    let mut m = Metrics::new();
    for i in 0..MAX_SAMPLES as u128 {
        m.record_latency(i);
    }
    assert_eq!(m.latencies.len(), MAX_SAMPLES);
    m.record_latency(77);
    assert_eq!(m.latencies.len(), MAX_SAMPLES + 1 - DROPPED_SAMPLES);
    assert_eq!(m.latencies[0], DROPPED_SAMPLES as u128);
    assert_eq!(*m.latencies.last().unwrap(), 77);
}

fn shown(lines: &[ReportLine]) -> Vec<String> {
    lines
        .iter()
        .map(|l| match l {
            ReportLine::Heading(t) => format!("# {}", t),
            ReportLine::Count(t) => t.clone(),
            ReportLine::Figure { name, figure } => format!("{}{:?}", name, figure),
        })
        .collect()
}

#[test]
fn the_report_tells_what_was_measured() {
    let mut m = Metrics::new();
    m.viewer_joined();
    m.viewer_joined();
    m.viewer_left();
    for _ in 0..4 {
        m.request_sent();
    }
    m.response_received(5, true);
    m.playlist_received();
    m.bytes_received(100);
    m.response_received(6, true);
    m.cache_status(Some("HIT"));
    m.segment_received(900);
    m.response_received(7, false);
    m.cache_status(None);
    let lines = shown(&m.print_metrics(3_000_000_000, false));
    assert_eq!(lines[0], "# === Performance Metrics ===");
    assert_eq!(lines[1], "Test Duration: Seconds { nanos: 3000000000 }");
    assert_eq!(lines[2], "Active Viewers: 1");
    assert_eq!(&lines[4..7], ["Total: 4", "Success: 2", "Failed: 1"]);
    assert_eq!(lines[7], "Success Rate: Percent { part: 2, whole: 4 }");
    assert_eq!(&lines[9..11], ["Playlists: 1", "Segments: 1"]);
    assert_eq!(lines[11], "Data Downloaded: Megabytes { bytes: 1000 }");
    assert_eq!(lines[12], "Throughput: MegabytesPerSecond { bytes: 1000, nanos: 3000000000 }");
    assert_eq!(&lines[13..16], ["# --- Cache ---", "Cache Hits: 1", "Cache Misses: 0"]);
    assert_eq!(lines[16], "Hit Rate: Percent { part: 1, whole: 1 }");
    assert_eq!(lines[17], "# --- Latency ---");
    assert_eq!(lines[18], "P50: Millis { nanos: 6 }");
    assert_eq!(lines[20], "P99: Millis { nanos: 7 }");
    assert_eq!(lines.len(), 21);
    m.cache_status(Some("MISS"));
    let detailed = m.print_metrics(3_000_000_000, true);
    assert_eq!(detailed.len(), 24);
    assert_eq!(
        detailed[22],
        ReportLine::Figure {
            name: "Requests/sec: ".to_string(),
            figure: Figure::PerSecond { count: 4, nanos: 3_000_000_000 }
        }
    );
    let empty = shown(&Metrics::new().print_metrics(1, false));
    assert_eq!(empty[7], "Success Rate: Percent { part: 0, whole: 1 }");
    assert_eq!(empty[13..15], ["# --- Cache ---".to_string(), "# --- Latency ---".to_string()]);
}

#[test]
fn a_player_goes_on_with_the_session_it_was_given() {
    let mut c = client();
    assert_eq!(c.master_url(), "http://localhost:8080/live/cam/index.m3u8");
    assert_eq!(c.playlist_url(), c.master_url());
    c.fetch_master_playlist("#EXTM3U\nhls_ctx=no\n/live/other\n");
    assert_eq!(c.session_id, None);
    for has_master in [false, true] {
        c.fetch_master_playlist(&redirect_text("cam", "abcd1234", has_master));
        assert_eq!(c.session_id.as_deref(), Some("abcd1234"));
    }
    assert_eq!(c.playlist_url(), "http://localhost:8080/live/cam/index.m3u8?hls_ctx=abcd1234");
    c.fetch_master_playlist("/live/x?hls_ctx=first\n/live/x?hls_ctx=second");
    assert_eq!(c.session_id.as_deref(), Some("first"));
    c.fetch_master_playlist("nothing");
    assert_eq!(c.session_id.as_deref(), Some("first"));
}

#[test]
fn a_player_reads_a_playlist() {
    let p = HlsClient::parse_playlist(
        "#EXTM3U\n#EXT-X-TARGETDURATION:10\n#EXT-X-MEDIA-SEQUENCE:41\n#EXTINF:9.5,title\n\
         /live/cam/a.ts\n/live/cam/b.ts\n#EXTINF:3\nnote.txt\n/live/cam/c.ts\n#EXTINF:x.ts\n",
    );
    assert_eq!(p.target_duration.as_deref(), Some("10"));
    assert_eq!(p.media_sequence, 41);
    assert!(p.is_live);
    let segment = |uri: &str, duration: Option<&str>, sequence| Segment {
        uri: uri.to_string(),
        duration: duration.map(|d| d.to_string()),
        sequence,
    };
    assert_eq!(
        p.segments,
        vec![
            segment("/live/cam/a.ts", Some("9.5"), 41),
            segment("/live/cam/b.ts", None, 42),
            segment("/live/cam/c.ts", Some("3"), 43),
        ]
    );
    let p = HlsClient::parse_playlist("#EXT-X-MEDIA-SEQUENCE:many\nx.ts\n#EXT-X-ENDLIST");
    assert_eq!((p.media_sequence, p.is_live, p.segments[0].sequence), (0, false, 0));
    assert_eq!(p.target_duration, None);
    assert!(HlsClient::parse_playlist("").segments.is_empty());
}

#[test]
fn a_player_takes_each_segment_once() {
    let mut c = client();
    let served = rewrite_playlist_urls("#EXT-X-MEDIA-SEQUENCE:5\na.ts\nb.ts\nc.ts", "cam");
    let p = HlsClient::parse_playlist(&served);
    assert_eq!(c.next_segment(&p, 0), Some(0));
    assert_eq!(c.segment_url(&p.segments[0]), "http://localhost:8080/live/cam/a.ts");
    c.downloaded(&p.segments[0]);
    assert_eq!(c.next_segment(&p, 0), Some(1));
    assert_eq!(c.next_segment(&p, 2), Some(2));
    c.downloaded(&p.segments[2]);
    assert_eq!(c.next_segment(&p, 0), None);
    assert_eq!(c.next_segment(&p, 9), None);
    // Number zero counts as played from the start.
    let p = HlsClient::parse_playlist("a.ts\nb.ts");
    assert_eq!(client().next_segment(&p, 0), Some(1));
}

#[test]
fn a_player_without_limit_plays_for_ever() {
    assert!(HlsClient::keeps_playing(5, 0));
    assert!(HlsClient::keeps_playing(4, 5));
    assert!(!HlsClient::keeps_playing(5, 5));
}
