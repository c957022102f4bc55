use cascade::config::{AbrConfig, Config};
use cascade::vars::{number_or, read, text_or, truth_or};

#[test]
fn the_default_settings_are_as_documented() {
    let c = Config::default();
    assert_eq!(c.server.port, 8080);
    assert_eq!(c.server.hls_path, "/hls");
    assert_eq!(c.rtmp.source_port, 1935);
    assert_eq!(c.stream.max_concurrent_streams, 50);
    assert_eq!(c.stream.stream_timeout, 30);
    assert_eq!(c.stream.stream_start_timeout, 15);
    assert_eq!(c.cache.max_entries, 200);
    assert_eq!(c.cache.max_segment_size, 10 * 1024 * 1024);
    assert_eq!(c.cache.ttl_seconds, 300);
    assert!(c.viewer.tracking_enabled);
    assert_eq!(c.viewer.timeout_seconds, 30);
    assert!(!c.elasticsearch.enabled);
    assert_eq!(c.elasticsearch.url.as_deref(), Some("http://localhost:9200"));
    assert_eq!(c.elasticsearch.index_prefix, "cascade-metrics");
    let names: Vec<&str> = c.abr.variants.iter().map(|v| v.name.as_str()).collect();
    assert_eq!(names, vec!["360p", "480p", "720p", "1080p"]);
    assert_eq!(c.abr.variants[3].profile, "high");
    assert_eq!(c.ssl.domains, vec!["example.com".to_string(), "www.example.com".to_string()]);
    assert!(c.abr.variants.iter().all(|v| v.fits()));
}

#[test]
fn settings_that_were_read_win_over_the_defaults() {
    let mut own = Config::default();
    own.server.port = 9000;
    assert_eq!(Config::loaded_or_default(Some(own)).server.port, 9000);
    assert_eq!(Config::loaded_or_default(None).server.port, 8080);
}

#[test]
fn a_ladder_without_rungs_is_no_ladder() {
    assert!(Config::default().abr.adaptive());
    assert!(!AbrConfig { enabled: true, variants: vec![] }.adaptive());
    let mut off = Config::default().abr;
    off.enabled = false;
    assert!(!off.adaptive());
    assert_eq!(off.duplicate(), off);
}

#[test]
fn numbers_that_do_not_fit_are_noticed() {
    let mut v = Config::default().abr.variants[0].duplicate();
    assert!(v.fits());
    v.bitrate = 4_294_968;
    assert!(!v.fits());
    v.bitrate = 800;
    v.framerate = u32::MAX;
    assert!(!v.fits());
}

#[test]
fn variables_give_way_to_defaults() {
    assert_eq!(number_or(Some("7"), u64::MAX, 3), 7);
    assert_eq!(number_or(Some("seven"), u64::MAX, 3), 3);
    assert_eq!(number_or(Some("300"), 255, 3), 3);
    assert_eq!(number_or(None, u64::MAX, 3), 3);
    assert!(truth_or(Some("true"), false));
    assert!(!truth_or(Some("TRUE"), false));
    assert_eq!(text_or(None, "x"), "x");
    assert_eq!(text_or(Some(""), "x"), "");
    assert_eq!(read(&Some("y".to_string())), Some("y"));
    assert_eq!(read(&None), None);
}
