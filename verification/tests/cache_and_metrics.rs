use cascade::cache::{CacheStats, CachedSegment, LoadError, Lookup, SegmentCache};
use cascade::clock::Timestamp;
use cascade::config::ElasticsearchConfig;
use cascade::elasticsearch::{ElasticsearchClient, MetricsDocument, MetricsSubject};
use cascade::metrics::{MetricsHistory, ThroughputMetrics, MAX_HISTORY_POINTS};
use cascade::models::RateSample;

fn at(seconds: i64) -> Timestamp {
    Timestamp::at(seconds, 0).unwrap()
}

#[test]
fn a_cached_segment_is_a_hit() {
    let mut c = SegmentCache::new(200, 1000, 300);
    let segment = CachedSegment { data: vec![9], content_type: "video/MP2T" };
    assert_eq!(c.get_or_load("cam/a.ts", None), Lookup::Load);
    assert_eq!(c.loaded("cam/a.ts", Ok(segment.clone())), Some((segment.clone(), false)));
    let hit = c.get_or_load("cam/a.ts", Some(segment.clone()));
    assert_eq!(hit, Lookup::Hit(segment.clone()));
    assert_eq!(hit.served(), Some((segment.clone(), true)));
    assert_eq!(Lookup::Load.served(), None);
    assert_eq!(c.stats, CacheStats { hits: 1, misses: 1, memory_bytes: 0 });
    // A request that finds a segment before the load is noted is a hit, too.
    assert_eq!(c.get_or_load("cam/b.ts", Some(segment.clone())), Lookup::Hit(segment.clone()));
    assert_eq!(c.stats, CacheStats { hits: 2, misses: 1, memory_bytes: 0 });
    c.invalidate_stream("cam");
    assert_eq!(c.get_or_load("cam/b.ts", Some(segment.clone())), Lookup::Load);
    // Where nothing is kept any more, what is found next is new.
    assert_eq!(c.get_or_load("cam/b.ts", None), Lookup::Load);
    assert_eq!(c.get_or_load("cam/b.ts", Some(segment.clone())), Lookup::Hit(segment.clone()));
    // What was dropped leaves late, and the segment loaded since then stays.
    assert!(c.loaded("cam/a.ts", Ok(segment.clone())).is_some());
    c.invalidate_stream("cam");
    c.evicted("cam/a.ts", 0);
    assert_eq!(c.get_or_load("cam/a.ts", Some(segment.clone())), Lookup::Hit(segment));
    assert_eq!((c.max_entries, c.ttl_seconds), (200, 300));
}

#[test]
fn a_file_is_loaded_if_it_is_there_and_not_too_large() {
    let mut c = SegmentCache::new(200, 1000, 300);
    assert_eq!(c.check_size(None), Err(LoadError::NotFound));
    assert_eq!(c.check_size(Some(1001)), Err(LoadError::TooLarge { size: 1001, limit: 1000 }));
    assert_eq!(c.check_size(Some(1000)), Ok(1000));
    assert_eq!(c.load("/hls/cam/a.ts", 3, None), Err(LoadError::Unreadable));
    assert_eq!(c.stats.memory_bytes, 0);
    let loaded = c.load("/hls/cam/a.ts", 3, Some(vec![1, 2, 3]));
    assert_eq!(loaded, Ok(CachedSegment { data: vec![1, 2, 3], content_type: "video/MP2T" }));
    assert_eq!(c.load("/hls/cam/.ts", 0, Some(vec![])).unwrap().content_type, "application/octet-stream");
    assert_eq!(c.load("/hls/cam/a.TS", 0, Some(vec![])).unwrap().content_type, "application/octet-stream");
    assert!(c.loaded("cam/a.ts", Err(LoadError::NotFound)).is_none());
    let (segment, was_cached) = c.loaded("cam/a.ts", loaded).unwrap();
    assert!(!was_cached);
    assert_eq!(c.stats, CacheStats { hits: 0, misses: 1, memory_bytes: 3 });
    c.evicted("cam/a.ts", segment.data.len());
    assert_eq!(c.stats.memory_bytes, 0);
    assert_eq!(c.get_or_load("cam/a.ts", None), Lookup::Load);
    let snapshot = c.stats(17);
    assert_eq!((snapshot.total_entries, snapshot.hits, snapshot.misses), (17, 0, 1));
}

#[test]
fn the_segments_of_a_dropped_stream_are_loaded_again() {
    let mut c = SegmentCache::new(200, 1000, 300);
    let segment = CachedSegment { data: vec![9], content_type: "video/MP2T" };
    for key in ["cam/a.ts", "cam/720p/a.ts", "camera/a.ts", "door/a.ts"] {
        c.loaded(key, Ok(segment.clone()));
    }
    c.invalidate_stream("cam");
    assert_eq!(c.get_or_load("cam/a.ts", Some(segment.clone())), Lookup::Load);
    assert_eq!(c.get_or_load("cam/720p/a.ts", Some(segment.clone())), Lookup::Load);
    for key in ["camera/a.ts", "door/a.ts"] {
        assert_eq!(c.get_or_load(key, Some(segment.clone())), Lookup::Hit(segment.clone()));
    }
    c.loaded("cam/a.ts", Ok(segment.clone()));
    assert_eq!(c.get_or_load("cam/a.ts", Some(segment.clone())), Lookup::Hit(segment));
    assert!(SegmentCache::caches_stream("cam/a.ts", "cam"));
    assert!(!SegmentCache::caches_stream("camera/a.ts", "cam"));
    assert!(!SegmentCache::caches_stream("cam", "cam"));
}

fn record(h: &mut MetricsHistory, bytes: u64, now: Timestamp) {
    h.record_point_at(bytes, bytes / 10, bytes / 100, 4, 2, 8, 2, 4096, 3, vec![("cam".to_string(), 4)], now);
}

#[test]
fn a_point_says_what_was_served_since_the_last() {
    let mut h = MetricsHistory::starting_at(at(0));
    assert_eq!(
        h.get_current_throughput(),
        ThroughputMetrics { elapsed_millis: 1000, bytes: 0, requests: 0, segments: 0 }
    );
    record(&mut h, 1000, at(2));
    record(&mut h, 1500, at(4));
    let points = h.get_history();
    assert_eq!(points.len(), 2);
    assert_eq!(
        points[1].rates,
        RateSample { elapsed_millis: 2000, bytes: 500, requests: 50, segments: 5, cache_hits: 8, cache_misses: 2 }
    );
    assert_eq!(points[1].stream_viewers, vec![("cam".to_string(), 4)]);
    assert_eq!(
        h.get_current_throughput(),
        ThroughputMetrics { elapsed_millis: 2000, bytes: 500, requests: 50, segments: 5 }
    );
    // What two points say adds up to what the counter gained over both.
    assert_eq!(points[0].rates.bytes + points[1].rates.bytes, 1500);
    // A counter that fell says nothing was served.
    record(&mut h, 10, at(5));
    assert_eq!(h.get_current_throughput().bytes, 0);
}

#[test]
fn readings_without_time_between_are_dropped() {
    let mut h = MetricsHistory::starting_at(at(10));
    record(&mut h, 1000, Timestamp::at(10, 999_999).unwrap());
    record(&mut h, 1000, at(5));
    assert!(h.get_history().is_empty());
    record(&mut h, 1000, Timestamp::at(10, 1_000_000).unwrap());
    assert_eq!(h.get_history()[0].rates.elapsed_millis, 1);
}

#[test]
fn the_history_keeps_the_last_points() {
    let mut h = MetricsHistory::starting_at(at(0));
    for i in 1..=70i64 {
        record(&mut h, i as u64, at(i));
    }
    let points = h.get_history();
    assert_eq!(points.len(), MAX_HISTORY_POINTS);
    assert_eq!(points[0].timestamp, at(11));
    assert_eq!(points[59].timestamp, at(70));
    let mut now = MetricsHistory::new();
    now.record_point(1, 1, 1, 0, 0, 0, 0, 0, 0, vec![]);
    assert!(now.get_history().len() <= 1);
}

fn elastic(enabled: bool) -> ElasticsearchConfig {
    ElasticsearchConfig {
        enabled,
        url: None,
        index_prefix: "edge".to_string(),
        batch_size: 3,
        flush_interval_seconds: 10,
        server_name: Some("s1".to_string()),
        username: "u".to_string(),
        password: "p".to_string(),
    }
}

fn doc(name: &str) -> MetricsDocument {
    MetricsDocument {
        timestamp: at(0),
        server_name: String::new(),
        viewers: 1,
        rates: RateSample {
            elapsed_millis: 1,
            bytes: 1,
            requests: 1,
            segments: 1,
            cache_hits: 0,
            cache_misses: 0,
        },
        subject: MetricsSubject::Stream { stream_name: name.to_string() },
    }
}

fn names(batch: &[MetricsDocument]) -> Vec<String> {
    batch
        .iter()
        .map(|d| match &d.subject {
            MetricsSubject::Stream { stream_name } => stream_name.clone(),
            MetricsSubject::Server { .. } => "server".to_string(),
        })
        .collect()
}

#[test]
fn a_full_batch_is_sent_in_order_under_the_servers_name() {
    let mut c = ElasticsearchClient::starting_at(&elastic(true), at(0));
    assert!(c.index_metrics_at(doc("a"), at(1)).is_empty());
    assert!(c.index_metrics_at(doc("b"), at(2)).is_empty());
    let batch = c.index_metrics_at(doc("c"), at(3));
    assert_eq!(names(&batch), vec!["a", "b", "c"]);
    assert!(batch.iter().all(|d| d.server_name == "s1"));
    assert!(c.flush_at(at(4)).is_empty());
}

#[test]
fn a_batch_is_sent_when_enough_time_has_passed() {
    let mut c = ElasticsearchClient::starting_at(&elastic(true), at(0));
    assert!(c.index_metrics_at(doc("a"), Timestamp::at(9, 999_999_999).unwrap()).is_empty());
    assert_eq!(names(&c.index_metrics_at(doc("b"), at(10))), vec!["a", "b"]);
    assert!(c.index_metrics_at(doc("c"), at(19)).is_empty());
    assert_eq!(names(&c.flush_at(at(19))), vec!["c"]);
    assert!(c.index_metrics_at(doc("d"), at(28)).is_empty());
}

#[test]
fn without_a_search_service_nothing_is_kept() {
    let mut c = ElasticsearchClient::starting_at(&elastic(false), at(0));
    for _ in 0..5 {
        assert!(c.index_metrics(doc("a")).is_empty());
    }
    assert!(c.flush().is_empty());
    assert!(c.create_index_template().is_none());
    assert_eq!(ElasticsearchClient::node_url(&elastic(false)), None);
    assert_eq!(
        ElasticsearchClient::node_url(&elastic(true)),
        Some("http://localhost:9200".to_string())
    );
}

#[test]
fn a_batch_goes_to_the_index_of_the_day() {
    let c = ElasticsearchClient::new(&elastic(true));
    assert_eq!(c.index_name("2024.02.29"), "edge-2024.02.29");
    assert_eq!(c.batch_index(&vec![]), None);
    let before = chrono::Utc::now().format("edge-%Y.%m.%d").to_string();
    let name = c.batch_index(&vec![doc("a")]).unwrap();
    let after = chrono::Utc::now().format("edge-%Y.%m.%d").to_string();
    assert!(name == before || name == after);
}

#[test]
fn a_server_without_name_is_named_after_its_start() {
    let mut config = elastic(true);
    config.server_name = None;
    config.batch_size = 1;
    let mut c = ElasticsearchClient::starting_at(&config, at(1_700_000_000));
    assert_eq!(c.index_metrics_at(doc("a"), at(1_700_000_001))[0].server_name, "cascade-1700000000");
    let mut old = ElasticsearchClient::starting_at(&config, at(-5));
    assert_eq!(old.index_metrics_at(doc("a"), at(0))[0].server_name, "cascade--5");
    let mut now = ElasticsearchClient::new(&config);
    assert_eq!(names(&now.index_metrics(doc("x"))), vec!["x"]);
}

#[test]
fn the_index_template_names_every_field() {
    let t = ElasticsearchClient::starting_at(&elastic(true), at(0)).create_index_template().unwrap();
    assert_eq!((t.name.as_str(), t.index_pattern.as_str()), ("edge-template", "edge*"));
    assert_eq!((t.number_of_shards, t.number_of_replicas, t.refresh_interval.as_str()), (1, 0, "5s"));
    let fields: Vec<(&str, &str)> =
        t.properties.iter().map(|f| (f.name.as_str(), f.kind.as_str())).collect();
    assert_eq!(
        fields,
        vec![
            ("@timestamp", "date"),
            ("server_name", "keyword"),
            ("bytes_per_second", "double"),
            ("requests_per_second", "double"),
            ("segments_per_second", "double"),
            ("viewers", "long"),
            ("active_streams", "long"),
            ("cache_hit_rate", "double"),
            ("cache_memory_mb", "double"),
            ("cache_entries", "long"),
            ("mbps", "double"),
            ("stream_viewers", "object"),
        ]
    );
    assert_eq!(t.properties[11].enabled, Some(true));
    assert_eq!(t.properties[0].enabled, None);
}
