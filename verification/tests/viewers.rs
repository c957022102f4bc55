use cascade::clock::Timestamp;
use cascade::viewers::ViewerTracker;
use sha2::{Digest, Sha256};

fn at(seconds: i64) -> Timestamp {
    Timestamp::at(seconds, 0).unwrap()
}

#[test]
fn viewers_are_told_apart_by_address_and_agent() {
    // The digest of "abc".
    assert_eq!(
        ViewerTracker::generate_viewer_hash("abc", None),
        "ba7816bf8f01cfea414140de5dae2223b00361a396177a9cb410ff61f20015ad"
    );
    let viewers = [
        ("abc", None),
        ("abc", Some("")),
        ("a", Some("bc")),
        ("ab", Some("c")),
        ("1.1.1.1", Some("2x")),
        ("1.1.1.12", Some("x")),
        ("1.1.1.12x", None),
    ];
    for (i, a) in viewers.iter().enumerate() {
        for b in viewers.iter().skip(i + 1) {
            assert_ne!(
                ViewerTracker::generate_viewer_hash(a.0, a.1),
                ViewerTracker::generate_viewer_hash(b.0, b.1)
            );
        }
    }
    let expected: String =
        Sha256::digest(b"10.0.0.1\xffVLC").iter().map(|b| format!("{:02x}", b)).collect();
    assert_eq!(ViewerTracker::generate_viewer_hash("10.0.0.1", Some("VLC")), expected);
}

#[test]
fn a_viewer_counts_once_however_often_seen() {
    let mut t = ViewerTracker::new(None, None);
    t.track_viewer_at("cam", "h1", at(100));
    t.track_viewer_at("cam", "h1", at(110));
    t.track_viewer_at("cam", "h2", at(110));
    t.track_viewer_at("door", "h1", at(110));
    assert_eq!(t.viewer_count_at("cam", at(120)), 2);
    assert_eq!(t.viewer_count_at("door", at(120)), 1);
    assert_eq!(t.total_viewer_count_at(at(120)), 3);
    let mut seen = t.stream_viewers_at("cam", at(120));
    seen.sort_by(|a, b| a.viewer_hash.cmp(&b.viewer_hash));
    assert_eq!(seen.len(), 2);
    assert_eq!(seen[0].viewer_hash, "h1");
    assert_eq!(seen[0].request_count, 2);
    assert_eq!(seen[0].first_seen.seconds(), 100);
    assert_eq!(seen[0].last_seen.seconds(), 110);
    assert_eq!(seen[1].request_count, 1);
}

#[test]
fn viewers_behind_similar_addresses_count_apart() {
    let mut t = ViewerTracker::new(None, None);
    t.track_viewer("cam", "1.1.1.1", Some("2x"));
    t.track_viewer("cam", "1.1.1.12", Some("x"));
    t.track_viewer("cam", "1.1.1.12", None);
    t.track_viewer("cam", "1.1.1.12", Some(""));
    t.track_viewer("cam", "1.1.1.12", Some("x"));
    assert_eq!(t.get_viewer_count("cam"), 4);
    t.track_viewer("door", "1.1.1.12", Some("x"));
    assert_eq!(t.get_total_viewer_count(), t.get_viewer_count("cam") + t.get_viewer_count("door"));
}

#[test]
fn viewers_go_after_the_timeout() {
    let mut t = ViewerTracker::new(Some("10"), None);
    t.track_viewer_at("cam", "h1", at(100));
    t.track_viewer_at("cam", "h2", at(105));
    assert_eq!(t.viewer_count_at("cam", at(110)), 2);
    assert_eq!(t.viewer_count_at("cam", at(111)), 1);
    t.cleanup_inactive_viewers_at(at(111));
    assert_eq!(t.viewer_count_at("cam", at(111)), 1);
    // The one that went starts anew.
    t.track_viewer_at("cam", "h1", at(112));
    let seen = t.stream_viewers_at("cam", at(112));
    let back = seen.iter().find(|v| v.viewer_hash == "h1").unwrap();
    assert_eq!(back.request_count, 1);
    assert_eq!(back.first_seen.seconds(), 112);
}

#[test]
fn a_forgotten_stream_has_no_viewers() {
    let mut t = ViewerTracker::new(None, None);
    t.track_viewer_at("cam", "h1", at(100));
    t.track_viewer_at("door", "h1", at(100));
    t.clear_stream_viewers("cam");
    assert_eq!(t.viewer_count_at("cam", at(100)), 0);
    assert_eq!(t.stream_viewers_at("cam", at(100)).len(), 0);
    assert_eq!(t.total_viewer_count_at(at(100)), 1);
}

#[test]
fn viewers_follow_the_system_clock() {
    let mut t = ViewerTracker::new(None, None);
    t.track_viewer("cam", "10.0.0.1", Some("VLC"));
    assert_eq!(t.get_viewer_count("cam"), 1);
    assert_eq!(t.get_total_viewer_count(), 1);
    assert_eq!(
        t.get_stream_viewers("cam")[0].viewer_hash,
        ViewerTracker::generate_viewer_hash("10.0.0.1", Some("VLC"))
    );
    t.cleanup_inactive_viewers();
    assert_eq!(t.get_viewer_count("cam"), 1);
    t.track_viewer_at("old", "h1", at(0));
    assert_eq!(t.get_viewer_count("old"), 0);
}

#[test]
fn untracked_viewers_do_not_count() {
    let mut t = ViewerTracker::new(None, Some("false"));
    t.track_viewer("cam", "10.0.0.1", None);
    assert_eq!(t.get_viewer_count("cam"), 0);
    assert_eq!(t.get_total_viewer_count(), 0);
    assert_eq!(t.get_stream_viewers("cam").len(), 0);
}
