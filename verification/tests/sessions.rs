use cascade::clock::{Timestamp, FIRST_SECOND, LAST_SECOND};
use cascade::config::ViewerConfig;
use cascade::sessions::SessionManager;

fn at(seconds: i64) -> Timestamp {
    Timestamp::at(seconds, 0).unwrap()
}

fn manager(timeout_seconds: u64, tracking_enabled: bool) -> SessionManager {
    SessionManager::new(&ViewerConfig { tracking_enabled, timeout_seconds })
}

#[test]
fn instants_lie_in_the_range_of_calendar_dates() {
    assert_eq!(chrono::DateTime::<chrono::Utc>::MIN_UTC.timestamp(), FIRST_SECOND);
    assert_eq!(chrono::DateTime::<chrono::Utc>::MAX_UTC.timestamp(), LAST_SECOND);
    assert!(Timestamp::at(FIRST_SECOND, 0).is_some());
    assert!(Timestamp::at(LAST_SECOND, 999_999_999).is_some());
    assert!(Timestamp::at(FIRST_SECOND - 1, 0).is_none());
    assert!(Timestamp::at(LAST_SECOND + 1, 0).is_none());
    assert!(Timestamp::at(0, 1_000_000_000).is_none());
    assert_eq!(at(17).seconds(), 17);
}

#[test]
fn session_ids_are_eight_letters_or_digits() {
    for _ in 0..50 {
        let id = SessionManager::generate_session_id();
        assert_eq!(id.len(), 8);
        assert!(id.chars().all(|c| c.is_ascii_lowercase() || c.is_ascii_digit()));
    }
    let ids: Vec<String> = (0..20).map(|_| SessionManager::generate_session_id()).collect();
    assert!(ids.iter().any(|id| *id != ids[0]));
    assert_eq!(SessionManager::session_id_from(&vec![0, 1, 25, 26, 27, 35, 9, 9]), "abz019jj");
}

#[test]
fn a_new_session_never_takes_an_id_in_use() {
    let mut m = manager(30, true);
    assert_eq!(m.next_unused("id000001".to_string()), "id000001");
    m.open_session("cam", "id000001", at(100));
    m.open_session("door", "id000002", at(100));
    assert!(!m.is_unused("id000001"));
    assert!(m.is_unused("id000003"));
    assert_eq!(m.next_unused("id000001".to_string()), "id000003");
    // Behind the last id stands the first.
    m.open_session("cam", "99999999", at(100));
    m.open_session("cam", "aaaaaaaa", at(100));
    assert_eq!(m.next_unused("99999999".to_string()), "aaaaaaab");
    assert_eq!(m.next_unused("aaaaaaaz".to_string()), "aaaaaaaz");
    let mut ids = vec![];
    for _ in 0..200 {
        let id = m.create_session("cam");
        assert_eq!(id.len(), 8);
        assert!(!ids.contains(&id));
        ids.push(id);
    }
    assert_eq!(m.validate_session_at("id000002", at(100)), Some("door".to_string()));
    assert_eq!(m.get_stream_viewer_count("cam"), 200);
}

#[test]
fn the_total_is_the_sum_over_the_streams() {
    let mut m = manager(30, true);
    m.open_session("cam", "id000001", at(100));
    m.open_session("cam", "id000002", at(90));
    m.open_session("door", "id000003", at(80));
    for now in [100, 110, 115, 125, 131] {
        let sum = m.stream_viewer_count_at("cam", at(now)) + m.stream_viewer_count_at("door", at(now));
        assert_eq!(m.total_viewer_count_at(at(now)), sum);
    }
    assert_eq!(m.total_viewer_count_at(at(115)), 2);
    m.clear_stream_sessions("cam");
    assert_eq!(m.total_viewer_count_at(at(100)), m.stream_viewer_count_at("door", at(100)));
}

#[test]
fn a_session_names_its_stream_until_the_timeout_has_passed() {
    let mut m = manager(30, true);
    m.open_session("cam", "id000001", at(100));
    assert_eq!(m.validate_session_at("id000001", at(130)), Some("cam".to_string()));
    assert_eq!(m.validate_session_at("id000001", at(131)), None);
    assert_eq!(m.validate_session_at("other", at(100)), None);
    // The fraction of a second does not count.
    assert_eq!(
        m.validate_session_at("id000001", Timestamp::at(130, 999_999_999).unwrap()),
        Some("cam".to_string())
    );
}

#[test]
fn a_request_renews_a_session() {
    let mut m = manager(30, true);
    m.open_session("cam", "id000001", at(100));
    assert!(m.update_session_at("id000001", at(125)));
    assert!(!m.update_session_at("unknown0", at(125)));
    assert_eq!(m.validate_session_at("id000001", at(155)), Some("cam".to_string()));
    assert_eq!(m.validate_session_at("id000001", at(156)), None);
}

#[test]
fn each_new_viewer_counts_once() {
    let mut m = manager(30, true);
    m.open_session("cam", "id000001", at(100));
    m.open_session("cam", "id000002", at(110));
    m.open_session("door", "id000003", at(120));
    assert_eq!(m.stream_viewer_count_at("cam", at(120)), 2);
    assert_eq!(m.stream_viewer_count_at("door", at(120)), 1);
    assert_eq!(m.stream_viewer_count_at("none", at(120)), 0);
    assert_eq!(m.total_viewer_count_at(at(120)), 3);
    assert_eq!(m.stream_viewer_count_at("cam", at(135)), 1);
    assert_eq!(m.total_viewer_count_at(at(135)), 2);
}

#[test]
fn forgetting_expired_sessions_changes_no_count() {
    let mut m = manager(30, true);
    m.open_session("cam", "id000001", at(100));
    m.open_session("cam", "id000002", at(140));
    let before = (m.stream_viewer_count_at("cam", at(150)), m.total_viewer_count_at(at(150)));
    m.cleanup_expired_sessions_at(at(150));
    assert_eq!((m.stream_viewer_count_at("cam", at(150)), m.total_viewer_count_at(at(150))), before);
    // The expired one is gone for good, the live one is not.
    assert!(!m.update_session_at("id000001", at(150)));
    assert!(m.update_session_at("id000002", at(150)));
    m.cleanup_expired_sessions_at(at(150));
    assert_eq!(m.total_viewer_count_at(at(150)), 1);
}

#[test]
fn a_cleared_stream_has_no_viewers() {
    let mut m = manager(30, true);
    m.open_session("cam", "id000001", at(100));
    m.open_session("door", "id000002", at(100));
    m.clear_stream_sessions("cam");
    assert_eq!(m.stream_viewer_count_at("cam", at(100)), 0);
    assert_eq!(m.validate_session_at("id000001", at(100)), None);
    assert_eq!(m.stream_viewer_count_at("door", at(100)), 1);
    m.clear_stream_sessions("cam");
    assert_eq!(m.total_viewer_count_at(at(100)), 1);
}

#[test]
fn without_tracking_every_session_passes_and_none_counts() {
    let mut m = manager(30, false);
    let id = m.create_session("cam");
    assert_eq!(id.len(), 8);
    assert!(m.update_session(&id));
    assert!(m.update_session("anything"));
    assert_eq!(m.validate_session(&id), None);
    assert_eq!(m.get_stream_viewer_count("cam"), 0);
    assert_eq!(m.get_total_viewer_count(), 0);
}

#[test]
fn sessions_follow_the_system_clock() {
    let mut m = SessionManager::from_vars(Some("30"), None);
    let id = m.create_session("cam");
    assert_eq!(m.validate_session(&id), Some("cam".to_string()));
    assert_eq!(m.get_stream_viewer_count("cam"), 1);
    assert_eq!(m.get_total_viewer_count(), 1);
    m.cleanup_expired_sessions();
    assert!(m.update_session(&id));
    // Half a century ago nobody was watching any more.
    let mut old = SessionManager::from_vars(Some("30"), Some("true"));
    old.open_session("cam", "id000001", at(0));
    assert_eq!(old.get_total_viewer_count(), 0);
    old.cleanup_expired_sessions();
    assert!(!old.update_session("id000001"));
}

#[test]
fn settings_fall_back_where_they_cannot_be_read() {
    let mut m = SessionManager::from_vars(Some("soon"), Some("yes"));
    m.open_session("cam", "id000001", at(100));
    assert_eq!(m.total_viewer_count_at(at(130)), 1);
    assert_eq!(m.total_viewer_count_at(at(131)), 0);
    let mut off = SessionManager::from_vars(None, Some("false"));
    off.open_session("cam", "id000001", at(100));
    assert_eq!(off.total_viewer_count_at(at(100)), 0);
}
