use cascade::handlers::common::{parse_hls_request, rewrite_playlist_urls, HlsRequestType};
use std::path::PathBuf;

#[test]
fn test_parse_initial_request() {
    // Initial request without session should trigger redirect
    let result = parse_hls_request("stream123/index.m3u8", None);
    assert!(result.is_ok());

    match result.unwrap() {
        HlsRequestType::InitialRequest { stream_key } => {
            assert_eq!(stream_key, "stream123");
        }
        _ => panic!("Expected InitialRequest"),
    }
}

#[test]
fn test_parse_playlist_with_session() {
    // Request with session should serve actual playlist
    let result = parse_hls_request("stream123/index.m3u8", Some("session456".to_string()));
    assert!(result.is_ok());

    match result.unwrap() {
        HlsRequestType::Playlist { stream_key, playlist_path, session, needs_url_rewrite } => {
            assert_eq!(stream_key, "stream123");
            assert_eq!(PathBuf::from(playlist_path), PathBuf::from("index.m3u8"));
            assert_eq!(session, Some("session456".to_string()));
            assert!(needs_url_rewrite); // Single bitrate needs rewriting
        }
        _ => panic!("Expected Playlist"),
    }
}

#[test]
fn test_parse_abr_master_playlist() {
    let result = parse_hls_request("stream123/master.m3u8", Some("session789".to_string()));
    assert!(result.is_ok());

    match result.unwrap() {
        HlsRequestType::Playlist { stream_key, playlist_path, needs_url_rewrite, .. } => {
            assert_eq!(stream_key, "stream123");
            assert_eq!(PathBuf::from(playlist_path), PathBuf::from("master.m3u8"));
            assert!(!needs_url_rewrite); // ABR master doesn't need rewriting
        }
        _ => panic!("Expected Playlist for master.m3u8"),
    }
}

#[test]
fn test_parse_variant_playlist() {
    let result = parse_hls_request("stream123/720p/index.m3u8", None);
    assert!(result.is_ok());

    match result.unwrap() {
        HlsRequestType::Playlist { stream_key, playlist_path, needs_url_rewrite, .. } => {
            assert_eq!(stream_key, "stream123");
            assert_eq!(PathBuf::from(playlist_path), PathBuf::from("720p/index.m3u8"));
            assert!(!needs_url_rewrite); // Variant playlists served as-is
        }
        _ => panic!("Expected Playlist for variant"),
    }
}

#[test]
fn test_parse_segments() {
    // Single bitrate segment
    let result = parse_hls_request("stream123/segment001.ts", None);
    assert!(result.is_ok());

    match result.unwrap() {
        HlsRequestType::Segment { stream_key, segment_path } => {
            assert_eq!(stream_key, "stream123");
            assert_eq!(PathBuf::from(segment_path), PathBuf::from("segment001.ts"));
        }
        _ => panic!("Expected Segment"),
    }

    // Variant segment
    let result = parse_hls_request("stream123/1080p/segment042.ts", None);
    assert!(result.is_ok());

    match result.unwrap() {
        HlsRequestType::Segment { stream_key, segment_path } => {
            assert_eq!(stream_key, "stream123");
            assert_eq!(PathBuf::from(segment_path), PathBuf::from("1080p/segment042.ts"));
        }
        _ => panic!("Expected Segment for variant"),
    }
}

#[test]
fn test_invalid_paths() {
    assert!(parse_hls_request("", None).is_err());
    assert!(parse_hls_request("just_stream", None).is_err());
    assert!(parse_hls_request("stream/unknown.xyz", None).is_err());
    assert!(parse_hls_request("a/b/c/d/too/deep.m3u8", None).is_err());
}

#[test]
fn test_rewrite_playlist_urls() {
    let content = r#"#EXTM3U
#EXT-X-VERSION:3
#EXT-X-TARGETDURATION:10
#EXTINF:10.0,
segment000.ts
#EXTINF:10.0,
segment001.ts
#EXTINF:10.0,
segment002.ts
#EXT-X-ENDLIST"#;

    let rewritten = rewrite_playlist_urls(content, "mystream");

    assert!(rewritten.contains("/live/mystream/segment000.ts"));
    assert!(rewritten.contains("/live/mystream/segment001.ts"));
    assert!(rewritten.contains("/live/mystream/segment002.ts"));

    // Headers should remain unchanged
    assert!(rewritten.contains("#EXTM3U"));
    assert!(rewritten.contains("#EXT-X-VERSION:3"));
    assert!(rewritten.contains("#EXT-X-ENDLIST"));
}

#[test]
fn test_rewrite_preserves_non_ts_lines() {
    let content = r#"#EXTM3U
#EXT-X-STREAM-INF:BANDWIDTH=1000000
720p/index.m3u8
#EXT-X-STREAM-INF:BANDWIDTH=2000000
1080p/index.m3u8"#;

    let rewritten = rewrite_playlist_urls(content, "stream");

    // m3u8 files should NOT be rewritten (only .ts files)
    assert!(rewritten.contains("720p/index.m3u8"));
    assert!(rewritten.contains("1080p/index.m3u8"));
    assert!(!rewritten.contains("/live/stream/720p"));
}

#[test]
fn a_first_request_may_name_the_playlist_after_the_stream() {
    assert_eq!(
        parse_hls_request("stream123.m3u8", None),
        Ok(HlsRequestType::InitialRequest { stream_key: "stream123".to_string() })
    );
    assert_eq!(
        parse_hls_request("stream123/index.m3u8", None),
        parse_hls_request("/stream123.m3u8", None)
    );
    assert_eq!(parse_hls_request(".m3u8", None), Err("Invalid path format"));
}

#[test]
fn each_wrong_path_has_its_own_answer() {
    assert_eq!(parse_hls_request("", None), Err("Invalid path"));
    assert_eq!(parse_hls_request("///", None), Err("Invalid path"));
    assert_eq!(parse_hls_request("just_stream", None), Err("Invalid path format"));
    assert_eq!(parse_hls_request("s/other.m3u8", None), Err("Unknown playlist file"));
    assert_eq!(parse_hls_request("s/unknown.xyz", None), Err("Invalid file type"));
    assert_eq!(parse_hls_request("s/720p/master.m3u8", None), Err("Invalid variant file"));
    assert_eq!(parse_hls_request("a/b/c/d", None), Err("Invalid path depth"));
}

#[test]
fn a_rewritten_segment_leads_back_to_itself() {
    let rewritten = rewrite_playlist_urls("seg_007.ts", "cam");
    assert_eq!(rewritten, "/live/cam/seg_007.ts");
    assert_eq!(
        parse_hls_request(rewritten.strip_prefix("/live/").unwrap(), Some("x".to_string())),
        Ok(HlsRequestType::Segment {
            stream_key: "cam".to_string(),
            segment_path: "seg_007.ts".to_string()
        })
    );
}

#[test]
fn rewriting_keeps_the_lines_and_drops_line_ends() {
    assert_eq!(rewrite_playlist_urls("#EXTM3U\r\na.ts\r\n#X\n", "k"), "#EXTM3U\n/live/k/a.ts\n#X");
    assert_eq!(rewrite_playlist_urls("", "k"), "");
    assert_eq!(rewrite_playlist_urls("a.tsx\nb.TS", "k"), "a.tsx\nb.TS");
}

#[test]
fn playlists_are_rewritten_piece_by_piece() {
    let (a, b) = ("#EXTM3U\r\na.ts", "#EXTINF:4.0,\nb.ts\n");
    for first in [a, ""] {
        assert_eq!(
            rewrite_playlist_urls(&format!("{}\n{}", first, b), "cam"),
            format!("{}\n{}", rewrite_playlist_urls(first, "cam"), rewrite_playlist_urls(b, "cam"))
        );
    }
    assert_eq!(rewrite_playlist_urls(a, "cam"), "#EXTM3U\n/live/cam/a.ts");
}
