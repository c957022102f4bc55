use cascade::paths::{join_path, path_extension};
use cascade::registry::Registry;
use cascade::text::{
    after, before, contains, decimal_text, ends_with, find, join_texts, lines_of, parse_number,
    parse_truth, signed_decimal_text, split_nonempty_text, split_text, starts_with, trim_text,
};
use std::path::{Path, PathBuf};

#[test]
fn numbers_are_written_and_read_back() {
    for n in [0u64, 7, 10, 99, 100, 4096, u64::MAX] {
        assert_eq!(decimal_text(n), n.to_string());
        assert_eq!(parse_number(&decimal_text(n), u64::MAX), Some(n));
    }
    for n in [0i64, -1, 5, i64::MIN, i64::MAX] {
        assert_eq!(signed_decimal_text(n), n.to_string());
    }
    for s in ["", "+", "-1", "+12", "007", "1 ", "18446744073709551615", "18446744073709551616", "x"] {
        assert_eq!(parse_number(s, u64::MAX), s.parse::<u64>().ok(), "{}", s);
        assert_eq!(parse_number(s, u16::MAX as u64).map(|n| n as u16), s.parse::<u16>().ok(), "{}", s);
    }
    assert_eq!(parse_number("65536", 65535), None);
    for s in ["true", "false", "True", "1", ""] {
        assert_eq!(parse_truth(s), s.parse::<bool>().ok());
    }
}

#[test]
fn texts_are_taken_apart_as_the_standard_library_does() {
    for s in ["", "/", "a/b", "//a//b/", "ä/ö", "a\nb", "a\r\nb\r\n", "\n\n", "a\r", "x\r\r\ny"] {
        let split: Vec<String> = s.split('/').map(|p| p.to_string()).collect();
        assert_eq!(split_text(s, '/'), split);
        let nonempty: Vec<String> =
            s.split('/').filter(|p| !p.is_empty()).map(|p| p.to_string()).collect();
        assert_eq!(split_nonempty_text(s, '/'), nonempty);
        let lines: Vec<String> = s.lines().map(|l| l.to_string()).collect();
        assert_eq!(lines_of(s), lines, "{:?}", s);
        assert_eq!(join_texts(&split_text(s, '/'), "/"), s);
        assert_eq!(trim_text(s), s.trim());
    }
    assert_eq!(trim_text(" \t\u{3000}x y\u{a0}\n"), "x y");
    assert!(starts_with("/live/x", "/live/") && !starts_with("/liv", "/live/"));
    assert!(ends_with("a.ts", ".ts") && !ends_with("ts", ".ts"));
    assert_eq!(find("aabab", "ab"), Some(1));
    assert_eq!(find("aaa", "b"), None);
    assert!(contains("x.ts?", ".ts") && contains("x", "") && !contains("", "x"));
    assert_eq!(after("äbc", 1), "bc");
    assert_eq!(before("äbc", 1), "ä");
}

#[test]
fn paths_are_joined_as_the_standard_library_does() {
    for base in ["", "/", "/hls", "./hls", "hls/", "/a/b"] {
        for rel in ["", "x", "x/y", "/x", "index.m3u8", "..", "./x"] {
            assert_eq!(join_path(base, rel), Path::new(base).join(rel).to_str().unwrap(), "{} {}", base, rel);
        }
    }
}

#[test]
fn extensions_are_found_as_the_standard_library_does() {
    for p in [
        "a.ts", "a.b.ts", ".ts", "a", "a.", "..", ".", "", "/", "/x/y.m3u8", "/x.ts/", "/x.ts/.", "x/..",
        "...", "..a", ".a.b", "x.ts/y", "a./b",
    ] {
        let expected = PathBuf::from(p).extension().map(|e| e.to_str().unwrap().to_string());
        assert_eq!(path_extension(p), expected, "{}", p);
    }
}

#[test]
fn a_registry_keeps_one_value_for_each_key() {
    let mut r: Registry<u32> = Registry::new();
    assert_eq!(r.len(), 0);
    assert_eq!(r.insert("a".to_string(), 1), None);
    assert_eq!(r.insert("b".to_string(), 2), None);
    assert_eq!(r.insert("c".to_string(), 3), None);
    assert_eq!(r.insert("b".to_string(), 20), Some(2));
    assert_eq!(r.len(), 3);
    assert_eq!(r.get("b"), Some(&20));
    assert_eq!(r.get("x"), None);
    *r.get_mut("c").unwrap() += 1;
    assert_eq!(r.get("c"), Some(&4));
    assert_eq!(r.remove("a"), Some(1));
    assert_eq!(r.remove("a"), None);
    assert!(!r.contains_key("a") && r.contains_key("c"));
    let mut keys = r.keys();
    keys.sort();
    assert_eq!(keys, vec!["b".to_string(), "c".to_string()]);
    r.remove_keys(&vec!["c".to_string(), "zz".to_string()]);
    assert_eq!(r.keys(), vec!["b".to_string()]);
    r.clear();
    assert_eq!(r.len(), 0);
    assert!(r.get_mut("b").is_none());
}
