use statusline::cache::key_hash;
use statusline::config::Config;
use statusline::sessions::{count_recent, is_recent_transcript, parse_count};

#[test]
fn hash_is_stable_and_distinct() {
    assert_eq!(key_hash("/a/b"), key_hash("/a/b"));
    assert_ne!(key_hash("/a/b"), key_hash("/a/c"));
}

#[test]
fn defaults_are_all_on() {
    let c = Config::default();
    assert!(c.inventory && c.sessions);
}

#[test]
fn counts_only_recent_jsonl_files() {
    let entries = vec![
        ("fresh.jsonl".to_string(), Some((0u64, 1_000u32))),
        ("stale.jsonl".to_string(), Some((3600, 0))),
        ("not-a-transcript.txt".to_string(), Some((0, 1_000))),
    ];
    assert_eq!(count_recent(&entries), 1);
}

// ---- further cases ------------------------------------------------------

#[test]
fn key_hash_is_fnv1a_in_sixteen_hex_digits() {
    assert_eq!(key_hash(""), "cbf29ce484222325");
    assert_eq!(key_hash("a"), "af63dc4c8601ec8c");
    let h = key_hash("/home/u/code/proj");
    assert_eq!(h.len(), 16);
    assert!(h.chars().all(|c| c.is_ascii_hexdigit() && !c.is_ascii_uppercase()));
}

#[test]
fn the_activity_window_is_sixty_seconds_inclusive() {
    assert!(is_recent_transcript("a.jsonl", Some((60, 0))));
    assert!(!is_recent_transcript("a.jsonl", Some((60, 1))));
    assert!(!is_recent_transcript("a.jsonl", None));
    assert!(!is_recent_transcript(".jsonl", Some((0, 0))));
    assert!(!is_recent_transcript("a.json", Some((0, 0))));
    assert!(is_recent_transcript("a.b.jsonl", Some((0, 0))));
}

#[test]
fn cached_counts_parse_like_str_parse() {
    assert_eq!(parse_count("3\n"), Some(3));
    assert_eq!(parse_count("  +12 "), Some(12));
    assert_eq!(parse_count("18446744073709551615"), Some(u64::MAX));
    assert_eq!(parse_count("18446744073709551616"), None);
    assert_eq!(parse_count("-1"), None);
    assert_eq!(parse_count(""), None);
}
