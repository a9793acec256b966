//! Cache store behaviour: staleness rules and the text round trip.
use catalyst::cache::BuildCache;

#[test]
fn cache_round_trip() {
    let mut c = BuildCache::new();
    c.insert("a/b".to_string(), 1111);
    c.insert("c".to_string(), 2222);
    let text = c.to_text();
    let d = BuildCache::from_text(&text);
    assert_eq!(d.posts, c.posts);
}

#[test]
fn round_trip_keeps_spaces_in_identifiers() {
    let mut c = BuildCache::new();
    c.insert("with space/and more".to_string(), 7);
    c.insert("".to_string(), 0);
    let d = BuildCache::from_text(&c.to_text());
    assert_eq!(d.posts, c.posts);
}

#[test]
fn encoded_text_shape() {
    let mut c = BuildCache::new();
    c.insert("a/b".to_string(), 10);
    c.insert("c".to_string(), 2);
    assert_eq!(c.to_text(), "10 a/b\n2 c\n");
}

#[test]
fn absent_entry_is_stale() {
    let c = BuildCache::new();
    assert!(c.is_stale("nowhere", 0));
}

#[test]
fn equal_or_older_timestamp_is_not_stale() {
    let mut c = BuildCache::new();
    c.insert("a".to_string(), 100);
    assert!(!c.is_stale("a", 100));
    assert!(!c.is_stale("a", 99));
    assert!(c.is_stale("a", 101));
}

#[test]
fn insert_overwrites_existing_record() {
    let mut c = BuildCache::new();
    c.insert("a".to_string(), 100);
    c.insert("a".to_string(), 50);
    assert_eq!(c.get("a"), Some(50));
    assert_eq!(c.posts.len(), 1);
    assert!(!c.is_stale("a", 50));
    assert!(c.is_stale("a", 51));
}

#[test]
fn malformed_text_degrades_to_empty_cache() {
    assert!(BuildCache::from_text("not a cache line\n").posts.is_empty());
    assert!(BuildCache::from_text("12x a\n").posts.is_empty());
    assert!(BuildCache::from_text("99999999999999999999999999 a\n").posts.is_empty());
    assert!(BuildCache::from_text("").posts.is_empty());
}

#[test]
fn decode_reads_valid_lines() {
    let c = BuildCache::from_text("5 one\n6 two/three\n");
    assert_eq!(c.get("one"), Some(5));
    assert_eq!(c.get("two/three"), Some(6));
    assert_eq!(c.get("absent"), None);
}

#[test]
fn round_trip_keeps_large_timestamps() {
    let mut c = BuildCache::new();
    c.insert("a".to_string(), u64::MAX);
    c.insert("b".to_string(), 0);
    let d = BuildCache::from_text(&c.to_text());
    assert_eq!(d.posts, c.posts);
}
