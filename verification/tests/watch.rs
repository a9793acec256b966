//! Watch-loop behaviour: debounce coalescing and new-entry detection.
use catalyst::cache::BuildCache;
use catalyst::commands::Watcher;
use catalyst::posts::Post;

fn post(slug: &str) -> Post {
    Post { title: slug.to_string(), date: "2024-01-01".to_string(), slug: slug.to_string() }
}

#[test]
fn debounce_coalesces_close_events() {
    let mut w = Watcher::new(vec![], vec![], BuildCache::new(), 0);
    let mut renders = 0;
    // two change events for the same path, 100 ms apart
    for now in [1000u64, 1100] {
        if w.accept_batch(now) {
            renders += 1;
        }
    }
    assert_eq!(renders, 1);
}

#[test]
fn debounce_lets_spaced_events_through() {
    let mut w = Watcher::new(vec![], vec![], BuildCache::new(), 0);
    let mut renders = 0;
    // two change events 600 ms apart
    for now in [1000u64, 1600] {
        if w.accept_batch(now) {
            renders += 1;
        }
    }
    assert_eq!(renders, 2);
}

#[test]
fn new_path_triggers_index_regeneration() {
    let known = vec!["content/a.md".to_string()];
    let mut w = Watcher::new(vec![post("a")], known, BuildCache::new(), 0);
    let rebuild = w.on_entry_changed("content/b.md".to_string(), "b".to_string(), 5, post("b"));
    assert!(rebuild);
    assert_eq!(w.posts.len(), 2);
    assert_eq!(w.known_paths.len(), 2);
    assert_eq!(w.cache.get("b"), Some(5));
}

#[test]
fn known_path_rebuilds_entry_only() {
    let known = vec!["content/a.md".to_string()];
    let mut w = Watcher::new(vec![post("a")], known, BuildCache::new(), 0);
    let rebuild = w.on_entry_changed("content/a.md".to_string(), "a".to_string(), 9, post("a"));
    assert!(!rebuild);
    assert_eq!(w.posts.len(), 1);
    assert_eq!(w.known_paths.len(), 1);
    assert_eq!(w.cache.get("a"), Some(9));
}
