use rust_genai::cache::AppCache;

fn text(s: &str) -> String {
    s.to_string()
}

#[test]
fn get_after_set_returns_what_was_stored() {
    let mut cache = AppCache::new(4);
    cache.set(text("prompt"), text("completion"), 1);
    assert_eq!(cache.get("prompt"), Some(text("completion")));
    assert_eq!(cache.get("prompt"), Some(text("completion")));
}

#[test]
fn a_key_never_written_is_absent() {
    let mut cache = AppCache::new(4);
    assert_eq!(cache.get("nothing"), None);
    cache.set(text("a"), text("1"), 1);
    cache.set(text("b"), text("2"), 2);
    assert_eq!(cache.get("a"), Some(text("1")));
    assert_eq!(cache.get("nothing"), None);
    assert_eq!(cache.get(""), None);
    assert_eq!(cache.get("A"), None);
}

#[test]
fn a_full_cache_evicts_the_least_recently_stored() {
    let mut cache = AppCache::new(2);
    cache.set(text("a"), text("1"), 1);
    cache.set(text("b"), text("2"), 2);
    cache.set(text("c"), text("3"), 3);
    assert_eq!(cache.len(), 2);
    assert_eq!(cache.get("a"), None);
    assert_eq!(cache.get("b"), Some(text("2")));
    assert_eq!(cache.get("c"), Some(text("3")));
}

#[test]
fn a_lookup_counts_as_a_use() {
    let mut cache = AppCache::new(2);
    cache.set(text("a"), text("1"), 1);
    cache.set(text("b"), text("2"), 2);
    assert_eq!(cache.get("a"), Some(text("1")));
    cache.set(text("c"), text("3"), 3);
    assert_eq!(cache.get("b"), None);
    assert_eq!(cache.get("a"), Some(text("1")));
    assert_eq!(cache.get("c"), Some(text("3")));
}

#[test]
fn a_miss_counts_as_no_use() {
    let mut cache = AppCache::new(2);
    cache.set(text("a"), text("1"), 1);
    cache.set(text("b"), text("2"), 2);
    assert_eq!(cache.get("z"), None);
    cache.set(text("c"), text("3"), 3);
    assert_eq!(cache.get("a"), None);
    assert_eq!(cache.get("b"), Some(text("2")));
}

#[test]
fn eviction_follows_the_order_of_use() {
    let mut cache = AppCache::new(3);
    cache.set(text("a"), text("1"), 1);
    cache.set(text("b"), text("2"), 2);
    cache.set(text("c"), text("3"), 3);
    assert!(cache.get("a").is_some());
    assert!(cache.get("b").is_some());
    cache.set(text("d"), text("4"), 4);
    assert!(cache.peek("c").is_none());
    cache.set(text("e"), text("5"), 5);
    assert!(cache.peek("a").is_none());
    cache.set(text("f"), text("6"), 6);
    assert!(cache.peek("b").is_none());
    assert!(cache.peek("d").is_some());
    assert!(cache.peek("e").is_some());
    assert!(cache.peek("f").is_some());
    assert_eq!(cache.len(), 3);
}

#[test]
fn storing_under_a_held_key_replaces_and_refreshes() {
    let mut cache = AppCache::new(2);
    cache.set(text("a"), text("old"), 1);
    cache.set(text("b"), text("2"), 2);
    cache.set(text("a"), text("new"), 3);
    assert_eq!(cache.len(), 2);
    let entry = cache.peek("a").expect("the entry is held");
    assert_eq!(entry.key, "a");
    assert_eq!(entry.value, "new");
    assert_eq!(entry.inserted_at, 3);
    cache.set(text("c"), text("3"), 4);
    assert_eq!(cache.get("b"), None);
    assert_eq!(cache.get("a"), Some(text("new")));
}

#[test]
fn storing_twice_under_one_key_leaves_one_entry_with_the_last_text() {
    let mut cache = AppCache::new(3);
    cache.set(text("same"), text("first answer"), 1);
    cache.set(text("same"), text("second answer"), 2);
    assert_eq!(cache.len(), 1);
    assert_eq!(cache.get("same"), Some(text("second answer")));
    let mut other_order = AppCache::new(3);
    other_order.set(text("same"), text("second answer"), 1);
    other_order.set(text("same"), text("first answer"), 2);
    assert_eq!(other_order.len(), 1);
    assert_eq!(other_order.get("same"), Some(text("first answer")));
}

#[test]
fn storing_the_same_pair_again_changes_nothing() {
    let mut cache = AppCache::new(2);
    cache.set(text("a"), text("1"), 1);
    cache.set(text("b"), text("2"), 2);
    cache.set(text("b"), text("2"), 2);
    assert_eq!(cache.len(), 2);
    assert_eq!(cache.peek("a").map(|e| e.inserted_at), Some(1));
    assert_eq!(cache.peek("b"), Some(&rust_genai::cache::CacheEntry {
        key: text("b"),
        value: text("2"),
        inserted_at: 2,
    }));
}

#[test]
fn peek_does_not_count_as_a_use() {
    let mut cache = AppCache::new(2);
    cache.set(text("a"), text("1"), 1);
    cache.set(text("b"), text("2"), 2);
    assert_eq!(cache.peek("a").map(|e| e.value.clone()), Some(text("1")));
    cache.set(text("c"), text("3"), 3);
    assert!(cache.peek("a").is_none());
    assert!(cache.peek("b").is_some());
}

#[test]
fn a_cache_of_one_keeps_the_last_stored() {
    let mut cache = AppCache::new(1);
    cache.set(text("a"), text("1"), 1);
    assert_eq!(cache.get("a"), Some(text("1")));
    cache.set(text("b"), text("2"), 2);
    assert_eq!(cache.get("a"), None);
    assert_eq!(cache.get("b"), Some(text("2")));
    assert_eq!(cache.len(), 1);
}

#[test]
fn a_cache_of_no_capacity_stores_nothing() {
    let mut cache = AppCache::new(0);
    cache.set(text("a"), text("1"), 1);
    assert_eq!(cache.len(), 0);
    assert_eq!(cache.get("a"), None);
    assert_eq!(cache.max_entries(), 0);
}

#[test]
fn the_cache_never_outgrows_its_capacity() {
    let mut cache = AppCache::new(5);
    for i in 0..50u64 {
        cache.set(format!("key {}", i), format!("value {}", i), i);
        assert!(cache.len() <= 5);
    }
    assert_eq!(cache.len(), 5);
    assert_eq!(cache.max_entries(), 5);
    for i in 0..45u64 {
        assert_eq!(cache.get(&format!("key {}", i)), None);
    }
    for i in 45..50u64 {
        assert_eq!(cache.get(&format!("key {}", i)), Some(format!("value {}", i)));
    }
}

#[test]
fn keys_and_texts_are_kept_verbatim() {
    let mut cache = AppCache::new(4);
    cache.set(text(" Hello "), text("  spaced\n"), 1);
    cache.set(text("héllo"), text("ça va — 你好"), 2);
    cache.set(text(""), text(""), 3);
    assert_eq!(cache.get(" Hello "), Some(text("  spaced\n")));
    assert_eq!(cache.get("Hello"), None);
    assert_eq!(cache.get("hello"), None);
    assert_eq!(cache.get("héllo"), Some(text("ça va — 你好")));
    assert_eq!(cache.get(""), Some(text("")));
}
