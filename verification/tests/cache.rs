use shuro::cache::{cache_key_of_parts, hash_parts, hex16, ContentCache};
use shuro::translate::common::generate_cache_key;
use shuro::translate::simple::simple_translation_cache_key;

#[test]
fn put_then_get_returns_the_value() {
    let mut cache: ContentCache<String> = ContentCache::new();
    cache.put("k", "v".to_string(), 10);
    assert_eq!(cache.get("k"), Some(&"v".to_string()));
    assert_eq!(cache.get("other"), None);
}

#[test]
fn double_put_keeps_one_entry() {
    let mut cache: ContentCache<String> = ContentCache::new();
    cache.put("k", "v".to_string(), 10);
    cache.put("k", "v".to_string(), 11);
    assert_eq!(cache.len(), 1);
    assert_eq!(cache.get("k"), Some(&"v".to_string()));
    let holders = cache.entries.iter().filter(|e| e.key == "k").count();
    assert_eq!(holders, 1);
}

#[test]
fn put_overwrites_in_place() {
    let mut cache: ContentCache<u32> = ContentCache::new();
    cache.put("a", 1, 5);
    cache.put("b", 2, 6);
    cache.put("a", 3, 7);
    assert_eq!(cache.len(), 2);
    assert_eq!(cache.get("a"), Some(&3));
    assert_eq!(cache.get("b"), Some(&2));
    // The overwritten entry keeps its position.
    assert_eq!(cache.entries[0].key, "a");
    assert_eq!(cache.entries[0].cached_at, 7);
}

#[test]
fn clear_empties_and_counts() {
    let mut cache: ContentCache<u32> = ContentCache::new();
    cache.put("a", 1, 5);
    cache.put("b", 2, 6);
    assert_eq!(cache.clear(), 2);
    assert_eq!(cache.len(), 0);
}

#[test]
fn clean_drops_entries_before_the_cutoff() {
    let mut cache: ContentCache<u32> = ContentCache::new();
    cache.put("old", 1, 100);
    cache.put("fresh", 2, 200);
    cache.put("boundary", 3, 150);
    // Entries strictly older than the cutoff go; the boundary stays.
    assert_eq!(cache.clean(150), 1);
    assert_eq!(cache.len(), 2);
    assert_eq!(cache.get("old"), None);
    assert_eq!(cache.get("fresh"), Some(&2));
    assert_eq!(cache.get("boundary"), Some(&3));
}

#[test]
fn hash_parts_known_values() {
    assert_eq!(hex16(hash_parts(&vec!["a".to_string()])), "089be907b544fdc9");
    assert_eq!(
        hex16(hash_parts(&vec!["hello".to_string(), "world".to_string()])),
        "d510fca251cc03f5"
    );
}

#[test]
fn cache_keys_are_deterministic_and_distinguish_parts() {
    let parts = vec!["src".to_string(), "ja".to_string()];
    assert_eq!(cache_key_of_parts(&parts), cache_key_of_parts(&parts));
    // Moving a character across a part boundary changes the key.
    let shifted = vec!["sr".to_string(), "cja".to_string()];
    assert_ne!(cache_key_of_parts(&parts), cache_key_of_parts(&shifted));
    assert_eq!(cache_key_of_parts(&parts).len(), 16);
}

#[test]
fn translation_cache_key_covers_all_parts() {
    let a = generate_cache_key("text", "ja", "ctx", "model");
    assert_eq!(a, generate_cache_key("text", "ja", "ctx", "model"));
    assert_ne!(a, generate_cache_key("text", "ja", "ctx", "model2"));
    assert_ne!(a, generate_cache_key("text", "ko", "ctx", "model"));
    assert_ne!(a, generate_cache_key("other", "ja", "ctx", "model"));
    assert_ne!(a, generate_cache_key("text", "ja", "", "model"));
}

#[test]
fn simple_key_is_the_empty_context_key() {
    assert_eq!(
        simple_translation_cache_key("text", "ja", "model"),
        generate_cache_key("text", "ja", "", "model")
    );
}
