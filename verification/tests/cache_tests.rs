use before::cache::SnapshotCache;
use before::time::Timestamp;

fn key(n: i64) -> Timestamp {
    Timestamp::new(n, 0)
}

#[test]
fn computed_value_is_found_again_without_recomputation() {
    let mut cache = SnapshotCache::new(4);
    let mut calls = 0;
    let r = cache.get_or_insert(&key(7), || -> Result<String, String> {
        calls += 1;
        Ok("snapshot".to_string())
    });
    assert_eq!(r, Ok("snapshot".to_string()));
    assert_eq!(calls, 1);
    let again = cache.get_or_insert(&key(7), || -> Result<String, String> {
        calls += 1;
        Ok("recomputed".to_string())
    });
    assert_eq!(again, Ok("snapshot".to_string()));
    assert_eq!(calls, 1);
    assert_eq!(cache.get(&key(7)), Some("snapshot".to_string()));
}

#[test]
fn failed_computations_are_never_cached() {
    let mut cache = SnapshotCache::new(4);
    let mut calls = 0;
    let r = cache.get_or_insert(&key(1), || -> Result<String, String> {
        calls += 1;
        Err("boom".to_string())
    });
    assert_eq!(r, Err("boom".to_string()));
    assert_eq!(cache.get(&key(1)), None);
    let r2 = cache.get_or_insert(&key(1), || -> Result<String, String> {
        calls += 1;
        Ok("fine".to_string())
    });
    assert_eq!(r2, Ok("fine".to_string()));
    assert_eq!(calls, 2);
}

#[test]
fn overfilling_evicts_the_first_key_inserted() {
    let mut cache = SnapshotCache::new(3);
    cache.insert(&key(1), "v1".to_string());
    cache.insert(&key(2), "v2".to_string());
    cache.insert(&key(3), "v3".to_string());
    cache.insert(&key(4), "v4".to_string());
    assert_eq!(cache.get(&key(1)), None);
    assert_eq!(cache.get(&key(2)), Some("v2".to_string()));
    assert_eq!(cache.get(&key(3)), Some("v3".to_string()));
    assert_eq!(cache.get(&key(4)), Some("v4".to_string()));
}

#[test]
fn a_hit_refreshes_recency_and_prevents_eviction() {
    let mut cache = SnapshotCache::new(3);
    cache.insert(&key(1), "v1".to_string());
    cache.insert(&key(2), "v2".to_string());
    cache.insert(&key(3), "v3".to_string());
    assert_eq!(cache.get(&key(1)), Some("v1".to_string()));
    cache.insert(&key(4), "v4".to_string());
    assert_eq!(cache.get(&key(1)), Some("v1".to_string()));
    assert_eq!(cache.get(&key(2)), None);
}

#[test]
fn reinserting_a_key_replaces_its_value() {
    let mut cache = SnapshotCache::new(2);
    cache.insert(&key(5), "old".to_string());
    cache.insert(&key(5), "new".to_string());
    assert_eq!(cache.get(&key(5)), Some("new".to_string()));
}

#[test]
fn nearby_instants_are_distinct_keys() {
    let mut cache = SnapshotCache::new(4);
    cache.insert(&Timestamp::new(9, 0), "whole".to_string());
    assert_eq!(cache.get(&Timestamp::new(9, 1)), None);
    assert_eq!(cache.get(&Timestamp::new(9, 0)), Some("whole".to_string()));
}

#[test]
fn zero_capacity_disables_caching_entirely() {
    let mut cache = SnapshotCache::new(0);
    cache.insert(&key(1), "v1".to_string());
    assert_eq!(cache.get(&key(1)), None);
    let mut calls = 0;
    for _ in 0..2 {
        let r = cache.get_or_insert(&key(1), || -> Result<String, String> {
            calls += 1;
            Ok("always".to_string())
        });
        assert_eq!(r, Ok("always".to_string()));
    }
    assert_eq!(calls, 2);
}
