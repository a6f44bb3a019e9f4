use payload_store::cache::{same_bytes, PayloadCache};
use payload_store::error::StorageError;
use payload_store::record::Payload;
use std::sync::Arc;

#[test]
fn lookup_hits_while_bytes_are_held() {
    let mut cache = PayloadCache::new();
    let bytes = Arc::new(vec![1u8, 2, 3]);
    cache.remember(7, &bytes);
    let hit = cache.lookup(7).expect("live entry");
    assert!(Arc::ptr_eq(&hit, &bytes));
    assert!(cache.lookup(8).is_none());
    assert_eq!(cache.len(), 1);
}

#[test]
fn cache_does_not_keep_bytes_alive() {
    let mut cache = PayloadCache::new();
    let bytes = Arc::new(vec![1u8, 2, 3]);
    cache.remember(7, &bytes);
    assert_eq!(Arc::strong_count(&bytes), 1);
    drop(bytes);
    assert!(cache.lookup(7).is_none());
    // the entry itself stays until it is pruned
    assert_eq!(cache.len(), 1);
}

#[test]
fn prune_drops_exactly_the_released_entries() {
    let mut cache = PayloadCache::new();
    let held = Arc::new(vec![1u8]);
    let released = Arc::new(vec![2u8]);
    cache.remember(1, &held);
    cache.remember(2, &released);
    drop(released);
    assert_eq!(cache.released(), vec![2]);
    cache.prune();
    assert_eq!(cache.keys(), vec![1]);
    assert!(cache.lookup(1).is_some());
    cache.prune();
    assert_eq!(cache.len(), 1);
    drop(held);
    cache.prune();
    assert_eq!(cache.len(), 0);
}

#[test]
fn get_or_load_calls_the_loader_only_on_a_miss() {
    let mut cache = PayloadCache::new();
    let first = cache.get_or_load(4, || Ok(vec![4, 4])).unwrap();
    assert_eq!(first, Payload { id: 4, bytes: Arc::new(vec![4, 4]) });
    let second = cache
        .get_or_load(4, || -> Result<Vec<u8>, StorageError> { panic!("must not load") })
        .unwrap();
    assert!(Arc::ptr_eq(&first.bytes, &second.bytes));
    drop(first);
    drop(second);
    let third = cache.get_or_load(4, || Ok(vec![5])).unwrap();
    assert_eq!(third.bytes, Arc::new(vec![5]));
}

#[test]
fn get_or_load_hands_the_loaders_error_on() {
    let mut cache = PayloadCache::new();
    assert_eq!(cache.get_or_load(4, || Err(StorageError::NotFound)), Err(StorageError::NotFound));
    assert_eq!(cache.get_or_load(4, || Err(StorageError::Io)), Err(StorageError::Io));
    assert_eq!(cache.len(), 0);
}

#[test]
fn forget_and_evict_remove_entries() {
    let mut cache = PayloadCache::new();
    let bytes = Arc::new(vec![0u8]);
    for key in 0..5 {
        cache.remember(key, &bytes);
    }
    cache.forget(0);
    cache.forget(17);
    cache.evict(&vec![1, 3, 3, 99]);
    let mut keys = cache.keys();
    keys.sort();
    assert_eq!(keys, vec![2, 4]);
}

#[test]
fn share_prefers_the_live_entry_of_the_key() {
    let mut cache = PayloadCache::new();
    let first = cache.share(1, Arc::new(vec![1]));
    let second = cache.share(1, Arc::new(vec![2]));
    assert!(Arc::ptr_eq(&first, &second));
    drop(first);
    drop(second);
    assert_eq!(cache.share(1, Arc::new(vec![3])), Arc::new(vec![3]));
}

#[test]
fn share_equal_never_changes_the_bytes() {
    let mut cache = PayloadCache::new();
    let first = cache.share_equal(1, Arc::new(vec![1]));
    let equal = cache.share_equal(1, Arc::new(vec![1]));
    assert!(Arc::ptr_eq(&first, &equal));
    // same key, other bytes: a collision, which is not shared
    let other = cache.share_equal(1, Arc::new(vec![2]));
    assert_eq!(other, Arc::new(vec![2]));
    assert!(Arc::ptr_eq(&cache.lookup(1).unwrap(), &first));
}

#[test]
fn same_bytes_compares_content() {
    assert!(same_bytes(&vec![], &vec![]));
    assert!(same_bytes(&vec![1, 2], &vec![1, 2]));
    assert!(!same_bytes(&vec![1, 2], &vec![1, 3]));
    assert!(!same_bytes(&vec![1, 2], &vec![1, 2, 3]));
}

#[test]
fn census_counts_the_owners_of_every_entry() {
    let mut cache = PayloadCache::new();
    let held = Arc::new(vec![1u8]);
    let twice = Arc::new(vec![2u8]);
    let also = Arc::clone(&twice);
    let released = Arc::new(vec![3u8]);
    cache.remember(1, &held);
    cache.remember(2, &twice);
    cache.remember(3, &released);
    drop(released);
    let mut counts = cache.census();
    counts.sort();
    assert_eq!(counts, vec![(1, 1), (2, 2), (3, 0)]);
    drop(also);
    assert_eq!(PayloadCache::new().census(), vec![]);
}

#[test]
fn unowned_picks_the_keys_with_no_owner_in_order() {
    let counts = vec![(5, 0), (1, 2), (9, 0), (4, 1), (2, 0)];
    assert_eq!(PayloadCache::unowned(&counts), vec![5, 9, 2]);
    assert_eq!(PayloadCache::unowned(&vec![(1, 1)]), vec![]);
    assert_eq!(PayloadCache::unowned(&vec![]), vec![]);
}

#[test]
fn found_or_load_returns_what_was_found() {
    let mut cache = PayloadCache::new();
    let found = Arc::new(vec![1u8, 2]);
    let payload = cache
        .found_or_load(4, Some(Arc::clone(&found)), || -> Result<Vec<u8>, StorageError> {
            panic!("must not load")
        })
        .unwrap();
    assert_eq!(payload.id, 4);
    assert!(Arc::ptr_eq(&payload.bytes, &found));
    assert_eq!(cache.len(), 0);

    let loaded = cache.found_or_load(4, None, || Ok(vec![9])).unwrap();
    assert_eq!(loaded, Payload { id: 4, bytes: Arc::new(vec![9]) });
    assert!(Arc::ptr_eq(&cache.lookup(4).unwrap(), &loaded.bytes));
    assert_eq!(cache.found_or_load(5, None, || Err(StorageError::Io)), Err(StorageError::Io));
    assert_eq!(cache.len(), 1);
}

#[test]
fn share_found_returns_what_was_found() {
    let mut cache = PayloadCache::new();
    let found = Arc::new(vec![1u8]);
    let own = Arc::new(vec![2u8]);
    let shared = cache.share_found(1, Some(Arc::clone(&found)), Arc::clone(&own));
    assert!(Arc::ptr_eq(&shared, &found));
    assert_eq!(cache.len(), 0);
    let kept = cache.share_found(1, None, Arc::clone(&own));
    assert!(Arc::ptr_eq(&kept, &own));
    assert!(Arc::ptr_eq(&cache.lookup(1).unwrap(), &own));
}

#[test]
fn share_equal_found_shares_equal_bytes_only() {
    let mut cache = PayloadCache::new();
    let found = Arc::new(vec![1u8]);
    let equal = Arc::new(vec![1u8]);
    let other = Arc::new(vec![2u8]);
    let shared = cache.share_equal_found(1, Some(Arc::clone(&found)), Arc::clone(&equal));
    assert!(Arc::ptr_eq(&shared, &found));
    let own = cache.share_equal_found(1, Some(Arc::clone(&found)), Arc::clone(&other));
    assert!(Arc::ptr_eq(&own, &other));
    assert_eq!(cache.len(), 0);
    let fresh = cache.share_equal_found(1, None, Arc::clone(&other));
    assert!(Arc::ptr_eq(&fresh, &other));
    assert_eq!(cache.len(), 1);
}
