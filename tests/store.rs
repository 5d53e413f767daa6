use quake_alert::dispatch::neighborhood_cells;
use quake_alert::geohash::encode;
use quake_alert::models::{GeoHashIndex, Subscription};
use quake_alert::store::{StoreError, SubscriptionStore};

fn sub(id: &str, lat: i64, lon: i64, min: u8) -> Subscription {
    Subscription::new(id.to_string(), lat, lon, min, 1_700_000_000_000)
}

#[test]
fn index_add_keeps_each_id_once() {
    let mut index = GeoHashIndex::new();
    index.add("a".to_string());
    index.add("b".to_string());
    index.add("a".to_string());
    assert_eq!(index.bark_ids, vec!["a", "b"]);
    index.remove("a");
    assert_eq!(index.bark_ids, vec!["b"]);
    index.remove("zzz");
    assert_eq!(index.bark_ids, vec!["b"]);
    assert!(GeoHashIndex::default().bark_ids.is_empty());
}

#[test]
fn upsert_then_get() {
    let mut store = SubscriptionStore::new();
    store.upsert_subscription(sub("alice", 356_586_000, 1_397_454_000, 3));
    let got = store.get_subscription("alice").unwrap();
    assert_eq!(got.bark_id, "alice");
    assert_eq!(got.latitude, 356_586_000);
    assert_eq!(got.min_intensity, 3);
    assert_eq!(store.get_subscription("bob").unwrap_err(), StoreError::NotFound);
    store.upsert_subscription(sub("alice", -338_568_000, 1_512_153_000, 6));
    let got = store.get_subscription("alice").unwrap();
    assert_eq!((got.latitude, got.longitude, got.min_intensity), (-338_568_000, 1_512_153_000, 6));
}

#[test]
fn count_grows_only_on_new_targets() {
    let mut store = SubscriptionStore::new();
    assert_eq!(store.get_total_count(), 0);
    store.upsert_subscription(sub("alice", 356_586_000, 1_397_454_000, 3));
    store.upsert_subscription(sub("bob", 399_042_000, 1_164_074_000, 4));
    assert_eq!(store.get_total_count(), 2);
    store.upsert_subscription(sub("alice", 399_042_000, 1_164_074_000, 5));
    assert_eq!(store.get_total_count(), 2);
    assert_eq!(store.delete_subscription("alice"), Ok(()));
    assert_eq!(store.get_total_count(), 1);
    assert_eq!(store.delete_subscription("alice"), Err(StoreError::NotFound));
    assert_eq!(store.get_total_count(), 1);
}

#[test]
fn moving_a_subscription_changes_its_cell() {
    let mut store = SubscriptionStore::new();
    let tokyo_cells = vec![encode(356_586_000, 1_397_454_000)];
    let beijing_cells = vec![encode(399_042_000, 1_164_074_000)];
    store.upsert_subscription(sub("alice", 356_586_000, 1_397_454_000, 3));
    assert_eq!(store.get_subscriptions_by_geohashes(&tokyo_cells).len(), 1);
    store.upsert_subscription(sub("alice", 399_042_000, 1_164_074_000, 3));
    assert!(store.get_subscriptions_by_geohashes(&tokyo_cells).is_empty());
    let found = store.get_subscriptions_by_geohashes(&beijing_cells);
    assert_eq!(found.len(), 1);
    assert_eq!(found[0].latitude, 399_042_000);
}

#[test]
fn cell_query_deduplicates_repeated_cells() {
    let mut store = SubscriptionStore::new();
    store.upsert_subscription(sub("alice", 356_586_000, 1_397_454_000, 3));
    store.upsert_subscription(sub("bob", 356_586_100, 1_397_454_100, 3));
    store.upsert_subscription(sub("carol", -338_568_000, 1_512_153_000, 3));
    let cell = encode(356_586_000, 1_397_454_000);
    let found = store.get_subscriptions_by_geohashes(&[cell.clone(), cell.clone()]);
    let mut ids: Vec<String> = found.iter().map(|s| s.bark_id.clone()).collect();
    ids.sort();
    assert_eq!(ids, vec!["alice", "bob"]);
}

#[test]
fn neighborhood_query_finds_nearby_subscribers() {
    let mut store = SubscriptionStore::new();
    store.upsert_subscription(sub("near", 350_000_000, 1_390_000_000, 3));
    store.upsert_subscription(sub("far", 400_000_000, 1_160_000_000, 3));
    let cells = neighborhood_cells(350_000_000, 1_390_000_000);
    let found = store.get_subscriptions_by_geohashes(&cells);
    assert_eq!(found.len(), 1);
    assert_eq!(found[0].bark_id, "near");
}

#[test]
fn empty_store_gives_no_candidates() {
    let store = SubscriptionStore::new();
    let cells = neighborhood_cells(350_000_000, 1_390_000_000);
    assert!(store.get_subscriptions_by_geohashes(&cells).is_empty());
}
