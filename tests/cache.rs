use std::sync::Arc;

use cache_server::data_cache::{CacheRequest, DataCache, Fetched};
use cache_server::entry::LoadError;

fn request(simulation: &str, snapshot_id: usize) -> CacheRequest {
    CacheRequest { simulation: simulation.to_string(), snapshot_id }
}

fn cache() -> DataCache<String> {
    DataCache::new("/data".to_string(), "http://registrar".to_string(), "http://me".to_string())
}

#[test]
fn new_cache_is_empty() {
    let cache = cache();
    assert!(cache.lookup(&request("TNG50", 1)).is_none());
    assert!(cache.cached_entries().is_empty());
    assert_eq!("/data", cache.basedir());
    assert_eq!("http://registrar", cache.metadata_url());
    assert_eq!("http://me", cache.hostname());
    let _token: isize = cache.rand();
}

#[test]
fn same_key_gives_same_entry() {
    let mut cache = cache();
    let key = request("TNG50", 99);
    let first = cache.load_entry(&key, Ok("first".to_string())).unwrap();
    let looked_up = cache.lookup(&key).unwrap();
    assert!(Arc::ptr_eq(&first, &looked_up));
    // a load of the same key that raced the first one keeps the first entry
    let second = cache.load_entry(&key, Ok("second".to_string())).unwrap();
    assert!(Arc::ptr_eq(&first, &second));
    assert_eq!("first", second.as_str());
}

#[test]
fn failed_load_stores_nothing() {
    let mut cache = cache();
    let key = request("TNG50", 3);
    let res = cache.load_entry(&key, Err(LoadError::Io("Failed to open splines".to_string())));
    assert_eq!(Err(LoadError::Io("Failed to open splines".to_string())), res);
    assert!(cache.lookup(&key).is_none());
    // a later load retries from scratch
    let entry = cache.load_entry(&key, Ok("loaded".to_string())).unwrap();
    assert_eq!("loaded", entry.as_str());
}

#[test]
fn cached_entries_groups_by_simulation() {
    let mut cache = cache();
    for (simulation, snapshot_id) in [("A", 3), ("B", 1), ("A", 1), ("A", 3), ("C", 0), ("B", 2)] {
        cache.load_entry(&request(simulation, snapshot_id), Ok(format!("{simulation}{snapshot_id}"))).unwrap();
    }
    let groups = cache.cached_entries();
    assert_eq!(
        vec![
            ("A".to_string(), vec![3, 1]),
            ("B".to_string(), vec![1, 2]),
            ("C".to_string(), vec![0]),
        ],
        groups
    );
}

#[test]
fn requests_compare_by_value() {
    assert!(request("A", 1).same_as(&request("A", 1)));
    assert!(!request("A", 1).same_as(&request("A", 2)));
    assert!(!request("A", 1).same_as(&request("B", 1)));
    let copy = request("A", 7).copy();
    assert_eq!(request("A", 7), copy);
}

#[test]
fn get_or_load_loads_once() {
    let mut cache = cache();
    let key = request("TNG100", 42);
    let mut calls = 0;
    let first = match cache.get_or_load(&key, |r| {
        calls += 1;
        Ok(format!("{}-{}", r.simulation, r.snapshot_id))
    }) {
        Fetched::Loaded(e) => e,
        _ => panic!("expected a load"),
    };
    assert_eq!("TNG100-42", first.as_str());
    let second = match cache.get_or_load(&key, |_r| Ok("other".to_string())) {
        Fetched::Cached(e) => e,
        _ => panic!("expected a hit"),
    };
    assert!(Arc::ptr_eq(&first, &second));
    assert_eq!(1, calls);
}

#[test]
fn get_or_load_failure_is_retried() {
    let mut cache = cache();
    let key = request("TNG100", 1);
    let failed = cache.get_or_load(&key, |_r| Err(LoadError::Io("Failed to open Density".to_string())));
    assert!(matches!(failed, Fetched::Failed(LoadError::Io(_))));
    assert!(cache.lookup(&key).is_none());
    let loaded = cache.get_or_load(&key, |_r| Ok("ok".to_string())).into_result().unwrap();
    assert_eq!("ok", loaded.as_str());
    assert!(cache.cached_entries() == vec![("TNG100".to_string(), vec![1])]);
}
