use std::sync::{Arc, Mutex};

use telemetry_log::store::{Store, StoreError};

#[test]
fn fresh_store_assigns_consecutive_ids_from_one() {
    let mut store = Store::open_temp().unwrap();
    let mut ids = Vec::new();
    for k in 0..5u8 {
        ids.push(store.add_event(vec![k]).unwrap());
    }
    assert_eq!(ids, vec![1, 2, 3, 4, 5]);
}

#[test]
fn reopening_resumes_after_the_last_id() {
    let dir = tempfile::tempdir().unwrap();
    let base = dir.path().to_str().unwrap();
    {
        let mut store = Store::open(base).unwrap();
        assert_eq!(store.add_event(b"first".to_vec()).unwrap(), 1);
        assert_eq!(store.add_event(b"second".to_vec()).unwrap(), 2);
    }
    let mut store = Store::open(base).unwrap();
    assert_eq!(store.add_event(b"third".to_vec()).unwrap(), 3);
}

#[test]
fn reopening_an_empty_store_starts_at_one() {
    let dir = tempfile::tempdir().unwrap();
    let base = dir.path().to_str().unwrap();
    {
        let _store = Store::open(base).unwrap();
        // nothing appended
    }
    let mut store = Store::open(base).unwrap();
    assert_eq!(store.add_event(b"x".to_vec()).unwrap(), 1);
}

#[test]
fn iteration_is_in_ascending_id_order() {
    let mut store = Store::open_temp().unwrap();
    for k in 0..10u8 {
        store.add_event(vec![k]).unwrap();
    }
    let (recs, lossy) = store.iter();
    assert!(!lossy);
    assert_eq!(recs.len(), 10);
    for (i, (id, payload)) in recs.iter().enumerate() {
        assert_eq!(*id, i as u64 + 1);
        assert_eq!(payload, &vec![i as u8]);
    }
}

#[test]
fn iteration_of_empty_store_is_empty() {
    let store = Store::open_temp().unwrap();
    let (recs, lossy) = store.iter();
    assert!(recs.is_empty());
    assert!(!lossy);
}

#[test]
fn corrupt_last_key_is_reported() {
    let dir = tempfile::tempdir().unwrap();
    {
        let db = sled::open(dir.path().join("time-series.sled")).unwrap();
        let tree = db.open_tree("events").unwrap();
        tree.insert([1u8, 2, 3], vec![9u8]).unwrap();
        tree.flush().unwrap();
    }
    let base = dir.path().to_str().unwrap();
    match Store::open(base) {
        Err(e) => assert_eq!(e, StoreError::CorruptKey),
        Ok(_) => panic!("a corrupt last key must be rejected"),
    }
}

#[test]
fn interleaved_callers_never_repeat_or_skip_ids() {
    let store = Arc::new(Mutex::new(Store::open_temp().unwrap()));
    let writer_a = Arc::clone(&store);
    let writer_b = Arc::clone(&store);
    let mut ids = Vec::new();
    for k in 0..20u8 {
        let handle = if k % 2 == 0 { &writer_a } else { &writer_b };
        let id = handle.lock().unwrap().add_event(vec![k]).unwrap();
        ids.push(id);
    }
    let expected: Vec<u64> = (1..=20).collect();
    assert_eq!(ids, expected);
}
