use das_overlay::distance::max_distance;
use das_overlay::store::{ContentStore, StoreError};

fn id(first: u8) -> [u8; 32] {
    let mut a = [0u8; 32];
    a[0] = first;
    a
}

#[test]
fn put_then_get() {
    let mut store = ContentStore::new([0u8; 32], 4, 16);
    assert_eq!(store.put(id(1), vec![1, 2, 3]), Ok(()));
    assert_eq!(store.get(&id(1)), Some(vec![1, 2, 3]));
    assert_eq!(store.get(&id(2)), None);
    assert!(store.contains(&id(1)));
    assert_eq!(store.len(), 1);
}

#[test]
fn put_replaces_content_under_the_same_id() {
    let mut store = ContentStore::new([0u8; 32], 4, 16);
    store.put(id(1), vec![1]).unwrap();
    store.put(id(1), vec![2]).unwrap();
    assert_eq!(store.get(&id(1)), Some(vec![2]));
    assert_eq!(store.len(), 1);
}

#[test]
fn oversized_payload_is_refused() {
    let mut store = ContentStore::new([0u8; 32], 4, 2);
    assert_eq!(store.put(id(1), vec![0; 3]), Err(StoreError::CapacityExceeded));
    assert_eq!(store.len(), 0);
}

#[test]
fn full_store_evicts_the_farthest_item() {
    let mut store = ContentStore::new([0u8; 32], 2, 16);
    store.put(id(0x10), vec![1]).unwrap();
    store.put(id(0x40), vec![2]).unwrap();
    assert_eq!(store.put(id(0x20), vec![3]), Ok(()));
    assert_eq!(store.get(&id(0x40)), None);
    assert_eq!(store.get(&id(0x10)), Some(vec![1]));
    assert_eq!(store.get(&id(0x20)), Some(vec![3]));
}

#[test]
fn full_store_keeps_nearer_content() {
    let mut store = ContentStore::new([0u8; 32], 2, 16);
    store.put(id(0x10), vec![1]).unwrap();
    store.put(id(0x20), vec![2]).unwrap();
    assert_eq!(store.put(id(0x80), vec![3]), Err(StoreError::CapacityExceeded));
    assert_eq!(store.get(&id(0x80)), None);
    assert_eq!(store.len(), 2);
}

#[test]
fn eviction_takes_the_farthest_whatever_its_age() {
    let mut store = ContentStore::new([0u8; 32], 3, 16);
    store.put(id(0x70), vec![1]).unwrap();
    store.put(id(0x10), vec![2]).unwrap();
    store.put(id(0x30), vec![3]).unwrap();
    store.put(id(0x20), vec![4]).unwrap();
    assert_eq!(store.get(&id(0x70)), None);
    store.put(id(0x01), vec![5]).unwrap();
    assert_eq!(store.get(&id(0x30)), None);
    assert!(store.contains(&id(0x10)));
    assert!(store.contains(&id(0x20)));
    assert!(store.contains(&id(0x01)));
}

#[test]
fn radius_is_unbounded_until_full() {
    let mut store = ContentStore::new([0u8; 32], 2, 16);
    assert_eq!(store.radius(), max_distance());
    store.put(id(0x10), vec![1]).unwrap();
    assert_eq!(store.radius(), max_distance());
    store.put(id(0x40), vec![2]).unwrap();
    assert_eq!(store.radius(), id(0x40));
}

#[test]
fn zero_capacity_store_holds_nothing() {
    let mut store = ContentStore::new([0u8; 32], 0, 16);
    assert_eq!(store.put(id(1), vec![1]), Err(StoreError::CapacityExceeded));
    assert_eq!(store.radius(), [0u8; 32]);
}
