use skystore::coredb::htable::{holds_of, Condition, Coremap, Data, Removal};
use skystore::kvengine::KVEngine;
use skystore::sync::Shared;
use std::sync::Arc;

#[test]
fn coremap_round_trip() {
    let mut map: Coremap<String> = Coremap::new();
    assert_eq!(map.insert_if_absent(b"user:1".to_vec(), Arc::new("alice".to_owned())), Ok(true));
    assert_eq!(*map.get(b"user:1").unwrap(), "alice");
    assert!(map.contains(b"user:1"));
    assert!(!map.contains(b"user:2"));
    assert!(map.get(b"user:2").is_none());
    assert_eq!(map.len(), 1);
}

#[test]
fn coremap_insert_is_idempotent() {
    let mut map: Coremap<u32> = Coremap::default();
    assert_eq!(map.insert_if_absent(b"k".to_vec(), Arc::new(1)), Ok(true));
    assert_eq!(map.insert_if_absent(b"k".to_vec(), Arc::new(2)), Ok(false));
    assert_eq!(*map.get(b"k").unwrap(), 1);
    assert_eq!(map.len(), 1);
}

#[test]
fn coremap_remove_then_insert() {
    let mut map: Coremap<u32> = Coremap::new();
    assert!(map.remove(b"k").is_none());
    assert_eq!(map.insert_if_absent(b"k".to_vec(), Arc::new(1)), Ok(true));
    assert_eq!(*map.remove(b"k").unwrap(), 1);
    assert!(map.get(b"k").is_none());
    assert_eq!(map.insert_if_absent(b"k".to_vec(), Arc::new(2)), Ok(true));
    assert_eq!(*map.get(b"k").unwrap(), 2);
}

#[test]
fn coremap_handles_outlive_removal() {
    let mut map: Coremap<String> = Coremap::new();
    assert_eq!(map.insert_if_absent(b"k".to_vec(), Arc::new("v".to_owned())), Ok(true));
    let handle = map.get(b"k").unwrap();
    assert!(map.remove(b"k").is_some());
    assert_eq!(*handle, "v");
}

#[test]
fn coremap_get_hands_out_the_stored_handle() {
    let mut map: Coremap<u32> = Coremap::new();
    let value = Arc::new(7);
    assert_eq!(map.insert_if_absent(b"k".to_vec(), Arc::clone(&value)), Ok(true));
    assert!(Arc::ptr_eq(&map.get(b"k").unwrap(), &value));
    assert_eq!(Arc::strong_count(&value), 2);
}

#[test]
fn coremap_remove_if_is_conditional() {
    let mut map: Coremap<u32> = Coremap::new();
    assert_eq!(map.insert_if_absent(b"k".to_vec(), Arc::new(5)), Ok(true));
    assert!(matches!(map.remove_if(b"other", Condition::Always), Removal::Absent));
    assert!(matches!(map.remove_if(b"other", Condition::Unshared), Removal::Absent));
    let held = map.get(b"k").unwrap();
    assert!(matches!(map.remove_if(b"k", Condition::Unshared), Removal::Kept));
    assert!(map.contains(b"k"));
    drop(held);
    match map.remove_if(b"k", Condition::Unshared) {
        Removal::Removed(handle) => assert_eq!(*handle, 5),
        _ => panic!("the map held the only handle"),
    }
    assert!(!map.contains(b"k"));
    assert_eq!(map.insert_if_absent(b"k".to_vec(), Arc::new(6)), Ok(true));
    let held = map.get(b"k").unwrap();
    assert!(matches!(map.remove_if(b"k", Condition::Always), Removal::Removed(_)));
    assert_eq!(*held, 6);
}

#[test]
fn coremap_remove_where_asks_the_predicate() {
    let mut map: Coremap<u32> = Coremap::new();
    assert_eq!(map.insert_if_absent(b"k".to_vec(), Arc::new(1)), Ok(true));
    assert!(matches!(map.remove_where(b"absent", |_v: &Arc<u32>| true), Removal::Absent));
    assert!(matches!(map.remove_where(b"k", |v: &Arc<u32>| **v == 2), Removal::Kept));
    assert!(map.contains(b"k"));
    match map.remove_where(b"k", |v: &Arc<u32>| **v == 1) {
        Removal::Removed(handle) => assert_eq!(*handle, 1),
        _ => panic!("the predicate holds of the value"),
    }
    assert!(map.get(b"k").is_none());
    assert_eq!(map.len(), 0);
}

#[test]
fn conditions_on_the_number_of_handles() {
    assert!(holds_of(Condition::Always, 1));
    assert!(holds_of(Condition::Always, 7));
    assert!(holds_of(Condition::Unshared, 1));
    assert!(!holds_of(Condition::Unshared, 2));
}

#[test]
fn coremap_grows_with_its_entries() {
    let mut map: Coremap<usize> = Coremap::new();
    for i in 0..4000usize {
        assert_eq!(map.insert_if_absent(format!("key:{}", i).into_bytes(), Arc::new(i)), Ok(true));
    }
    assert_eq!(map.len(), 4000);
    for i in 0..4000usize {
        assert_eq!(*map.get(format!("key:{}", i).as_bytes()).unwrap(), i);
    }
}

#[test]
fn shared_values_sit_behind_their_lock() {
    let shared = Shared::new(Coremap::<u32>::new());
    assert_eq!(
        shared.as_lock().write().unwrap().insert_if_absent(b"k".to_vec(), Arc::new(1)),
        Ok(true)
    );
    assert_eq!(*shared.as_lock().read().unwrap().get(b"k").unwrap(), 1);
    let a = shared.as_lock().read().unwrap();
    let b = shared.as_lock().read().unwrap();
    assert_eq!(a.len() + b.len(), 2);
}

#[test]
fn data_is_compared_by_its_bytes() {
    assert_eq!(Data::from("abc"), Data::copy_from_slice(b"abc"));
    assert_ne!(Data::from("abc"), Data::from("abd"));
    assert_eq!(Data::from_blob(vec![1, 2]).to_vec(), vec![1, 2]);
    assert_eq!(Data::from("héllo").len(), 6);
    assert_eq!(Data::from("x").clone().as_slice(), b"x");
}

#[test]
fn kvengine_set_get_remove() {
    let mut kv = KVEngine::default();
    assert_eq!(kv.set(Data::from("user:1"), Data::from("alice")), Ok(true));
    assert_eq!(kv.set(Data::from("user:1"), Data::from("bob")), Ok(false));
    assert_eq!(*kv.get(&Data::from("user:1")).unwrap(), Data::from("alice"));
    assert!(kv.contains(&Data::from("user:1")));
    assert!(!kv.contains(&Data::from("user:2")));
    assert_eq!(kv.len(), 1);
    assert!(kv.remove(&Data::from("user:1")));
    assert!(!kv.remove(&Data::from("user:1")));
    assert!(kv.get(&Data::from("user:1")).is_none());
    assert_eq!(kv.len(), 0);
    assert!(KVEngine::init().get(&Data::from("user:1")).is_none());
}
