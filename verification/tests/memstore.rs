use skystore::coredb::htable::Data;
use skystore::coredb::memstore::{
    default_id, DdlError, Keyspace, Memstore, ObjectID, Table, TableType, DEFAULT_ARRAY,
};
use std::sync::{Arc, RwLock};

#[test]
fn test_def_macro_sanity() {
    // the default name, with one more byte appended
    let mut def = ObjectID::try_from_slice(&DEFAULT_ARRAY).unwrap().clone();
    def.push(b'?');
    assert_eq!(
        def.into_vec().into_iter().map(char::from).collect::<String>(),
        "default?".to_owned()
    );
}

#[test]
fn test_keyspace_drop_no_atomic_ref() {
    let mut our_keyspace = Keyspace::empty_default();
    assert!(our_keyspace
        .create_table(Data::from("apps"), TableType::KeyValue)
        .unwrap());
    assert!(our_keyspace.drop_table(Data::from("apps")).is_ok());
}

#[test]
fn test_keyspace_drop_fail_with_atomic_ref() {
    let mut our_keyspace = Keyspace::empty_default();
    assert!(our_keyspace
        .create_table(Data::from("apps"), TableType::KeyValue)
        .unwrap());
    let _atomic_tbl_ref = our_keyspace
        .get_table_atomic_ref(Data::from("apps"))
        .unwrap();
    assert_eq!(
        our_keyspace.drop_table(Data::from("apps")).unwrap_err(),
        DdlError::StillInUse
    );
}

#[test]
fn test_keyspace_try_delete_protected_table() {
    let mut our_keyspace = Keyspace::empty_default();
    assert_eq!(
        our_keyspace.drop_table(Data::from("default")).unwrap_err(),
        DdlError::ProtectedObject
    );
    assert_eq!(
        our_keyspace.drop_table(Data::from("_system")).unwrap_err(),
        DdlError::ProtectedObject
    );
}

#[test]
fn drop_succeeds_once_the_handle_is_released() {
    let mut ks = Keyspace::empty_default();
    assert_eq!(ks.create_table(Data::from("apps"), TableType::KeyValue), Ok(true));
    let handle = ks.get_table_atomic_ref(Data::from("apps")).unwrap();
    assert_eq!(ks.drop_table(Data::from("apps")), Err(DdlError::StillInUse));
    // the table is still there
    assert!(ks.get_table_atomic_ref(Data::from("apps")).is_some());
    drop(handle);
    assert_eq!(ks.drop_table(Data::from("apps")), Ok(()));
    assert!(ks.get_table_atomic_ref(Data::from("apps")).is_none());
}

#[test]
fn drop_of_a_missing_table_is_not_found() {
    let mut ks = Keyspace::empty();
    assert_eq!(ks.drop_table(Data::from("apps")), Err(DdlError::ObjectNotFound));
    // an empty keyspace holds no `default` table, yet the name stays protected
    assert_eq!(ks.drop_table(Data::from("default")), Err(DdlError::ProtectedObject));
}

#[test]
fn a_dropped_table_is_not_found_the_second_time() {
    let mut ks = Keyspace::empty_default();
    assert_eq!(ks.create_table(Data::from("apps"), TableType::KeyValue), Ok(true));
    assert_eq!(ks.drop_table(Data::from("apps")), Ok(()));
    assert_eq!(ks.drop_table(Data::from("apps")), Err(DdlError::ObjectNotFound));
}

#[test]
fn protected_tables_stay_protected_with_handles_out() {
    let mut ks = Keyspace::empty_default();
    let held = ks.get_table_atomic_ref(Data::from("_system")).unwrap();
    assert_eq!(ks.drop_table(Data::from("_system")), Err(DdlError::ProtectedObject));
    drop(held);
    assert_eq!(ks.drop_table(Data::from("_system")), Err(DdlError::ProtectedObject));
    assert!(ks.get_table_atomic_ref(Data::from("_system")).is_some());
}

#[test]
fn create_table_never_overwrites() {
    let mut ks = Keyspace::empty_default();
    assert_eq!(ks.create_table(Data::from("apps"), TableType::KeyValue), Ok(true));
    let first = ks.get_table_atomic_ref(Data::from("apps")).unwrap();
    assert_eq!(
        first.as_lock().write().unwrap().set(Data::from("k"), Data::from("v")),
        Ok(true)
    );
    assert_eq!(ks.create_table(Data::from("apps"), TableType::KeyValue), Ok(false));
    let again = ks.get_table_atomic_ref(Data::from("apps")).unwrap();
    assert!(Arc::ptr_eq(&first, &again));
    assert_eq!(
        *again.as_lock().read().unwrap().get(&Data::from("k")).unwrap(),
        Data::from("v")
    );
    assert_eq!(ks.create_table(Data::from("default"), TableType::KeyValue), Ok(false));
}

#[test]
fn a_default_keyspace_holds_the_two_tables_and_no_other() {
    let mut ks = Keyspace::empty_default();
    for name in ["default", "_system"] {
        let table = ks.get_table_atomic_ref(Data::from(name)).unwrap();
        assert!(table.as_lock().read().unwrap().get_kvstore().unwrap().len() == 0);
    }
    assert!(ks.get_table_atomic_ref(Data::from("system")).is_none());
    assert_eq!(ks.create_table(Data::from("_system"), TableType::KeyValue), Ok(false));
    assert!(ks.is_flush_healthy());
    ks.set_flush_health(false);
    assert!(!ks.is_flush_healthy());
    assert!(ks.get_table_atomic_ref(Data::from("default")).is_some());
}

#[test]
fn default_node_scenario() {
    let store = Memstore::new_default();
    let ks = store.get_keyspace_atomic_ref(default_id()).unwrap();
    assert!(ks.as_lock().read().unwrap().get_table_atomic_ref(Data::from("default")).is_some());
    assert!(ks.as_lock().read().unwrap().get_table_atomic_ref(Data::from("_system")).is_some());
    assert_eq!(
        ks.as_lock().write().unwrap().create_table(Data::from("apps"), TableType::KeyValue),
        Ok(true)
    );
    {
        let apps = ks
            .as_lock()
            .read()
            .unwrap()
            .get_table_atomic_ref(Data::from("apps"))
            .unwrap();
        assert_eq!(
            apps.as_lock().write().unwrap().set(Data::from("user:1"), Data::from("alice")),
            Ok(true)
        );
        let table = apps.as_lock().read().unwrap();
        assert_eq!(*table.get(&Data::from("user:1")).unwrap(), Data::from("alice"));
        assert_eq!(
            *table.get_kvstore().unwrap().get(&Data::from("user:1")).unwrap(),
            Data::from("alice")
        );
    }
    assert_eq!(ks.as_lock().write().unwrap().drop_table(Data::from("apps")), Ok(()));
    assert!(ks.as_lock().read().unwrap().get_table_atomic_ref(Data::from("apps")).is_none());
}

#[test]
fn keyspaces_are_created_once_and_start_without_tables() {
    let mut store = Memstore::new_empty();
    assert!(store.get_keyspace_atomic_ref(default_id()).is_none());
    assert_eq!(store.create_keyspace(default_id()), Ok(true));
    assert_eq!(store.create_keyspace(default_id()), Ok(false));
    let other = ObjectID::try_from_slice(b"analytics").unwrap();
    assert_eq!(store.create_keyspace(other.clone()), Ok(true));
    for id in [default_id(), other] {
        let ks = store.get_keyspace_atomic_ref(id).unwrap();
        let ks = ks.as_lock().read().unwrap();
        assert!(ks.get_table_atomic_ref(Data::from("default")).is_none());
        assert!(ks.get_table_atomic_ref(Data::from("_system")).is_none());
    }
    let node = Memstore::new_default();
    assert!(node
        .get_keyspace_atomic_ref(ObjectID::try_from_slice(b"_system").unwrap())
        .is_none());
}

#[test]
fn handles_to_a_node_share_the_keyspaces() {
    let store = Arc::new(RwLock::new(Memstore::new_empty()));
    let twin = Arc::clone(&store);
    assert_eq!(store.write().unwrap().create_keyspace(default_id()), Ok(true));
    assert!(twin.read().unwrap().get_keyspace_atomic_ref(default_id()).is_some());
    assert_eq!(twin.write().unwrap().create_keyspace(default_id()), Ok(false));
}

#[test]
fn a_keyspace_handle_outlives_the_node() {
    let store = Memstore::new_default();
    let ks = store.get_keyspace_atomic_ref(default_id()).unwrap();
    drop(store);
    assert_eq!(
        ks.as_lock().write().unwrap().create_table(Data::from("late"), TableType::KeyValue),
        Ok(true)
    );
}

#[test]
fn tables_are_key_value_stores() {
    let mut table = Table::new(TableType::KeyValue);
    assert_eq!(table.set(Data::from("a"), Data::from("1")), Ok(true));
    assert_eq!(table.set(Data::from("a"), Data::from("2")), Ok(false));
    assert_eq!(*table.get(&Data::from("a")).unwrap(), Data::from("1"));
    assert!(table.get_kvstore().unwrap().contains(&Data::from("a")));
    assert!(table.remove(&Data::from("a")));
    assert!(!table.remove(&Data::from("a")));
    assert!(table.get(&Data::from("a")).is_none());
}

#[test]
fn object_ids_hold_at_most_64_bytes() {
    assert!(ObjectID::try_from_slice(&[7u8; 64]).is_some());
    assert!(ObjectID::try_from_slice(&[7u8; 65]).is_none());
    let mut id = ObjectID::try_from_slice(&[1u8; 63]).unwrap();
    assert_eq!(id.remaining_cap(), 1);
    assert!(id.try_push(2));
    assert!(!id.try_push(3));
    assert_eq!(id.len(), 64);
    assert_eq!(id.capacity(), 64);
    assert_eq!(id.as_slice()[63], 2);
}
