use skystore::skymap::table::{bytes_eq, AllocError, RawTable};

fn key(i: usize) -> Vec<u8> {
    format!("key:{}", i).into_bytes()
}

#[test]
fn round_trip() {
    let mut t: RawTable<String> = RawTable::new();
    assert_eq!(t.insert(b"user:1".to_vec(), "alice".to_owned()), Ok(true));
    assert_eq!(t.get(b"user:1"), Some(&"alice".to_owned()));
    assert_eq!(t.get(b"user:2"), None);
    assert!(t.contains_key(b"user:1"));
    assert_eq!(t.len(), 1);
    // work on other keys leaves it alone
    assert_eq!(t.insert(b"user:2".to_vec(), "bob".to_owned()), Ok(true));
    assert_eq!(t.remove(b"user:2"), Some("bob".to_owned()));
    assert_eq!(t.get(b"user:1"), Some(&"alice".to_owned()));
}

#[test]
fn second_insert_keeps_the_first_value() {
    let mut t: RawTable<u32> = RawTable::new();
    assert_eq!(t.insert(b"k".to_vec(), 1), Ok(true));
    assert_eq!(t.insert(b"k".to_vec(), 2), Ok(false));
    assert_eq!(t.get(b"k"), Some(&1));
    assert_eq!(t.len(), 1);
}

#[test]
fn removed_keys_are_absent_and_can_come_back() {
    let mut t: RawTable<u32> = RawTable::new();
    assert_eq!(t.remove(b"k"), None);
    assert_eq!(t.insert(b"k".to_vec(), 1), Ok(true));
    assert_eq!(t.remove(b"k"), Some(1));
    assert_eq!(t.get(b"k"), None);
    assert!(!t.contains_key(b"k"));
    assert!(t.is_empty());
    assert_eq!(t.remove(b"k"), None);
    assert_eq!(t.insert(b"k".to_vec(), 2), Ok(true));
    assert_eq!(t.get(b"k"), Some(&2));
}

#[test]
fn tombstones_do_not_cut_probe_chains() {
    let mut t: RawTable<usize> = RawTable::new();
    for i in 0..200 {
        assert_eq!(t.insert(key(i), i), Ok(true));
    }
    for i in (0..200).step_by(2) {
        assert_eq!(t.remove(&key(i)), Some(i));
    }
    for i in 0..200 {
        assert_eq!(t.get(&key(i)).copied(), if i % 2 == 0 { None } else { Some(i) });
    }
    for i in (0..200).step_by(2) {
        assert_eq!(t.insert(key(i), i + 1000), Ok(true));
    }
    for i in 0..200 {
        assert_eq!(t.get(&key(i)).copied(), Some(if i % 2 == 0 { i + 1000 } else { i }));
    }
    assert_eq!(t.len(), 200);
}

#[test]
fn growth_preserves_membership() {
    let mut t: RawTable<usize> = RawTable::new();
    assert_eq!(t.capacity(), 8);
    let mut grown = 0;
    for i in 0..5000 {
        let before = t.capacity();
        assert_eq!(t.insert(key(i), i * 3), Ok(true));
        assert!(t.capacity() >= before);
        if t.capacity() > before {
            grown += 1;
        }
        // never more than seven entries for eight slots
        assert!(t.len() * 8 <= t.capacity() * 7);
    }
    assert!(grown >= 1);
    assert_eq!(t.capacity(), 8192);
    assert_eq!(t.len(), 5000);
    for i in 0..5000 {
        assert_eq!(t.get(&key(i)), Some(&(i * 3)));
    }
    assert_eq!(t.get(&key(5000)), None);
}

#[test]
fn the_eighth_entry_doubles_a_table_of_eight_slots() {
    let mut t: RawTable<usize> = RawTable::new();
    for i in 0..7 {
        assert_eq!(t.insert(key(i), i), Ok(true));
        assert_eq!(t.capacity(), 8);
    }
    assert_eq!(t.insert(key(7), 7), Ok(true));
    assert_eq!(t.capacity(), 16);
}

#[test]
fn churn_does_not_grow_the_table() {
    let mut t: RawTable<usize> = RawTable::new();
    for i in 0..10_000 {
        assert_eq!(t.insert(key(i), i), Ok(true));
        assert_eq!(t.remove(&key(i)), Some(i));
    }
    // tombstones are dropped by rebuilding at the same size
    assert_eq!(t.capacity(), 8);
    assert!(t.is_empty());
}

#[test]
fn remove_if_asks_the_predicate() {
    let mut t: RawTable<u32> = RawTable::new();
    assert_eq!(t.insert(b"k".to_vec(), 7), Ok(true));
    assert!(!t.remove_if(b"k", |v: &u32| *v == 8));
    assert_eq!(t.get(b"k"), Some(&7));
    assert!(!t.remove_if(b"absent", |_v: &u32| true));
    assert!(t.remove_if(b"k", |v: &u32| *v == 7));
    assert_eq!(t.get(b"k"), None);
}

#[test]
fn iteration_yields_every_entry_once() {
    let mut t: RawTable<usize> = RawTable::new();
    for i in 0..100 {
        assert_eq!(t.insert(key(i), i), Ok(true));
    }
    for i in 0..50 {
        assert_eq!(t.remove(&key(i)), Some(i));
    }
    let mut seen = vec![0usize; 100];
    let mut it = t.iter();
    while let Some((k, v)) = it.next() {
        assert_eq!(k, &key(*v)[..]);
        seen[*v] += 1;
    }
    assert_eq!(it.next(), None);
    for i in 0..100 {
        assert_eq!(seen[i], if i < 50 { 0 } else { 1 });
    }
    let empty: RawTable<usize> = RawTable::new();
    assert!(empty.iter().next().is_none());
}

#[test]
fn empty_key_and_binary_keys() {
    let mut t: RawTable<u8> = RawTable::new();
    assert_eq!(t.insert(Vec::new(), 1), Ok(true));
    assert_eq!(t.insert(vec![0], 2), Ok(true));
    assert_eq!(t.insert(vec![0, 0], 3), Ok(true));
    assert_eq!(t.insert(vec![0xff; 300], 4), Ok(true));
    assert_eq!(t.get(b""), Some(&1));
    assert_eq!(t.get(&[0]), Some(&2));
    assert_eq!(t.get(&[0, 0]), Some(&3));
    assert_eq!(t.get(&[0xff; 300]), Some(&4));
    assert_eq!(t.get(&[0xff; 299]), None);
}

#[test]
fn alloc_error_is_a_value() {
    let e: Result<bool, AllocError> = Err(AllocError);
    assert_ne!(e, Ok(true));
    assert_eq!(format!("{:?}", AllocError), "AllocError");
}

#[test]
fn bytes_eq_compares_contents() {
    assert!(bytes_eq(b"", b""));
    assert!(bytes_eq(b"abc", b"abc"));
    assert!(!bytes_eq(b"abc", b"abd"));
    assert!(!bytes_eq(b"abc", b"ab"));
}
