use cao_lang::collections::hash_map::{hash, CaoHashMap};
use std::cell::Cell;
use std::rc::Rc;

struct Counted(Rc<Cell<u32>>);

impl Drop for Counted {
    fn drop(&mut self) {
        self.0.set(self.0.get() + 1);
    }
}

#[test]
fn insert_duplicate_test() {
    let mut map = CaoHashMap::<&str, i32>::default();

    map.insert("asd", 42).unwrap();
    map.insert("asd", 31).unwrap();
    map.insert("asd", 92).unwrap();
    map.insert("asd", 22).unwrap();
    map.insert("asd", 82).unwrap();
    map.insert("asd", 12).unwrap();
    map.insert("asd", 82).unwrap();

    assert_eq!(map.len(), 1);
}

#[test]
fn removing_duplicate_hash_test() {
    // if the key of two distinct keys map to the same bucket,
    // then we should still be able to look up the second, after deleting the first
    let mut map = CaoHashMap::<&str, i32>::default();
    map.insert_with_hint(42, "winnie", 42).unwrap();
    map.insert_with_hint(42, "pooh", 69).unwrap();

    let i = map.remove_with_hint(42, &"winnie").unwrap();
    assert_eq!(i, 42);

    let i = *map.get_with_hint(42, &"pooh").unwrap();
    assert_eq!(i, 69);
}

#[test]
fn can_grow() {
    let mut map = CaoHashMap::<i32, i32>::with_capacity(1).unwrap();

    assert_eq!(map.len(), 0);

    map.insert(5, 42).expect("insert 0");
    map.insert(2, 42).expect("insert 1");
    map.insert(5, 31).expect("insert 2");

    assert_eq!(map.len(), 2);

    let val = map.get(&5).expect("Expected to get back the value");
    assert_eq!(*val, 31);

    let val = map.get(&2).expect("Expected to get back the value");
    assert_eq!(*val, 42);
}

#[test]
fn can_mutate_value() {
    let mut map = CaoHashMap::<i32, i32>::with_capacity(1).unwrap();

    assert_eq!(map.len(), 0);

    map.insert(5, 42).expect("insert 0");
    map.insert(2, 42).expect("insert 1");
    map.insert(5, 31).expect("insert 2");

    assert_eq!(map.len(), 2);

    let val = map.get_mut(&5).expect("Expected to get back the value");
    assert_eq!(*val, 31);
    *val = 69;

    let val = map.get(&5).expect("Expected to get back the value");
    assert_eq!(*val, 69);
}

#[test]
fn drops_values() {
    let drops = Rc::new(Cell::new(0u32));
    {
        let mut map = CaoHashMap::with_capacity(1).unwrap();
        map.insert(5, Counted(drops.clone())).expect("insert 0");
        map.insert(2, Counted(drops.clone())).expect("insert 1");
        map.insert(5, Counted(drops.clone())).expect("insert 2");

        assert_eq!(map.len(), 2);
        assert_eq!(drops.get(), 1, "Drops the duplicated value");
    }
    assert_eq!(drops.get(), 3, "Drops the 2 items still in the map")
}

#[test]
fn hash_map_growth_sequence() {
    // a map of one slot grows to 3, then to 4 and 6 while its third entry is moved
    let mut map = CaoHashMap::<u32, u32>::with_capacity(1).unwrap();
    map.insert(1, 10).unwrap();
    assert_eq!(map.capacity(), 3);
    map.insert(2, 20).unwrap();
    assert_eq!(map.capacity(), 3);
    map.insert(3, 30).unwrap();
    assert_eq!(map.capacity(), 6);
    assert_eq!(map.len(), 3);
    for k in 1..=3u32 {
        assert_eq!(*map.get(&k).unwrap(), k * 10);
    }
}

#[test]
fn hash_map_remove_then_get_is_none() {
    let mut map = CaoHashMap::<i64, &str>::default();
    for k in 0..20i64 {
        map.insert(k, "v").unwrap();
    }
    assert_eq!(map.remove(&7), Some("v"));
    assert_eq!(map.remove(&7), None);
    assert!(map.get(&7).is_none());
    assert!(!map.contains(&7));
    assert_eq!(map.len(), 19);
}

#[test]
fn hash_map_clear_and_reserve() {
    let mut map = CaoHashMap::<u64, u64>::with_capacity(0).unwrap();
    assert_eq!(map.capacity(), 1);
    map.insert(9, 1).unwrap();
    map.reserve(10).unwrap();
    assert!(map.capacity() >= 13);
    assert_eq!(*map.get(&9).unwrap(), 1);
    map.clear();
    assert!(map.is_empty());
    assert!(map.get(&9).is_none());
}

#[test]
fn hash_of_str_is_fnv1a_of_bytes_and_terminator() {
    // FNV-1a, 32 bits, over "a" followed by 0xff
    let mut h: u64 = 2166136261;
    for b in [b'a', 0xffu8] {
        h = ((h ^ b as u64) & 0xffff_ffff) * 16777619;
    }
    assert_eq!(hash(&"a"), h & 0xffff_ffff);
    // an integer key feeds its little-endian bytes
    let mut h: u64 = 2166136261;
    for b in 7u32.to_le_bytes() {
        h = ((h ^ b as u64) & 0xffff_ffff) * 16777619;
    }
    assert_eq!(hash(&7u32), h & 0xffff_ffff);
}

#[test]
fn occupied_entry_test() {
    let mut map = CaoHashMap::<i32, i32>::with_capacity(1).unwrap();

    map.insert(42, 69).unwrap();

    let entry = map.entry(42).unwrap();

    let x = entry.or_insert_with(|| panic!("Shouldn't insert new"));

    assert_eq!(*x, 69);
}

#[test]
fn vacant_entry_inserts_test() {
    let mut map = CaoHashMap::<i32, i32>::with_capacity(1).unwrap();

    let cap = map.capacity();
    assert_eq!(
        cap, 1,
        "Test code assumes that the capacity is 1 at this point"
    );

    let entry = map.entry(42).unwrap();

    let mut called = false;
    let x = entry.or_insert_with(|| {
        called = true;
        69
    });

    assert_eq!(*x, 69);
    assert!(called);
    assert!(map.capacity() > cap);
}

#[test]
fn entry_value_can_be_written() {
    let mut map = CaoHashMap::<i32, i32>::with_capacity(4).unwrap();
    map.insert(1, 10).unwrap();
    *map.entry(1).unwrap().or_insert_with(|| 0) += 5;
    *map.entry(2).unwrap().or_insert_with(|| 7) += 1;
    assert_eq!(map.get(&1), Some(&15));
    assert_eq!(map.get(&2), Some(&8));
    assert_eq!(map.len(), 2);
}

#[test]
fn hinted_lookups_for_writing() {
    let mut map = CaoHashMap::<&str, i32>::default();
    map.insert_with_hint(7, "a", 1).unwrap();
    assert!(map.contains_with_hint(7, &"a"));
    assert!(!map.contains_with_hint(8, &"a"));
    *map.get_with_hint_mut(7, &"a").unwrap() = 5;
    assert_eq!(map.get_with_hint(7, &"a"), Some(&5));
    assert!(map.get_with_hint_mut(7, &"b").is_none());
}

#[test]
fn removal_keeps_other_keys_found() {
    let mut map = CaoHashMap::<i32, i32>::with_capacity(4).unwrap();
    for k in 1..200 {
        map.insert(k, k * 10).unwrap();
    }
    for k in (2..200).step_by(2) {
        assert_eq!(map.remove(&k), Some(k * 10));
    }
    for k in 1..200 {
        if k % 2 == 1 {
            assert_eq!(map.get(&k), Some(&(k * 10)));
        } else {
            assert_eq!(map.get(&k), None);
        }
    }
    assert_eq!(map.len(), 100);
}

#[test]
fn removal_among_colliding_hashes() {
    let mut map = CaoHashMap::<&str, i32>::default();
    map.insert_with_hint(42, "a", 1).unwrap();
    map.insert_with_hint(42, "b", 2).unwrap();
    map.insert_with_hint(42, "c", 3).unwrap();
    assert_eq!(map.remove_with_hint(42, &"a"), Some(1));
    assert_eq!(map.get_with_hint(42, &"b"), Some(&2));
    assert_eq!(map.get_with_hint(42, &"c"), Some(&3));
    assert_eq!(map.remove_with_hint(42, &"c"), Some(3));
    assert_eq!(map.get_with_hint(42, &"b"), Some(&2));
}
