use cao_lang::collections::pre_hash_map::{Key, PreHashMap};
use std::cell::Cell;
use std::rc::Rc;

struct Counted(Rc<Cell<u32>>);

impl Drop for Counted {
    fn drop(&mut self) {
        self.0.set(self.0.get() + 1);
    }
}

#[test]
fn collections_can_insert() {
    let mut map = PreHashMap::<i32>::with_capacity(16);

    assert_eq!(map.len(), 0);

    map.insert(Key(5), 42);
    map.insert(Key(2), 42);
    map.insert(Key(5), 31);

    assert_eq!(map.len(), 2);

    let val = map.get(Key(5)).expect("Expected to get back the value");
    assert_eq!(*val, 31);
}

#[test]
fn collections_can_grow() {
    let mut map = PreHashMap::<i32>::with_capacity(1);

    assert_eq!(map.len(), 0);

    map.insert(Key(5), 42);
    map.insert(Key(2), 42);
    map.insert(Key(5), 31);

    assert_eq!(map.len(), 2);

    let val = map.get(Key(5)).expect("Expected to get back the value");
    assert_eq!(*val, 31);

    let val = map.get(Key(2)).expect("Expected to get back the value");
    assert_eq!(*val, 42);
}

#[test]
fn collections_can_mutate_value() {
    let mut map = PreHashMap::<i32>::with_capacity(1);

    assert_eq!(map.len(), 0);

    map.insert(Key(5), 42);
    map.insert(Key(2), 42);
    map.insert(Key(5), 31);

    assert_eq!(map.len(), 2);

    let val = map.get_mut(Key(5)).expect("Expected to get back the value");
    assert_eq!(*val, 31);
    *val = 69;

    let val = map.get(Key(5)).expect("Expected to get back the value");
    assert_eq!(*val, 69);
}

#[test]
fn collections_drops_values() {
    let drops = Rc::new(Cell::new(0u32));
    {
        let mut map = PreHashMap::with_capacity(1);
        map.insert(Key(5), Counted(drops.clone()));
        map.insert(Key(2), Counted(drops.clone()));
        map.insert(Key(5), Counted(drops.clone()));

        assert_eq!(map.len(), 2);
        assert_eq!(drops.get(), 1, "Drops the duplicated value");
    }
    assert_eq!(drops.get(), 3, "Drops the 2 items still in the map")
}

#[test]
fn pre_hash_map_keys() {
    assert_eq!(Key::from_str("main"), Key::from_bytes(b"main"));
    assert_ne!(Key::from_un32(0).0, 0);
    let mut map = PreHashMap::<u8>::with_capacity(4);
    map.insert(Key(7), 1);
    assert_eq!(map.remove(Key(7)), Some(1));
    assert!(!map.contains(Key(7)));
}

#[test]
fn pre_hash_map_entry_inserts_or_finds() {
    let mut map = PreHashMap::<i32>::with_capacity(8);
    map.insert(Key(3), 30);
    {
        let x = map.entry(Key(3)).or_insert_with(|| panic!("occupied"));
        assert_eq!(*x, 30);
        *x += 1;
    }
    {
        let y = map.entry(Key(5)).or_insert_with(|| 50);
        assert_eq!(*y, 50);
    }
    assert_eq!(map.get(Key(3)), Some(&31));
    assert_eq!(map.get(Key(5)), Some(&50));
    assert_eq!(map.len(), 2);
}

#[test]
fn pre_hash_map_insert_then_remove_restores() {
    let mut map = PreHashMap::<i32>::with_capacity(16);
    map.insert(Key(1), 10);
    map.insert(Key(17), 170);
    map.insert(Key(33), 330);
    assert_eq!(map.remove(Key(33)), Some(330));
    assert_eq!(map.get(Key(1)), Some(&10));
    assert_eq!(map.get(Key(17)), Some(&170));
    assert_eq!(map.get(Key(33)), None);
    assert_eq!(map.len(), 2);
}

#[test]
fn pre_hash_map_insert_returns_value_and_grows_by_half() {
    let mut map = PreHashMap::<i32>::with_capacity(1);
    *map.insert(Key(5), 42) += 1;
    assert_eq!(map.get(Key(5)), Some(&43));
    assert_eq!(map.capacity(), 3);
    assert_eq!(*map.insert(Key(2), 7), 7);
    assert_eq!(map.capacity(), 3);
    assert!(map.len() * 4 <= map.capacity() * 3);
}

#[test]
fn integer_keys_are_non_zero_and_distinct() {
    assert_eq!(Key::from_un32(0), Key::from_un32(1));
    let mut seen = std::collections::HashSet::new();
    for k in 1..2000u32 {
        let h = Key::from_un32(k);
        assert_ne!(h.0, 0);
        assert!(seen.insert(h.0));
    }
}
