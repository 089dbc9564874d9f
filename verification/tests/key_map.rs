use cao_lang::collections::key_map::{Handle, KeyMap};
use std::cell::Cell;
use std::rc::Rc;

struct Counted(Rc<Cell<u32>>);

impl Drop for Counted {
    fn drop(&mut self) {
        self.0.set(self.0.get() + 1);
    }
}

#[test]
fn tests_can_insert() {
    let mut map = KeyMap::<i32>::default();

    assert_eq!(map.len(), 0);

    map.insert(Handle(5), 42).expect("insert 0");
    map.insert(Handle(2), 42).expect("insert 1");
    map.insert(Handle(5), 31).expect("insert 2");

    assert_eq!(map.len(), 2);

    let val = map.get(Handle(5)).expect("Expected to get back the value");
    assert_eq!(*val, 31);
}

#[test]
fn tests_can_grow() {
    let mut map = KeyMap::<i32>::with_capacity(1).unwrap();

    assert_eq!(map.len(), 0);

    map.insert(Handle(5), 42).expect("insert 0");
    map.insert(Handle(2), 42).expect("insert 1");
    map.insert(Handle(5), 31).expect("insert 2");

    assert_eq!(map.len(), 2);

    let val = map.get(Handle(5)).expect("Expected to get back the value");
    assert_eq!(*val, 31);

    let val = map.get(Handle(2)).expect("Expected to get back the value");
    assert_eq!(*val, 42);
}

#[test]
fn tests_can_mutate_value() {
    let mut map = KeyMap::<i32>::with_capacity(1).unwrap();

    assert_eq!(map.len(), 0);

    map.insert(Handle(5), 42).expect("insert 0");
    map.insert(Handle(2), 42).expect("insert 1");
    map.insert(Handle(5), 31).expect("insert 2");

    assert_eq!(map.len(), 2);

    let val = map
        .get_mut(Handle(5))
        .expect("Expected to get back the value");
    assert_eq!(*val, 31);
    *val = 69;

    let val = map.get(Handle(5)).expect("Expected to get back the value");
    assert_eq!(*val, 69);
}

#[test]
fn tests_drops_values() {
    let drops = Rc::new(Cell::new(0u32));
    {
        let mut map = KeyMap::with_capacity(1).unwrap();
        map.insert(Handle(5), Counted(drops.clone()))
            .expect("insert 0");
        map.insert(Handle(2), Counted(drops.clone()))
            .expect("insert 1");
        map.insert(Handle(5), Counted(drops.clone()))
            .expect("insert 2");

        assert_eq!(map.len(), 2);
        assert_eq!(drops.get(), 1, "Drops the duplicated value");
    }
    assert_eq!(drops.get(), 3, "Drops the 2 items still in the map")
}

#[test]
fn key_map_remove_and_clear() {
    let mut map = KeyMap::<u8>::default();
    map.insert(Handle(3), 1).unwrap();
    map.insert(Handle(19), 2).unwrap();
    assert_eq!(map.remove(Handle(3)), Some(1));
    assert_eq!(map.remove(Handle(3)), None);
    assert!(!map.contains(Handle(3)));
    map.clear();
    assert!(map.is_empty());
    assert_eq!(map.capacity(), 16);
}

#[test]
fn handle_hashes() {
    // FNV-1a over the bytes
    let mut h: u64 = 2166136261;
    for b in b"main" {
        h = ((h ^ *b as u64) & 0xffff_ffff) * 16777619;
    }
    assert_eq!(Handle::from_bytes(b"main").0 as u64, h & 0xffff_ffff);
    assert_ne!(Handle::from_u32(0).0, 0);
    assert_eq!(Handle::from_u32(0), Handle::from_u32(u32::MAX));
}

#[test]
fn key_map_entry_inserts_or_finds() {
    let mut map = KeyMap::<i32>::with_capacity(8).unwrap();
    map.insert(Handle(3), 30).unwrap();
    {
        let x = map.entry(Handle(3)).or_insert_with(|| panic!("occupied"));
        assert_eq!(*x, 30);
        *x += 1;
    }
    {
        let y = map.entry(Handle(5)).or_insert_with(|| 50);
        assert_eq!(*y, 50);
    }
    assert_eq!(map.get(Handle(3)), Some(&31));
    assert_eq!(map.get(Handle(5)), Some(&50));
    assert_eq!(map.len(), 2);
    assert_eq!(map.capacity(), 8);
}

#[test]
fn pad_pot_rounds_up_to_a_power_of_two() {
    assert_eq!(cao_lang::collections::key_map::pad_pot(2), 2);
    assert_eq!(cao_lang::collections::key_map::pad_pot(3), 4);
    assert_eq!(cao_lang::collections::key_map::pad_pot(16), 16);
    assert_eq!(cao_lang::collections::key_map::pad_pot(17), 32);
}

#[test]
fn signed_keys_hash_like_their_bits() {
    let mix = |k0: u64| -> u32 {
        let p0 = ((k0 >> 16) ^ k0).wrapping_mul(0x45d0f3b);
        let k1 = p0 & 0xffff_ffff;
        let p1 = ((k1 >> 16) ^ k1) * 0x45d0f3b;
        let k2 = p1 & 0xffff_ffff;
        (((k2 >> 16) ^ k2) & 0xffff_ffff) as u32
    };
    assert_eq!(Handle::from_i64(5).0, mix(5));
    assert_eq!(Handle::from_i64(-1).0, mix(u64::MAX));
    assert_eq!(Handle::from_i64(0).0, mix(0xffff_ffff));
}

#[test]
fn key_map_insert_then_remove_restores() {
    let mut map = KeyMap::<i32>::with_capacity(16).unwrap();
    map.insert(Handle(1), 10).unwrap();
    map.insert(Handle(17), 170).unwrap();
    map.insert(Handle(33), 330).unwrap();
    assert_eq!(map.remove(Handle(33)), Some(330));
    assert_eq!(map.get(Handle(1)), Some(&10));
    assert_eq!(map.get(Handle(17)), Some(&170));
    assert_eq!(map.get(Handle(33)), None);
    assert_eq!(map.len(), 2);
}

#[test]
fn key_map_insert_returns_value_and_grows_to_a_power_of_two() {
    let mut map = KeyMap::<i32>::with_capacity(1).unwrap();
    *map.insert(Handle(5), 42).unwrap() += 1;
    assert_eq!(map.get(Handle(5)), Some(&43));
    assert_eq!(map.capacity(), 4);
    assert_eq!(*map.insert(Handle(2), 7).unwrap(), 7);
    assert!(map.len() * 100 <= map.capacity() * 69);
}

#[test]
fn integer_handles_are_non_zero_and_distinct() {
    assert_eq!(Handle::from_u32(0), Handle::from_u32(u32::MAX));
    let mut seen = std::collections::HashSet::new();
    for k in 1..2000u32 {
        let h = Handle::from_u32(k);
        assert_ne!(h.0, 0);
        assert!(seen.insert(h.0));
    }
}
