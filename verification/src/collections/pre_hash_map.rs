//! Hash table with pre-calculated hashes.
//!
//! This hashmap does not care about the actual value of the key and assumes that the hash was
//! calculated ahead of time. Since only the hashes are compared, two keys with the same hash
//! are the same key.
use vstd::prelude::*;
use vstd::arithmetic::div_mod::{lemma_mod_self_0, lemma_small_mod};
use vstd::string::StringSliceAdditionalSpecFns;
use super::{fnv1a, fnv_write, lemma_mask32_bound, FNV_OFFSET, MASK32};
use super::key_map::{lemma_mix_injective, mix_nonzero, mix_round, lemma_round_no_overflow, MIX};
use super::probe::{
    occupied_indices, lemma_occupied_indices, lemma_occupied_indices_complete,
    clears_cleanly, consistent, dist, entries_map, found_map, has_vacancy, is_probe_end, lemma_clear,
    lemma_clear_cleanly, lemma_store_cleanly,
    lemma_entries_map_dom, lemma_entries_map_found, lemma_find, lemma_num_occupied_empty,
    lemma_num_occupied_prefix, lemma_num_occupied_update, lemma_store, lemma_vacancy,
    num_occupied, present, slot_for, stops_at, valid_home,
};

verus! {

/// A pre-computed 32 bit hash. The zero key marks an empty slot.
#[derive(Debug, Clone, Copy, Default, PartialEq, Eq, PartialOrd, Ord, Hash)]
pub struct Key(pub u32);

/// Integer mixing of a 32 bit value; zero is first replaced by one.
pub open spec fn mix_un32(key: u32) -> u64 {
    let k: u64 = if key == 0 { 1 } else { key as u64 };
    ((mix_round(mix_round(k)) >> 16u64) ^ mix_round(mix_round(k))) & MASK32
}

/// Integer keys hash to non-zero keys, distinct non-zero integers to distinct keys, and zero
/// to the key of one.
pub proof fn lemma_mix_un32_distinct(a: u32, b: u32)
    ensures
        mix_un32(a) != 0,
        mix_un32(0) == mix_un32(1),
        a != 0 && b != 0 && a != b ==> mix_un32(a) != mix_un32(b),
{
    let ka: u64 = if a == 0 { 1 } else { a as u64 };
    let kb: u64 = if b == 0 { 1 } else { b as u64 };
    lemma_mix_injective(ka, kb);
    assert(mix_un32(a) == mix_nonzero(ka));
    assert(mix_un32(b) == mix_nonzero(kb));
}

impl Key {
    /// Hashes a string with 32 bit FNV-1a over its UTF-8 bytes.
    pub fn from_str(key: &str) -> (r: Key)
        ensures
            r.0 == fnv1a(key.spec_bytes()),
    {
        Self::from_bytes(key.as_bytes())
    }

    /// Hashes a byte string with 32 bit FNV-1a.
    pub fn from_bytes(key: &[u8]) -> (r: Key)
        ensures
            r.0 == fnv1a(key@),
    {
        let state = fnv_write(FNV_OFFSET, key);
        let hash = state & MASK32;
        proof {
            lemma_mask32_bound(state);
        }
        Key(hash as u32)
    }

    /// Hashes an integer key.
    pub fn from_un32(key: u32) -> (r: Key)
        ensures
            r.0 == mix_un32(key),
    {
        let k0: u64 = if key < 1 { 1 } else { key as u64 };
        proof { lemma_round_no_overflow(k0); }
        let p0: u64 = ((k0 >> 16) ^ k0) * MIX;
        let k1: u64 = p0 & MASK32;
        proof { lemma_mask32_bound(p0); lemma_round_no_overflow(k1); }
        let p1: u64 = ((k1 >> 16) ^ k1) * MIX;
        let k2: u64 = p1 & MASK32;
        proof { lemma_mask32_bound(p1); }
        let k3: u64 = ((k2 >> 16) ^ k2) & MASK32;
        proof { lemma_mask32_bound((k2 >> 16u64) ^ k2); }
        Key(k3 as u32)
    }
}

/// Open-addressing hash table keyed by pre-computed hashes ([`Key`]s).
///
/// Only the hashes are compared: two keys with the same hash are the same key. A key's home
/// slot is its hash modulo the capacity, and collisions are resolved by linear probing.
pub struct PreHashMap<T> {
    keys: Vec<Key>,
    values: Vec<Option<T>>,
    count: usize,
    capacity: usize,
}

/// The slots of a table of keys, `None` where the key is zero.
pub open spec fn key_slots(keys: Seq<Key>) -> Seq<Option<u32>> {
    keys.map(|i: int, h: Key| if h.0 == 0 { None } else { Some(h.0) })
}

/// Home slot of a key in a table of `cap` slots: the key modulo `cap`.
pub open spec fn mod_home(cap: usize) -> spec_fn(u32) -> int {
    |k: u32| (k as usize % cap) as int
}

impl<T> PreHashMap<T> {
    /// The slots of the table.
    pub closed spec fn slots(&self) -> Seq<Option<u32>> {
        key_slots(self.keys@)
    }

    /// Home slot of a key.
    pub closed spec fn home(&self) -> spec_fn(u32) -> int {
        mod_home(self.capacity)
    }

    /// The slot at which a lookup of key `k` ends.
    pub closed spec fn slot_of(&self, k: u32) -> int {
        slot_for(self.slots(), self.home(), k)
    }

    /// The internal invariant of the table.
    pub closed spec fn wf(&self) -> bool {
        &&& self.keys@.len() == self.capacity
        &&& self.values@.len() == self.capacity
        &&& self.count == num_occupied(self.slots())
        &&& self.count < self.capacity
        &&& forall|i: int|
            0 <= i < self.capacity ==> (#[trigger] self.keys@[i].0 == 0) == (self.values@[i] is None)
    }

    /// Every stored key is found by a lookup. Insertions keep this; a removal may break it
    /// for keys whose probe sequence passes over the removed slot.
    pub closed spec fn consistent(&self) -> bool {
        consistent(self.slots(), self.home())
    }

    /// The keys that lookups find, with their values.
    pub closed spec fn view(&self) -> Map<u32, T> {
        Map::new(
            |k: u32| present(self.slots(), self.home(), k),
            |k: u32| self.values@[self.slot_of(k)]->Some_0,
        )
    }

    /// Number of stored entries.
    /// No entry found other than that of key `k` has a lookup that passes over the slot where
    /// the lookup of `k` ends: removing `k` leaves every other entry found.
    pub closed spec fn removes_cleanly(&self, k: u32) -> bool {
        clears_cleanly(self.slots(), self.home(), k)
    }

    /// Number of stored entries.
    pub closed spec fn spec_len(&self) -> nat {
        self.count as nat
    }

    /// Number of slots.
    pub closed spec fn spec_capacity(&self) -> nat {
        self.capacity as nat
    }

    proof fn lemma_wf_facts(&self)
        requires
            self.wf(),
        ensures
            valid_home(self.slots(), self.home()),
            has_vacancy(self.slots()),
            self.slots().len() == self.capacity,
            forall|k: u32| 0 <= #[trigger] self.home()(k) < self.capacity,
    {
        lemma_vacancy(self.slots());
    }

    /// Creates an empty map with `capacity` slots.
    pub fn with_capacity(capacity: usize) -> (m: Self)
        requires
            capacity > 0,
        ensures
            m.wf(),
            m.consistent(),
            m@ == Map::<u32, T>::empty(),
            m.spec_len() == 0,
            m.spec_capacity() == capacity,
    {
        let mut keys: Vec<Key> = Vec::with_capacity(capacity);
        let mut values: Vec<Option<T>> = Vec::with_capacity(capacity);
        let mut i: usize = 0;
        while i < capacity
            invariant
                i <= capacity,
                keys@.len() == i,
                values@.len() == i,
                forall|j: int| 0 <= j < i ==> (#[trigger] keys@[j]).0 == 0,
                forall|j: int| 0 <= j < i ==> (#[trigger] values@[j]) is None,
            decreases capacity - i,
        {
            keys.push(Key(0));
            values.push(None);
            i = i + 1;
        }
        let m = PreHashMap { keys, values, count: 0, capacity };
        proof {
            lemma_num_occupied_empty(m.slots());
            m.lemma_wf_facts();
            assert forall|k: u32| !present(m.slots(), m.home(), k) by {
                lemma_find(m.slots(), k, m.home()(k));
            }
            assert(m@ =~= Map::<u32, T>::empty());
        }
        m
    }

    /// Number of slots.
    pub fn capacity(&self) -> (r: usize)
        ensures
            r == self.spec_capacity(),
    {
        self.capacity
    }

    /// Number of stored entries.
    pub fn len(&self) -> (r: usize)
        ensures
            r == self.spec_len(),
    {
        self.count
    }

    /// Whether the map holds no entry.
    pub fn is_empty(&self) -> (r: bool)
        ensures
            r == (self.spec_len() == 0),
    {
        self.count == 0
    }

    /// The slot at which a lookup for `needle` ends: the slot holding it, or the empty slot
    /// where it would be stored.
    fn find_ind(&self, needle: Key) -> (r: usize)
        requires
            self.wf(),
        ensures
            r == self.slot_of(needle.0),
            r < self.capacity,
            stops_at(self.slots(), needle.0, r as int),
    {
        let len = self.capacity;
        let mut ind = (needle.0 as usize) % len;
        let ghost h: int = ind as int;
        let ghost s = self.slots();
        let ghost mut n: int = 0;
        proof {
            self.lemma_wf_facts();
            assert(h == self.home()(needle.0));
        }
        loop
            invariant
                self.wf(),
                s == self.slots(),
                len == self.capacity,
                0 <= h < len,
                h == self.home()(needle.0),
                ind < len,
                0 <= n < len,
                dist(len as int, h, ind as int) == n,
                has_vacancy(s),
                forall|j: int|
                    0 <= j < len && #[trigger] dist(len as int, h, j) < n ==> !stops_at(
                        s,
                        needle.0,
                        j,
                    ),
            decreases len - n,
        {
            let k = self.keys[ind];
            if k.0 == needle.0 || k.0 == 0 {
                proof {
                    assert(stops_at(s, needle.0, ind as int));
                    assert(is_probe_end(s, needle.0, h, ind as int));
                    lemma_find(s, needle.0, h);
                }
                return ind;
            }
            proof {
                assert(!stops_at(s, needle.0, ind as int));
                if n + 1 == len {
                    let v = choose|i: int| 0 <= i < s.len() && s[i] is None;
                    assert(dist(len as int, h, v) < n + 1);
                    if dist(len as int, h, v) == n {
                        assert(v == ind);
                    }
                    assert(false);
                }
            }
            proof {
                if ind + 1 < len {
                    lemma_small_mod((ind + 1) as nat, len as nat);
                } else {
                    lemma_mod_self_0(len as int);
                }
            }
            ind = (ind + 1) % len;
            proof {
                n = n + 1;
                assert forall|j: int|
                    0 <= j < len && #[trigger] dist(len as int, h, j) < n implies !stops_at(
                    s,
                    needle.0,
                    j,
                ) by {
                    if dist(len as int, h, j) == n - 1 {
                        assert(j == ind - 1 || (ind == 0 && j == len - 1));
                    }
                }
            }
        }
    }

    /// The stored keys and values, in slot order.
    pub closed spec fn listed(&self) -> Seq<(Key, T)> {
        occupied_indices(self.slots(), self.capacity as int).map_values(
            |i: int| (self.keys@[i], self.values@[i]->Some_0),
        )
    }

    /// The stored keys and values, in slot order.
    pub fn iter(&self) -> (r: Vec<(Key, &T)>)
        requires
            self.wf(),
        ensures
            r@.map_values(|p: (Key, &T)| (p.0, *p.1)) == self.listed(),
            r@.len() == self.spec_len(),
    {
        let mut out: Vec<(Key, &T)> = Vec::new();
        let mut i: usize = 0;
        let ghost s = self.slots();
        let ghost f = |i: int| (self.keys@[i], self.values@[i]->Some_0);
        while i < self.capacity
            invariant
                self.wf(),
                s == self.slots(),
                f == (|i: int| (self.keys@[i], self.values@[i]->Some_0)),
                i <= self.capacity,
                out@.map_values(|p: (Key, &T)| (p.0, *p.1)) == occupied_indices(s, i as int).map_values(f),
            decreases self.capacity - i,
        {
            let k = self.keys[i];
            if k.0 != 0 {
                match &self.values[i] {
                    Some(v) => {
                        let ghost prev = out@;
                        out.push((k, v));
                        proof {
                            assert(out@.map_values(|p: (Key, &T)| (p.0, *p.1)) =~= prev.map_values(
                                |p: (Key, &T)| (p.0, *p.1),
                            ).push((k, *v)));
                            assert(occupied_indices(s, i + 1) == occupied_indices(s, i as int).push(i as int));
                            assert(occupied_indices(s, i + 1).map_values(f) =~= occupied_indices(s, i as int).map_values(f).push(f(i as int)));
                        }
                    },
                    None => {},
                }
            } else {
                proof {
                    assert(occupied_indices(s, i + 1) == occupied_indices(s, i as int));
                }
            }
            i = i + 1;
        }
        proof {
            lemma_occupied_indices(s, self.capacity as int);
            assert(s.take(self.capacity as int) =~= s);
        }
        out
    }

    /// Whether the map holds the key.
    pub fn contains(&self, key: Key) -> (r: bool)
        requires
            self.wf(),
        ensures
            r == self@.contains_key(key.0),
    {
        let ind = self.find_ind(key);
        self.keys[ind].0 != 0
    }

    /// The value stored under the key.
    pub fn get(&self, key: Key) -> (r: Option<&T>)
        requires
            self.wf(),
        ensures
            r is Some == self@.contains_key(key.0),
            r matches Some(v) ==> *v == self@[key.0],
    {
        let ind = self.find_ind(key);
        if self.keys[ind].0 != 0 {
            self.values[ind].as_ref()
        } else {
            None
        }
    }

    /// The values of the slots, with an arbitrary value for an empty slot.
    pub closed spec fn slot_values(&self) -> Seq<T> {
        Seq::new(self.capacity as nat, |i: int| self.values@[i]->Some_0)
    }

    proof fn lemma_view_is_found_map(&self)
        requires
            self.wf(),
        ensures
            self@ == found_map(self.slots(), self.slot_values(), self.home()),
    {
        self.lemma_wf_facts();
        assert forall|k: u32| #[trigger] present(self.slots(), self.home(), k) implies 0 <= self.slot_of(
            k,
        ) < self.capacity by {
            lemma_find(self.slots(), k, self.home()(k));
        }
        assert(self@ =~= found_map(self.slots(), self.slot_values(), self.home()));
    }

    /// Stores `value` under `key` at the slot where the lookup for `key` ends.
    fn insert_in_place(&mut self, key: Key, value: T)
        requires
            old(self).wf(),
            key.0 != 0,
            old(self).count + 1 < old(self).capacity,
        ensures
            final(self).wf(),
            final(self).capacity == old(self).capacity,
            final(self).count == old(self).count + if old(self)@.contains_key(key.0) { 0int } else { 1int },
            final(self)@.contains_key(key.0),
            final(self)@[key.0] == value,
            forall|k: u32|
                k != key.0 && #[trigger] old(self)@.contains_key(k) ==> final(self)@.contains_key(k)
                    && final(self)@[k] == old(self)@[k],
            old(self).consistent() ==> final(self).consistent() && final(self)@ == old(self)@.insert(
                key.0,
                value,
            ),
            old(self).consistent() && !old(self)@.contains_key(key.0) ==> final(self).removes_cleanly(
                key.0,
            ),
    {
        let ind = self.find_ind(key);
        let ghost s = self.slots();
        let ghost sl = ind as int;
        proof {
            self.lemma_wf_facts();
            lemma_find(s, key.0, self.home()(key.0));
        }
        let is_new_key = self.keys[ind].0 == 0;
        if is_new_key {
            self.count = self.count + 1;
        }
        self.keys.set(ind, key);
        self.values.set(ind, Some(value));
        proof {
            let s2 = s.update(sl, Some(key.0));
            assert(self.slots() =~= s2);
            lemma_num_occupied_update(s, sl, Some(key.0));
            lemma_vacancy(s2);
            lemma_store(s, old(self).home(), key.0);
            if old(self).consistent() && !old(self)@.contains_key(key.0) {
                lemma_store_cleanly(s, old(self).home(), key.0);
            }
            assert(self.home() == old(self).home());
            assert forall|i: int| 0 <= i < self.capacity implies (#[trigger] self.keys@[i].0 == 0)
                == (self.values@[i] is None) by {
                if i != sl {
                    assert(old(self).keys@[i].0 == 0 <==> old(self).values@[i] is None);
                }
            }
            assert forall|k: u32|
                k != key.0 && #[trigger] old(self)@.contains_key(k) implies self@.contains_key(k)
                && self@[k] == old(self)@[k] by {
                assert(present(s, old(self).home(), k));
                assert(present(s2, self.home(), k));
                let r = slot_for(s, old(self).home(), k);
                lemma_find(s, k, old(self).home()(k));
                assert(slot_for(s2, self.home(), k) == r);
                assert(r != sl);
                assert(self.values@[r] == old(self).values@[r]);
            }
            if old(self).consistent() {
                assert forall|k: u32| #[trigger] self@.contains_key(k) implies old(self)@.insert(
                    key.0,
                    value,
                ).contains_key(k) && self@[k] == old(self)@.insert(key.0, value)[k] by {
                    if k != key.0 {
                        assert(present(s2, self.home(), k));
                        assert(present(s, old(self).home(), k));
                        let r = slot_for(s, old(self).home(), k);
                        lemma_find(s, k, old(self).home()(k));
                        assert(slot_for(s2, self.home(), k) == r);
                        assert(r != sl);
                        assert(self.values@[r] == old(self).values@[r]);
                    } else {
                        assert(slot_for(s2, self.home(), k) == sl);
                    }
                }
                assert(self@ =~= old(self)@.insert(key.0, value));
            }
        }
    }

    /// Moves every entry into a new table of `capacity` slots.
    fn adjust_size(&mut self, capacity: usize)
        requires
            old(self).wf(),
            old(self).count < capacity,
        ensures
            final(self).wf(),
            final(self).consistent(),
            final(self).capacity == capacity,
            final(self).count <= old(self).count,
            final(self)@ == entries_map(
                old(self).slots(),
                old(self).slot_values(),
                old(self).capacity as int,
            ),
            old(self).consistent() ==> final(self)@ == old(self)@ && final(self).count == old(self).count,
    {
        let new_cap = capacity;
        let mut fresh = Self::with_capacity(new_cap);
        std::mem::swap(self, &mut fresh);
        let ghost old_slots = fresh.slots();
        let ghost old_vals = fresh.slot_values();
        let old_cap = fresh.capacity;
        proof {
            assert(old_slots == old(self).slots());
        }
        let mut i: usize = 0;
        while i < old_cap
            invariant
                fresh.keys@ == old(self).keys@,
                fresh.values@.len() == old_cap,
                forall|j: int| i <= j < old_cap ==> #[trigger] fresh.values@[j] == old(self).values@[j],
                old_cap == old(self).capacity,
                old_slots == old(self).slots(),
                old_vals == old(self).slot_values(),
                old(self).wf(),
                i <= old_cap,
                self.wf(),
                self.consistent(),
                self.capacity == new_cap,
                new_cap == capacity,
                old(self).count < capacity,
                self.count <= num_occupied(old_slots.take(i as int)),
                old(self).consistent() ==> self.count == num_occupied(old_slots.take(i as int)),
                self@ == entries_map(old_slots, old_vals, i as int),
            decreases old_cap - i,
        {
            proof {
                lemma_num_occupied_prefix(old_slots, i as int);
            }
            let key = fresh.keys[i];
            if key.0 != 0 {
                let value = fresh.values[i].take();
                proof {
                    assert(old(self).values@[i as int] is Some);
                    assert(old_slots[i as int] == Some(key.0));
                    if old(self).consistent() {
                        lemma_entries_map_dom(old_slots, old_vals, i as int, key.0);
                        if self@.contains_key(key.0) {
                            let j = choose|j: int| 0 <= j < i && old_slots[j] == Some(key.0);
                            assert(old_slots[j] is Some);
                            assert(old_slots[i as int] is Some);
                            assert(false);
                        }
                    }
                }
                match value {
                    Some(v) => {
                        self.insert_in_place(key, v);
                    },
                    None => {},
                }
            }
            proof {
                assert(entries_map(old_slots, old_vals, i + 1) == (match old_slots[i as int] {
                    Some(t) => entries_map(old_slots, old_vals, i as int).insert(t, old_vals[i as int]),
                    None => entries_map(old_slots, old_vals, i as int),
                }));
            }
            i = i + 1;
        }
        proof {
            assert(old_slots.take(old_cap as int) =~= old_slots);
            if old(self).consistent() {
                old(self).lemma_wf_facts();
                lemma_entries_map_found(old_slots, old_vals, old(self).home());
                old(self).lemma_view_is_found_map();
            }
        }
    }

    /// Mutable access to the value stored under the key. Writing through the returned
    /// reference changes that value and nothing else (see [`lemma_value_replaced`]).
    pub fn get_mut(&mut self, key: Key) -> (r: Option<&mut T>)
        requires
            old(self).wf(),
        ensures
            r is Some == old(self)@.contains_key(key.0),
            r matches Some(v) ==> value_replaced(*old(self), *final(self), key.0),
            r matches Some(v) ==> *v == old(self)@[key.0],
            r matches Some(v) ==> *final(v) == replaced_value(*old(self), *final(self), key.0),
            r matches Some(v) ==> final(self).wf() && final(self).spec_len() == old(self).spec_len()
                && final(self).spec_capacity() == old(self).spec_capacity(),
            r matches Some(v) ==> (old(self).consistent() ==> final(self).consistent()),
            r is None ==> *final(self) == *old(self),
    {
        broadcast use lemma_value_replaced_wf;

        let ind = self.find_ind(key);
        proof {
            self.lemma_wf_facts();
            lemma_find(self.slots(), key.0, self.home()(key.0));
        }
        if self.keys[ind].0 != 0 {
            let slot = &mut self.values[ind];
            let res = slot.as_mut();
            res
        } else {
            None
        }
    }

    /// Grows the table by half.
    fn grow(&mut self)
        requires
            old(self).wf(),
            old(self).capacity * 3 <= usize::MAX,
        ensures
            final(self).wf(),
            final(self).consistent(),
            final(self).capacity > old(self).capacity,
            final(self).capacity == grown_capacity(old(self).capacity as nat),
            final(self).count <= old(self).count,
            final(self)@ == entries_map(
                old(self).slots(),
                old(self).slot_values(),
                old(self).capacity as int,
            ),
            old(self).consistent() ==> final(self)@ == old(self)@ && final(self).count == old(self).count,
    {
        let base = if self.capacity < 2 { 2 } else { self.capacity };
        let new_cap = base * 3 / 2;
        self.adjust_size(new_cap)
    }

    /// Inserts `value` under `key`, replacing the value stored under it before, and returns the
    /// stored value for writing. Grows the table first, to half as many slots again (and at
    /// least three), when the new entry would bring the load over 75%.
    pub fn insert(&mut self, key: Key, value: T) -> (r: &mut T)
        requires
            old(self).wf(),
            key.0 != 0,
            old(self).spec_capacity() * 3 <= usize::MAX,
        ensures
            *r == value,
            final(self).wf(),
            final(self)@.contains_key(key.0),
            final(self)@[key.0] == *final(r),
            !needs_grow(old(self).spec_len(), old(self).spec_capacity()) ==> final(self).spec_capacity()
                == old(self).spec_capacity() && forall|k: u32|
                k != key.0 && #[trigger] old(self)@.contains_key(k) ==> final(self)@.contains_key(k)
                    && final(self)@[k] == old(self)@[k],
            needs_grow(old(self).spec_len(), old(self).spec_capacity()) ==> final(self).spec_capacity()
                == grown_capacity(old(self).spec_capacity()) && final(self).consistent(),
            final(self).spec_len() <= old(self).spec_len() + 1,
            final(self).spec_len() * 4 <= final(self).spec_capacity() * 3,
            old(self).consistent() ==> {
                &&& final(self).consistent()
                &&& final(self)@ == old(self)@.insert(key.0, *final(r))
                &&& final(self).spec_len() == old(self).spec_len() + if old(self)@.contains_key(
                    key.0,
                ) {
                    0int
                } else {
                    1int
                }
                &&& !old(self)@.contains_key(key.0) ==> final(self).removes_cleanly(key.0)
            },
    {
        broadcast use lemma_value_replaced_wf;

        if (self.count as u128 + 1) * 4 > (self.capacity as u128) * 3 {
            self.grow();
            proof {
                let (c, n) = (old(self).capacity as int, old(self).count as int);
                let g = self.capacity as int;
                assert((n + 1) * 4 <= g * 3) by (nonlinear_arith)
                    requires
                        0 <= n < c,
                        g == (if c < 2 { 2 } else { c }) * 3 / 2,
                ;
                assert(self.count + 1 < self.capacity);
            }
        } else {
            proof {
                assert((self.count + 1) * 4 <= self.capacity * 3);
            }
        }
        self.insert_in_place(key, value);
        self.get_mut(key).unwrap()
    }

    /// Removes the entry of `key`, returning its value. Lookups of other keys whose probe
    /// sequence passed over the emptied slot may stop finding them; when none does, the map
    /// finds the other entries as before.
    pub fn remove(&mut self, key: Key) -> (r: Option<T>)
        requires
            old(self).wf(),
        ensures
            final(self).wf(),
            final(self).spec_capacity() == old(self).spec_capacity(),
            r == if old(self)@.contains_key(key.0) { Some(old(self)@[key.0]) } else { None::<T> },
            !final(self)@.contains_key(key.0),
            final(self)@.submap_of(old(self)@),
            final(self).spec_len() == old(self).spec_len() - if old(self)@.contains_key(key.0) {
                1int
            } else {
                0int
            },
            old(self).removes_cleanly(key.0) ==> final(self)@ == old(self)@.remove(key.0),
            old(self).consistent() && old(self).removes_cleanly(key.0) ==> final(self).consistent(),
    {
        let ind = self.find_ind(key);
        let ghost s = self.slots();
        let ghost sl = ind as int;
        proof {
            self.lemma_wf_facts();
            lemma_find(s, key.0, self.home()(key.0));
        }
        if self.keys[ind].0 != 0 {
            proof {
                assert(present(s, self.home(), key.0));
                lemma_clear(s, self.home(), key.0);
                if old(self).removes_cleanly(key.0) {
                    lemma_clear_cleanly(s, self.home(), key.0);
                }
                lemma_num_occupied_update(s, sl, None);
            }
            self.count = self.count - 1;
            self.keys.set(ind, Key(0));
            let res = self.values[ind].take();
            proof {
                let s2 = s.update(sl, None);
                assert(self.slots() =~= s2);
                assert(self.home() == old(self).home());
                lemma_vacancy(s2);
                assert forall|i: int| 0 <= i < self.capacity implies (#[trigger] self.keys@[i].0
                    == 0) == (self.values@[i] is None) by {
                    if i != sl {
                        assert(old(self).keys@[i].0 == 0 <==> old(self).values@[i] is None);
                    }
                }
                assert forall|k: u32| #[trigger] self@.contains_key(k) implies old(self)@.contains_key(k)
                    && self@[k] == old(self)@[k] by {
                    assert(present(s2, self.home(), k));
                    let r = slot_for(s2, self.home(), k);
                    lemma_find(s2, k, self.home()(k));
                    assert(r != sl);
                    assert(self.values@[r] == old(self).values@[r]);
                }
                if old(self).removes_cleanly(key.0) {
                    assert forall|k: u32| #[trigger] old(self)@.remove(key.0).contains_key(k)
                        implies self@.contains_key(k) && self@[k] == old(self)@[k] by {
                        let r = slot_for(s, old(self).home(), k);
                        lemma_find(s, k, old(self).home()(k));
                        assert(r != sl);
                        assert(self.values@[r] == old(self).values@[r]);
                    }
                    assert(self@ =~= old(self)@.remove(key.0));
                }
            }
            res
        } else {
            proof {
                assert(!present(s, self.home(), key.0));
                assert(self@ =~= old(self)@.remove(key.0));
            }
            None
        }
    }
}

/// `m2` is `m` with the value at the slot of `key` replaced.
pub closed spec fn value_replaced<T>(m: PreHashMap<T>, m2: PreHashMap<T>, key: u32) -> bool {
    let ind = m.slot_of(key);
    &&& m2.keys == m.keys
    &&& m2.count == m.count
    &&& m2.capacity == m.capacity
    &&& m2.values@.len() == m.values@.len()
    &&& m.values@[ind] is Some
    &&& m2.values@[ind] is Some
    &&& forall|i: int| 0 <= i < m.capacity && i != ind ==> m2.values@[i] == m.values@[i]
}

/// The value that the entry of `key` holds in `m2`, where `m2` is `m` with that value
/// replaced.
pub closed spec fn replaced_value<T>(m: PreHashMap<T>, m2: PreHashMap<T>, key: u32) -> T {
    m2.values@[m.slot_of(key)]->Some_0
}

/// Replacing the value of a stored entry, as writing through [`PreHashMap::get_mut`] does,
/// changes the map at that key only.
pub proof fn lemma_value_replaced<T>(m: PreHashMap<T>, m2: PreHashMap<T>, key: u32)
    requires
        m.wf(),
        value_replaced(m, m2, key),
    ensures
        m2.wf(),
        m2@ == m@.insert(key, replaced_value(m, m2, key)),
        m.consistent() ==> m2.consistent(),
        m2.slots() == m.slots(),
        m2.home() == m.home(),
        m2.spec_len() == m.spec_len(),
        m2.spec_capacity() == m.spec_capacity(),
{
    m.lemma_wf_facts();
    let ind = m.slot_of(key);
    let s = m.slots();
    assert(m2.slots() =~= s);
    assert(m2.home() == m.home());
    lemma_find(s, key, m.home()(key));
    lemma_find(s, key, m.home()(key));
    assert(m@.contains_key(key));
    let fv = m2.values@[ind]->Some_0;
    assert forall|k: u32| #[trigger] m2@.contains_key(k) == m@.insert(key, fv).contains_key(k) by {}
    assert forall|k: u32| m2@.contains_key(k) implies m2@[k] == m@.insert(key, fv)[k] by {
        if k != key {
            lemma_find(s, k, m.home()(k));
            assert(slot_for(s, m.home(), k) != ind);
        }
    }
    assert(m2@ =~= m@.insert(key, fv));
    assert forall|i: int| 0 <= i < m2.capacity implies (#[trigger] m2.keys@[i].0 == 0) == (
    m2.values@[i] is None) by {
        if i != ind {
            assert(m.keys@[i].0 == 0 <==> m.values@[i] is None);
        }
    }
}


broadcast proof fn lemma_value_replaced_wf<T>(m: PreHashMap<T>, m2: PreHashMap<T>, key: u32)
    requires
        m.wf(),
        #[trigger] value_replaced(m, m2, key),
    ensures
        m2.wf(),
        m2@ == m@.insert(key, replaced_value(m, m2, key)),
        m.consistent() ==> m2.consistent(),
        m2.slots() == m.slots(),
        m2.home() == m.home(),
{
    lemma_value_replaced(m, m2, key);
}

/// Inserting a key that a consistent map does not hold and then removing it gives the value
/// back and leaves the map finding the entries it found before.
pub proof fn lemma_insert_then_remove<T>(m0: PreHashMap<T>, m1: PreHashMap<T>, m2: PreHashMap<T>, k: u32, v: T, r: Option<T>)
    requires
        m0.consistent(),
        !m0@.contains_key(k),
        m1@ == m0@.insert(k, v),
        m1.removes_cleanly(k),
        r == if m1@.contains_key(k) { Some(m1@[k]) } else { None::<T> },
        m1.removes_cleanly(k) ==> m2@ == m1@.remove(k),
    ensures
        r == Some(v),
        m2@ == m0@,
{
    assert(m0@.insert(k, v).remove(k) =~= m0@);
}

/// The length of a map is the number of entries it lists and stays below its capacity, so an
/// empty slot always remains; in a consistent map the listed keys are distinct and are exactly
/// the keys that lookups find.
pub proof fn lemma_len_counts_keys<T>(m: PreHashMap<T>)
    requires
        m.wf(),
    ensures
        m.spec_len() < m.spec_capacity(),
        m.listed().len() == m.spec_len(),
        m.consistent() ==> forall|a: int, b: int|
            0 <= a < b < m.listed().len() ==> #[trigger] m.listed()[a].0 != #[trigger] m.listed()[b].0,
        m.consistent() ==> forall|k: u32|
            #[trigger] m@.contains_key(k) <==> exists|a: int|
                0 <= a < m.listed().len() && m.listed()[a].0 == Key(k),
{
    let s = m.slots();
    let n = m.capacity as int;
    let oi = occupied_indices(s, n);
    lemma_occupied_indices(s, n);
    assert(s.take(n) =~= s);
    m.lemma_wf_facts();
    if m.consistent() {
        assert forall|a: int, b: int| 0 <= a < b < m.listed().len() implies #[trigger] m.listed()[a].0
            != #[trigger] m.listed()[b].0 by {
            let (p, q) = (oi[a], oi[b]);
            assert(p < q);
            assert(s[p] is Some && s[q] is Some);
            if m.keys@[p] == m.keys@[q] {
                assert(s[p] == s[q]);
                assert(slot_for(s, m.home(), s[p].unwrap()) == p);
                assert(slot_for(s, m.home(), s[q].unwrap()) == q);
            }
        }
        assert forall|k: u32| #[trigger] m@.contains_key(k) <==> exists|a: int|
            0 <= a < m.listed().len() && m.listed()[a].0 == Key(k) by {
            if m@.contains_key(k) {
                let p = slot_for(s, m.home(), k);
                lemma_find(s, k, m.home()(k));
                lemma_occupied_indices_complete(s, n, p);
                let a = choose|a: int| 0 <= a < oi.len() && oi[a] == p;
                assert(m.listed()[a].0 == m.keys@[p]);
            }
            if exists|a: int| 0 <= a < m.listed().len() && m.listed()[a].0 == Key(k) {
                let a = choose|a: int| 0 <= a < m.listed().len() && m.listed()[a].0 == Key(k);
                let p = oi[a];
                assert(s[p] is Some);
                assert(m.keys@[p] == Key(k));
                assert(s[p] == Some(k));
                assert(slot_for(s, m.home(), s[p].unwrap()) == p);
            }
        }
    }
}

/// The slot of a key in a [`PreHashMap`], found by [`PreHashMap::entry`]: the slot holding the key's
/// entry, or the empty slot that the key takes.
pub struct Entry<'a, T> {
    pub map: &'a mut PreHashMap<T>,
    pub key: Key,
    pub slot: usize,
}

impl<'a, T> Entry<'a, T> {
    /// The key is not zero, and the slot is where its lookup ends in the map.
    pub closed spec fn ready(&self) -> bool {
        &&& self.map.wf()
        &&& self.key.0 != 0
        &&& self.slot == self.map.slot_of(self.key.0)
    }

    /// The value of the entry, inserting the value that `fun` gives when the key has none.
    /// A new entry must leave an empty slot in the table.
    pub fn or_insert_with<F: FnOnce() -> T>(self, fun: F) -> (r: &'a mut T)
        requires
            self.ready(),
            fun.requires(()),
            !old(self.map)@.contains_key(self.key.0) ==> old(self.map).spec_len() + 1 < old(
                self.map,
            ).spec_capacity(),
        ensures
            ({
                let k = self.key.0;
                let (m0, m) = (*old(self.map), *final(self.map));
                &&& m.wf()
                &&& m@.contains_key(k)
                &&& m@[k] == *final(r)
                &&& m0@.contains_key(k) ==> *r == m0@[k] && m.spec_len() == m0.spec_len()
                &&& !m0@.contains_key(k) ==> fun.ensures((), *r) && m.spec_len() == m0.spec_len() + 1
                &&& m.spec_capacity() == m0.spec_capacity()
                &&& forall|k2: u32|
                    k2 != k && #[trigger] m0@.contains_key(k2) ==> m@.contains_key(k2) && m@[k2]
                        == m0@[k2]
                &&& m0.consistent() ==> m.consistent() && m@ == m0@.insert(k, *final(r))
            }),
    {
        broadcast use lemma_value_replaced_wf;

        let Entry { map, key, slot } = self;
        proof {
            map.lemma_wf_facts();
            lemma_find(map.slots(), key.0, map.home()(key.0));
        }
        if map.keys[slot].0 == 0 {
            let v = fun();
            map.insert_in_place(key, v);
        }
        map.get_mut(key).unwrap()
    }
}

impl<T> PreHashMap<T> {
    /// The entry of `key`: the slot holding it, or the empty slot that it takes.
    pub fn entry(&mut self, key: Key) -> (r: Entry<'_, T>)
        requires
            old(self).wf(),
            key.0 != 0,
        ensures
            r.key == key,
            r.ready(),
            *r.map == *old(self),
            *final(self) == *final(r.map),
    {
        let ind = self.find_ind(key);
        Entry { map: self, key, slot: ind }
    }
}


/// The number of slots that a table of `cap` slots grows to: half as many again, and at least
/// three.
pub open spec fn grown_capacity(cap: nat) -> nat {
    (if cap < 2 { 2 } else { cap }) * 3 / 2
}

/// Whether inserting one more entry into a table of `len` entries and `cap` slots brings
/// its load over 75%.
pub open spec fn needs_grow(len: nat, cap: nat) -> bool {
    (len + 1) * 4 > cap * 3
}

} // verus!
