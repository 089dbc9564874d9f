//! Hash table keyed by pre-computed 32 bit hashes ([`Handle`]s).
use vstd::prelude::*;
use super::{
    fnv1a, fnv_write, is_pow2, lemma_mask32_bound, lemma_mask_in_range, lemma_mask_next,
    FNV_OFFSET, MASK32,
};
use super::probe::{
    occupied_indices, lemma_occupied_indices,
    clears_cleanly, consistent, dist, entries_map, found_map, has_vacancy, is_probe_end, lemma_clear,
    lemma_clear_cleanly, lemma_store_cleanly,
    lemma_entries_map_dom, lemma_entries_map_found, lemma_find, lemma_num_occupied_empty,
    lemma_num_occupied_prefix, lemma_num_occupied_update, lemma_store, lemma_vacancy,
    num_occupied, present, slot_for, stops_at, valid_home,
};
use crate::allocator::AllocError;

verus! {

/// A pre-computed, non-zero 32 bit key. The zero handle marks an empty slot.
#[derive(Debug, Clone, Copy, Default, PartialEq, Eq, PartialOrd, Ord, Hash)]
pub struct Handle(pub u32);

/// Multiplier of the integer mixing function.
pub const MIX: u64 = 0x45d0f3b;

/// One round of the integer mixing function.
pub open spec fn mix_round(k: u64) -> u64 {
    ((((k >> 16u64) ^ k) * MIX) as u64) & MASK32
}

/// Integer mixing of a 32 bit value; zero is first replaced by `u32::MAX`.
pub open spec fn mix_u32(key: u32) -> u64 {
    let k: u64 = if key == 0 { MASK32 } else { key as u64 };
    ((mix_round(mix_round(k)) >> 16u64) ^ mix_round(mix_round(k))) & MASK32
}

/// The first round for a 64 bit input, whose product wraps around.
pub open spec fn mix_round_wide(k: u64) -> u64 {
    (((((k >> 16u64) ^ k) as nat * MIX as nat) % 0x1_0000_0000_0000_0000) as u64) & MASK32
}

/// Integer mixing of a 64 bit value; zero is first replaced by `u32::MAX`.
pub open spec fn mix_i64(key: i64) -> u64 {
    let k: u64 = if key == 0 { MASK32 } else { key as u64 };
    let k1 = mix_round_wide(k);
    ((mix_round(k1) >> 16u64) ^ mix_round(k1)) & MASK32
}

pub proof fn lemma_round_no_overflow(k: u64)
    requires
        k <= MASK32,
    ensures
        ((k >> 16u64) ^ k) * MIX < 0x1_0000_0000_0000_0000,
        ((k >> 16u64) ^ k) <= MASK32,
{
    assert(k <= 0xffff_ffffu64 ==> ((k >> 16u64) ^ k) <= 0xffff_ffffu64) by (bit_vector);
}

/// The inverse of `MIX` modulo 2^32.
pub const MIX_INVERSE: u64 = 0x23bc_f1f3;

/// Undoing a mixing round: multiplying by the inverse of the multiplier, then xor-shifting
/// again, gives the input of the round back.
proof fn lemma_mix_round_inverse(k: u64)
    requires
        k <= MASK32,
    ensures
        ({
            let y = ((mix_round(k) * MIX_INVERSE) as u64) & MASK32;
            (y >> 16u64) ^ y == k
        }),
{
    let x = (k >> 16u64) ^ k;
    assert(k <= 0xffff_ffffu64 ==> ((k >> 16u64) ^ k) <= 0xffff_ffffu64) by (bit_vector);
    assert(x <= 0xffff_ffffu64 ==> ((((((x * 0x45d0f3bu64) as u64) & 0xffff_ffffu64)
        * 0x23bcf1f3u64) as u64) & 0xffff_ffffu64) == x) by (bit_vector);
    assert(k <= 0xffff_ffffu64 && x == (k >> 16u64) ^ k ==> (x >> 16u64) ^ x == k) by (bit_vector);
}

/// A mixing round maps distinct 32 bit values to distinct values, and keeps within 32 bits.
pub proof fn lemma_mix_round_injective(a: u64, b: u64)
    requires
        a <= MASK32,
        b <= MASK32,
    ensures
        mix_round(a) <= MASK32,
        mix_round(a) == mix_round(b) ==> a == b,
{
    lemma_round_no_overflow(a);
    lemma_mask32_bound((((a >> 16u64) ^ a) * MIX) as u64);
    lemma_mix_round_inverse(a);
    lemma_mix_round_inverse(b);
}

/// The final xor-shift maps distinct 32 bit values to distinct values.
proof fn lemma_xor_shift_injective(a: u64, b: u64)
    requires
        a <= MASK32,
        b <= MASK32,
    ensures
        ((a >> 16u64) ^ a) & MASK32 == ((b >> 16u64) ^ b) & MASK32 ==> a == b,
        ((a >> 16u64) ^ a) & MASK32 == 0 ==> a == 0,
{
    assert(a <= 0xffff_ffffu64 && b <= 0xffff_ffffu64 && ((a >> 16u64) ^ a) & 0xffff_ffffu64 == ((b
        >> 16u64) ^ b) & 0xffff_ffffu64 ==> a == b) by (bit_vector);
    assert(a <= 0xffff_ffffu64 && ((a >> 16u64) ^ a) & 0xffff_ffffu64 == 0 ==> a == 0) by (bit_vector);
}

/// The whole mixing of a non-zero 32 bit value: two rounds and a final xor-shift.
pub open spec fn mix_nonzero(k: u64) -> u64 {
    ((mix_round(mix_round(k)) >> 16u64) ^ mix_round(mix_round(k))) & MASK32
}

/// Mixing maps distinct 32 bit values to distinct values, and only zero to zero.
pub proof fn lemma_mix_injective(a: u64, b: u64)
    requires
        a <= MASK32,
        b <= MASK32,
    ensures
        mix_nonzero(a) == mix_nonzero(b) ==> a == b,
        mix_nonzero(a) == 0 ==> a == 0,
{
    lemma_mix_round_injective(a, b);
    lemma_mix_round_injective(b, a);
    lemma_mix_round_injective(mix_round(a), mix_round(b));
    lemma_mix_round_injective(mix_round(b), mix_round(a));
    lemma_xor_shift_injective(mix_round(mix_round(a)), mix_round(mix_round(b)));
    lemma_mix_round_injective(0, 0);
    lemma_mix_round_injective(a, 0);
    assert(mix_round(0) == 0) by (bit_vector);
    lemma_mix_round_injective(mix_round(a), 0);
}

/// Integer handles are never zero; distinct non-zero integers get distinct handles, and zero
/// gets the handle of `u32::MAX`.
pub proof fn lemma_mix_u32_distinct(a: u32, b: u32)
    ensures
        mix_u32(a) != 0,
        mix_u32(0) == mix_u32(u32::MAX),
        a != 0 && b != 0 && a != b ==> mix_u32(a) != mix_u32(b),
{
    lemma_mix_injective(if a == 0 { MASK32 } else { a as u64 }, if b == 0 { MASK32 } else { b as u64 });
    assert(mix_u32(a) == mix_nonzero(if a == 0 { MASK32 } else { a as u64 }));
    assert(mix_u32(b) == mix_nonzero(if b == 0 { MASK32 } else { b as u64 }));
}

impl Handle {
    /// Hashes a byte string with 32 bit FNV-1a.
    pub fn from_bytes(key: &[u8]) -> (r: Handle)
        ensures
            r.0 == fnv1a(key@),
    {
        let state = fnv_write(FNV_OFFSET, key);
        let hash = state & MASK32;
        proof {
            lemma_mask32_bound(state);
        }
        Handle(hash as u32)
    }

    /// Hashes an integer key.
    pub fn from_u32(key: u32) -> (r: Handle)
        ensures
            r.0 == mix_u32(key),
    {
        let k0: u64 = if key == 0 { MASK32 } else { key as u64 };
        proof { lemma_round_no_overflow(k0); }
        let p0: u64 = ((k0 >> 16) ^ k0) * MIX;
        let k1: u64 = p0 & MASK32;
        proof { lemma_mask32_bound(p0); lemma_round_no_overflow(k1); }
        let p1: u64 = ((k1 >> 16) ^ k1) * MIX;
        let k2: u64 = p1 & MASK32;
        proof { lemma_mask32_bound(p1); }
        let k3: u64 = ((k2 >> 16) ^ k2) & MASK32;
        proof { lemma_mask32_bound((k2 >> 16u64) ^ k2); }
        Handle(k3 as u32)
    }

    /// Hashes a signed integer key; the first product wraps around on 64 bits.
    pub fn from_i64(key: i64) -> (r: Handle)
        ensures
            r.0 == mix_i64(key),
    {
        let k0: u64 = if key == 0 { MASK32 } else { key as u64 };
        let p0: u64 = ((k0 >> 16) ^ k0).wrapping_mul(MIX);
        let k1: u64 = p0 & MASK32;
        proof { lemma_mask32_bound(p0); lemma_round_no_overflow(k1); }
        let p1: u64 = ((k1 >> 16) ^ k1) * MIX;
        let k2: u64 = p1 & MASK32;
        proof { lemma_mask32_bound(p1); }
        let k3: u64 = ((k2 >> 16) ^ k2) & MASK32;
        proof { lemma_mask32_bound((k2 >> 16u64) ^ k2); }
        Handle(k3 as u32)
    }
}

/// Rounds `cap` up to the next power of two.
pub fn pad_pot(cap: usize) -> (r: usize)
    requires
        2 <= cap,
        (cap - 1) * 2 <= usize::MAX,
    ensures
        is_pow2(r),
        cap <= r,
        r <= (cap - 1) * 2,
{
    let m: usize = cap - 1;
    let mut n: usize = m;
    assert(n & n == n) by (bit_vector);
    while (n & (n - 1)) != 0
        invariant
            n != 0,
            n <= m,
            n & m == n,
            m - n < n,
            m == cap - 1,
        decreases n,
    {
        let n2: usize = n & (n - 1);
        assert(n != 0 && n & ((n - 1) as usize) != 0 && n & m == n && n <= m && m - n < n && n2
            == n & ((n - 1) as usize) ==> n2 != 0 && n2 & m == n2 && n2 <= m && m - n2 < n2 && n2 < n)
            by (bit_vector);
        n = n2;
    }
    let r: usize = n * 2;
    assert(n != 0 && n & ((n - 1) as usize) == 0 && r == n + n ==> r != 0 && r & ((r - 1) as usize)
        == 0) by (bit_vector);
    r
}

/// Error of a map operation.
#[derive(Debug, Clone, Copy, PartialEq, Eq)]
pub enum MapError {
    /// Memory for the table could not be allocated.
    AllocError(AllocError),
}

/// Open-addressing hash table keyed by [`Handle`]s.
///
/// Only the handles are compared: two keys with the same handle are the same key. The
/// capacity is a power of two, a handle's home slot is its low bits, and collisions are
/// resolved by linear probing.
#[derive(Debug)]
pub struct KeyMap<T> {
    keys: Vec<Handle>,
    values: Vec<Option<T>>,
    count: usize,
    capacity: usize,
}

/// The slots of a table of handles, `None` where the handle is zero.
pub open spec fn handle_slots(keys: Seq<Handle>) -> Seq<Option<u32>> {
    keys.map(|i: int, h: Handle| if h.0 == 0 { None } else { Some(h.0) })
}

/// Home slot of a handle in a table of `cap` slots: its low bits.
pub open spec fn mask_home(cap: usize) -> spec_fn(u32) -> int {
    |k: u32| ((k as usize) & ((cap - 1) as usize)) as int
}

impl<T> KeyMap<T> {
    /// The slots of the table.
    pub closed spec fn slots(&self) -> Seq<Option<u32>> {
        handle_slots(self.keys@)
    }

    /// Home slot of a handle.
    pub closed spec fn home(&self) -> spec_fn(u32) -> int {
        mask_home(self.capacity)
    }

    /// The slot at which a lookup of handle `k` ends.
    pub closed spec fn slot_of(&self, k: u32) -> int {
        slot_for(self.slots(), self.home(), k)
    }

    /// The internal invariant of the table.
    pub closed spec fn wf(&self) -> bool {
        &&& self.keys@.len() == self.capacity
        &&& self.values@.len() == self.capacity
        &&& is_pow2(self.capacity)
        &&& self.count == num_occupied(self.slots())
        &&& self.count < self.capacity
        &&& forall|i: int|
            0 <= i < self.capacity ==> (#[trigger] self.keys@[i].0 == 0) == (self.values@[i] is None)
    }

    /// Every stored handle is found by a lookup. Insertions keep this; a removal may break it
    /// for handles whose probe sequence passes over the removed slot.
    pub closed spec fn consistent(&self) -> bool {
        consistent(self.slots(), self.home())
    }

    /// The handles that lookups find, with their values.
    pub closed spec fn view(&self) -> Map<u32, T> {
        Map::new(
            |k: u32| present(self.slots(), self.home(), k),
            |k: u32| self.values@[self.slot_of(k)]->Some_0,
        )
    }

    /// No entry found other than that of handle `k` has a lookup that passes over the slot
    /// where the lookup of `k` ends: removing `k` leaves every other entry found.
    pub closed spec fn removes_cleanly(&self, k: u32) -> bool {
        clears_cleanly(self.slots(), self.home(), k)
    }

    /// Number of stored entries.
    pub closed spec fn spec_len(&self) -> nat {
        self.count as nat
    }

    /// Number of slots.
    pub closed spec fn spec_capacity(&self) -> nat {
        self.capacity as nat
    }

    proof fn lemma_wf_facts(&self)
        requires
            self.wf(),
        ensures
            valid_home(self.slots(), self.home()),
            has_vacancy(self.slots()),
            self.slots().len() == self.capacity,
            forall|k: u32| 0 <= #[trigger] self.home()(k) < self.capacity,
    {
        assert forall|k: u32| 0 <= #[trigger] self.home()(k) < self.capacity by {
            lemma_mask_in_range(k as usize, self.capacity);
        }
        lemma_vacancy(self.slots());
    }

    /// Creates an empty map with `capacity` slots.
    pub fn with_capacity(capacity: usize) -> (r: Result<Self, MapError>)
        requires
            is_pow2(capacity),
        ensures
            r is Ok,
            r matches Ok(m) ==> {
                &&& m.wf()
                &&& m.consistent()
                &&& m@ == Map::<u32, T>::empty()
                &&& m.spec_len() == 0
                &&& m.spec_capacity() == capacity
            },
    {
        let mut keys: Vec<Handle> = Vec::with_capacity(capacity);
        let mut values: Vec<Option<T>> = Vec::with_capacity(capacity);
        let mut i: usize = 0;
        while i < capacity
            invariant
                i <= capacity,
                keys@.len() == i,
                values@.len() == i,
                forall|j: int| 0 <= j < i ==> (#[trigger] keys@[j]).0 == 0,
                forall|j: int| 0 <= j < i ==> (#[trigger] values@[j]) is None,
            decreases capacity - i,
        {
            keys.push(Handle(0));
            values.push(None);
            i = i + 1;
        }
        let m = KeyMap { keys, values, count: 0, capacity };
        proof {
            lemma_num_occupied_empty(m.slots());
            m.lemma_wf_facts();
            assert forall|k: u32| !present(m.slots(), m.home(), k) by {
                lemma_find(m.slots(), k, m.home()(k));
            }
            assert(m@ =~= Map::<u32, T>::empty());
        }
        Ok(m)
    }

    /// Number of slots.
    pub fn capacity(&self) -> (r: usize)
        ensures
            r == self.spec_capacity(),
    {
        self.capacity
    }

    /// Number of stored entries.
    pub fn len(&self) -> (r: usize)
        ensures
            r == self.spec_len(),
    {
        self.count
    }

    /// Whether the map holds no entry.
    pub fn is_empty(&self) -> (r: bool)
        ensures
            r == (self.spec_len() == 0),
    {
        self.count == 0
    }

    /// The slot at which a lookup for `needle` ends: the slot holding it, or the empty slot
    /// where it would be stored.
    fn find_ind(&self, needle: Handle) -> (r: usize)
        requires
            self.wf(),
        ensures
            r == self.slot_of(needle.0),
            r < self.capacity,
            stops_at(self.slots(), needle.0, r as int),
    {
        let len = self.capacity;
        let len_mask = len - 1;
        let mut ind = (needle.0 as usize) & len_mask;
        let ghost h: int = ind as int;
        let ghost s = self.slots();
        let ghost mut n: int = 0;
        proof {
            self.lemma_wf_facts();
            assert(h == self.home()(needle.0));
        }
        loop
            invariant
                self.wf(),
                s == self.slots(),
                len == self.capacity,
                len_mask == len - 1,
                0 <= h < len,
                h == self.home()(needle.0),
                ind < len,
                0 <= n < len,
                dist(len as int, h, ind as int) == n,
                has_vacancy(s),
                forall|j: int|
                    0 <= j < len && #[trigger] dist(len as int, h, j) < n ==> !stops_at(
                        s,
                        needle.0,
                        j,
                    ),
            decreases len - n,
        {
            let k = self.keys[ind];
            if k.0 == needle.0 || k.0 == 0 {
                proof {
                    assert(stops_at(s, needle.0, ind as int));
                    assert(is_probe_end(s, needle.0, h, ind as int));
                    lemma_find(s, needle.0, h);
                }
                return ind;
            }
            proof {
                lemma_mask_next(ind, len);
                assert(!stops_at(s, needle.0, ind as int));
                if n + 1 == len {
                    let v = choose|i: int| 0 <= i < s.len() && s[i] is None;
                    assert(dist(len as int, h, v) < n + 1);
                    if dist(len as int, h, v) == n {
                        assert(v == ind);
                    }
                    assert(false);
                }
            }
            ind = (ind + 1) & len_mask;
            proof {
                n = n + 1;
                assert forall|j: int|
                    0 <= j < len && #[trigger] dist(len as int, h, j) < n implies !stops_at(
                    s,
                    needle.0,
                    j,
                ) by {
                    if dist(len as int, h, j) == n - 1 {
                        assert(j == ind - 1 || (ind == 0 && j == len - 1));
                    }
                }
            }
        }
    }

    /// The stored keys and values, in slot order.
    pub closed spec fn listed(&self) -> Seq<(Handle, T)> {
        occupied_indices(self.slots(), self.capacity as int).map_values(
            |i: int| (self.keys@[i], self.values@[i]->Some_0),
        )
    }

    /// The stored keys and values, in slot order.
    pub fn iter(&self) -> (r: Vec<(Handle, &T)>)
        requires
            self.wf(),
        ensures
            r@.map_values(|p: (Handle, &T)| (p.0, *p.1)) == self.listed(),
            r@.len() == self.spec_len(),
    {
        let mut out: Vec<(Handle, &T)> = Vec::new();
        let mut i: usize = 0;
        let ghost s = self.slots();
        let ghost f = |i: int| (self.keys@[i], self.values@[i]->Some_0);
        while i < self.capacity
            invariant
                self.wf(),
                s == self.slots(),
                f == (|i: int| (self.keys@[i], self.values@[i]->Some_0)),
                i <= self.capacity,
                out@.map_values(|p: (Handle, &T)| (p.0, *p.1)) == occupied_indices(s, i as int).map_values(f),
            decreases self.capacity - i,
        {
            let k = self.keys[i];
            if k.0 != 0 {
                match &self.values[i] {
                    Some(v) => {
                        let ghost prev = out@;
                        out.push((k, v));
                        proof {
                            assert(out@.map_values(|p: (Handle, &T)| (p.0, *p.1)) =~= prev.map_values(
                                |p: (Handle, &T)| (p.0, *p.1),
                            ).push((k, *v)));
                            assert(occupied_indices(s, i + 1) == occupied_indices(s, i as int).push(i as int));
                            assert(occupied_indices(s, i + 1).map_values(f) =~= occupied_indices(s, i as int).map_values(f).push(f(i as int)));
                        }
                    },
                    None => {},
                }
            } else {
                proof {
                    assert(occupied_indices(s, i + 1) == occupied_indices(s, i as int));
                }
            }
            i = i + 1;
        }
        proof {
            lemma_occupied_indices(s, self.capacity as int);
            assert(s.take(self.capacity as int) =~= s);
        }
        out
    }

    /// Whether the map holds the handle.
    pub fn contains(&self, key: Handle) -> (r: bool)
        requires
            self.wf(),
        ensures
            r == self@.contains_key(key.0),
    {
        let ind = self.find_ind(key);
        self.keys[ind].0 != 0
    }

    /// The value stored under the handle.
    pub fn get(&self, key: Handle) -> (r: Option<&T>)
        requires
            self.wf(),
        ensures
            r is Some == self@.contains_key(key.0),
            r matches Some(v) ==> *v == self@[key.0],
    {
        let ind = self.find_ind(key);
        if self.keys[ind].0 != 0 {
            self.values[ind].as_ref()
        } else {
            None
        }
    }

    /// The values of the slots, with an arbitrary value for an empty slot.
    pub closed spec fn slot_values(&self) -> Seq<T> {
        Seq::new(self.capacity as nat, |i: int| self.values@[i]->Some_0)
    }

    proof fn lemma_view_is_found_map(&self)
        requires
            self.wf(),
        ensures
            self@ == found_map(self.slots(), self.slot_values(), self.home()),
    {
        self.lemma_wf_facts();
        assert forall|k: u32| #[trigger] present(self.slots(), self.home(), k) implies 0 <= self.slot_of(
            k,
        ) < self.capacity by {
            lemma_find(self.slots(), k, self.home()(k));
        }
        assert(self@ =~= found_map(self.slots(), self.slot_values(), self.home()));
    }

    /// Stores `value` under `key` at the slot where the lookup for `key` ends.
    fn insert_in_place(&mut self, key: Handle, value: T)
        requires
            old(self).wf(),
            key.0 != 0,
            old(self).count + 1 < old(self).capacity,
        ensures
            final(self).wf(),
            final(self).capacity == old(self).capacity,
            final(self).count == old(self).count + if old(self)@.contains_key(key.0) { 0int } else { 1int },
            final(self)@.contains_key(key.0),
            final(self)@[key.0] == value,
            forall|k: u32|
                k != key.0 && #[trigger] old(self)@.contains_key(k) ==> final(self)@.contains_key(k)
                    && final(self)@[k] == old(self)@[k],
            old(self).consistent() ==> final(self).consistent() && final(self)@ == old(self)@.insert(
                key.0,
                value,
            ),
            old(self).consistent() && !old(self)@.contains_key(key.0) ==> final(self).removes_cleanly(
                key.0,
            ),
    {
        let ind = self.find_ind(key);
        let ghost s = self.slots();
        let ghost sl = ind as int;
        proof {
            self.lemma_wf_facts();
            lemma_find(s, key.0, self.home()(key.0));
        }
        let is_new_key = self.keys[ind].0 == 0;
        if is_new_key {
            self.count = self.count + 1;
        }
        self.keys.set(ind, key);
        self.values.set(ind, Some(value));
        proof {
            let s2 = s.update(sl, Some(key.0));
            assert(self.slots() =~= s2);
            lemma_num_occupied_update(s, sl, Some(key.0));
            lemma_vacancy(s2);
            lemma_store(s, old(self).home(), key.0);
            if old(self).consistent() && !old(self)@.contains_key(key.0) {
                lemma_store_cleanly(s, old(self).home(), key.0);
            }
            assert(self.home() == old(self).home());
            assert forall|i: int| 0 <= i < self.capacity implies (#[trigger] self.keys@[i].0 == 0)
                == (self.values@[i] is None) by {
                if i != sl {
                    assert(old(self).keys@[i].0 == 0 <==> old(self).values@[i] is None);
                }
            }
            assert forall|k: u32|
                k != key.0 && #[trigger] old(self)@.contains_key(k) implies self@.contains_key(k)
                && self@[k] == old(self)@[k] by {
                assert(present(s, old(self).home(), k));
                assert(present(s2, self.home(), k));
                let r = slot_for(s, old(self).home(), k);
                lemma_find(s, k, old(self).home()(k));
                assert(slot_for(s2, self.home(), k) == r);
                assert(r != sl);
                assert(self.values@[r] == old(self).values@[r]);
            }
            if old(self).consistent() {
                assert forall|k: u32| #[trigger] self@.contains_key(k) implies old(self)@.insert(
                    key.0,
                    value,
                ).contains_key(k) && self@[k] == old(self)@.insert(key.0, value)[k] by {
                    if k != key.0 {
                        assert(present(s2, self.home(), k));
                        assert(present(s, old(self).home(), k));
                        let r = slot_for(s, old(self).home(), k);
                        lemma_find(s, k, old(self).home()(k));
                        assert(slot_for(s2, self.home(), k) == r);
                        assert(r != sl);
                        assert(self.values@[r] == old(self).values@[r]);
                    } else {
                        assert(slot_for(s2, self.home(), k) == sl);
                    }
                }
                assert(self@ =~= old(self)@.insert(key.0, value));
            }
        }
    }

    /// Moves every entry into a new table of `pad_pot(capacity)` slots.
    fn adjust_size(&mut self, capacity: usize) -> (r: Result<(), MapError>)
        requires
            old(self).wf(),
            2 <= capacity,
            (capacity - 1) * 2 <= usize::MAX,
            old(self).count < capacity,
        ensures
            r is Ok,
            final(self).wf(),
            final(self).consistent(),
            final(self).capacity >= capacity,
            final(self).capacity <= (capacity - 1) * 2,
            final(self).count <= old(self).count,
            final(self)@ == entries_map(
                old(self).slots(),
                old(self).slot_values(),
                old(self).capacity as int,
            ),
            old(self).consistent() ==> final(self)@ == old(self)@ && final(self).count == old(self).count,
    {
        let new_cap = pad_pot(capacity);
        let mut fresh = match Self::with_capacity(new_cap) {
            Ok(m) => m,
            Err(e) => {
                return Err(e);
            },
        };
        std::mem::swap(self, &mut fresh);
        let ghost old_slots = fresh.slots();
        let ghost old_vals = fresh.slot_values();
        let old_cap = fresh.capacity;
        proof {
            assert(old_slots == old(self).slots());
        }
        let mut i: usize = 0;
        while i < old_cap
            invariant
                fresh.keys@ == old(self).keys@,
                fresh.values@.len() == old_cap,
                forall|j: int| i <= j < old_cap ==> #[trigger] fresh.values@[j] == old(self).values@[j],
                old_cap == old(self).capacity,
                old_slots == old(self).slots(),
                old_vals == old(self).slot_values(),
                old(self).wf(),
                i <= old_cap,
                self.wf(),
                self.consistent(),
                self.capacity == new_cap,
                new_cap >= capacity,
                new_cap <= (capacity - 1) * 2,
                old(self).count < capacity,
                self.count <= num_occupied(old_slots.take(i as int)),
                old(self).consistent() ==> self.count == num_occupied(old_slots.take(i as int)),
                self@ == entries_map(old_slots, old_vals, i as int),
            decreases old_cap - i,
        {
            proof {
                lemma_num_occupied_prefix(old_slots, i as int);
            }
            let key = fresh.keys[i];
            if key.0 != 0 {
                let value = fresh.values[i].take();
                proof {
                    assert(old(self).values@[i as int] is Some);
                    assert(old_slots[i as int] == Some(key.0));
                    if old(self).consistent() {
                        lemma_entries_map_dom(old_slots, old_vals, i as int, key.0);
                        if self@.contains_key(key.0) {
                            let j = choose|j: int| 0 <= j < i && old_slots[j] == Some(key.0);
                            assert(old_slots[j] is Some);
                            assert(old_slots[i as int] is Some);
                            assert(false);
                        }
                    }
                }
                match value {
                    Some(v) => {
                        self.insert_in_place(key, v);
                    },
                    None => {},
                }
            }
            proof {
                assert(entries_map(old_slots, old_vals, i + 1) == (match old_slots[i as int] {
                    Some(t) => entries_map(old_slots, old_vals, i as int).insert(t, old_vals[i as int]),
                    None => entries_map(old_slots, old_vals, i as int),
                }));
            }
            i = i + 1;
        }
        proof {
            assert(old_slots.take(old_cap as int) =~= old_slots);
            if old(self).consistent() {
                old(self).lemma_wf_facts();
                lemma_entries_map_found(old_slots, old_vals, old(self).home());
                old(self).lemma_view_is_found_map();
            }
        }
        Ok(())
    }

    /// Mutable access to the value stored under the handle. Writing through the returned
    /// reference changes that value and nothing else (see [`lemma_value_replaced`]).
    pub fn get_mut(&mut self, key: Handle) -> (r: Option<&mut T>)
        requires
            old(self).wf(),
        ensures
            r is Some == old(self)@.contains_key(key.0),
            r matches Some(v) ==> value_replaced(*old(self), *final(self), key.0),
            r matches Some(v) ==> *v == old(self)@[key.0],
            r matches Some(v) ==> *final(v) == replaced_value(*old(self), *final(self), key.0),
            r matches Some(v) ==> final(self).wf() && final(self).spec_len() == old(self).spec_len()
                && final(self).spec_capacity() == old(self).spec_capacity(),
            r matches Some(v) ==> (old(self).consistent() ==> final(self).consistent()),
            r is None ==> *final(self) == *old(self),
    {
        broadcast use lemma_value_replaced_wf;

        let ind = self.find_ind(key);
        proof {
            self.lemma_wf_facts();
            lemma_find(self.slots(), key.0, self.home()(key.0));
        }
        if self.keys[ind].0 != 0 {
            let slot = &mut self.values[ind];
            let res = slot.as_mut();
            res
        } else {
            None
        }
    }

    /// Grows the table by half, to the next power of two.
    fn grow(&mut self) -> (r: Result<(), MapError>)
        requires
            old(self).wf(),
            old(self).capacity * 3 <= usize::MAX,
        ensures
            r is Ok,
            final(self).wf(),
            final(self).consistent(),
            final(self).capacity > old(self).capacity,
            grown_capacity(old(self).capacity as nat) <= final(self).capacity,
            final(self).capacity <= (grown_capacity(old(self).capacity as nat) - 1) * 2,
            final(self).count <= old(self).count,
            final(self)@ == entries_map(
                old(self).slots(),
                old(self).slot_values(),
                old(self).capacity as int,
            ),
            old(self).consistent() ==> final(self)@ == old(self)@ && final(self).count == old(self).count,
    {
        let base = if self.capacity < 2 { 2 } else { self.capacity };
        let new_cap = base * 3 / 2;
        self.adjust_size(new_cap)
    }

    /// Inserts `value` under `key`, replacing the value stored under it before, and returns the
    /// stored value for writing. Grows the table first, to the power of two at or above half as
    /// many slots again (and at least three), when the new entry would bring the load over 69%.
    pub fn insert(&mut self, key: Handle, value: T) -> (r: Result<&mut T, MapError>)
        requires
            old(self).wf(),
            key.0 != 0,
            old(self).spec_capacity() * 3 <= usize::MAX,
        ensures
            r is Ok,
            r matches Ok(v) ==> *v == value && final(self)@[key.0] == *final(v),
            final(self).wf(),
            final(self)@.contains_key(key.0),
            !needs_grow(old(self).spec_len(), old(self).spec_capacity()) ==> final(self).spec_capacity()
                == old(self).spec_capacity() && forall|k: u32|
                k != key.0 && #[trigger] old(self)@.contains_key(k) ==> final(self)@.contains_key(k)
                    && final(self)@[k] == old(self)@[k],
            needs_grow(old(self).spec_len(), old(self).spec_capacity()) ==> {
                &&& is_pow2(final(self).spec_capacity() as usize)
                &&& grown_capacity(old(self).spec_capacity()) <= final(self).spec_capacity()
                &&& final(self).spec_capacity() <= (grown_capacity(old(self).spec_capacity()) - 1) * 2
                &&& final(self).consistent()
            },
            final(self).spec_len() <= old(self).spec_len() + 1,
            final(self).spec_len() * 100 <= final(self).spec_capacity() * 69,
            old(self).consistent() ==> {
                &&& final(self).consistent()
                &&& r matches Ok(v) ==> final(self)@ == old(self)@.insert(key.0, *final(v))
                &&& final(self).spec_len() == old(self).spec_len() + if old(self)@.contains_key(
                    key.0,
                ) {
                    0int
                } else {
                    1int
                }
                &&& !old(self)@.contains_key(key.0) ==> final(self).removes_cleanly(key.0)
            },
    {
        broadcast use lemma_value_replaced_wf;

        if (self.count as u128 + 1) * 100 > (self.capacity as u128) * 69 {
            match self.grow() {
                Ok(()) => {},
                Err(e) => {
                    return Err(e);
                },
            }
            proof {
                let (c, n) = (old(self).capacity as int, old(self).count as int);
                let g = self.capacity as int;
                let oc = old(self).capacity;
                assert(oc != 0 && oc & ((oc - 1) as usize) == 0 ==> oc == 1 || oc % 2 == 0)
                    by (bit_vector);
                assert((n + 1) * 100 <= g * 69) by (nonlinear_arith)
                    requires
                        0 <= n < c,
                        c == 1 || c % 2 == 0,
                        g >= (if c < 2 { 2 } else { c }) * 3 / 2,
                ;
                assert(self.count + 1 < self.capacity);
            }
        } else {
            proof {
                assert((self.count + 1) * 100 <= self.capacity * 69);
            }
        }
        self.insert_in_place(key, value);
        Ok(self.get_mut(key).unwrap())
    }

    /// Removes the entry of `key`, returning its value. Lookups of other handles whose probe
    /// sequence passed over the emptied slot may stop finding them; when none does, the map
    /// finds the other entries as before.
    pub fn remove(&mut self, key: Handle) -> (r: Option<T>)
        requires
            old(self).wf(),
        ensures
            final(self).wf(),
            final(self).spec_capacity() == old(self).spec_capacity(),
            r == if old(self)@.contains_key(key.0) { Some(old(self)@[key.0]) } else { None::<T> },
            !final(self)@.contains_key(key.0),
            final(self)@.submap_of(old(self)@),
            final(self).spec_len() == old(self).spec_len() - if old(self)@.contains_key(key.0) {
                1int
            } else {
                0int
            },
            old(self).removes_cleanly(key.0) ==> final(self)@ == old(self)@.remove(key.0),
            old(self).consistent() && old(self).removes_cleanly(key.0) ==> final(self).consistent(),
    {
        let ind = self.find_ind(key);
        let ghost s = self.slots();
        let ghost sl = ind as int;
        proof {
            self.lemma_wf_facts();
            lemma_find(s, key.0, self.home()(key.0));
        }
        if self.keys[ind].0 != 0 {
            proof {
                assert(present(s, self.home(), key.0));
                lemma_clear(s, self.home(), key.0);
                if old(self).removes_cleanly(key.0) {
                    lemma_clear_cleanly(s, self.home(), key.0);
                }
                lemma_num_occupied_update(s, sl, None);
            }
            self.count = self.count - 1;
            self.keys.set(ind, Handle(0));
            let res = self.values[ind].take();
            proof {
                let s2 = s.update(sl, None);
                assert(self.slots() =~= s2);
                assert(self.home() == old(self).home());
                lemma_vacancy(s2);
                assert forall|i: int| 0 <= i < self.capacity implies (#[trigger] self.keys@[i].0
                    == 0) == (self.values@[i] is None) by {
                    if i != sl {
                        assert(old(self).keys@[i].0 == 0 <==> old(self).values@[i] is None);
                    }
                }
                assert forall|k: u32| #[trigger] self@.contains_key(k) implies old(self)@.contains_key(k)
                    && self@[k] == old(self)@[k] by {
                    assert(present(s2, self.home(), k));
                    let r = slot_for(s2, self.home(), k);
                    lemma_find(s2, k, self.home()(k));
                    assert(r != sl);
                    assert(self.values@[r] == old(self).values@[r]);
                }
                if old(self).removes_cleanly(key.0) {
                    assert forall|k: u32| #[trigger] old(self)@.remove(key.0).contains_key(k)
                        implies self@.contains_key(k) && self@[k] == old(self)@[k] by {
                        let r = slot_for(s, old(self).home(), k);
                        lemma_find(s, k, old(self).home()(k));
                        assert(r != sl);
                        assert(self.values@[r] == old(self).values@[r]);
                    }
                    assert(self@ =~= old(self)@.remove(key.0));
                }
            }
            res
        } else {
            proof {
                assert(!present(s, self.home(), key.0));
                assert(self@ =~= old(self)@.remove(key.0));
            }
            None
        }
    }

    /// Removes every entry, keeping the capacity.
    pub fn clear(&mut self)
        requires
            old(self).wf(),
        ensures
            final(self).wf(),
            final(self).consistent(),
            final(self)@ == Map::<u32, T>::empty(),
            final(self).spec_len() == 0,
            final(self).spec_capacity() == old(self).spec_capacity(),
    {
        let mut i: usize = 0;
        let cap = self.capacity;
        while i < cap
            invariant
                cap == self.capacity,
                self.keys@.len() == cap,
                self.values@.len() == cap,
                is_pow2(cap),
                i <= cap,
                old(self).capacity == cap,
                forall|j: int| 0 <= j < i ==> (#[trigger] self.keys@[j]).0 == 0,
                forall|j: int| 0 <= j < i ==> (#[trigger] self.values@[j]) is None,
                forall|j: int|
                    i <= j < cap ==> (#[trigger] self.keys@[j].0 == 0) == (self.values@[j] is None),
            decreases cap - i,
        {
            self.keys.set(i, Handle(0));
            self.values.set(i, None);
            i = i + 1;
        }
        self.count = 0;
        proof {
            lemma_num_occupied_empty(self.slots());
            assert forall|j: int| 0 <= j < cap implies (#[trigger] self.keys@[j].0 == 0) == (
            self.values@[j] is None) by {}
            self.lemma_wf_facts();
            assert forall|k: u32| !present(self.slots(), self.home(), k) by {
                lemma_find(self.slots(), k, self.home()(k));
            }
            assert(self@ =~= Map::<u32, T>::empty());
        }
    }

    /// Makes room for `capacity` more entries: grows the table to hold `len + capacity` entries
    /// at a load of at most 1 / 1.69 when it has fewer slots than that.
    pub fn reserve(&mut self, capacity: usize) -> (r: Result<(), MapError>)
        requires
            old(self).wf(),
            old(self).spec_len() + capacity <= usize::MAX / 4,
        ensures
            r is Ok,
            final(self).wf(),
            final(self).spec_capacity() >= old(self).spec_len() + capacity,
            final(self).spec_capacity() >= old(self).spec_capacity(),
            old(self).consistent() ==> final(self).consistent() && final(self)@ == old(self)@
                && final(self).spec_len() == old(self).spec_len(),
    {
        let new_cap = capacity + self.count;
        if new_cap > self.capacity {
            let wide: u128 = (new_cap as u128) * 169 / 100;
            proof {
                assert(wide <= (usize::MAX / 4) * 169 / 100) by (nonlinear_arith)
                    requires
                        wide == (new_cap as u128) * 169 / 100,
                        new_cap <= usize::MAX / 4,
                ;
                assert(wide >= new_cap + 1) by (nonlinear_arith)
                    requires
                        wide == (new_cap as u128) * 169 / 100,
                        new_cap >= 2,
                ;
            }
            let padded = wide as usize;
            match self.adjust_size(padded) {
                Ok(()) => {},
                Err(e) => {
                    return Err(e);
                },
            }
        }
        Ok(())
    }
}

/// `m2` is `m` with the value at the slot of `key` replaced.
pub closed spec fn value_replaced<T>(m: KeyMap<T>, m2: KeyMap<T>, key: u32) -> bool {
    let ind = m.slot_of(key);
    &&& m2.keys == m.keys
    &&& m2.count == m.count
    &&& m2.capacity == m.capacity
    &&& m2.values@.len() == m.values@.len()
    &&& m.values@[ind] is Some
    &&& m2.values@[ind] is Some
    &&& forall|i: int| 0 <= i < m.capacity && i != ind ==> m2.values@[i] == m.values@[i]
}

/// The value that the entry of `key` holds in `m2`, where `m2` is `m` with that value
/// replaced.
pub closed spec fn replaced_value<T>(m: KeyMap<T>, m2: KeyMap<T>, key: u32) -> T {
    m2.values@[m.slot_of(key)]->Some_0
}

/// Replacing the value of a stored entry, as writing through [`KeyMap::get_mut`] does,
/// changes the map at that key only.
pub proof fn lemma_value_replaced<T>(m: KeyMap<T>, m2: KeyMap<T>, key: u32)
    requires
        m.wf(),
        value_replaced(m, m2, key),
    ensures
        m2.wf(),
        m2@ == m@.insert(key, replaced_value(m, m2, key)),
        m.consistent() ==> m2.consistent(),
        m2.slots() == m.slots(),
        m2.home() == m.home(),
{
    m.lemma_wf_facts();
    let ind = m.slot_of(key);
    let s = m.slots();
    assert(m2.slots() =~= s);
    assert(m2.home() == m.home());
    lemma_find(s, key, m.home()(key));
    lemma_find(s, key, m.home()(key));
    assert(m@.contains_key(key));
    let fv = m2.values@[ind]->Some_0;
    assert forall|k: u32| #[trigger] m2@.contains_key(k) == m@.insert(key, fv).contains_key(k) by {}
    assert forall|k: u32| m2@.contains_key(k) implies m2@[k] == m@.insert(key, fv)[k] by {
        if k != key {
            lemma_find(s, k, m.home()(k));
            assert(slot_for(s, m.home(), k) != ind);
        }
    }
    assert(m2@ =~= m@.insert(key, fv));
    assert forall|i: int| 0 <= i < m2.capacity implies (#[trigger] m2.keys@[i].0 == 0) == (
    m2.values@[i] is None) by {
        if i != ind {
            assert(m.keys@[i].0 == 0 <==> m.values@[i] is None);
        }
    }
}


broadcast proof fn lemma_value_replaced_wf<T>(m: KeyMap<T>, m2: KeyMap<T>, key: u32)
    requires
        m.wf(),
        #[trigger] value_replaced(m, m2, key),
    ensures
        m2.wf(),
        m2@ == m@.insert(key, replaced_value(m, m2, key)),
        m.consistent() ==> m2.consistent(),
        m2.slots() == m.slots(),
        m2.home() == m.home(),
{
    lemma_value_replaced(m, m2, key);
}

/// Inserting a handle that a consistent map does not hold and then removing it gives the value
/// back and leaves the map finding the entries it found before.
pub proof fn lemma_insert_then_remove<T>(m0: KeyMap<T>, m1: KeyMap<T>, m2: KeyMap<T>, k: u32, v: T, r: Option<T>)
    requires
        m0.consistent(),
        !m0@.contains_key(k),
        m1@ == m0@.insert(k, v),
        m1.removes_cleanly(k),
        r == if m1@.contains_key(k) { Some(m1@[k]) } else { None::<T> },
        m1.removes_cleanly(k) ==> m2@ == m1@.remove(k),
    ensures
        r == Some(v),
        m2@ == m0@,
{
    assert(m0@.insert(k, v).remove(k) =~= m0@);
}

/// The slot of a key in a [`KeyMap`], found by [`KeyMap::entry`]: the slot holding the key's
/// entry, or the empty slot that the key takes.
pub struct Entry<'a, T> {
    pub map: &'a mut KeyMap<T>,
    pub key: Handle,
    pub slot: usize,
}

impl<'a, T> Entry<'a, T> {
    /// The key is not zero, and the slot is where its lookup ends in the map.
    pub closed spec fn ready(&self) -> bool {
        &&& self.map.wf()
        &&& self.key.0 != 0
        &&& self.slot == self.map.slot_of(self.key.0)
    }

    /// The value of the entry, inserting the value that `fun` gives when the key has none.
    /// A new entry must leave an empty slot in the table.
    pub fn or_insert_with<F: FnOnce() -> T>(self, fun: F) -> (r: &'a mut T)
        requires
            self.ready(),
            fun.requires(()),
            !old(self.map)@.contains_key(self.key.0) ==> old(self.map).spec_len() + 1 < old(
                self.map,
            ).spec_capacity(),
        ensures
            ({
                let k = self.key.0;
                let (m0, m) = (*old(self.map), *final(self.map));
                &&& m.wf()
                &&& m@.contains_key(k)
                &&& m@[k] == *final(r)
                &&& m0@.contains_key(k) ==> *r == m0@[k] && m.spec_len() == m0.spec_len()
                &&& !m0@.contains_key(k) ==> fun.ensures((), *r) && m.spec_len() == m0.spec_len() + 1
                &&& m.spec_capacity() == m0.spec_capacity()
                &&& forall|k2: u32|
                    k2 != k && #[trigger] m0@.contains_key(k2) ==> m@.contains_key(k2) && m@[k2]
                        == m0@[k2]
                &&& m0.consistent() ==> m.consistent() && m@ == m0@.insert(k, *final(r))
            }),
    {
        broadcast use lemma_value_replaced_wf;

        let Entry { map, key, slot } = self;
        proof {
            map.lemma_wf_facts();
            lemma_find(map.slots(), key.0, map.home()(key.0));
        }
        if map.keys[slot].0 == 0 {
            let v = fun();
            map.insert_in_place(key, v);
        }
        map.get_mut(key).unwrap()
    }
}

impl<T> KeyMap<T> {
    /// The entry of `key`: the slot holding it, or the empty slot that it takes.
    pub fn entry(&mut self, key: Handle) -> (r: Entry<'_, T>)
        requires
            old(self).wf(),
            key.0 != 0,
        ensures
            r.key == key,
            r.ready(),
            *r.map == *old(self),
            *final(self) == *final(r.map),
    {
        let ind = self.find_ind(key);
        Entry { map: self, key, slot: ind }
    }
}


impl<T> Default for KeyMap<T> {
    /// An empty map of 16 slots.
    fn default() -> (r: Self)
        ensures
            r.wf(),
            r.consistent(),
            r@ == Map::<u32, T>::empty(),
            r.spec_len() == 0,
            r.spec_capacity() == 16,
    {
        assert(is_pow2(16)) by (bit_vector);
        match Self::with_capacity(16) {
            Ok(m) => m,
            Err(_) => {
                assert(false);
                KeyMap { keys: Vec::new(), values: Vec::new(), count: 0, capacity: 0 }
            },
        }
    }
}

/// Half as many slots again as `cap`, and at least three: a table of `cap` slots grows to the
/// power of two at or above this.
pub open spec fn grown_capacity(cap: nat) -> nat {
    (if cap < 2 { 2 } else { cap }) * 3 / 2
}

/// Whether inserting one more entry into a table of `len` entries and `cap` slots brings
/// its load over 69%.
pub open spec fn needs_grow(len: nat, cap: nat) -> bool {
    (len + 1) * 100 > cap * 69
}

} // verus!
