//! Open-addressing hash map whose keys are hashed with 32 bit FNV-1a ([`CaoHasher`]).
//!
//! A slot is empty when its hash is zero. A key's home slot is chosen by Fibonacci hashing
//! of its hash, and collisions are resolved by linear probing: a lookup compares hashes
//! first and keys second.
use vstd::prelude::*;
use vstd::string::StringSliceAdditionalSpecFns;
use super::{
    fnv1a, fnv_from, fnv_write, lemma_fnv_concat, lemma_fnv_masked_start, lemma_mask32_bound,
    FNV_OFFSET, MASK32,
};
use super::probe::{
    consistent, dist, entries_map, gap_ok, has_vacancy, is_probe_end, lemma_dist_sub,
    lemma_entries_map_dom, lemma_find, lemma_gap_end, lemma_gap_move, lemma_gap_skip, lemma_gap_start,
    lemma_num_occupied_bound, lemma_num_occupied_empty, lemma_num_occupied_prefix, lemma_num_occupied_update, lemma_store,
    lemma_vacancy, num_occupied, present, slot_for, stops_at, valid_home, occupied_indices,
    lemma_occupied_indices,
};
use crate::allocator::AllocError;

verus! {

/// FNV-1a hasher of [`CaoHashMap`]. Its view is the sequence of bytes written into it.
pub struct CaoHasher {
    state: u64,
    written: Ghost<Seq<u8>>,
}

impl View for CaoHasher {
    type V = Seq<u8>;

    closed spec fn view(&self) -> Seq<u8> {
        self.written@
    }
}

impl CaoHasher {
    /// The state is the masked FNV-1a state of the bytes written so far.
    pub closed spec fn wf(&self) -> bool {
        self.state == fnv_from(FNV_OFFSET, self.written@) & MASK32
    }

    /// A hasher into which nothing has been written.
    pub fn new() -> (r: Self)
        ensures
            r.wf(),
            r@ == Seq::<u8>::empty(),
    {
        assert(2166136261u64 & 0xffff_ffffu64 == 2166136261u64) by (bit_vector);
        CaoHasher { state: FNV_OFFSET, written: Ghost(Seq::empty()) }
    }

    /// Feeds `bytes` into the hasher.
    pub fn write(&mut self, bytes: &[u8])
        requires
            old(self).wf(),
        ensures
            final(self).wf(),
            final(self)@ == old(self)@ + bytes@,
    {
        let ghost w = self.written@;
        let ghost full = fnv_from(FNV_OFFSET, w);
        proof {
            lemma_mask32_bound(full);
            assert(MASK32 <= MASK32 * 16777619) by (nonlinear_arith);
        }
        let h = fnv_write(self.state, bytes);
        proof {
            lemma_fnv_concat(FNV_OFFSET, w, bytes@);
            if bytes@.len() > 0 {
                lemma_fnv_masked_start(full, bytes@);
            } else {
                assert(w + bytes@ =~= w);
                assert((full & 0xffff_ffffu64) & 0xffff_ffffu64 == full & 0xffff_ffffu64)
                    by (bit_vector);
            }
        }
        self.state = h & MASK32;
        self.written = Ghost(w + bytes@);
    }

    /// The hash of the bytes written so far.
    pub fn finish(&self) -> (r: u64)
        requires
            self.wf(),
        ensures
            r == fnv1a(self@),
    {
        self.state
    }
}

/// A key of a [`CaoHashMap`]: a value that can be fed into a [`CaoHasher`] and compared.
pub trait CaoKey: Sized {
    /// The bytes that hashing the key feeds into the hasher. Two keys are the same key
    /// exactly when these bytes are equal.
    spec fn hash_input(&self) -> Seq<u8>;

    /// Feeds the key into the hasher.
    fn hash_into(&self, hasher: &mut CaoHasher)
        requires
            old(hasher).wf(),
        ensures
            final(hasher).wf(),
            final(hasher)@ == old(hasher)@ + self.hash_input(),
    ;

    /// Whether `other` is the same key.
    fn key_eq(&self, other: &Self) -> (r: bool)
        ensures
            r == (self.hash_input() == other.hash_input()),
    ;
}

/// The little-endian bytes of a 32 bit integer.
pub open spec fn le_bytes4(x: u32) -> Seq<u8> {
    seq![
        (x & 0xff) as u8,
        ((x >> 8u32) & 0xff) as u8,
        ((x >> 16u32) & 0xff) as u8,
        ((x >> 24u32) & 0xff) as u8,
    ]
}

/// The little-endian bytes of a 64 bit integer.
pub open spec fn le_bytes8(x: u64) -> Seq<u8> {
    seq![
        (x & 0xff) as u8,
        ((x >> 8u64) & 0xff) as u8,
        ((x >> 16u64) & 0xff) as u8,
        ((x >> 24u64) & 0xff) as u8,
        ((x >> 32u64) & 0xff) as u8,
        ((x >> 40u64) & 0xff) as u8,
        ((x >> 48u64) & 0xff) as u8,
        ((x >> 56u64) & 0xff) as u8,
    ]
}

/// Distinct integers have distinct little-endian bytes.
pub proof fn lemma_le_bytes4_injective(x: u32, y: u32)
    ensures
        (le_bytes4(x) == le_bytes4(y)) == (x == y),
{
    if le_bytes4(x) == le_bytes4(y) {
        assert(le_bytes4(x)[0] == le_bytes4(y)[0]);
        assert(le_bytes4(x)[1] == le_bytes4(y)[1]);
        assert(le_bytes4(x)[2] == le_bytes4(y)[2]);
        assert(le_bytes4(x)[3] == le_bytes4(y)[3]);
        assert((x & 0xff) as u8 == (y & 0xff) as u8 && ((x >> 8u32) & 0xff) as u8 == ((y >> 8u32)
            & 0xff) as u8 && ((x >> 16u32) & 0xff) as u8 == ((y >> 16u32) & 0xff) as u8 && ((x
            >> 24u32) & 0xff) as u8 == ((y >> 24u32) & 0xff) as u8 ==> x == y) by (bit_vector);
    }
}

/// Distinct integers have distinct little-endian bytes.
pub proof fn lemma_le_bytes8_injective(x: u64, y: u64)
    ensures
        (le_bytes8(x) == le_bytes8(y)) == (x == y),
{
    if le_bytes8(x) == le_bytes8(y) {
        assert(le_bytes8(x)[0] == le_bytes8(y)[0]);
        assert(le_bytes8(x)[1] == le_bytes8(y)[1]);
        assert(le_bytes8(x)[2] == le_bytes8(y)[2]);
        assert(le_bytes8(x)[3] == le_bytes8(y)[3]);
        assert(le_bytes8(x)[4] == le_bytes8(y)[4]);
        assert(le_bytes8(x)[5] == le_bytes8(y)[5]);
        assert(le_bytes8(x)[6] == le_bytes8(y)[6]);
        assert(le_bytes8(x)[7] == le_bytes8(y)[7]);
        assert((x & 0xff) as u8 == (y & 0xff) as u8 && ((x >> 8u64) & 0xff) as u8 == ((y >> 8u64)
            & 0xff) as u8 && ((x >> 16u64) & 0xff) as u8 == ((y >> 16u64) & 0xff) as u8 && ((x
            >> 24u64) & 0xff) as u8 == ((y >> 24u64) & 0xff) as u8 && ((x >> 32u64) & 0xff) as u8
            == ((y >> 32u64) & 0xff) as u8 && ((x >> 40u64) & 0xff) as u8 == ((y >> 40u64) & 0xff)
            as u8 && ((x >> 48u64) & 0xff) as u8 == ((y >> 48u64) & 0xff) as u8 && ((x >> 56u64)
            & 0xff) as u8 == ((y >> 56u64) & 0xff) as u8 ==> x == y) by (bit_vector);
    }
}

fn write_u32(hasher: &mut CaoHasher, x: u32)
    requires
        old(hasher).wf(),
    ensures
        final(hasher).wf(),
        final(hasher)@ == old(hasher)@ + le_bytes4(x),
{
    let bytes = vec![
        (x & 0xff) as u8,
        ((x >> 8) & 0xff) as u8,
        ((x >> 16) & 0xff) as u8,
        ((x >> 24) & 0xff) as u8,
    ];
    assert(bytes@ =~= le_bytes4(x));
    hasher.write(bytes.as_slice());
}

fn write_u64(hasher: &mut CaoHasher, x: u64)
    requires
        old(hasher).wf(),
    ensures
        final(hasher).wf(),
        final(hasher)@ == old(hasher)@ + le_bytes8(x),
{
    let bytes = vec![
        (x & 0xff) as u8,
        ((x >> 8) & 0xff) as u8,
        ((x >> 16) & 0xff) as u8,
        ((x >> 24) & 0xff) as u8,
        ((x >> 32) & 0xff) as u8,
        ((x >> 40) & 0xff) as u8,
        ((x >> 48) & 0xff) as u8,
        ((x >> 56) & 0xff) as u8,
    ];
    assert(bytes@ =~= le_bytes8(x));
    hasher.write(bytes.as_slice());
}

impl CaoKey for u32 {
    open spec fn hash_input(&self) -> Seq<u8> {
        le_bytes4(*self)
    }

    fn hash_into(&self, hasher: &mut CaoHasher) {
        write_u32(hasher, *self);
    }

    fn key_eq(&self, other: &Self) -> (r: bool) {
        proof {
            lemma_le_bytes4_injective(*self, *other);
        }
        *self == *other
    }
}

impl CaoKey for i32 {
    open spec fn hash_input(&self) -> Seq<u8> {
        le_bytes4(*self as u32)
    }

    fn hash_into(&self, hasher: &mut CaoHasher) {
        write_u32(hasher, *self as u32);
    }

    fn key_eq(&self, other: &Self) -> (r: bool) {
        let (x, y) = (*self, *other);
        proof {
            lemma_le_bytes4_injective(x as u32, y as u32);
            assert((x as u32 == y as u32) == (x == y)) by (bit_vector);
        }
        x == y
    }
}

impl CaoKey for u64 {
    open spec fn hash_input(&self) -> Seq<u8> {
        le_bytes8(*self)
    }

    fn hash_into(&self, hasher: &mut CaoHasher) {
        write_u64(hasher, *self);
    }

    fn key_eq(&self, other: &Self) -> (r: bool) {
        proof {
            lemma_le_bytes8_injective(*self, *other);
        }
        *self == *other
    }
}

impl CaoKey for i64 {
    open spec fn hash_input(&self) -> Seq<u8> {
        le_bytes8(*self as u64)
    }

    fn hash_into(&self, hasher: &mut CaoHasher) {
        write_u64(hasher, *self as u64);
    }

    fn key_eq(&self, other: &Self) -> (r: bool) {
        let (x, y) = (*self, *other);
        proof {
            lemma_le_bytes8_injective(x as u64, y as u64);
            assert((x as u64 == y as u64) == (x == y)) by (bit_vector);
        }
        x == y
    }
}

/// Whether two byte strings are equal.
pub(crate) fn bytes_eq(a: &[u8], b: &[u8]) -> (r: bool)
    ensures
        r == (a@ == b@),
{
    if a.len() != b.len() {
        return false;
    }
    let mut i: usize = 0;
    while i < a.len()
        invariant
            a@.len() == b@.len(),
            i <= a@.len(),
            forall|j: int| 0 <= j < i ==> a@[j] == b@[j],
        decreases a@.len() - i,
    {
        if a[i] != b[i] {
            return false;
        }
        i = i + 1;
    }
    assert(a@ =~= b@);
    true
}

/// A string feeds its UTF-8 bytes followed by `0xff`.
impl<'a> CaoKey for &'a str {
    open spec fn hash_input(&self) -> Seq<u8> {
        (**self).spec_bytes().push(0xffu8)
    }

    fn hash_into(&self, hasher: &mut CaoHasher) {
        let ghost w = hasher@;
        hasher.write(self.as_bytes());
        let end = vec![0xffu8];
        hasher.write(end.as_slice());
        assert(hasher@ =~= w + self.hash_input());
    }

    fn key_eq(&self, other: &Self) -> (r: bool) {
        let r = bytes_eq(self.as_bytes(), other.as_bytes());
        proof {
            let (a, b) = ((**self).spec_bytes(), (**other).spec_bytes());
            if a.push(0xffu8) == b.push(0xffu8) {
                assert(a.push(0xffu8).drop_last() =~= a);
                assert(b.push(0xffu8).drop_last() =~= b);
            }
        }
        r
    }
}

/// The hash of a key: the FNV-1a hash of the bytes it feeds into a hasher.
pub open spec fn key_hash<K: CaoKey>(key: &K) -> u64 {
    fnv1a(key.hash_input())
}

/// Hashes a key with a fresh [`CaoHasher`].
pub fn hash<K: CaoKey>(key: &K) -> (r: u64)
    ensures
        r == key_hash(key),
{
    let mut hasher = CaoHasher::new();
    key.hash_into(&mut hasher);
    assert(hasher@ =~= key.hash_input());
    hasher.finish()
}


/// String keys are compared whole: two strings feed the same bytes into the hasher exactly
/// when they are the same string.
pub proof fn lemma_str_key_input_injective(a: &str, b: &str)
    ensures
        (a.hash_input() == b.hash_input()) == (a@ == b@),
{
    if a.hash_input() == b.hash_input() {
        assert(a.hash_input().drop_last() =~= (*a).spec_bytes());
        assert(b.hash_input().drop_last() =~= (*b).spec_bytes());
        vstd::utf8::encode_utf8_decode_utf8(a@);
        vstd::utf8::encode_utf8_decode_utf8(b@);
    }
}

/// Different strings are different keys of a map: they are looked up under different targets,
/// so storing one never replaces the other, and equal strings are the same key.
pub proof fn lemma_str_keys_distinct(a: &str, b: &str)
    ensures
        (key_target(key_hash(&a), &a) == key_target(key_hash(&b), &b)) == (a@ == b@),
{
    lemma_str_key_input_injective(a, b);
}

/// Multiplier of the Fibonacci hashing that picks a key's home slot.
pub const FIB_MULTIPLIER: u64 = 2654435769;

/// Largest capacity a [`CaoHashMap`] works with: a quarter of the address space, so that the
/// sizes computed when the table grows do not overflow.
pub const MAP_SIZE_LIMIT: usize = usize::MAX / 4;

/// What a lookup compares: a hash and the key's hash input.
pub open spec fn key_target<K: CaoKey>(h: u64, key: &K) -> (u64, Seq<u8>) {
    (h, key.hash_input())
}

/// Home slot of a target in a table of `cap` slots.
pub open spec fn fib_home(cap: usize) -> spec_fn((u64, Seq<u8>)) -> int {
    |t: (u64, Seq<u8>)| ((t.0.wrapping_mul(FIB_MULTIPLIER) as usize) % cap) as int
}

/// Whether a table of `cap` slots holding `count` entries is loaded over 70%.
pub open spec fn spec_needs_grow(count: int, cap: int) -> bool {
    count * 10 > cap * 7
}

/// No two slots hold the same target.
pub open spec fn no_dups<A>(s: Seq<Option<A>>) -> bool {
    forall|i: int, j: int|
        0 <= i < s.len() && 0 <= j < s.len() && i != j && #[trigger] s[i] is Some ==> s[i] != #[trigger] s[j]
}

/// Some slot holds `t`.
pub open spec fn holds<A>(s: Seq<Option<A>>, t: A) -> bool {
    exists|i: int| 0 <= i < s.len() && s[i] == Some(t)
}

/// Error of a [`CaoHashMap`] operation.
#[derive(Debug, Clone, Copy, PartialEq, Eq)]
pub enum MapError {
    /// Memory for the table could not be allocated.
    AllocError(AllocError),
}

/// Hash map of the language's runtime.
///
/// Slot `i` is occupied when `hashes[i]` is not zero; its key and value are then stored at
/// the same index.
#[derive(Debug)]
pub struct CaoHashMap<K, V> {
    hashes: Vec<u64>,
    keys: Vec<Option<K>>,
    values: Vec<Option<V>>,
    count: usize,
    capacity: usize,
}

impl<K: CaoKey, V> CaoHashMap<K, V> {
    /// The slots of the table: the hash and key of each occupied slot.
    pub closed spec fn slots(&self) -> Seq<Option<(u64, Seq<u8>)>> {
        Seq::new(
            self.hashes@.len(),
            |i: int|
                if self.hashes@[i] == 0 {
                    None
                } else {
                    Some((self.hashes@[i], self.keys@[i]->Some_0.hash_input()))
                },
        )
    }

    /// The values of the slots, with an arbitrary value for an empty slot.
    pub closed spec fn slot_values(&self) -> Seq<V> {
        Seq::new(self.values@.len(), |i: int| self.values@[i]->Some_0)
    }

    /// Home slot of a target.
    pub closed spec fn home(&self) -> spec_fn((u64, Seq<u8>)) -> int {
        fib_home(self.capacity)
    }

    /// The slot at which a lookup for `t` ends.
    pub closed spec fn slot_of(&self, t: (u64, Seq<u8>)) -> int {
        slot_for(self.slots(), self.home(), t)
    }

    /// The layout of the table, with at most as many entries as slots.
    pub closed spec fn wf_loose(&self) -> bool {
        &&& self.hashes@.len() == self.capacity
        &&& self.keys@.len() == self.capacity
        &&& self.values@.len() == self.capacity
        &&& self.capacity > 0
        &&& self.count == num_occupied(self.slots())
        &&& self.count <= self.capacity
        &&& forall|i: int|
            0 <= i < self.capacity ==> (#[trigger] self.hashes@[i] == 0) == (self.keys@[i] is None)
        &&& forall|i: int|
            0 <= i < self.capacity ==> (#[trigger] self.hashes@[i] == 0) == (self.values@[i] is None)
    }

    /// The internal invariant of the table: its layout, and an empty slot.
    pub closed spec fn wf(&self) -> bool {
        &&& self.wf_loose()
        &&& self.count < self.capacity
    }

    /// Every stored entry is found by a lookup. Insertions keep this.
    pub closed spec fn consistent(&self) -> bool {
        consistent(self.slots(), self.home())
    }

    /// No two slots hold the same hash and key.
    pub closed spec fn no_dups(&self) -> bool {
        no_dups(self.slots())
    }

    /// Some slot holds `t`, found by a lookup or not.
    pub closed spec fn holds(&self, t: (u64, Seq<u8>)) -> bool {
        holds(self.slots(), t)
    }

    /// The targets that lookups find, with their values.
    pub closed spec fn view(&self) -> Map<(u64, Seq<u8>), V> {
        Map::new(
            |t: (u64, Seq<u8>)| present(self.slots(), self.home(), t),
            |t: (u64, Seq<u8>)| self.slot_values()[self.slot_of(t)],
        )
    }

    /// Every stored entry, found by a lookup or not.
    pub closed spec fn stored(&self) -> Map<(u64, Seq<u8>), V> {
        entries_map(self.slots(), self.slot_values(), self.capacity as int)
    }

    /// Number of stored entries.
    pub closed spec fn spec_len(&self) -> nat {
        self.count as nat
    }

    /// Number of slots.
    pub closed spec fn spec_capacity(&self) -> nat {
        self.capacity as nat
    }

    /// The table is small enough for one more entry and the growth that may follow.
    pub open spec fn fits(&self) -> bool {
        &&& self.spec_capacity() <= MAP_SIZE_LIMIT
        &&& 3 * (self.spec_len() + 1) <= MAP_SIZE_LIMIT
    }

    /// Inserting `t` cannot meet two slots holding the same target when the table grows
    /// afterwards: if the insertion makes the table grow, no target is held twice and a held
    /// `t` is found by its lookup.
    pub closed spec fn can_insert(&self, t: (u64, Seq<u8>)) -> bool {
        spec_needs_grow(self.count + if present(self.slots(), self.home(), t) { 0int } else { 1int }, self.capacity as int)
            ==> (self.no_dups() && (self.holds(t) ==> present(self.slots(), self.home(), t)))
    }

    proof fn lemma_wf_facts(&self)
        requires
            self.wf_loose(),
        ensures
            valid_home(self.slots(), self.home()),
            self.slots().len() == self.capacity,
            self.slot_values().len() == self.capacity,
            forall|t: (u64, Seq<u8>)| 0 <= #[trigger] self.home()(t) < self.capacity,
            self.count < self.capacity ==> has_vacancy(self.slots()),
    {
        assert forall|t: (u64, Seq<u8>)| 0 <= #[trigger] self.home()(t) < self.capacity by {
            vstd::arithmetic::div_mod::lemma_mod_pos_bound(
                (t.0.wrapping_mul(FIB_MULTIPLIER) as usize) as int,
                self.capacity as int,
            );
        }
        if self.count < self.capacity {
            lemma_vacancy(self.slots());
        }
    }

    /// A consistent table holds no target twice, and a target it holds is found.
    pub proof fn lemma_consistent_no_dups(&self)
        requires
            self.wf(),
            self.consistent(),
        ensures
            self.no_dups(),
            forall|t: (u64, Seq<u8>)| #[trigger] self.holds(t) ==> self@.contains_key(t),
            forall|t: (u64, Seq<u8>)| #[trigger] self.can_insert(t),
    {
        let s = self.slots();
        assert forall|i: int, j: int|
            0 <= i < s.len() && 0 <= j < s.len() && i != j && #[trigger] s[i] is Some implies s[i]
            != #[trigger] s[j] by {
            if s[i] == s[j] {
                assert(s[j] is Some);
                assert(slot_for(s, self.home(), s[i].unwrap()) == i);
                assert(slot_for(s, self.home(), s[j].unwrap()) == j);
            }
        }
        assert forall|t: (u64, Seq<u8>)| #[trigger] self.holds(t) implies self@.contains_key(t) by {
            let i = choose|i: int| 0 <= i < s.len() && s[i] == Some(t);
            assert(s[i] is Some);
            assert(slot_for(s, self.home(), t) == i);
        }
        assert forall|t: (u64, Seq<u8>)| #[trigger] self.can_insert(t) by {
            if self.holds(t) {
                assert(self@.contains_key(t));
            }
        }
    }

    /// An empty table of `capacity` slots.
    fn empty_table(capacity: usize) -> (r: Self)
        requires
            capacity > 0,
        ensures
            r.wf(),
            r.consistent(),
            r.no_dups(),
            r@ == Map::<(u64, Seq<u8>), V>::empty(),
            r.stored() == Map::<(u64, Seq<u8>), V>::empty(),
            r.count == 0,
            r.capacity == capacity,
    {
        let mut hashes: Vec<u64> = Vec::with_capacity(capacity);
        let mut keys: Vec<Option<K>> = Vec::with_capacity(capacity);
        let mut values: Vec<Option<V>> = Vec::with_capacity(capacity);
        let mut i: usize = 0;
        while i < capacity
            invariant
                i <= capacity,
                hashes@.len() == i,
                keys@.len() == i,
                values@.len() == i,
                forall|j: int| 0 <= j < i ==> (#[trigger] hashes@[j]) == 0,
                forall|j: int| 0 <= j < i ==> (#[trigger] keys@[j]) is None,
                forall|j: int| 0 <= j < i ==> (#[trigger] values@[j]) is None,
            decreases capacity - i,
        {
            hashes.push(0);
            keys.push(None);
            values.push(None);
            i = i + 1;
        }
        let m = CaoHashMap { hashes, keys, values, count: 0, capacity };
        proof {
            lemma_num_occupied_empty(m.slots());
            m.lemma_wf_facts();
            assert forall|t: (u64, Seq<u8>)| !present(m.slots(), m.home(), t) by {
                lemma_find(m.slots(), t, m.home()(t));
            }
            assert(m@ =~= Map::<(u64, Seq<u8>), V>::empty());
            lemma_entries_map_empty(m.slots(), m.slot_values(), capacity as int);
            assert(m.stored() =~= Map::<(u64, Seq<u8>), V>::empty());
        }
        m
    }

    /// Creates an empty map with `capacity` slots, one if `capacity` is zero.
    pub fn with_capacity(capacity: usize) -> (r: Result<Self, MapError>)
        ensures
            r is Ok,
            r matches Ok(m) ==> {
                &&& m.wf()
                &&& m.consistent()
                &&& m@ == Map::<(u64, Seq<u8>), V>::empty()
                &&& m.spec_len() == 0
                &&& m.spec_capacity() == if capacity == 0 { 1 } else { capacity }
            },
    {
        let capacity = if capacity < 1 { 1 } else { capacity };
        Ok(Self::empty_table(capacity))
    }

    /// Number of stored entries.
    pub fn len(&self) -> (r: usize)
        ensures
            r == self.spec_len(),
    {
        self.count
    }

    /// Whether the map holds no entry.
    pub fn is_empty(&self) -> (r: bool)
        ensures
            r == (self.spec_len() == 0),
    {
        self.count == 0
    }

    /// Number of slots.
    pub fn capacity(&self) -> (r: usize)
        ensures
            r == self.spec_capacity(),
    {
        self.capacity
    }

    /// Whether holding `count` entries in `capacity` slots loads the table over 70%.
    fn needs_grow(count: usize, capacity: usize) -> (r: bool)
        ensures
            r == spec_needs_grow(count as int, capacity as int),
    {
        (count as u128) * 10 > (capacity as u128) * 7
    }

    /// The slot at which a lookup for hash `needle` and key `k` ends: the slot holding them,
    /// or the empty slot where they would be stored.
    fn find_ind(&self, needle: u64, k: &K) -> (r: usize)
        requires
            self.wf(),
        ensures
            r == self.slot_of(key_target(needle, k)),
            r < self.capacity,
            stops_at(self.slots(), key_target(needle, k), r as int),
    {
        let ghost t = key_target(needle, k);
        let len = self.capacity;
        let mut ind = (needle.wrapping_mul(FIB_MULTIPLIER) as usize) % len;
        let ghost h: int = ind as int;
        let ghost s = self.slots();
        let ghost mut n: int = 0;
        proof {
            self.lemma_wf_facts();
            assert(h == self.home()(t));
        }
        loop
            invariant
                self.wf(),
                s == self.slots(),
                t == key_target(needle, k),
                len == self.capacity,
                0 <= h < len,
                h == self.home()(t),
                ind < len,
                0 <= n < len,
                dist(len as int, h, ind as int) == n,
                has_vacancy(s),
                forall|j: int|
                    0 <= j < len && #[trigger] dist(len as int, h, j) < n ==> !stops_at(s, t, j),
            decreases len - n,
        {
            let hh = self.hashes[ind];
            let hit = if hh == 0 {
                true
            } else if hh == needle {
                match &self.keys[ind] {
                    Some(k2) => k2.key_eq(k),
                    None => false,
                }
            } else {
                false
            };
            if hit {
                proof {
                    assert(stops_at(s, t, ind as int));
                    assert(is_probe_end(s, t, h, ind as int));
                    lemma_find(s, t, h);
                }
                return ind;
            }
            proof {
                assert(!stops_at(s, t, ind as int));
                if n + 1 == len {
                    let v = choose|i: int| 0 <= i < s.len() && s[i] is None;
                    assert(dist(len as int, h, v) < n + 1);
                    if dist(len as int, h, v) == n {
                        assert(v == ind);
                    }
                    assert(false);
                }
                if ind + 1 < len {
                    vstd::arithmetic::div_mod::lemma_small_mod((ind + 1) as nat, len as nat);
                } else {
                    vstd::arithmetic::div_mod::lemma_mod_self_0(len as int);
                }
            }
            ind = (ind + 1) % len;
            proof {
                n = n + 1;
                assert forall|j: int|
                    0 <= j < len && #[trigger] dist(len as int, h, j) < n implies !stops_at(s, t, j) by {
                    if dist(len as int, h, j) == n - 1 {
                        assert(j == ind - 1 || (ind == 0 && j == len - 1));
                    }
                }
            }
        }
    }

    /// Stores `key` and `value` with hash `h` at the slot where the lookup for them ends.
    fn insert_in_place(&mut self, h: u64, key: K, value: V)
        requires
            old(self).wf(),
            h != 0,
        ensures
            final(self).wf_loose(),
            final(self).capacity == old(self).capacity,
            final(self).slots() == old(self).slots().update(
                old(self).slot_of(key_target(h, &key)),
                Some(key_target(h, &key)),
            ),
            final(self).slot_values() == old(self).slot_values().update(
                old(self).slot_of(key_target(h, &key)),
                value,
            ),
            final(self).count == old(self).count + if old(self)@.contains_key(key_target(h, &key)) {
                0int
            } else {
                1int
            },
    {
        let ghost t = key_target(h, &key);
        let ind = self.find_ind(h, &key);
        let ghost s = self.slots();
        let ghost sl = ind as int;
        proof {
            self.lemma_wf_facts();
            lemma_find(s, t, self.home()(t));
        }
        let is_new_key = self.hashes[ind] == 0;
        if is_new_key {
            self.count = self.count + 1;
        }
        self.hashes.set(ind, h);
        self.keys.set(ind, Some(key));
        self.values.set(ind, Some(value));
        proof {
            assert(self.slots() =~= s.update(sl, Some(t)));
            assert(self.slot_values() =~= old(self).slot_values().update(sl, value));
            lemma_num_occupied_update(s, sl, Some(t));
            assert forall|i: int| 0 <= i < self.capacity implies (#[trigger] self.hashes@[i] == 0)
                == (self.keys@[i] is None) by {
                if i != sl {
                    assert(old(self).hashes@[i] == 0 <==> old(self).keys@[i] is None);
                }
            }
            assert forall|i: int| 0 <= i < self.capacity implies (#[trigger] self.hashes@[i] == 0)
                == (self.values@[i] is None) by {
                if i != sl {
                    assert(old(self).hashes@[i] == 0 <==> old(self).values@[i] is None);
                }
            }
            lemma_num_occupied_bound(self.slots());
        }
    }

    /// Inserts `value` under `key`, whose hash is given as `h`. Grows the table afterwards
    /// when the insertion loaded it over 70%.
    ///
    /// Two keys are told apart by their hashes first: a key stored under another hash is
    /// another entry.
    pub fn insert_with_hint(&mut self, h: u64, key: K, value: V) -> (r: Result<(), MapError>)
        requires
            old(self).wf(),
            old(self).fits(),
            h != 0,
            old(self).can_insert(key_target(h, &key)),
        ensures
            r is Ok,
            final(self).wf(),
            final(self)@.contains_key(key_target(h, &key)),
            final(self)@[key_target(h, &key)] == value,
            forall|t2: (u64, Seq<u8>)|
                t2 != key_target(h, &key) && #[trigger] old(self)@.contains_key(t2)
                    ==> final(self)@.contains_key(t2) && final(self)@[t2] == old(self)@[t2],
            final(self).spec_len() == old(self).spec_len() + if old(self)@.contains_key(
                key_target(h, &key),
            ) {
                0int
            } else {
                1int
            },
            final(self).spec_capacity() >= old(self).spec_capacity(),
            final(self).spec_capacity() <= old(self).spec_capacity() || final(self).spec_capacity()
                <= 3 * final(self).spec_len(),
            old(self).consistent() ==> final(self).consistent() && final(self)@ == old(self)@.insert(
                key_target(h, &key),
                value,
            ),
            old(self).no_dups() && (old(self).holds(key_target(h, &key)) ==> old(
                self,
            )@.contains_key(key_target(h, &key))) ==> final(self).no_dups(),
        decreases usize::MAX - old(self).spec_capacity() + 1, 1int,
    {
        let ghost t = key_target(h, &key);
        let ghost s = self.slots();
        let ghost sl = self.slot_of(t);
        proof {
            self.lemma_wf_facts();
            lemma_find(s, t, self.home()(t));
        }
        self.insert_in_place(h, key, value);
        let ghost mid = *self;
        let ghost s2 = s.update(sl, Some(t));
        proof {
            assert(s[sl] is None || s[sl] == Some(t));
            if old(self).no_dups() && (old(self).holds(t) ==> old(self)@.contains_key(t)) {
                assert forall|i: int, j: int|
                    0 <= i < s2.len() && 0 <= j < s2.len() && i != j && #[trigger] s2[i] is Some implies s2[i]
                    != #[trigger] s2[j] by {
                    if i == sl && s2[j] == Some(t) {
                        assert(old(self).holds(t));
                    }
                    if j == sl && s2[i] == Some(t) {
                        assert(old(self).holds(t));
                    }
                }
            }
        }
        if Self::needs_grow(self.count, self.capacity) {
            proof {
                assert(old(self).no_dups());
                assert(mid.no_dups()) by {
                    if old(self).holds(t) {
                        assert(old(self)@.contains_key(t));
                    }
                    assert forall|i: int, j: int|
                        0 <= i < s2.len() && 0 <= j < s2.len() && i != j && #[trigger] s2[i] is Some implies s2[i]
                        != #[trigger] s2[j] by {
                        if i == sl && s2[j] == Some(t) {
                            assert(old(self).holds(t));
                        }
                        if j == sl && s2[i] == Some(t) {
                            assert(old(self).holds(t));
                        }
                    }
                }
            }
            match self.grow() {
                Ok(()) => {},
                Err(e) => {
                    return Err(e);
                },
            }
            proof {
                let vals2 = mid.slot_values();
                lemma_entries_map_no_dups(s2, vals2, s2.len() as int);
                assert(s2[sl] == Some(t));
                assert(self@.contains_key(t));
                assert forall|t2: (u64, Seq<u8>)|
                    t2 != t && #[trigger] old(self)@.contains_key(t2) implies self@.contains_key(t2)
                    && self@[t2] == old(self)@[t2] by {
                    let p = old(self).slot_of(t2);
                    lemma_find(s, t2, old(self).home()(t2));
                    assert(s[p] == Some(t2));
                    assert(p != sl);
                    assert(s2[p] is Some);
                }
                if old(self).consistent() {
                    old(self).lemma_consistent_no_dups();
                    assert forall|t2: (u64, Seq<u8>)| #[trigger] self@.contains_key(t2) implies old(
                        self,
                    )@.insert(t, value).contains_key(t2) && self@[t2] == old(self)@.insert(
                        t,
                        value,
                    )[t2] by {
                        if t2 != t {
                            let p = choose|p: int| 0 <= p < s2.len() && s2[p] == Some(t2);
                            assert(s2[p] is Some);
                            assert(p != sl);
                            assert(s[p] == Some(t2));
                            assert(old(self).holds(t2));
                            assert(s[p] is Some);
                            assert(slot_for(s, old(self).home(), t2) == p);
                        }
                    }
                    assert(self@ =~= old(self)@.insert(t, value));
                }
            }
        } else {
            proof {
                assert(self.count < self.capacity);
                lemma_vacancy(s2);
                lemma_store(s, old(self).home(), t);
                assert(self.home() == old(self).home());
                assert(self@.contains_key(t));
                assert forall|t2: (u64, Seq<u8>)|
                    t2 != t && #[trigger] old(self)@.contains_key(t2) implies self@.contains_key(t2)
                    && self@[t2] == old(self)@[t2] by {
                    assert(present(s, old(self).home(), t2));
                    let p = slot_for(s, old(self).home(), t2);
                    lemma_find(s, t2, old(self).home()(t2));
                    assert(p != sl);
                }
                if old(self).consistent() {
                    assert forall|t2: (u64, Seq<u8>)| #[trigger] self@.contains_key(t2) implies old(
                        self,
                    )@.insert(t, value).contains_key(t2) && self@[t2] == old(self)@.insert(
                        t,
                        value,
                    )[t2] by {
                        if t2 != t {
                            assert(present(s2, self.home(), t2));
                            assert(present(s, old(self).home(), t2));
                            let p = slot_for(s, old(self).home(), t2);
                            lemma_find(s, t2, old(self).home()(t2));
                            assert(p != sl);
                        }
                    }
                    assert(self@ =~= old(self)@.insert(t, value));
                }
            }
        }
        Ok(())
    }

    /// Grows the table by half, to at least three slots.
    fn grow(&mut self) -> (r: Result<(), MapError>)
        requires
            old(self).wf_loose(),
            old(self).no_dups(),
            spec_needs_grow(old(self).count as int, old(self).capacity as int),
            old(self).capacity <= MAP_SIZE_LIMIT,
            3 * old(self).count <= MAP_SIZE_LIMIT,
        ensures
            r is Ok,
            final(self).wf(),
            final(self).consistent(),
            final(self).count == old(self).count,
            final(self).capacity > old(self).capacity,
            final(self).capacity <= 3 * final(self).count,
            final(self)@ == old(self).stored(),
        decreases usize::MAX - old(self).spec_capacity() + 1, 0int,
    {
        let base = if self.capacity < 2 { 2 } else { self.capacity };
        let new_cap = base * 3 / 2;
        proof {
            let (c, n) = (self.capacity as int, self.count as int);
            assert(new_cap <= 3 * n) by (nonlinear_arith)
                requires
                    n * 10 > c * 7,
                    c >= 1,
                    base == if c < 2 { 2 } else { c },
                    new_cap == base * 3 / 2,
            ;
        }
        self.adjust_capacity(new_cap)
    }

    /// Grows the table by half, to at least three slots, ahead of an insertion that would load
    /// it over 70%; the insertion then leaves an empty slot.
    fn grow_ahead(&mut self) -> (r: Result<(), MapError>)
        requires
            old(self).wf(),
            old(self).no_dups(),
            spec_needs_grow(old(self).count + 1, old(self).capacity as int),
            old(self).capacity <= MAP_SIZE_LIMIT,
            3 * (old(self).count + 1) <= MAP_SIZE_LIMIT,
        ensures
            r is Ok,
            final(self).wf(),
            final(self).consistent(),
            final(self).count == old(self).count,
            final(self).capacity > old(self).capacity,
            final(self).count + 1 < final(self).capacity,
            final(self).capacity <= 3 * (final(self).count + 1),
            final(self)@ == old(self).stored(),
    {
        let base = if self.capacity < 2 { 2 } else { self.capacity };
        let new_cap = base * 3 / 2;
        proof {
            let (c, n) = (self.capacity as int, self.count as int);
            assert(new_cap <= 3 * (n + 1)) by (nonlinear_arith)
                requires
                    (n + 1) * 10 > c * 7,
                    c >= 1,
                    base == if c < 2 { 2 } else { c },
                    new_cap == base * 3 / 2,
            ;
            assert(new_cap > n + 1 && new_cap > c) by (nonlinear_arith)
                requires
                    n < c,
                    c >= 1,
                    base == if c < 2 { 2 } else { c },
                    new_cap == base * 3 / 2,
            ;
        }
        self.adjust_capacity(new_cap)
    }

    /// Moves every entry into a new table of `capacity` slots, growing it further where the
    /// moved entries load it over 70%.
    fn adjust_capacity(&mut self, capacity: usize) -> (r: Result<(), MapError>)
        requires
            old(self).wf_loose(),
            old(self).no_dups(),
            old(self).count < capacity,
            capacity <= MAP_SIZE_LIMIT,
            3 * old(self).count <= MAP_SIZE_LIMIT,
        ensures
            r is Ok,
            final(self).wf(),
            final(self).consistent(),
            final(self).count == old(self).count,
            final(self).capacity >= capacity,
            final(self).capacity <= capacity || final(self).capacity <= 3 * final(self).count,
            final(self)@ == old(self).stored(),
        decreases usize::MAX - capacity + 1, 2int,
    {
        let mut fresh = Self::empty_table(capacity);
        std::mem::swap(self, &mut fresh);
        let ghost old_slots = fresh.slots();
        let ghost old_vals = fresh.slot_values();
        let old_cap = fresh.capacity;
        proof {
            assert(old_slots == old(self).slots());
            assert(old_vals == old(self).slot_values());
            old(self).lemma_wf_facts();
            assert(old_slots.take(0) =~= Seq::<Option<(u64, Seq<u8>)>>::empty());
        }
        let mut i: usize = 0;
        while i < old_cap
            invariant
                fresh.hashes@ == old(self).hashes@,
                fresh.keys@.len() == old_cap,
                fresh.values@.len() == old_cap,
                forall|j: int| i <= j < old_cap ==> #[trigger] fresh.keys@[j] == old(self).keys@[j],
                forall|j: int| i <= j < old_cap ==> #[trigger] fresh.values@[j] == old(self).values@[j],
                old_cap == old(self).capacity,
                old_slots == old(self).slots(),
                old_vals == old(self).slot_values(),
                old_slots.len() == old_cap,
                old(self).wf_loose(),
                no_dups(old_slots),
                old(self).count < capacity,
                capacity <= MAP_SIZE_LIMIT,
                3 * old(self).count <= MAP_SIZE_LIMIT,
                i <= old_cap,
                self.wf(),
                self.consistent(),
                self.capacity >= capacity,
                self.capacity <= capacity || self.capacity <= 3 * self.count,
                self.count == num_occupied(old_slots.take(i as int)),
                self@ == entries_map(old_slots, old_vals, i as int),
            decreases old_cap - i,
        {
            proof {
                lemma_num_occupied_prefix(old_slots, i as int);
            }
            let hh = fresh.hashes[i];
            if hh != 0 {
                let key = fresh.keys[i].take();
                let value = fresh.values[i].take();
                match (key, value) {
                    (Some(k), Some(v)) => {
                        let ghost t = key_target(hh, &k);
                        proof {
                            assert(old_slots[i as int] == Some(t));
                            self.lemma_consistent_no_dups();
                            lemma_entries_map_dom(old_slots, old_vals, i as int, t);
                            if self@.contains_key(t) {
                                let j = choose|j: int| 0 <= j < i && old_slots[j] == Some(t);
                                assert(old_slots[j] is Some);
                                assert(false);
                            }
                            lemma_num_occupied_bound(old_slots);
                            assert(self.count + 1 <= old(self).count);
                            assert(self.can_insert(t));
                        }
                        match self.insert_with_hint(hh, k, v) {
                            Ok(()) => {},
                            Err(e) => {
                                return Err(e);
                            },
                        }
                    },
                    _ => {},
                }
            }
            proof {
                assert(entries_map(old_slots, old_vals, i + 1) == (match old_slots[i as int] {
                    Some(t) => entries_map(old_slots, old_vals, i as int).insert(t, old_vals[i as int]),
                    None => entries_map(old_slots, old_vals, i as int),
                }));
            }
            i = i + 1;
        }
        proof {
            assert(old_slots.take(old_cap as int) =~= old_slots);
        }
        Ok(())
    }

    /// Inserts `value` under `key`, replacing the value stored under it before, and returns
    /// the key's hash. Grows the table afterwards when the insertion loaded it over 70%. The
    /// table is consistent, as every constructor and mutator leaves it, or has room for the key.
    pub fn insert(&mut self, key: K, value: V) -> (r: Result<u64, MapError>)
        requires
            old(self).wf(),
            old(self).fits(),
            key_hash(&key) != 0,
            old(self).consistent() || old(self).can_insert(key_target(key_hash(&key), &key)),
        ensures
            r == Ok::<u64, MapError>(key_hash(&key)),
            final(self).wf(),
            final(self)@.contains_key(key_target(key_hash(&key), &key)),
            final(self)@[key_target(key_hash(&key), &key)] == value,
            forall|t2: (u64, Seq<u8>)|
                t2 != key_target(key_hash(&key), &key) && #[trigger] old(self)@.contains_key(t2)
                    ==> final(self)@.contains_key(t2) && final(self)@[t2] == old(self)@[t2],
            final(self).spec_len() == old(self).spec_len() + if old(self)@.contains_key(
                key_target(key_hash(&key), &key),
            ) {
                0int
            } else {
                1int
            },
            final(self).spec_capacity() >= old(self).spec_capacity(),
            final(self).spec_capacity() <= old(self).spec_capacity() || final(self).spec_capacity()
                <= 3 * final(self).spec_len(),
            old(self).consistent() ==> final(self).consistent() && final(self)@ == old(self)@.insert(
                key_target(key_hash(&key), &key),
                value,
            ),
    {
        proof {
            if self.consistent() {
                self.lemma_consistent_no_dups();
            }
        }
        let h = hash(&key);
        match self.insert_with_hint(h, key, value) {
            Ok(()) => Ok(h),
            Err(e) => Err(e),
        }
    }

    /// Grows the table to `capacity() + additional_cap` slots, moving every entry.
    pub fn reserve(&mut self, additional_cap: usize) -> (r: Result<(), MapError>)
        requires
            old(self).wf(),
            old(self).no_dups(),
            old(self).spec_capacity() + additional_cap <= MAP_SIZE_LIMIT,
            3 * old(self).spec_len() <= MAP_SIZE_LIMIT,
        ensures
            r is Ok,
            final(self).wf(),
            final(self).consistent(),
            final(self).spec_len() == old(self).spec_len(),
            final(self).spec_capacity() >= old(self).spec_capacity() + additional_cap,
            final(self)@ == old(self).stored(),
            old(self).consistent() ==> final(self)@ == old(self)@,
    {
        proof {
            if old(self).consistent() {
                self.lemma_stored_is_view();
            }
        }
        self.adjust_capacity(self.capacity + additional_cap)
    }

    /// In a consistent table every stored entry is found: the stored entries are the view.
    pub proof fn lemma_stored_is_view(&self)
        requires
            self.wf(),
            self.consistent(),
        ensures
            self.stored() == self@,
    {
        self.lemma_wf_facts();
        self.lemma_consistent_no_dups();
        let s = self.slots();
        lemma_entries_map_no_dups(s, self.slot_values(), s.len() as int);
        assert forall|t: (u64, Seq<u8>)| #[trigger] self.stored().contains_key(t) implies self@.contains_key(t)
            && self.stored()[t] == self@[t] by {
            let p = choose|p: int| 0 <= p < s.len() && s[p] == Some(t);
            assert(s[p] is Some);
            assert(self.holds(t));
            assert(slot_for(s, self.home(), t) == p);
        }
        assert forall|t: (u64, Seq<u8>)| #[trigger] self@.contains_key(t) implies self.stored().contains_key(t) by {
            lemma_find(s, t, self.home()(t));
            let p = slot_for(s, self.home(), t);
            assert(s[p] == Some(t));
        }
        assert(self.stored() =~= self@);
    }

    /// The stored keys and values, in slot order.
    pub closed spec fn listed(&self) -> Seq<(K, V)> {
        occupied_indices(self.slots(), self.capacity as int).map_values(
            |i: int| (self.keys@[i]->Some_0, self.values@[i]->Some_0),
        )
    }

    /// The stored keys and values, in slot order.
    pub fn iter(&self) -> (r: Vec<(&K, &V)>)
        requires
            self.wf_loose(),
        ensures
            r@.map_values(|p: (&K, &V)| (*p.0, *p.1)) == self.listed(),
            r@.len() == self.spec_len(),
    {
        let mut out: Vec<(&K, &V)> = Vec::new();
        let mut i: usize = 0;
        let ghost s = self.slots();
        let ghost f = |i: int| (self.keys@[i]->Some_0, self.values@[i]->Some_0);
        while i < self.capacity
            invariant
                self.wf_loose(),
                s == self.slots(),
                f == (|i: int| (self.keys@[i]->Some_0, self.values@[i]->Some_0)),
                i <= self.capacity,
                out@.map_values(|p: (&K, &V)| (*p.0, *p.1)) == occupied_indices(s, i as int).map_values(f),
            decreases self.capacity - i,
        {
            if self.hashes[i] != 0 {
                match (&self.keys[i], &self.values[i]) {
                    (Some(k), Some(v)) => {
                        let ghost prev = out@;
                        out.push((k, v));
                        proof {
                            assert(out@.map_values(|p: (&K, &V)| (*p.0, *p.1)) =~= prev.map_values(
                                |p: (&K, &V)| (*p.0, *p.1),
                            ).push((*k, *v)));
                            assert(occupied_indices(s, i + 1) == occupied_indices(s, i as int).push(i as int));
                            assert(occupied_indices(s, i + 1).map_values(f) =~= occupied_indices(s, i as int).map_values(f).push(f(i as int)));
                        }
                    },
                    _ => {},
                }
            } else {
                proof {
                    assert(occupied_indices(s, i + 1) == occupied_indices(s, i as int));
                }
            }
            i = i + 1;
        }
        proof {
            lemma_occupied_indices(s, self.capacity as int);
            assert(s.take(self.capacity as int) =~= s);
        }
        out
    }

    /// Whether the map holds hash `h` with key `k`.
    pub fn contains_with_hint(&self, h: u64, k: &K) -> (r: bool)
        requires
            self.wf(),
        ensures
            r == self@.contains_key(key_target(h, k)),
    {
        let i = self.find_ind(h, k);
        self.hashes[i] != 0
    }

    /// Whether the map holds `key`.
    pub fn contains(&self, key: &K) -> (r: bool)
        requires
            self.wf(),
        ensures
            r == self@.contains_key(key_target(key_hash(key), key)),
    {
        let h = hash(key);
        self.contains_with_hint(h, key)
    }

    /// The value stored under hash `h` and key `k`.
    pub fn get_with_hint(&self, h: u64, k: &K) -> (r: Option<&V>)
        requires
            self.wf(),
        ensures
            r is Some == self@.contains_key(key_target(h, k)),
            r matches Some(v) ==> *v == self@[key_target(h, k)],
    {
        let i = self.find_ind(h, k);
        if self.hashes[i] != 0 {
            self.values[i].as_ref()
        } else {
            None
        }
    }

    /// The value stored under `key`.
    pub fn get(&self, key: &K) -> (r: Option<&V>)
        requires
            self.wf(),
        ensures
            r is Some == self@.contains_key(key_target(key_hash(key), key)),
            r matches Some(v) ==> *v == self@[key_target(key_hash(key), key)],
    {
        let h = hash(key);
        self.get_with_hint(h, key)
    }

    /// Mutable access to the value stored under hash `h` and key `k`. Writing through the
    /// returned reference changes that value and nothing else (see
    /// [`lemma_value_replaced`]).
    pub fn get_with_hint_mut(&mut self, h: u64, k: &K) -> (r: Option<&mut V>)
        requires
            old(self).wf(),
        ensures
            r is Some == old(self)@.contains_key(key_target(h, k)),
            r matches Some(v) ==> *v == old(self)@[key_target(h, k)],
            r matches Some(v) ==> value_replaced(*old(self), *final(self), key_target(h, k)),
            r matches Some(v) ==> *final(v) == replaced_value(*old(self), *final(self), key_target(h, k)),
            r matches Some(v) ==> final(self).wf() && final(self).spec_len() == old(self).spec_len()
                && final(self).spec_capacity() == old(self).spec_capacity(),
            r is None ==> *final(self) == *old(self),
    {
        broadcast use lemma_value_replaced_wf;

        let i = self.find_ind(h, k);
        proof {
            self.lemma_wf_facts();
            lemma_find(self.slots(), key_target(h, k), self.home()(key_target(h, k)));
        }
        if self.hashes[i] != 0 {
            let slot = &mut self.values[i];
            slot.as_mut()
        } else {
            None
        }
    }

    /// Mutable access to the value stored under `key`.
    pub fn get_mut(&mut self, key: &K) -> (r: Option<&mut V>)
        requires
            old(self).wf(),
        ensures
            r is Some == old(self)@.contains_key(key_target(key_hash(key), key)),
            r matches Some(v) ==> *v == old(self)@[key_target(key_hash(key), key)],
            r matches Some(v) ==> value_replaced(*old(self), *final(self), key_target(key_hash(key), key)),
            r matches Some(v) ==> *final(v) == replaced_value(
                *old(self),
                *final(self),
                key_target(key_hash(key), key),
            ),
            r matches Some(v) ==> final(self).wf() && final(self).spec_len() == old(self).spec_len()
                && final(self).spec_capacity() == old(self).spec_capacity(),
            r is None ==> *final(self) == *old(self),
    {
        let h = hash(key);
        self.get_with_hint_mut(h, key)
    }

    /// Moves back, into the empty slot `i0`, the entries that follow it up to the next empty
    /// slot: each one whose lookup, starting at its home slot, passes over the current gap moves
    /// into the gap, which then moves to where it was.
    fn close_gap(&mut self, i0: usize, Ghost(e): Ghost<int>, Ghost(gapped): Ghost<bool>)
        requires
            old(self).wf(),
            old(self).capacity >= 2,
            i0 < old(self).capacity,
            0 <= e < old(self).capacity,
            e != i0,
            old(self).hashes@[i0 as int] == 0,
            old(self).hashes@[e] == 0,
            gapped ==> no_dups(old(self).slots()),
            gapped ==> gap_ok(
                old(self).slots(),
                old(self).home(),
                i0 as int,
                ((i0 + 1) as int) % (old(self).capacity as int),
            ),
        ensures
            final(self).wf(),
            final(self).capacity == old(self).capacity,
            final(self).count == old(self).count,
            entries_within(final(self).slots(), final(self).slot_values(), old(self).slots(), old(self).slot_values()),
            entries_within(old(self).slots(), old(self).slot_values(), final(self).slots(), final(self).slot_values()),
            old(self).no_dups() ==> final(self).no_dups(),
            gapped ==> final(self).consistent(),
    {
        let ghost s1 = self.slots();
        let ghost vals = self.slot_values();
        let ghost home = self.home();
        let cap = self.capacity;
        let ind = i0;
        proof {
            if ind + 1 < cap {
                vstd::arithmetic::div_mod::lemma_small_mod((ind + 1) as nat, cap as nat);
            } else {
                vstd::arithmetic::div_mod::lemma_mod_self_0(cap as int);
            }
            lemma_entries_within_same(s1, vals, vals);
            self.lemma_wf_facts();
        }
        let mut i = ind;
        let mut j = (ind + 1) % cap;
        while self.hashes[j] != 0
            invariant
                cap == self.capacity,
                cap == old(self).capacity,
                cap >= 2,
                home == self.home(),
                valid_home(self.slots(), home),
                self.hashes@.len() == cap,
                self.keys@.len() == cap,
                self.values@.len() == cap,
                forall|x: int|
                    0 <= x < cap ==> (#[trigger] self.hashes@[x] == 0) == (self.keys@[x] is None)
                        && (self.hashes@[x] == 0) == (self.values@[x] is None),
                self.count == num_occupied(self.slots()),
                self.count < cap,
                self.count == old(self).count,
                i < cap,
                j < cap,
                0 <= i0 < cap,
                s1 == old(self).slots(),
                vals == old(self).slot_values(),
                0 <= e < cap,
                e != i0,
                self.hashes@[i as int] == 0,
                self.hashes@[e] == 0,
                dist(cap as int, i0 as int, i as int) < dist(cap as int, i0 as int, j as int),
                dist(cap as int, i0 as int, j as int) <= dist(cap as int, i0 as int, e),
                s1.len() == cap,
                vals.len() == cap,
                entries_within(self.slots(), self.slot_values(), s1, vals),
                entries_within(s1, vals, self.slots(), self.slot_values()),
                no_dups(s1) ==> no_dups(self.slots()),
                gapped ==> no_dups(s1),
                gapped ==> gap_ok(self.slots(), home, i as int, j as int),
            decreases dist(cap as int, i0 as int, e) - dist(cap as int, i0 as int, j as int),
        {
            let hj = self.hashes[j];
            let ghost cur = self.slots();
            let ghost curv = self.slot_values();
            proof {
                assert(j as int != e);
                if j + 1 < cap {
                    vstd::arithmetic::div_mod::lemma_small_mod((j + 1) as nat, cap as nat);
                } else {
                    vstd::arithmetic::div_mod::lemma_mod_self_0(cap as int);
                }
            }
            let j2 = (j + 1) % cap;
            let hm = (hj.wrapping_mul(FIB_MULTIPLIER) as usize) % cap;
            let d_i = if i >= hm { i - hm } else { cap - (hm - i) };
            let d_j = if j >= hm { j - hm } else { cap - (hm - j) };
            proof {
                assert(cur[j as int] is Some);
                assert(hm as int == home(cur[j as int].unwrap()));
                assert(d_i == dist(cap as int, hm as int, i as int));
                assert(d_j == dist(cap as int, hm as int, j as int));
                lemma_dist_sub(cap as int, i0 as int, i as int, j as int);
                lemma_dist_sub(cap as int, i0 as int, i as int, j2 as int);
            }
            if d_i < d_j {
                self.hashes.set(i, hj);
                let k = self.keys[j].take();
                self.keys.set(i, k);
                let v = self.values[j].take();
                self.values.set(i, v);
                self.hashes.set(j, 0);
                proof {
                    let (ii, jj) = (i as int, j as int);
                    assert(cur[ii] is None);
                    assert(cur[jj] is Some);
                    assert(self.slots() =~= moved(cur, ii, jj));
                    assert(self.slot_values()[ii] == curv[jj]);
                    assert forall|x: int| 0 <= x < cap && x != ii && x != jj implies #[trigger] self.slot_values()[x]
                        == curv[x] by {}
                    assert(moved_values(curv, self.slot_values(), ii, jj));
                    lemma_move_keeps_entries(s1, vals, cur, curv, self.slot_values(), ii, jj);
                    lemma_move_keeps_count(cur, ii, jj);
                    assert forall|x: int| 0 <= x < cap implies (#[trigger] self.hashes@[x] == 0) == (
                    self.keys@[x] is None) && (self.hashes@[x] == 0) == (self.values@[x] is None) by {
                        if x != ii && x != jj {
                            assert(cur[x] == self.slots()[x]);
                        }
                    }
                    if gapped {
                        assert forall|a: int| 0 <= a < cap && a != jj implies cur[a] != cur[jj] by {
                            if cur[a] is Some {
                                assert(cur[a] != cur[jj]);
                            }
                        }
                        lemma_gap_move(cur, home, ii, jj, j2 as int);
                    }
                }
                i = j;
            } else {
                proof {
                    if gapped {
                        lemma_gap_skip(cur, home, i as int, j as int, j2 as int);
                    }
                }
            }
            j = j2;
        }
        proof {
            if gapped {
                lemma_vacancy(self.slots());
                lemma_gap_end(self.slots(), home, i as int, j as int);
            }
        }
    }

    /// Removes the entry of hash `h` and key `key`, returning its value.
    ///
    /// The entries that follow the emptied slot, up to the next empty slot, are moved back
    /// into the gap when their lookup passes over it, so that lookups keep finding them.
    pub fn remove_with_hint(&mut self, h: u64, key: &K) -> (r: Option<V>)
        requires
            old(self).wf(),
        ensures
            final(self).wf(),
            final(self).spec_capacity() == old(self).spec_capacity(),
            r == if old(self)@.contains_key(key_target(h, key)) {
                Some(old(self)@[key_target(h, key)])
            } else {
                None::<V>
            },
            final(self).spec_len() == old(self).spec_len() - if old(self)@.contains_key(
                key_target(h, key),
            ) {
                1int
            } else {
                0int
            },
            !old(self)@.contains_key(key_target(h, key)) ==> *final(self) == *old(self),
            old(self).no_dups() ==> final(self).no_dups(),
            old(self).no_dups() && old(self)@.contains_key(key_target(h, key)) ==> {
                &&& !final(self).holds(key_target(h, key))
                &&& final(self).stored() == old(self).stored().remove(key_target(h, key))
            },
            old(self).consistent() ==> final(self).consistent() && final(self)@ == old(self)@.remove(
                key_target(h, key),
            ),
    {
        let ghost t = key_target(h, key);
        let ghost s = self.slots();
        let ghost vals = self.slot_values();
        let ind = self.find_ind(h, key);
        proof {
            self.lemma_wf_facts();
            lemma_find(s, t, self.home()(t));
        }
        if self.hashes[ind] == 0 {
            return None;
        }
        let ghost i0 = ind as int;
        let ghost e = choose|e: int| 0 <= e < s.len() && s[e] is None;
        let ghost s1 = s.update(i0, None);
        proof {
            assert(s[i0] == Some(t));
            assert(e != i0);
            lemma_num_occupied_update(s, i0, None);
        }
        self.hashes.set(ind, 0);
        let _removed_key = self.keys[ind].take();
        let result = self.values[ind].take();
        self.count = self.count - 1;
        let cap = self.capacity;
        proof {
            assert(self.slots() =~= s1);
            assert(cap >= 2);
            if ind + 1 < cap {
                vstd::arithmetic::div_mod::lemma_small_mod((ind + 1) as nat, cap as nat);
            } else {
                vstd::arithmetic::div_mod::lemma_mod_self_0(cap as int);
            }
            assert forall|x: int| 0 <= x < cap implies (#[trigger] self.hashes@[x] == 0) == (
            self.keys@[x] is None) && (self.hashes@[x] == 0) == (self.values@[x] is None) by {
                if x != i0 {
                    assert(old(self).hashes@[x] == 0 <==> old(self).keys@[x] is None);
                    assert(old(self).hashes@[x] == 0 <==> old(self).values@[x] is None);
                }
            }
            lemma_num_occupied_update(s, i0, None);
            if no_dups(s) {
                lemma_no_dups_clear(s, i0);
            }
            lemma_vacancy(self.slots());
            if old(self).consistent() {
                old(self).lemma_consistent_no_dups();
                lemma_gap_start(s, old(self).home(), i0, ((ind + 1) as int) % (cap as int));
                assert(self.home() == old(self).home());
            }
        }
        let ghost mid_vals = self.slot_values();
        self.close_gap(ind, Ghost(e), Ghost(old(self).consistent()));
        proof {
            lemma_vacancy(self.slots());
            if no_dups(s) {
                let fs = self.slots();
                let fv = self.slot_values();
                assert(!self.holds(t)) by {
                    reveal(entries_within);
                    if self.holds(t) {
                        let a = choose|a: int| 0 <= a < fs.len() && fs[a] == Some(t);
                        assert(fs[a] is Some);
                        let q = choose|q: int| 0 <= q < s1.len() && s1[q] == fs[a] && mid_vals[q] == fv[a];
                        assert(q != i0);
                        assert(s[q] is Some);
                    }
                }
                lemma_same_entries(fs, fv, s1, mid_vals);
                lemma_entries_map_clear(s, vals, i0);
                lemma_entries_map_same_values(s1, vals, mid_vals);
            }
            if old(self).consistent() {
                old(self).lemma_stored_is_view();
                self.lemma_stored_is_view();
            }
        }
        result
    }

    /// Removes the entry of `key`, returning its value.
    pub fn remove(&mut self, key: &K) -> (r: Option<V>)
        requires
            old(self).wf(),
        ensures
            final(self).wf(),
            final(self).spec_capacity() == old(self).spec_capacity(),
            r == if old(self)@.contains_key(key_target(key_hash(key), key)) {
                Some(old(self)@[key_target(key_hash(key), key)])
            } else {
                None::<V>
            },
            final(self).spec_len() == old(self).spec_len() - if old(self)@.contains_key(
                key_target(key_hash(key), key),
            ) {
                1int
            } else {
                0int
            },
            !old(self)@.contains_key(key_target(key_hash(key), key)) ==> *final(self) == *old(self),
            old(self).no_dups() ==> final(self).no_dups(),
            old(self).no_dups() && old(self)@.contains_key(key_target(key_hash(key), key)) ==> {
                &&& !final(self).holds(key_target(key_hash(key), key))
                &&& final(self).stored() == old(self).stored().remove(key_target(key_hash(key), key))
            },
            old(self).consistent() ==> final(self).consistent() && final(self)@ == old(self)@.remove(
                key_target(key_hash(key), key),
            ),
    {
        let h = hash(key);
        self.remove_with_hint(h, key)
    }

    /// Removes every entry, keeping the capacity.
    pub fn clear(&mut self)
        requires
            old(self).wf_loose(),
        ensures
            final(self).wf(),
            final(self).consistent(),
            final(self)@ == Map::<(u64, Seq<u8>), V>::empty(),
            final(self).stored() == Map::<(u64, Seq<u8>), V>::empty(),
            final(self).spec_len() == 0,
            final(self).spec_capacity() == old(self).spec_capacity(),
    {
        let cap = self.capacity;
        let mut i: usize = 0;
        while i < cap
            invariant
                cap == self.capacity,
                cap == old(self).capacity,
                cap > 0,
                self.hashes@.len() == cap,
                self.keys@.len() == cap,
                self.values@.len() == cap,
                i <= cap,
                forall|j: int| 0 <= j < i ==> (#[trigger] self.hashes@[j]) == 0,
                forall|j: int| 0 <= j < i ==> (#[trigger] self.keys@[j]) is None,
                forall|j: int| 0 <= j < i ==> (#[trigger] self.values@[j]) is None,
            decreases cap - i,
        {
            if self.hashes[i] != 0 {
                self.hashes.set(i, 0);
                self.keys.set(i, None);
                self.values.set(i, None);
            } else {
                self.keys.set(i, None);
                self.values.set(i, None);
            }
            i = i + 1;
        }
        self.count = 0;
        proof {
            lemma_num_occupied_empty(self.slots());
            self.lemma_wf_facts();
            assert forall|t: (u64, Seq<u8>)| !present(self.slots(), self.home(), t) by {
                lemma_find(self.slots(), t, self.home()(t));
            }
            assert(self@ =~= Map::<(u64, Seq<u8>), V>::empty());
            lemma_entries_map_empty(self.slots(), self.slot_values(), cap as int);
        }
    }
}

/// `m2` is `m` with the value in the slot of `t` replaced.
pub closed spec fn value_replaced<K: CaoKey, V>(m: CaoHashMap<K, V>, m2: CaoHashMap<K, V>, t: (u64, Seq<u8>)) -> bool {
    let ind = m.slot_of(t);
    &&& m2.hashes == m.hashes
    &&& m2.keys == m.keys
    &&& m2.count == m.count
    &&& m2.capacity == m.capacity
    &&& m2.values@.len() == m.values@.len()
    &&& m.values@[ind] is Some
    &&& m2.values@[ind] is Some
    &&& forall|i: int| 0 <= i < m.capacity && i != ind ==> m2.values@[i] == m.values@[i]
}

/// The value that the entry of `t` holds in `m2`, where `m2` is `m` with that value replaced.
pub closed spec fn replaced_value<K: CaoKey, V>(m: CaoHashMap<K, V>, m2: CaoHashMap<K, V>, t: (u64, Seq<u8>)) -> V {
    m2.values@[m.slot_of(t)]->Some_0
}

/// Replacing the value of a found entry, as writing through [`CaoHashMap::get_mut`] does,
/// changes the map at that entry only.
pub proof fn lemma_value_replaced<K: CaoKey, V>(m: CaoHashMap<K, V>, m2: CaoHashMap<K, V>, t: (u64, Seq<u8>))
    requires
        m.wf(),
        value_replaced(m, m2, t),
    ensures
        m2.wf(),
        m2@ == m@.insert(t, replaced_value(m, m2, t)),
        m.consistent() ==> m2.consistent(),
        m.no_dups() ==> m2.no_dups(),
{
    m.lemma_wf_facts();
    let ind = m.slot_of(t);
    let s = m.slots();
    assert(m2.slots() =~= s);
    assert(m2.home() == m.home());
    lemma_find(s, t, m.home()(t));
    assert(m@.contains_key(t));
    let fv = m2.values@[ind]->Some_0;
    assert forall|t2: (u64, Seq<u8>)| #[trigger] m2@.contains_key(t2) == m@.insert(t, fv).contains_key(t2) by {}
    assert forall|t2: (u64, Seq<u8>)| m2@.contains_key(t2) implies m2@[t2] == m@.insert(t, fv)[t2] by {
        if t2 != t {
            lemma_find(s, t2, m.home()(t2));
            assert(slot_for(s, m.home(), t2) != ind);
        }
    }
    assert(m2@ =~= m@.insert(t, fv));
    assert forall|i: int| 0 <= i < m2.capacity implies (#[trigger] m2.hashes@[i] == 0) == (
    m2.values@[i] is None) by {
        if i != ind {
            assert(m.hashes@[i] == 0 <==> m.values@[i] is None);
        }
    }
}

broadcast proof fn lemma_value_replaced_wf<K: CaoKey, V>(m: CaoHashMap<K, V>, m2: CaoHashMap<K, V>, t: (u64, Seq<u8>))
    requires
        m.wf(),
        #[trigger] value_replaced(m, m2, t),
    ensures
        m2.wf(),
        m2@ == m@.insert(t, replaced_value(m, m2, t)),
        m.consistent() ==> m2.consistent(),
{
    lemma_value_replaced(m, m2, t);
}

/// Inserting a key that a consistent map does not hold and then removing it gives the value
/// back, and the map stores and finds afterwards the entries it held before.
pub proof fn lemma_insert_then_remove<K: CaoKey, V>(
    m0: CaoHashMap<K, V>,
    m1: CaoHashMap<K, V>,
    m2: CaoHashMap<K, V>,
    t: (u64, Seq<u8>),
    v: V,
    r: Option<V>,
)
    requires
        m0.wf(),
        m0.consistent(),
        !m0@.contains_key(t),
        m1.wf(),
        m1.consistent(),
        m1@ == m0@.insert(t, v),
        r == if m1@.contains_key(t) { Some(m1@[t]) } else { None::<V> },
        m1.no_dups() && m1@.contains_key(t) ==> m2.stored() == m1.stored().remove(t),
        m1.consistent() ==> m2.consistent() && m2@ == m1@.remove(t),
    ensures
        r == Some(v),
        m2.stored() == m0@,
        m2.consistent(),
        m2@ == m0@,
{
    m1.lemma_consistent_no_dups();
    m1.lemma_stored_is_view();
    assert(m0@.insert(t, v).remove(t) =~= m0@);
}

/// The slot of a key in a [`CaoHashMap`], found by [`CaoHashMap::entry`]: the slot holding the
/// key's entry, or the empty slot that the key takes.
pub struct Entry<'a, K, V> {
    pub map: &'a mut CaoHashMap<K, V>,
    pub hash: u64,
    pub key: K,
    pub slot: usize,
}

impl<'a, K: CaoKey, V> Entry<'a, K, V> {
    /// The hash and key of the entry.
    pub open spec fn target(&self) -> (u64, Seq<u8>) {
        key_target(self.hash, &self.key)
    }

    /// The slot is where the lookup of the key ends in the map, and a new entry there leaves
    /// an empty slot.
    pub closed spec fn ready(&self) -> bool {
        &&& self.map.wf()
        &&& self.hash != 0
        &&& self.slot == self.map.slot_of(self.target())
        &&& !self.map@.contains_key(self.target()) ==> self.map.count + 1 < self.map.capacity
    }

    /// The value of the entry, inserting the value that `fun` gives when the key has none.
    pub fn or_insert_with<F: FnOnce() -> V>(self, fun: F) -> (r: &'a mut V)
        requires
            self.ready(),
            fun.requires(()),
        ensures
            ({
                let t = self.target();
                let (m0, m) = (*old(self.map), *final(self.map));
                &&& m.wf()
                &&& m@.contains_key(t)
                &&& m@[t] == *final(r)
                &&& m0@.contains_key(t) ==> *r == m0@[t] && m.spec_len() == m0.spec_len()
                &&& !m0@.contains_key(t) ==> fun.ensures((), *r) && m.spec_len() == m0.spec_len() + 1
                &&& m.spec_capacity() == m0.spec_capacity()
                &&& forall|t2: (u64, Seq<u8>)|
                    t2 != t && #[trigger] m0@.contains_key(t2) ==> m@.contains_key(t2) && m@[t2]
                        == m0@[t2]
                &&& m0.consistent() ==> m.consistent() && m@ == m0@.insert(t, *final(r))
            }),
    {
        broadcast use lemma_value_replaced_wf;

        let Entry { map, hash, key, slot } = self;
        let ghost t = key_target(hash, &key);
        proof {
            map.lemma_wf_facts();
            lemma_find(map.slots(), t, map.home()(t));
        }
        if map.hashes[slot] == 0 {
            let v = fun();
            map.store_new(hash, key, v);
        }
        map.slot_value_mut(slot, Ghost(t))
    }
}

impl<K: CaoKey, V> CaoHashMap<K, V> {
    /// Stores `value` under hash `h` and `key`, which the map does not find, at the slot where
    /// their lookup ends.
    fn store_new(&mut self, h: u64, key: K, value: V)
        requires
            old(self).wf(),
            h != 0,
            !old(self)@.contains_key(key_target(h, &key)),
            old(self).count + 1 < old(self).capacity,
        ensures
            final(self).wf(),
            final(self).capacity == old(self).capacity,
            final(self).count == old(self).count + 1,
            final(self).slot_of(key_target(h, &key)) == old(self).slot_of(key_target(h, &key)),
            final(self)@.contains_key(key_target(h, &key)),
            final(self)@[key_target(h, &key)] == value,
            forall|t2: (u64, Seq<u8>)|
                t2 != key_target(h, &key) && #[trigger] old(self)@.contains_key(t2)
                    ==> final(self)@.contains_key(t2) && final(self)@[t2] == old(self)@[t2],
            old(self).consistent() ==> final(self).consistent() && final(self)@ == old(self)@.insert(
                key_target(h, &key),
                value,
            ),
    {
        let ghost t = key_target(h, &key);
        let ghost s = self.slots();
        let ghost sl = self.slot_of(t);
        proof {
            self.lemma_wf_facts();
            lemma_find(s, t, self.home()(t));
        }
        self.insert_in_place(h, key, value);
        let ghost s2 = s.update(sl, Some(t));
        proof {
            assert(self.count < self.capacity);
            lemma_vacancy(s2);
            lemma_store(s, old(self).home(), t);
            assert(self.home() == old(self).home());
            assert(self@.contains_key(t));
            assert forall|t2: (u64, Seq<u8>)|
                t2 != t && #[trigger] old(self)@.contains_key(t2) implies self@.contains_key(t2)
                && self@[t2] == old(self)@[t2] by {
                assert(present(s, old(self).home(), t2));
                let p = slot_for(s, old(self).home(), t2);
                lemma_find(s, t2, old(self).home()(t2));
                assert(p != sl);
            }
            if old(self).consistent() {
                assert forall|t2: (u64, Seq<u8>)| #[trigger] self@.contains_key(t2) implies old(
                    self,
                )@.insert(t, value).contains_key(t2) && self@[t2] == old(self)@.insert(t, value)[t2] by {
                    if t2 != t {
                        assert(present(s2, self.home(), t2));
                        assert(present(s, old(self).home(), t2));
                        let p = slot_for(s, old(self).home(), t2);
                        lemma_find(s, t2, old(self).home()(t2));
                        assert(p != sl);
                    }
                }
                assert(self@ =~= old(self)@.insert(t, value));
            }
        }
    }

    /// Mutable access to the value in `slot`, where the lookup of `t` finds its entry.
    fn slot_value_mut(&mut self, slot: usize, Ghost(t): Ghost<(u64, Seq<u8>)>) -> (r: &mut V)
        requires
            old(self).wf(),
            old(self)@.contains_key(t),
            slot == old(self).slot_of(t),
        ensures
            *r == old(self)@[t],
            value_replaced(*old(self), *final(self), t),
            *final(r) == replaced_value(*old(self), *final(self), t),
    {
        proof {
            self.lemma_wf_facts();
            lemma_find(self.slots(), t, self.home()(t));
        }
        let cell = &mut self.values[slot];
        cell.as_mut().unwrap()
    }

    /// The entry of `key`: the slot holding it, or the empty slot that it takes. When the key
    /// is not held and one more entry would load the table over 70%, the table grows first.
    /// The table is consistent, as every constructor and mutator leaves it, or has room for the
    /// key.
    pub fn entry(&mut self, key: K) -> (r: Result<Entry<'_, K, V>, MapError>)
        requires
            old(self).wf(),
            old(self).fits(),
            key_hash(&key) != 0,
            old(self).consistent() || old(self).can_insert(key_target(key_hash(&key), &key)),
        ensures
            r is Ok,
            r matches Ok(e) ==> {
                let t = key_target(key_hash(&key), &key);
                &&& e.hash == key_hash(&key)
                &&& e.key == key
                &&& e.ready()
                &&& *final(self) == *final(e.map)
                &&& e.map@.contains_key(t) == old(self)@.contains_key(t)
                &&& e.map.spec_len() == old(self).spec_len()
                &&& e.map.spec_capacity() >= old(self).spec_capacity()
                &&& e.map.spec_capacity() <= old(self).spec_capacity() || e.map.spec_capacity() <= 3 * (
                e.map.spec_len() + 1)
                &&& old(self).consistent() ==> e.map.consistent() && e.map@ == old(self)@
                &&& !old(self)@.contains_key(t) && spec_needs_grow(
                    old(self).spec_len() + 1int,
                    old(self).spec_capacity() as int,
                ) ==> e.map.spec_capacity() > old(self).spec_capacity()
                &&& !(!old(self)@.contains_key(t) && spec_needs_grow(
                    old(self).spec_len() + 1int,
                    old(self).spec_capacity() as int,
                )) ==> e.map.spec_capacity() == old(self).spec_capacity()
            },
    {
        proof {
            if self.consistent() {
                self.lemma_consistent_no_dups();
            }
        }
        let h = hash(&key);
        let ghost t = key_target(h, &key);
        let i = self.find_ind(h, &key);
        proof {
            self.lemma_wf_facts();
            lemma_find(self.slots(), t, self.home()(t));
        }
        if self.hashes[i] == 0 && Self::needs_grow(self.count + 1, self.capacity) {
            proof {
                assert(!present(self.slots(), self.home(), t));
                assert(!self.holds(t));
            }
            match self.grow_ahead() {
                Ok(()) => {},
                Err(e) => {
                    return Err(e);
                },
            }
            proof {
                lemma_entries_map_dom(
                    old(self).slots(),
                    old(self).slot_values(),
                    old(self).capacity as int,
                    t,
                );
                assert(!self@.contains_key(t));
                if old(self).consistent() {
                    old(self).lemma_stored_is_view();
                }
            }
            let i = self.find_ind(h, &key);
            return Ok(Entry { map: self, hash: h, key, slot: i });
        }
        Ok(Entry { map: self, hash: h, key, slot: i })
    }
}

impl<K: CaoKey, V> Default for CaoHashMap<K, V> {
    /// An empty map of one slot.
    fn default() -> (r: Self)
        ensures
            r.wf(),
            r.consistent(),
            r@ == Map::<(u64, Seq<u8>), V>::empty(),
            r.spec_len() == 0,
            r.spec_capacity() == 1,
    {
        Self::empty_table(1)
    }
}

/// In a table holding no target twice, the map of stored entries holds exactly the held
/// targets, each with the value of its slot.
pub proof fn lemma_entries_map_no_dups<A, V>(s: Seq<Option<A>>, vals: Seq<V>, n: int)
    requires
        no_dups(s),
        0 <= n <= s.len(),
    ensures
        forall|p: int|
            0 <= p < n && #[trigger] s[p] is Some ==> entries_map(s, vals, n).contains_key(
                s[p].unwrap(),
            ) && entries_map(s, vals, n)[s[p].unwrap()] == vals[p],
        forall|t: A|
            #[trigger] entries_map(s, vals, n).contains_key(t) <==> exists|p: int|
                0 <= p < n && s[p] == Some(t),
    decreases n,
{
    if n > 0 {
        lemma_entries_map_no_dups(s, vals, n - 1);
        assert forall|p: int| 0 <= p < n && #[trigger] s[p] is Some implies entries_map(
            s,
            vals,
            n,
        ).contains_key(s[p].unwrap()) && entries_map(s, vals, n)[s[p].unwrap()] == vals[p] by {
            if p < n - 1 {
                if s[n - 1] is Some {
                    assert(s[p] != s[n - 1]);
                }
            }
        }
    }
    assert forall|t: A| #[trigger] entries_map(s, vals, n).contains_key(t) <==> exists|p: int|
        0 <= p < n && s[p] == Some(t) by {
        lemma_entries_map_dom(s, vals, n, t);
    }
}

/// Every occupied slot of `a` holds an entry that some slot of `b` holds, with the same
/// value.
#[verifier::opaque]
pub open spec fn entries_within<A, V>(a: Seq<Option<A>>, av: Seq<V>, b: Seq<Option<A>>, bv: Seq<V>) -> bool {
    forall|x: int|
        0 <= x < a.len() && #[trigger] a[x] is Some ==> exists|y: int|
            0 <= y < b.len() && b[y] == a[x] && bv[y] == av[x]
}

/// Tables that differ only in the values of empty slots hold the same entries.
pub proof fn lemma_entries_within_same<A, V>(s: Seq<Option<A>>, v1: Seq<V>, v2: Seq<V>)
    requires
        v1.len() == s.len(),
        v2.len() == s.len(),
        forall|x: int| 0 <= x < s.len() && s[x] is Some ==> v1[x] == v2[x],
    ensures
        entries_within(s, v1, s, v2),
        entries_within(s, v2, s, v1),
{
    reveal(entries_within);
    assert forall|x: int| 0 <= x < s.len() && #[trigger] s[x] is Some implies exists|y: int|
        0 <= y < s.len() && s[y] == s[x] && v2[y] == v1[x] by {
        assert(s[x] == s[x] && v2[x] == v1[x]);
    }
    assert forall|x: int| 0 <= x < s.len() && #[trigger] s[x] is Some implies exists|y: int|
        0 <= y < s.len() && s[y] == s[x] && v1[y] == v2[x] by {
        assert(s[x] == s[x] && v1[x] == v2[x]);
    }
}

/// Emptying a slot keeps a table free of duplicates.
pub proof fn lemma_no_dups_clear<A>(s: Seq<Option<A>>, i: int)
    requires
        no_dups(s),
        0 <= i < s.len(),
    ensures
        no_dups(s.update(i, None)),
{
    let s1 = s.update(i, None);
    assert forall|a: int, b: int|
        0 <= a < s1.len() && 0 <= b < s1.len() && a != b && #[trigger] s1[a] is Some implies s1[a]
        != #[trigger] s1[b] by {
        assert(s[a] is Some);
    }
}

/// The table after moving the entry of slot `jj` into slot `ii`.
pub open spec fn moved<A>(cur: Seq<Option<A>>, ii: int, jj: int) -> Seq<Option<A>> {
    cur.update(ii, cur[jj]).update(jj, None)
}

/// The values after moving the value of slot `jj` into slot `ii`, whatever stays in `jj`.
pub open spec fn moved_values<V>(curv: Seq<V>, nextv: Seq<V>, ii: int, jj: int) -> bool {
    &&& nextv.len() == curv.len()
    &&& nextv[ii] == curv[jj]
    &&& forall|x: int| 0 <= x < curv.len() && x != ii && x != jj ==> #[trigger] nextv[x] == curv[x]
}

/// Moving the entry of slot `jj` into the empty slot `ii` keeps each held entry held.
pub proof fn lemma_move_keeps_entries<A, V>(
    s1: Seq<Option<A>>,
    vals: Seq<V>,
    cur: Seq<Option<A>>,
    curv: Seq<V>,
    nextv: Seq<V>,
    ii: int,
    jj: int,
)
    requires
        cur.len() == curv.len(),
        0 <= ii < cur.len(),
        0 <= jj < cur.len(),
        ii != jj,
        cur[ii] is None,
        moved_values(curv, nextv, ii, jj),
        entries_within(cur, curv, s1, vals),
        entries_within(s1, vals, cur, curv),
    ensures
        entries_within(moved(cur, ii, jj), nextv, s1, vals),
        entries_within(s1, vals, moved(cur, ii, jj), nextv),
{
    reveal(entries_within);
    let next = moved(cur, ii, jj);
    assert forall|a: int| 0 <= a < next.len() && #[trigger] next[a] is Some implies exists|q: int|
        0 <= q < s1.len() && s1[q] == next[a] && vals[q] == nextv[a] by {
        if a == ii {
            assert(next[a] == cur[jj] && nextv[a] == curv[jj]);
            assert(cur[jj] is Some);
        } else {
            assert(next[a] == cur[a] && nextv[a] == curv[a]);
            assert(cur[a] is Some);
        }
    }
    assert forall|q: int| 0 <= q < s1.len() && #[trigger] s1[q] is Some implies exists|a: int|
        0 <= a < next.len() && next[a] == s1[q] && nextv[a] == vals[q] by {
        let a = choose|a: int| 0 <= a < cur.len() && cur[a] == s1[q] && curv[a] == vals[q];
        if a == jj {
            assert(next[ii] == s1[q] && nextv[ii] == vals[q]);
        } else {
            assert(a != ii);
            assert(next[a] == s1[q] && nextv[a] == vals[q]);
        }
    }
}

/// Moving the entry of slot `jj` into the empty slot `ii` keeps the number of held entries,
/// and a table free of duplicates.
pub proof fn lemma_move_keeps_count<A>(cur: Seq<Option<A>>, ii: int, jj: int)
    requires
        0 <= ii < cur.len(),
        0 <= jj < cur.len(),
        ii != jj,
        cur[ii] is None,
        cur[jj] is Some,
    ensures
        num_occupied(moved(cur, ii, jj)) == num_occupied(cur),
        no_dups(cur) ==> no_dups(moved(cur, ii, jj)),
{
    let next = moved(cur, ii, jj);
    lemma_num_occupied_update(cur, ii, cur[jj]);
    lemma_num_occupied_update(cur.update(ii, cur[jj]), jj, None);
    if no_dups(cur) {
        assert forall|a: int, b: int|
            0 <= a < next.len() && 0 <= b < next.len() && a != b && #[trigger] next[a] is Some implies next[a]
            != #[trigger] next[b] by {
            let a0 = if a == ii { jj } else { a };
            let b0 = if b == ii { jj } else { b };
            assert(next[a] == cur[a0]);
            if next[b] is Some {
                assert(next[b] == cur[b0]);
                assert(a0 != b0);
                assert(cur[a0] is Some);
            }
        }
    }
}

/// Two tables without duplicates that hold the same entries have the same map of stored
/// entries.
pub proof fn lemma_same_entries<A, V>(a: Seq<Option<A>>, av: Seq<V>, b: Seq<Option<A>>, bv: Seq<V>)
    requires
        a.len() == b.len(),
        av.len() == a.len(),
        bv.len() == b.len(),
        no_dups(a),
        no_dups(b),
        entries_within(a, av, b, bv),
        entries_within(b, bv, a, av),
    ensures
        entries_map(a, av, a.len() as int) == entries_map(b, bv, b.len() as int),
{
    reveal(entries_within);
    let n = a.len() as int;
    lemma_entries_map_no_dups(a, av, n);
    lemma_entries_map_no_dups(b, bv, n);
    let ma = entries_map(a, av, n);
    let mb = entries_map(b, bv, n);
    assert forall|t: A| #[trigger] ma.contains_key(t) implies mb.contains_key(t) && ma[t] == mb[t] by {
        let p = choose|p: int| 0 <= p < n && a[p] == Some(t);
        assert(a[p] is Some);
        let q = choose|q: int| 0 <= q < n && b[q] == a[p] && bv[q] == av[p];
        assert(b[q] is Some);
    }
    assert forall|t: A| #[trigger] mb.contains_key(t) implies ma.contains_key(t) by {
        let q = choose|q: int| 0 <= q < n && b[q] == Some(t);
        assert(b[q] is Some);
        let p = choose|p: int| 0 <= p < n && a[p] == b[q] && av[p] == bv[q];
        assert(a[p] is Some);
    }
    assert(ma =~= mb);
}

/// Emptying the slot of a target removes it from the map of stored entries.
pub proof fn lemma_entries_map_clear<A, V>(s: Seq<Option<A>>, vals: Seq<V>, i: int)
    requires
        no_dups(s),
        0 <= i < s.len(),
        vals.len() == s.len(),
        s[i] is Some,
    ensures
        entries_map(s.update(i, None), vals, s.len() as int) == entries_map(s, vals, s.len() as int).remove(
            s[i].unwrap(),
        ),
{
    let n = s.len() as int;
    let s1 = s.update(i, None);
    lemma_no_dups_clear(s, i);
    lemma_entries_map_no_dups(s, vals, n);
    lemma_entries_map_no_dups(s1, vals, n);
    let m = entries_map(s, vals, n);
    let m1 = entries_map(s1, vals, n);
    let t = s[i].unwrap();
    assert forall|t2: A| #[trigger] m1.contains_key(t2) implies m.remove(t).contains_key(t2) && m1[t2]
        == m.remove(t)[t2] by {
        let p = choose|p: int| 0 <= p < n && s1[p] == Some(t2);
        assert(p != i);
        assert(s1[p] is Some);
        assert(s[p] is Some);
        if t2 == t {
            assert(s[p] == s[i]);
        }
    }
    assert forall|t2: A| #[trigger] m.remove(t).contains_key(t2) implies m1.contains_key(t2) by {
        let p = choose|p: int| 0 <= p < n && s[p] == Some(t2);
        assert(p != i);
        assert(s1[p] == Some(t2));
    }
    assert(m1 =~= m.remove(t));
}

/// The map of stored entries depends on the values of occupied slots only.
pub proof fn lemma_entries_map_same_values<A, V>(s: Seq<Option<A>>, v1: Seq<V>, v2: Seq<V>)
    requires
        v1.len() == s.len(),
        v2.len() == s.len(),
        forall|x: int| 0 <= x < s.len() && s[x] is Some ==> v1[x] == v2[x],
    ensures
        entries_map(s, v1, s.len() as int) == entries_map(s, v2, s.len() as int),
{
    lemma_entries_map_same_values_prefix(s, v1, v2, s.len() as int);
}

proof fn lemma_entries_map_same_values_prefix<A, V>(s: Seq<Option<A>>, v1: Seq<V>, v2: Seq<V>, n: int)
    requires
        0 <= n <= s.len(),
        v1.len() == s.len(),
        v2.len() == s.len(),
        forall|x: int| 0 <= x < s.len() && s[x] is Some ==> v1[x] == v2[x],
    ensures
        entries_map(s, v1, n) == entries_map(s, v2, n),
    decreases n,
{
    if n > 0 {
        lemma_entries_map_same_values_prefix(s, v1, v2, n - 1);
    }
}

/// The map of no stored entry.
pub proof fn lemma_entries_map_empty<A, V>(s: Seq<Option<A>>, vals: Seq<V>, n: int)
    requires
        0 <= n <= s.len(),
        forall|i: int| 0 <= i < s.len() ==> s[i] is None,
    ensures
        entries_map(s, vals, n) == Map::<A, V>::empty(),
    decreases n,
{
    if n > 0 {
        lemma_entries_map_empty(s, vals, n - 1);
    }
}

} // verus!
