//! Collections used by the compiler and the runtime.
use vstd::prelude::*;

pub mod bounded_stack;
pub mod hash_map;
pub mod key_map;
pub mod pre_hash_map;
pub mod probe;

verus! {

/// Mask that keeps the low 32 bits of a 64 bit value.
pub const MASK32: u64 = 0xffff_ffff;

/// Offset basis of the 32 bit FNV-1a hash.
pub const FNV_OFFSET: u64 = 2166136261;

/// Prime of the 32 bit FNV-1a hash.
pub const FNV_PRIME: u64 = 16777619;

/// One round of FNV-1a: mix a byte into the (masked) state.
pub open spec fn fnv_step(state: u64, byte: u8) -> u64 {
    (((state ^ (byte as u64)) & MASK32) * FNV_PRIME) as u64
}

/// The unmasked state reached by feeding `bytes`, one round each, into `state`.
pub open spec fn fnv_from(state: u64, bytes: Seq<u8>) -> u64
    decreases bytes.len(),
{
    if bytes.len() == 0 {
        state
    } else {
        fnv_step(fnv_from(state, bytes.drop_last()), bytes.last())
    }
}

/// The unmasked FNV-1a state after hashing `bytes`.
pub open spec fn fnv_state(bytes: Seq<u8>) -> u64 {
    fnv_from(FNV_OFFSET, bytes)
}

/// The 32 bit FNV-1a hash of `bytes`.
pub open spec fn fnv1a(bytes: Seq<u8>) -> u64 {
    fnv_state(bytes) & MASK32
}

pub proof fn lemma_mask32_bound(x: u64)
    ensures
        x & MASK32 <= MASK32,
{
    assert(x & 0xffff_ffffu64 <= 0xffff_ffffu64) by (bit_vector);
}

/// Feeds `bytes` into an FNV-1a state, as a hasher's `write` does.
pub fn fnv_write(state: u64, bytes: &[u8]) -> (r: u64)
    requires
        state <= MASK32 * FNV_PRIME,
    ensures
        r == fnv_from(state, bytes@),
        r <= MASK32 * FNV_PRIME,
{
    let mut hash = state;
    let mut i: usize = 0;
    while i < bytes.len()
        invariant
            i <= bytes@.len(),
            hash <= MASK32 * FNV_PRIME,
            hash == fnv_from(state, bytes@.take(i as int)),
        decreases bytes@.len() - i,
    {
        let byte = bytes[i];
        let mixed = hash ^ (byte as u64);
        let masked = mixed & MASK32;
        proof {
            lemma_mask32_bound(mixed);
            assert(masked * FNV_PRIME <= MASK32 * FNV_PRIME) by (nonlinear_arith)
                requires
                    masked <= MASK32,
            ;
            assert(bytes@.take(i + 1).drop_last() =~= bytes@.take(i as int));
        }
        hash = masked * FNV_PRIME;
        i = i + 1;
    }
    proof {
        assert(bytes@.take(bytes@.len() as int) =~= bytes@);
    }
    hash
}

/// Feeding two byte strings one after the other is feeding their concatenation.
pub proof fn lemma_fnv_concat(state: u64, a: Seq<u8>, b: Seq<u8>)
    ensures
        fnv_from(state, a + b) == fnv_from(fnv_from(state, a), b),
    decreases b.len(),
{
    if b.len() == 0 {
        assert(a + b =~= a);
    } else {
        assert((a + b).drop_last() =~= a + b.drop_last());
        assert((a + b).last() == b.last());
        lemma_fnv_concat(state, a, b.drop_last());
    }
}

/// A round masks its input, so masking the state before a non-empty input changes nothing.
pub proof fn lemma_fnv_masked_start(state: u64, b: Seq<u8>)
    requires
        b.len() > 0,
    ensures
        fnv_from(state & MASK32, b) == fnv_from(state, b),
    decreases b.len(),
{
    if b.len() == 1 {
        let x = b.last();
        assert(b.drop_last() =~= Seq::<u8>::empty());
        assert(fnv_from(state & MASK32, b.drop_last()) == state & MASK32);
        assert(fnv_from(state, b.drop_last()) == state);
        assert(((state & 0xffff_ffffu64) ^ (x as u64)) & 0xffff_ffffu64 == (state ^ (x as u64))
            & 0xffff_ffffu64) by (bit_vector);
        assert(fnv_step(state & MASK32, x) == fnv_step(state, x));
    } else {
        lemma_fnv_masked_start(state, b.drop_last());
    }
}

} // verus!

verus! {

/// `x` is a power of two.
pub open spec fn is_pow2(x: usize) -> bool {
    x != 0 && x & ((x - 1) as usize) == 0
}

/// Masking with `cap - 1` keeps an index within a power-of-two capacity.
pub proof fn lemma_mask_in_range(x: usize, cap: usize)
    requires
        is_pow2(cap),
    ensures
        x & ((cap - 1) as usize) < cap,
{
    let m = (cap - 1) as usize;
    assert(cap != 0 && cap & m == 0 && m == cap - 1 ==> x & m < cap) by (bit_vector);
}

/// Masking the successor of an index wraps it around a power-of-two capacity.
pub proof fn lemma_mask_next(i: usize, cap: usize)
    requires
        is_pow2(cap),
        i < cap,
    ensures
        ((i + 1) as usize) & ((cap - 1) as usize) == if i + 1 == cap { 0 } else { i + 1 },
{
    let m = (cap - 1) as usize;
    let j = (i + 1) as usize;
    assert(cap != 0 && cap & m == 0 && m == cap - 1 && i < cap && j == i + 1 ==> j & m == if i
        + 1 == cap {
        0
    } else {
        i + 1
    }) by (bit_vector);
}

} // verus!
