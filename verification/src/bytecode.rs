//! Writing values into bytecode and reading them back.
//!
//! A value is written as its little-endian bytes, the byte order of the machines the
//! language runs on. A string is written as its length, as a 32 bit integer, and its UTF-8
//! bytes.
use vstd::prelude::*;
use vstd::string::StringSliceAdditionalSpecFns;
use vstd::utf8::valid_utf8;
use crate::collections::hash_map::{le_bytes4, le_bytes8};
use crate::collections::key_map::Handle;
use crate::VariableId;

verus! {

/// The 32 bit integer of four little-endian bytes.
pub open spec fn from_le4(b: Seq<u8>) -> u32 {
    ((b[0] as u32) | ((b[1] as u32) << 8u32) | ((b[2] as u32) << 16u32) | ((b[3] as u32) << 24u32)) as u32
}

/// The 64 bit integer of eight little-endian bytes.
pub open spec fn from_le8(b: Seq<u8>) -> u64 {
    ((b[0] as u64) | ((b[1] as u64) << 8u64) | ((b[2] as u64) << 16u64) | ((b[3] as u64) << 24u64) | ((
    b[4] as u64) << 32u64) | ((b[5] as u64) << 40u64) | ((b[6] as u64) << 48u64) | ((b[7] as u64)
        << 56u64)) as u64
}

/// Reading back the bytes of a 32 bit integer gives the integer.
pub proof fn lemma_le4_roundtrip(x: u32)
    ensures
        from_le4(le_bytes4(x)) == x,
{
    let b = le_bytes4(x);
    assert(((((x & 0xff) as u8) as u32) | (((((x >> 8u32) & 0xff) as u8) as u32) << 8u32) | (((((x
        >> 16u32) & 0xff) as u8) as u32) << 16u32) | (((((x >> 24u32) & 0xff) as u8) as u32)
        << 24u32)) == x) by (bit_vector);
}

/// Reading back the bytes of a 64 bit integer gives the integer.
pub proof fn lemma_le8_roundtrip(x: u64)
    ensures
        from_le8(le_bytes8(x)) == x,
{
    assert(((((x & 0xff) as u8) as u64) | (((((x >> 8u64) & 0xff) as u8) as u64) << 8u64) | (((((x
        >> 16u64) & 0xff) as u8) as u64) << 16u64) | (((((x >> 24u64) & 0xff) as u8) as u64)
        << 24u64) | (((((x >> 32u64) & 0xff) as u8) as u64) << 32u64) | (((((x >> 40u64) & 0xff)
        as u8) as u64) << 40u64) | (((((x >> 48u64) & 0xff) as u8) as u64) << 48u64) | (((((x
        >> 56u64) & 0xff) as u8) as u64) << 56u64)) == x) by (bit_vector);
}

/// A value that is written into bytecode as a fixed number of bytes.
pub trait TriviallyEncodable: Sized + Copy {
    /// The bytes the value is written as.
    spec fn encoding(&self) -> Seq<u8>;

    /// The number of bytes a value is written as.
    spec fn encoded_size() -> nat;

    /// The value that `bytes` encode.
    spec fn from_encoding(bytes: Seq<u8>) -> Self;

    /// The number of bytes a value is written as.
    fn size() -> (r: usize)
        ensures
            r == Self::encoded_size(),
    ;

    /// Appends the bytes of the value to `out`.
    fn write_bytes(&self, out: &mut Vec<u8>)
        ensures
            final(out)@ == old(out)@ + self.encoding(),
    ;

    /// Reads a value from the first bytes of `bytes`.
    fn read_bytes(bytes: &[u8]) -> (r: Self)
        requires
            bytes@.len() >= Self::encoded_size(),
        ensures
            r == Self::from_encoding(bytes@.take(Self::encoded_size() as int)),
    ;

    /// A value is written as `encoded_size` bytes, and reading them gives the value back.
    proof fn lemma_roundtrip(v: Self)
        ensures
            v.encoding().len() == Self::encoded_size(),
            Self::from_encoding(v.encoding()) == v,
    ;
}

fn push_le4(x: u32, out: &mut Vec<u8>)
    ensures
        final(out)@ == old(out)@ + le_bytes4(x),
{
    let ghost o = out@;
    out.push((x & 0xff) as u8);
    out.push(((x >> 8) & 0xff) as u8);
    out.push(((x >> 16) & 0xff) as u8);
    out.push(((x >> 24) & 0xff) as u8);
    assert(out@ =~= o + le_bytes4(x));
}

fn push_le8(x: u64, out: &mut Vec<u8>)
    ensures
        final(out)@ == old(out)@ + le_bytes8(x),
{
    let ghost o = out@;
    out.push((x & 0xff) as u8);
    out.push(((x >> 8) & 0xff) as u8);
    out.push(((x >> 16) & 0xff) as u8);
    out.push(((x >> 24) & 0xff) as u8);
    out.push(((x >> 32) & 0xff) as u8);
    out.push(((x >> 40) & 0xff) as u8);
    out.push(((x >> 48) & 0xff) as u8);
    out.push(((x >> 56) & 0xff) as u8);
    assert(out@ =~= o + le_bytes8(x));
}

fn read_le4(b: &[u8]) -> (r: u32)
    requires
        b@.len() >= 4,
    ensures
        r == from_le4(b@.take(4)),
{
    (b[0] as u32) | ((b[1] as u32) << 8) | ((b[2] as u32) << 16) | ((b[3] as u32) << 24)
}

fn read_le8(b: &[u8]) -> (r: u64)
    requires
        b@.len() >= 8,
    ensures
        r == from_le8(b@.take(8)),
{
    (b[0] as u64) | ((b[1] as u64) << 8) | ((b[2] as u64) << 16) | ((b[3] as u64) << 24) | ((
    b[4] as u64) << 32) | ((b[5] as u64) << 40) | ((b[6] as u64) << 48) | ((b[7] as u64) << 56)
}

impl TriviallyEncodable for u8 {
    open spec fn encoding(&self) -> Seq<u8> {
        seq![*self]
    }

    open spec fn encoded_size() -> nat {
        1
    }

    open spec fn from_encoding(bytes: Seq<u8>) -> Self {
        bytes[0]
    }

    fn size() -> (r: usize) {
        1
    }

    fn write_bytes(&self, out: &mut Vec<u8>) {
        out.push(*self);
    }

    fn read_bytes(bytes: &[u8]) -> (r: Self) {
        bytes[0]
    }

    proof fn lemma_roundtrip(v: Self) {
    }
}

impl TriviallyEncodable for u32 {
    open spec fn encoding(&self) -> Seq<u8> {
        le_bytes4(*self)
    }

    open spec fn encoded_size() -> nat {
        4
    }

    open spec fn from_encoding(bytes: Seq<u8>) -> Self {
        from_le4(bytes)
    }

    fn size() -> (r: usize) {
        4
    }

    fn write_bytes(&self, out: &mut Vec<u8>) {
        push_le4(*self, out);
    }

    fn read_bytes(bytes: &[u8]) -> (r: Self) {
        read_le4(bytes)
    }

    proof fn lemma_roundtrip(v: Self) {
        lemma_le4_roundtrip(v);
    }
}

impl TriviallyEncodable for i32 {
    open spec fn encoding(&self) -> Seq<u8> {
        le_bytes4(*self as u32)
    }

    open spec fn encoded_size() -> nat {
        4
    }

    open spec fn from_encoding(bytes: Seq<u8>) -> Self {
        from_le4(bytes) as i32
    }

    fn size() -> (r: usize) {
        4
    }

    fn write_bytes(&self, out: &mut Vec<u8>) {
        push_le4(*self as u32, out);
    }

    fn read_bytes(bytes: &[u8]) -> (r: Self) {
        read_le4(bytes) as i32
    }

    proof fn lemma_roundtrip(v: Self) {
        lemma_le4_roundtrip(v as u32);
        assert((v as u32) as i32 == v) by (bit_vector);
    }
}

impl TriviallyEncodable for u64 {
    open spec fn encoding(&self) -> Seq<u8> {
        le_bytes8(*self)
    }

    open spec fn encoded_size() -> nat {
        8
    }

    open spec fn from_encoding(bytes: Seq<u8>) -> Self {
        from_le8(bytes)
    }

    fn size() -> (r: usize) {
        8
    }

    fn write_bytes(&self, out: &mut Vec<u8>) {
        push_le8(*self, out);
    }

    fn read_bytes(bytes: &[u8]) -> (r: Self) {
        read_le8(bytes)
    }

    proof fn lemma_roundtrip(v: Self) {
        lemma_le8_roundtrip(v);
    }
}

impl TriviallyEncodable for i64 {
    open spec fn encoding(&self) -> Seq<u8> {
        le_bytes8(*self as u64)
    }

    open spec fn encoded_size() -> nat {
        8
    }

    open spec fn from_encoding(bytes: Seq<u8>) -> Self {
        from_le8(bytes) as i64
    }

    fn size() -> (r: usize) {
        8
    }

    fn write_bytes(&self, out: &mut Vec<u8>) {
        push_le8(*self as u64, out);
    }

    fn read_bytes(bytes: &[u8]) -> (r: Self) {
        read_le8(bytes) as i64
    }

    proof fn lemma_roundtrip(v: Self) {
        lemma_le8_roundtrip(v as u64);
        assert((v as u64) as i64 == v) by (bit_vector);
    }
}

impl TriviallyEncodable for VariableId {
    open spec fn encoding(&self) -> Seq<u8> {
        le_bytes4(self.0)
    }

    open spec fn encoded_size() -> nat {
        4
    }

    open spec fn from_encoding(bytes: Seq<u8>) -> Self {
        VariableId(from_le4(bytes))
    }

    fn size() -> (r: usize) {
        4
    }

    fn write_bytes(&self, out: &mut Vec<u8>) {
        push_le4(self.0, out);
    }

    fn read_bytes(bytes: &[u8]) -> (r: Self) {
        VariableId(read_le4(bytes))
    }

    proof fn lemma_roundtrip(v: Self) {
        lemma_le4_roundtrip(v.0);
    }
}

impl TriviallyEncodable for Handle {
    open spec fn encoding(&self) -> Seq<u8> {
        le_bytes4(self.0)
    }

    open spec fn encoded_size() -> nat {
        4
    }

    open spec fn from_encoding(bytes: Seq<u8>) -> Self {
        Handle(from_le4(bytes))
    }

    fn size() -> (r: usize) {
        4
    }

    fn write_bytes(&self, out: &mut Vec<u8>) {
        push_le4(self.0, out);
    }

    fn read_bytes(bytes: &[u8]) -> (r: Self) {
        Handle(read_le4(bytes))
    }

    proof fn lemma_roundtrip(v: Self) {
        lemma_le4_roundtrip(v.0);
    }
}

/// Appends the bytes of `val` to `out`.
pub fn write_to_vec<T: TriviallyEncodable>(val: T, out: &mut Vec<u8>)
    ensures
        final(out)@ == old(out)@ + val.encoding(),
{
    val.write_bytes(out);
}

/// Reads a value from the start of `bts`, returning the number of bytes read with it; `None`
/// when `bts` is shorter than a value.
pub fn read_from_bytes<T: TriviallyEncodable>(bts: &[u8]) -> (r: Option<(usize, T)>)
    ensures
        r is Some == (bts@.len() >= T::encoded_size()),
        r matches Some((n, v)) ==> n == T::encoded_size() && v == T::from_encoding(
            bts@.take(n as int),
        ),
{
    let size = T::size();
    if bts.len() < size {
        return None;
    }
    Some((size, T::read_bytes(bts)))
}

/// `std::str::from_utf8`: the string whose UTF-8 bytes are `bytes`, `None` when they are not
/// valid UTF-8.
#[verifier::external_body]
fn str_from_utf8(bytes: &[u8]) -> (r: Option<&str>)
    ensures
        r is Some == valid_utf8(bytes@),
        r matches Some(s) ==> s.spec_bytes() == bytes@,
{
    std::str::from_utf8(bytes).ok()
}

/// The bytes `encode_str` writes for a string of UTF-8 bytes `bytes`.
pub open spec fn str_encoding(bytes: Seq<u8>) -> Seq<u8> {
    le_bytes4(bytes.len() as u32) + bytes
}

/// Appends the length of `s`, as a 32 bit integer, and its bytes to `out`.
pub fn encode_str(s: &str, out: &mut Vec<u8>)
    requires
        s.spec_bytes().len() <= u32::MAX,
    ensures
        final(out)@ == old(out)@ + str_encoding(s.spec_bytes()),
{
    let bytes = s.as_bytes();
    let len = bytes.len() as u32;
    write_to_vec(len, out);
    let ghost mid = out@;
    out.extend_from_slice(bytes);
    assert(out@ =~= mid + bytes@);
}

/// Reads a string written by [`encode_str`] from the start of `bts`, returning the number of
/// bytes read with it; `None` when `bts` is too short or the string is not valid UTF-8.
pub fn decode_str(bts: &[u8]) -> (r: Option<(usize, &str)>)
    ensures
        r is Some == (bts@.len() >= 4 && bts@.len() - 4 >= from_le4(bts@.take(4)) && valid_utf8(
            bts@.subrange(4, 4 + from_le4(bts@.take(4)) as int),
        )),
        r matches Some((n, s)) ==> n == 4 + from_le4(bts@.take(4)) && s.spec_bytes() == bts@.subrange(
            4,
            n as int,
        ),
{
    let (sl, len): (usize, u32) = match read_from_bytes(bts) {
        Some(x) => x,
        None => {
            return None;
        },
    };
    if bts.len() - sl < len as usize {
        return None;
    }
    let sub = &bts[sl..sl + len as usize];
    match str_from_utf8(sub) {
        Some(s) => Some((sl + len as usize, s)),
        None => None,
    }
}

/// Decoding the bytes that `encode_str` wrote gives the string back, whatever follows it.
pub proof fn lemma_decode_encoded_str(s: &str, rest: Seq<u8>)
    requires
        s.spec_bytes().len() <= u32::MAX,
    ensures
        ({
            let bts = str_encoding(s.spec_bytes()) + rest;
            let len = from_le4(bts.take(4));
            &&& bts.len() >= 4
            &&& len == s.spec_bytes().len()
            &&& bts.len() - 4 >= len
            &&& bts.subrange(4, 4 + len) == s.spec_bytes()
            &&& valid_utf8(bts.subrange(4, 4 + len))
        }),
{
    let b = s.spec_bytes();
    let bts = str_encoding(b) + rest;
    lemma_le4_roundtrip(b.len() as u32);
    assert(bts.take(4) =~= le_bytes4(b.len() as u32));
    assert(bts.subrange(4, 4 + b.len() as int) =~= b);
    vstd::utf8::encode_utf8_valid_utf8(s@);
}

} // verus!
