//! The concurrent maps and the bit vectors that the storage is built on.
//!
//! A `DashMap` is only ever changed here through an exclusive reference, so its contents are a
//! function of its value between two changes.

use vstd::prelude::*;
use bitvec::order::Lsb0;
use bitvec::vec::BitVec;
use dashmap::DashMap;

verus! {

/// `dashmap::DashMap`, a hash map that may be shared between threads.
#[verifier::external_type_specification]
#[verifier::external_body]
#[verifier::reject_recursive_types(K)]
#[verifier::reject_recursive_types(V)]
#[verifier::reject_recursive_types(S)]
pub struct ExDashMap<K, V, S>(dashmap::DashMap<K, V, S>);

/// A `bitvec::vec::BitVec` over 64-bit words, least significant bit first.
#[verifier::external_body]
pub struct Bits64 {
    bits: BitVec<u64, Lsb0>,
}

/// A `bitvec::vec::BitVec` over 16-bit words, least significant bit first.
#[verifier::external_body]
pub struct Bits16 {
    bits: BitVec<u16, Lsb0>,
}

/// What a map from vertex identifiers to positions holds.
pub uninterp spec fn dense_ids(m: DashMap<u64, u64>) -> Map<u64, u64>;

/// What a map from edge identifiers to block and offset holds.
pub uninterp spec fn edge_locations(m: DashMap<u64, (usize, usize)>) -> Map<u64, (usize, usize)>;

/// The bits of a vector stored in 64-bit words.
pub uninterp spec fn bits64(b: Bits64) -> Seq<bool>;

/// The bits of a vector stored in 16-bit words.
pub uninterp spec fn bits16(b: Bits16) -> Seq<bool>;

/// `DashMap::new`: a map without entries.
#[verifier::external_body]
pub(crate) fn new_dense_ids() -> (r: DashMap<u64, u64>)
    ensures
        dense_ids(r).dom() == Set::<u64>::empty(),
{
    DashMap::new()
}

/// `DashMap::get`, with the value copied out: the value under the key, if there is one.
#[verifier::external_body]
pub(crate) fn dense_get(m: &DashMap<u64, u64>, key: u64) -> (r: Option<u64>)
    ensures
        r == (if dense_ids(*m).dom().contains(key) {
            Some(dense_ids(*m)[key])
        } else {
            None
        }),
{
    m.get(&key).map(|entry| *entry.value())
}

/// `DashMap::contains_key`: whether the key has a value.
#[verifier::external_body]
pub(crate) fn dense_contains(m: &DashMap<u64, u64>, key: u64) -> (r: bool)
    ensures
        r == dense_ids(*m).dom().contains(key),
{
    m.contains_key(&key)
}

/// `DashMap::insert`: the key gets the value, every other key keeps its own.
#[verifier::external_body]
pub(crate) fn dense_insert(m: &mut DashMap<u64, u64>, key: u64, value: u64)
    ensures
        dense_ids(*final(m)) == dense_ids(*old(m)).insert(key, value),
{
    m.insert(key, value);
}

/// `DashMap::remove`: the key has no value, every other key keeps its own.
#[verifier::external_body]
pub(crate) fn dense_remove(m: &mut DashMap<u64, u64>, key: u64)
    ensures
        dense_ids(*final(m)) == dense_ids(*old(m)).remove(key),
{
    m.remove(&key);
}

/// `DashMap::new`: a map without entries.
#[verifier::external_body]
pub(crate) fn new_edge_locations() -> (r: DashMap<u64, (usize, usize)>)
    ensures
        edge_locations(r).dom() == Set::<u64>::empty(),
{
    DashMap::new()
}

/// `DashMap::get`, with the value copied out: the value under the key, if there is one.
#[verifier::external_body]
pub(crate) fn location_get(m: &DashMap<u64, (usize, usize)>, key: u64) -> (r: Option<
    (usize, usize),
>)
    ensures
        r == (if edge_locations(*m).dom().contains(key) {
            Some(edge_locations(*m)[key])
        } else {
            None
        }),
{
    m.get(&key).map(|entry| *entry.value())
}

/// `DashMap::insert`: the key gets the value, every other key keeps its own.
#[verifier::external_body]
pub(crate) fn location_insert(
    m: &mut DashMap<u64, (usize, usize)>,
    key: u64,
    value: (usize, usize),
)
    ensures
        edge_locations(*final(m)) == edge_locations(*old(m)).insert(key, value),
{
    m.insert(key, value);
}

/// `DashMap::remove`: the key has no value, every other key keeps its own.
#[verifier::external_body]
pub(crate) fn location_remove(m: &mut DashMap<u64, (usize, usize)>, key: u64)
    ensures
        edge_locations(*final(m)) == edge_locations(*old(m)).remove(key),
{
    m.remove(&key);
}

/// The greatest length that a bit vector takes on every machine.
pub const BITS_LIMIT: usize = 0x1fff_ffff;

/// `BitVec::repeat` with a clear bit: `len` clear bits.
#[verifier::external_body]
pub(crate) fn clear_bits64(len: usize) -> (r: Bits64)
    requires
        len <= BITS_LIMIT,
    ensures
        bits64(r) == Seq::new(len as nat, |i: int| false),
{
    Bits64 { bits: BitVec::repeat(false, len) }
}

/// `BitSlice::set`: the bit at the index becomes `value`, every other bit stays.
#[verifier::external_body]
pub(crate) fn set_bit64(bits: &mut Bits64, index: usize, value: bool)
    requires
        index < bits64(*old(bits)).len(),
    ensures
        bits64(*final(bits)) == bits64(*old(bits)).update(index as int, value),
{
    bits.bits.set(index, value);
}

/// `BitSlice::get`, with the bit copied out: the bit at the index, if there is one.
#[verifier::external_body]
pub(crate) fn get_bit64(bits: &Bits64, index: usize) -> (r: Option<bool>)
    ensures
        r == (if index < bits64(*bits).len() {
            Some(bits64(*bits)[index as int])
        } else {
            None
        }),
{
    bits.bits.get(index).map(|bit| *bit)
}

/// `BitVec::repeat` with a clear bit: `len` clear bits.
#[verifier::external_body]
pub(crate) fn clear_bits16(len: usize) -> (r: Bits16)
    requires
        len <= BITS_LIMIT,
    ensures
        bits16(r) == Seq::new(len as nat, |i: int| false),
{
    Bits16 { bits: BitVec::repeat(false, len) }
}

/// `BitSlice::set`: the bit at the index becomes `value`, every other bit stays.
#[verifier::external_body]
pub(crate) fn set_bit16(bits: &mut Bits16, index: usize, value: bool)
    requires
        index < bits16(*old(bits)).len(),
    ensures
        bits16(*final(bits)) == bits16(*old(bits)).update(index as int, value),
{
    bits.bits.set(index, value);
}

/// `BitSlice::get`, with the bit copied out: the bit at the index, if there is one.
#[verifier::external_body]
pub(crate) fn get_bit16(bits: &Bits16, index: usize) -> (r: Option<bool>)
    ensures
        r == (if index < bits16(*bits).len() {
            Some(bits16(*bits)[index as int])
        } else {
            None
        }),
{
    bits.bits.get(index).map(|bit| *bit)
}

} // verus!
