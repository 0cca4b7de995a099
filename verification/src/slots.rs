//! The slot map that hands out the keys of a mixer's sources.
//!
//! The slot map is `slotmap::DenseSlotMap`. The verifier does not read it:
//! it is told here what each method that the mixer calls does to the set
//! of keys, and takes that on trust.

use vstd::prelude::*;
use slotmap::{DefaultKey, DenseSlotMap};

verus! {

/// `slotmap::DefaultKey`, carried through as it is. All that is known of a
/// key is its bits.
#[verifier::external_type_specification]
#[verifier::external_body]
pub struct ExDefaultKey(DefaultKey);

/// A `slotmap::DenseSlotMap` that holds keys and nothing under them. All
/// that is known of it is the set of keys that it holds.
#[verifier::external_body]
pub struct KeySlots {
    inner: DenseSlotMap<DefaultKey, ()>,
}

/// The 64 bits that stand for a key: what `KeyData::as_ffi` returns for it,
/// a different value for each key.
pub uninterp spec fn key_bits(key: DefaultKey) -> u64;

/// The keys that a slot map holds, each by its bits.
pub uninterp spec fn live_keys(slots: KeySlots) -> Set<u64>;

/// A number of keys that a slot map always has room for one more than.
pub const MAX_KEYS: usize = 0xffff_fffe;

/// `Key::data` and `KeyData::as_ffi`: the bits of the key, the same for
/// the same key every time.
#[verifier::external_body]
pub(crate) fn bits_of(key: DefaultKey) -> (bits: u64)
    ensures
        bits == key_bits(key),
{
    slotmap::Key::data(&key).as_ffi()
}

/// `DenseSlotMap::new`: a slot map that holds no key.
#[verifier::external_body]
pub(crate) fn new_slots() -> (slots: KeySlots)
    ensures
        live_keys(slots) == Set::<u64>::empty(),
{
    KeySlots { inner: DenseSlotMap::new() }
}

/// `DenseSlotMap::insert`: the slot map takes one more key, which it did
/// not hold before, and returns it. (It panics when it is full, which it
/// is not while it holds fewer than `MAX_KEYS` keys.)
#[verifier::external_body]
pub(crate) fn insert_slot(slots: &mut KeySlots) -> (key: DefaultKey)
    requires
        live_keys(*old(slots)).finite(),
        live_keys(*old(slots)).len() < MAX_KEYS,
    ensures
        !live_keys(*old(slots)).contains(key_bits(key)),
        live_keys(*final(slots)) == live_keys(*old(slots)).insert(key_bits(key)),
{
    slots.inner.insert(())
}

/// `DenseSlotMap::remove`: the slot map gives up the key if it holds it,
/// and returns something exactly if it did.
#[verifier::external_body]
pub(crate) fn remove_slot(slots: &mut KeySlots, key: DefaultKey) -> (removed: Option<()>)
    ensures
        removed.is_some() == live_keys(*old(slots)).contains(key_bits(key)),
        live_keys(*final(slots)) == live_keys(*old(slots)).remove(key_bits(key)),
{
    slots.inner.remove(key)
}

} // verus!
