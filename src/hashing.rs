use std::collections::hash_map::DefaultHasher;
use std::hash::{BuildHasher, BuildHasherDefault};
use vstd::prelude::*;

verus! {

/// The 64-bit digest of an element's bytes together with a hash slot.
pub uninterp spec fn slot_hash(data: Seq<u8>, slot: u8) -> u64;

/// Relies on std's `BuildHasher::hash_one` over a `DefaultHasher` made by
/// `DefaultHasher::new` (SipHash with fixed keys): the bytes are hashed, then
/// the slot, and the digest depends on those two values alone.
#[verifier::external_body]
pub(crate) fn hash_slot(data: &[u8], slot: u8) -> (r: u64)
    ensures
        r == slot_hash(data@, slot),
{
    BuildHasherDefault::<DefaultHasher>::default().hash_one((data, slot))
}

} // verus!
