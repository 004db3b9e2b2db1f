//! The concurrent map that holds the packet batches, and what its methods do to what it holds.
//!
//! Every method of the map works behind a shared reference. The functions here that change the
//! map take it by unique reference instead, so that nothing else can change it meanwhile.

use crate::batch::PacketBatch;
use dashmap::DashMap;
use std::collections::hash_map::RandomState;
use vstd::prelude::*;

verus! {

/// The tick of the first entry of a batch.
pub type BatchTickIndex = u8;

/// Names a packet batch: slot, reference tick, and index of the erasure set. A tuple of integers
/// is equal to another, for the map as for a proof, when its integers are.
pub type BatchKey = (u64, BatchTickIndex, u32);

/// The number of slots that a batch may be behind the current one before it is dropped.
pub const MAX_SLOT_DISTANCE: u64 = 50;

/// `dashmap::DashMap`, a hash map split into shards with a lock each. Nothing is claimed of it
/// here.
#[verifier::external_type_specification]
#[verifier::external_body]
#[verifier::reject_recursive_types(K)]
#[verifier::reject_recursive_types(V)]
#[verifier::reject_recursive_types(S)]
pub struct ExDashMap<K, V, S>(dashmap::DashMap<K, V, S>);

/// The batches that the map holds, by key.
pub uninterp spec fn batches_of(map: DashMap<BatchKey, PacketBatch, RandomState>) -> Map<
    BatchKey,
    PacketBatch,
>;

/// `DashMap::new` makes a map that holds nothing.
#[verifier::external_body]
pub(crate) fn new_map() -> (empty: DashMap<BatchKey, PacketBatch, RandomState>)
    ensures
        batches_of(empty) =~= Map::empty(),
{
    DashMap::new()
}

/// `DashMap::entry` with `Entry::or_insert` leaves the map as it is where it has a batch under the
/// key, and otherwise puts the given one there.
#[verifier::external_body]
pub(crate) fn entry_or_insert(
    map: &mut DashMap<BatchKey, PacketBatch, RandomState>,
    key: BatchKey,
    batch: PacketBatch,
)
    ensures
        batches_of(*final(map)) == if batches_of(*old(map)).contains_key(key) {
            batches_of(*old(map))
        } else {
            batches_of(*old(map)).insert(key, batch)
        },
{
    map.entry(key).or_insert(batch);
}

/// `DashMap::remove` takes the batch under the key out of the map, if there is one.
#[verifier::external_body]
pub(crate) fn remove(
    map: &mut DashMap<BatchKey, PacketBatch, RandomState>,
    key: BatchKey,
) -> (batch: Option<PacketBatch>)
    ensures
        batches_of(*final(map)) == batches_of(*old(map)).remove(key),
        batch == if batches_of(*old(map)).contains_key(key) {
            Some(batches_of(*old(map))[key])
        } else {
            None
        },
{
    map.remove(&key).map(|entry| entry.1)
}

/// `DashMap::insert` puts the batch under the key, in place of one that was there.
#[verifier::external_body]
pub(crate) fn insert(
    map: &mut DashMap<BatchKey, PacketBatch, RandomState>,
    key: BatchKey,
    batch: PacketBatch,
)
    ensures
        batches_of(*final(map)) == batches_of(*old(map)).insert(key, batch),
{
    map.insert(key, batch);
}

/// `DashMap::get` finds the batch under the key, if there is one; what comes out is a copy of it.
#[verifier::external_body]
pub(crate) fn get(
    map: &DashMap<BatchKey, PacketBatch, RandomState>,
    key: BatchKey,
) -> (batch: Option<PacketBatch>)
    ensures
        match batch {
            Some(copy) => batches_of(*map).contains_key(key) && copy@ == batches_of(*map)[key]@,
            None => !batches_of(*map).contains_key(key),
        },
{
    map.get(&key).map(|entry| entry.value().clone())
}

/// A slot is at most `MAX_SLOT_DISTANCE` behind the current one, or ahead of it.
pub open spec fn recent(current_slot: u64, slot: u64) -> bool {
    current_slot - slot <= MAX_SLOT_DISTANCE
}

/// Whether a slot is at most `MAX_SLOT_DISTANCE` behind the current one, or ahead of it.
pub fn is_recent(current_slot: u64, slot: u64) -> (near: bool)
    ensures
        near == recent(current_slot, slot),
        near == (slot + 50 >= current_slot),
{
    slot >= current_slot || current_slot - slot <= MAX_SLOT_DISTANCE
}

/// Whether a slot is recent depends on nothing but how far it is behind: up to 50 slots are near
/// enough, and both slots may be moved by the same number.
pub proof fn law_recent_goes_by_distance(current_slot: u64, slot: u64, step: u64)
    ensures
        recent(current_slot, slot) <==> slot + 50 >= current_slot,
        current_slot + step <= u64::MAX && slot + step <= u64::MAX ==> recent(
            (current_slot + step) as u64,
            (slot + step) as u64,
        ) == recent(current_slot, slot),
{
}

/// `DashMap::retain` keeps the batches for whose key the closure holds, each as it is, and drops
/// the others; here the closure tells whether the slot of the key is recent.
#[verifier::external_body]
pub(crate) fn retain_recent(
    map: &mut DashMap<BatchKey, PacketBatch, RandomState>,
    current_slot: u64,
)
    ensures
        batches_of(*final(map)) == batches_of(*old(map)).restrict(
            Set::new(|key: BatchKey| recent(current_slot, key.0)),
        ),
{
    map.retain(|key, _| is_recent(current_slot, key.0));
}

} // verus!
