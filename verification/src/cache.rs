//! The cache of packet batches: finds or creates the batch of each data shred and hands out the
//! batches that become complete.

use crate::batch::{lemma_accept_keeps_wf, outcome_of, BatchView, Outcome, PacketBatch};
use crate::shred::{DataShredView, Shred, ShredData, ShredView};
use crate::store;
use crate::store::{batches_of, recent, BatchKey};
use crossbeam::channel::Sender;
use dashmap::DashMap;
use std::collections::hash_map::RandomState;
use vstd::prelude::*;

verus! {

/// `crossbeam::channel::Sender`, the sending side of a channel. The cache carries it and nothing
/// is claimed of it.
#[verifier::external_type_specification]
#[verifier::external_body]
#[verifier::reject_recursive_types(T)]
pub struct ExSender<T>(crossbeam::channel::Sender<T>);

/// The contents of the cache: its packet batches by key.
pub type CacheView = Map<BatchKey, BatchView>;

/// The key of the batch that a data shred belongs to.
pub open spec fn key_of(shred: DataShredView) -> BatchKey {
    (shred.slot, shred.reference_tick, shred.fec_set_index)
}

/// The batch that a data shred belongs to: a fresh one, if none of its shreds has come yet.
pub open spec fn batch_for(cache: CacheView, shred: DataShredView) -> BatchView {
    if cache.contains_key(key_of(shred)) {
        cache[key_of(shred)]
    } else {
        BatchView::fresh(shred.fec_set_index)
    }
}

/// The cache after a shred has come in: a data shred goes to its batch, a code shred is dropped.
pub open spec fn processed(cache: CacheView, shred: ShredView) -> CacheView {
    match shred {
        ShredView::Data(data) => cache.insert(key_of(data), batch_for(cache, data).accept(data)),
        ShredView::Code(_) => cache,
    }
}

/// Whether the outcome tells what the cache does with the shred.
pub open spec fn cache_outcome(cache: CacheView, shred: ShredView, outcome: Outcome) -> bool {
    match shred {
        ShredView::Data(data) => outcome_of(batch_for(cache, data), data, outcome),
        ShredView::Code(_) => outcome is Code,
    }
}

/// The batch may hold shreds of the key: it is well formed and all its shreds have the key.
pub open spec fn fits_under(key: BatchKey, batch: BatchView) -> bool {
    &&& batch.wf()
    &&& batch.start_data_index == key.2
    &&& forall|i: u32| #[trigger]
        batch.data_shreds.contains_key(i) ==> key_of(batch.data_shreds[i]) == key
}

/// The batch is one that stands under the key: it is well formed, all its shreds have the key, and
/// it has at least one.
pub open spec fn stands_under(key: BatchKey, batch: BatchView) -> bool {
    &&& fits_under(key, batch)
    &&& batch.data_shreds.len() > 0
}

/// Every batch of the cache stands under its key.
pub open spec fn cache_wf(cache: CacheView) -> bool {
    forall|key: BatchKey| #[trigger] cache.contains_key(key) ==> stands_under(key, cache[key])
}

/// The cache without the batches whose slot is too far behind the current one.
pub open spec fn cleaned(cache: CacheView, current_slot: u64) -> CacheView {
    cache.restrict(Set::new(|key: BatchKey| recent(current_slot, key.0)))
}

/// A cache of packet batches, each under its slot, reference tick and erasure set index.
pub struct VarunShardDataCache {
    packet_batches: DashMap<BatchKey, PacketBatch, RandomState>,
    batch_complete_sender: Sender<(u64, u8)>,
}

impl View for VarunShardDataCache {
    type V = CacheView;

    closed spec fn view(&self) -> CacheView {
        batches_of(self.packet_batches).map_values(|batch: PacketBatch| batch@)
    }
}

impl VarunShardDataCache {
    /// Holds of every cache that grows from an empty one.
    pub open spec fn wf(&self) -> bool {
        cache_wf(self@)
    }

    /// The channel that the cache was made with.
    pub closed spec fn sender(&self) -> Sender<(u64, u8)> {
        self.batch_complete_sender
    }

    /// An empty cache that carries the given channel.
    pub fn new(batch_complete_sender: Sender<(u64, u8)>) -> (cache: Self)
        ensures
            cache@ == Map::<BatchKey, BatchView>::empty(),
            cache.wf(),
            cache.sender() == batch_complete_sender,
    {
        VarunShardDataCache { packet_batches: store::new_map(), batch_complete_sender }
    }

    /// A copy of the batch under the key, if there is one.
    pub fn batch(&self, key: BatchKey) -> (batch: Option<PacketBatch>)
        ensures
            match batch {
                Some(batch) => self@.contains_key(key) && batch@ == self@[key],
                None => !self@.contains_key(key),
            },
    {
        store::get(&self.packet_batches, key)
    }

    /// Takes in a shred.
    ///
    /// A data shred goes to the batch under its slot, reference tick and erasure set index, which
    /// is created if it is not there yet. The first shred that makes the batch complete gets all
    /// shreds of the batch back. A code shred is dropped.
    pub fn process_shred(&mut self, shred: Shred) -> (outcome: Outcome)
        requires
            old(self).wf(),
        ensures
            final(self)@ == processed(old(self)@, shred@),
            final(self).wf(),
            final(self).sender() == old(self).sender(),
            cache_outcome(old(self)@, shred@, outcome),
            match shred {
                Shred::ShredData(data) => final(self)@ == old(self)@.insert(
                    (data.slot, data.reference_tick, data.fec_set_index),
                    final(self)@[(data.slot, data.reference_tick, data.fec_set_index)],
                ),
                Shred::ShredCode(_) => final(self)@ == old(self)@,
            },
    {
        match shred {
            Shred::ShredData(data) => self.process_data_shred(data),
            Shred::ShredCode(_) => Outcome::Code,
        }
    }

    /// Takes in a data shred.
    fn process_data_shred(&mut self, shred: ShredData) -> (outcome: Outcome)
        requires
            old(self).wf(),
        ensures
            final(self)@ == processed(old(self)@, ShredView::Data(shred@)),
            final(self).wf(),
            final(self).sender() == old(self).sender(),
            outcome_of(batch_for(old(self)@, shred@), shred@, outcome),
    {
        let key: BatchKey = (shred.slot, shred.reference_tick, shred.fec_set_index);
        store::entry_or_insert(
            &mut self.packet_batches,
            key,
            PacketBatch::new(shred.fec_set_index),
        );
        let mut batch = store::remove(&mut self.packet_batches, key).unwrap();
        proof {
            assert(batch@ == batch_for(old(self)@, shred@));
        }
        let outcome = batch.accept(shred);
        store::insert(&mut self.packet_batches, key, batch);
        proof {
            lemma_accept_stands_under(key, batch_for(old(self)@, shred@), shred@);
            assert(self@ =~= processed(old(self)@, ShredView::Data(shred@)));
        }
        outcome
    }

    /// Drops the batches whose slot is more than `MAX_SLOT_DISTANCE` behind the current one. A
    /// slot that is ahead of the current one is not behind it, so that its batches stay.
    pub fn clean_old_slots(&mut self, current_slot: u64)
        ensures
            final(self)@ == cleaned(old(self)@, current_slot),
            forall|key: BatchKey| #[trigger]
                final(self)@.contains_key(key) <==> old(self)@.contains_key(key) && key.0 + 50
                    >= current_slot,
            forall|key: BatchKey| #[trigger]
                final(self)@.contains_key(key) ==> final(self)@[key] == old(self)@[key],
            old(self).wf() ==> final(self).wf(),
            final(self).sender() == old(self).sender(),
    {
        store::retain_recent(&mut self.packet_batches, current_slot);
        assert(self@ =~= cleaned(old(self)@, current_slot));
    }
}

/// A batch that takes in a shred of its key stands under the key.
pub proof fn lemma_accept_stands_under(key: BatchKey, batch: BatchView, shred: DataShredView)
    requires
        fits_under(key, batch),
        key_of(shred) == key,
    ensures
        stands_under(key, batch.accept(shred)),
{
    lemma_accept_keeps_wf(batch, shred);
    let next = batch.accept(shred);
    if batch.marked_full {
        assert(next.data_shreds.contains_key(next.start_data_index));
    } else {
        assert(next.data_shreds.contains_key(shred.index));
    }
    assert(next.data_shreds.dom() != Set::<u32>::empty());
}

} // verus!
