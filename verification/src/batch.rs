//! One packet batch: the data shreds of one erasure set, and when it holds all of them.

use crate::shred::{CodeShredView, DataShredView, ShredCode, ShredData};
use std::collections::BTreeMap;
use vstd::prelude::*;

verus! {

broadcast use vstd::std_specs::btree::group_btree_axioms;

/// Stands for the end of a batch until the shred that ends it has come.
pub const UNKNOWN_INDEX: u32 = 999999;

/// The contents of a packet batch.
#[verifier::ext_equal]
pub struct BatchView {
    pub data_shreds: Map<u32, DataShredView>,
    pub code_shreds: Map<u32, CodeShredView>,
    pub batch_complete: bool,
    pub marked_full: bool,
    pub start_data_index: u32,
    pub end_data_index: u32,
}

impl BatchView {
    /// A batch that no shred has been stored in yet.
    pub open spec fn fresh(start_data_index: u32) -> BatchView {
        BatchView {
            data_shreds: Map::empty(),
            code_shreds: Map::empty(),
            batch_complete: false,
            marked_full: false,
            start_data_index,
            end_data_index: UNKNOWN_INDEX,
        }
    }

    /// Both ends of the batch are known.
    pub open spec fn bounded(self) -> bool {
        &&& self.end_data_index != UNKNOWN_INDEX
        &&& self.start_data_index != UNKNOWN_INDEX
    }

    /// Both ends of the batch are known, and it holds the beginning, the end and everything in
    /// the middle.
    pub open spec fn completed(self) -> bool {
        &&& self.bounded()
        &&& self.start_data_index <= self.end_data_index
        &&& forall|i: u32|
            self.start_data_index <= i <= self.end_data_index ==> #[trigger]
            self.data_shreds.contains_key(i)
    }

    /// The batch takes the shred in: it is not full and has no shred at that index.
    pub open spec fn stores(self, shred: DataShredView) -> bool {
        &&& !self.marked_full
        &&& !self.data_shreds.contains_key(shred.index)
    }

    /// The batch with the shred in it; a shred that is marked as the last one moves the end.
    pub open spec fn with_shred(self, shred: DataShredView) -> BatchView {
        BatchView {
            data_shreds: self.data_shreds.insert(shred.index, shred),
            batch_complete: self.batch_complete || shred.data_complete,
            end_data_index: if shred.data_complete {
                shred.index
            } else {
                self.end_data_index
            },
            ..self
        }
    }

    /// The batch after a shred of it has come in.
    pub open spec fn accept(self, shred: DataShredView) -> BatchView {
        if self.stores(shred) {
            BatchView { marked_full: self.with_shred(shred).completed(), ..self.with_shred(shred) }
        } else {
            self
        }
    }

    /// The batch holds a last shred at the index that stands for an unknown one.
    pub open spec fn ends_unknown(self) -> bool {
        &&& self.data_shreds.contains_key(UNKNOWN_INDEX)
        &&& self.data_shreds[UNKNOWN_INDEX].data_complete
    }

    /// Holds of every batch that grows from a fresh one by the shreds of one erasure set:
    /// each shred stands at its own index, the end is where a last shred stands, it is known once
    /// there is a last shred, unless one has taken the index that stands for an unknown end, and
    /// the batch is marked full exactly when it is complete.
    pub open spec fn wf(self) -> bool {
        &&& self.data_shreds.dom().finite()
        &&& self.code_shreds == Map::<u32, CodeShredView>::empty()
        &&& forall|i: u32| #[trigger]
            self.data_shreds.contains_key(i) ==> self.data_shreds[i].index == i
                && self.data_shreds[i].fec_set_index == self.start_data_index
        &&& self.end_data_index != UNKNOWN_INDEX ==> self.data_shreds.contains_key(
            self.end_data_index,
        ) && self.data_shreds[self.end_data_index].data_complete
        &&& self.batch_complete && !self.ends_unknown() ==> self.end_data_index != UNKNOWN_INDEX
        &&& self.batch_complete <==> exists|i: u32| #[trigger]
            self.data_shreds.contains_key(i) && self.data_shreds[i].data_complete
        &&& self.marked_full == self.completed()
    }
}

/// The list holds exactly the shreds of the map, by ascending index.
pub open spec fn in_index_order(
    list: Seq<DataShredView>,
    shreds: Map<u32, DataShredView>,
) -> bool {
    &&& list.len() == shreds.len()
    &&& forall|i: int, j: int| 0 <= i < j < list.len() ==> list[i].index < list[j].index
    &&& forall|i: int|
        0 <= i < list.len() ==> shreds.contains_key(#[trigger] list[i].index)
            && shreds[list[i].index] == list[i]
    &&& forall|k: u32| #[trigger] shreds.contains_key(k) ==> list.contains(shreds[k])
}

/// The shreds of a list, apart from how their bytes are held in memory.
pub open spec fn shred_views(list: Seq<ShredData>) -> Seq<DataShredView> {
    list.map_values(|shred: ShredData| shred@)
}

/// What became of a shred.
#[derive(Debug, PartialEq, Eq)]
pub enum Outcome {
    /// A code shred: dropped.
    Code,
    /// The batch was full already: dropped.
    AlreadyFull,
    /// An exact copy of the shred is stored already: dropped.
    Duplicate,
    /// Another shred is stored at the same index: dropped.
    Conflict,
    /// The shred was stored.
    Stored {
        /// The shred is marked as the last one, and so was an earlier one.
        complete_again: bool,
        /// The shred moved an end that was known.
        end_again: bool,
        /// The shreds of the batch by ascending index, if this shred made it full.
        full: Option<Vec<ShredData>>,
    },
}

/// Whether the outcome tells what the batch does with the shred.
pub open spec fn outcome_of(batch: BatchView, shred: DataShredView, outcome: Outcome) -> bool {
    if batch.marked_full {
        outcome is AlreadyFull
    } else if batch.data_shreds.contains_key(shred.index) {
        if batch.data_shreds[shred.index] == shred {
            outcome is Duplicate
        } else {
            outcome is Conflict
        }
    } else {
        &&& outcome matches Outcome::Stored { complete_again, end_again, full }
        &&& complete_again == (shred.data_complete && batch.batch_complete)
        &&& end_again == (shred.data_complete && batch.end_data_index != UNKNOWN_INDEX)
        &&& match full {
            Some(list) => batch.accept(shred).marked_full && in_index_order(
                shred_views(list@),
                batch.accept(shred).data_shreds,
            ),
            None => !batch.accept(shred).marked_full,
        }
    }
}

/// The shreds of one erasure set that have come in so far.
pub struct PacketBatch {
    data_shreds: BTreeMap<u32, ShredData>,
    code_shreds: BTreeMap<u32, ShredCode>,
    batch_complete: bool,
    marked_full: bool,
    start_data_index: u32,
    end_data_index: u32,
}

impl View for PacketBatch {
    type V = BatchView;

    closed spec fn view(&self) -> BatchView {
        BatchView {
            data_shreds: self.data_shreds@.map_values(|shred: ShredData| shred@),
            code_shreds: self.code_shreds@.map_values(|shred: ShredCode| shred@),
            batch_complete: self.batch_complete,
            marked_full: self.marked_full,
            start_data_index: self.start_data_index,
            end_data_index: self.end_data_index,
        }
    }
}

impl Clone for PacketBatch {
    fn clone(&self) -> (copy: Self)
        ensures
            copy@ == self@,
    {
        PacketBatch {
            data_shreds: self.data_shreds.clone(),
            code_shreds: self.code_shreds.clone(),
            batch_complete: self.batch_complete,
            marked_full: self.marked_full,
            start_data_index: self.start_data_index,
            end_data_index: self.end_data_index,
        }
    }
}

/// Whether the batch is complete: its start and its end are known, and it holds a data shred at
/// every index from the start to the end.
pub fn check_completed_batch(packet_batch: &PacketBatch) -> (complete: bool)
    ensures
        complete == packet_batch@.completed(),
        complete <==> {
            &&& packet_batch@.start_data_index != 999999
            &&& packet_batch@.end_data_index != 999999
            &&& packet_batch@.start_data_index <= packet_batch@.end_data_index
            &&& forall|i: u32|
                packet_batch@.start_data_index <= i <= packet_batch@.end_data_index ==> #[trigger]
                packet_batch@.data_shreds.contains_key(i)
        },
{
    let start: u32 = packet_batch.start_data_index;
    let end: u32 = packet_batch.end_data_index;
    if end == UNKNOWN_INDEX || start == UNKNOWN_INDEX || end < start {
        return false;
    }
    let mut index: u32 = start;
    while index < end
        invariant
            packet_batch@.start_data_index == start,
            packet_batch@.end_data_index == end,
            start <= index <= end,
            forall|i: u32|
                start <= i < index ==> #[trigger] packet_batch@.data_shreds.contains_key(i),
        decreases end - index,
    {
        if !packet_batch.data_shreds.contains_key(&index) {
            assert(!packet_batch@.data_shreds.contains_key(index));
            return false;
        }
        index += 1;
    }
    let complete = packet_batch.data_shreds.contains_key(&end);
    assert(complete == packet_batch@.data_shreds.contains_key(end));
    complete
}

/// Viewing the shreds of a map keeps their number.
proof fn lemma_len_map_values(shreds: Map<u32, ShredData>)
    ensures
        shreds.map_values(|shred: ShredData| shred@).len() == shreds.len(),
{
    assert(shreds.map_values(|shred: ShredData| shred@).dom() =~= shreds.dom());
}

impl PacketBatch {
    /// An empty batch that starts at the given index.
    pub fn new(start_data_index: u32) -> (batch: PacketBatch)
        ensures
            batch@ == BatchView::fresh(start_data_index),
            batch@.wf(),
    {
        let batch = PacketBatch {
            data_shreds: BTreeMap::new(),
            code_shreds: BTreeMap::new(),
            batch_complete: false,
            marked_full: false,
            start_data_index,
            end_data_index: UNKNOWN_INDEX,
        };
        assert(batch@.code_shreds =~= Map::empty());
        batch
    }

    /// The data shred at the index, if it has come.
    pub fn data_shred(&self, index: u32) -> (shred: Option<&ShredData>)
        ensures
            match shred {
                Some(shred) => self@.data_shreds.contains_key(index) && shred@
                    == self@.data_shreds[index],
                None => !self@.data_shreds.contains_key(index),
            },
    {
        self.data_shreds.get(&index)
    }

    /// The number of data shreds that have come.
    pub fn num_data_shreds(&self) -> (count: usize)
        ensures
            count == self@.data_shreds.len(),
    {
        proof {
            lemma_len_map_values(self.data_shreds@);
        }
        self.data_shreds.len()
    }

    /// Whether the batch has been marked as full.
    pub fn is_full(&self) -> (full: bool)
        ensures
            full == self@.marked_full,
    {
        self.marked_full
    }

    /// The index of the first data shred.
    pub fn start_data_index(&self) -> (index: u32)
        ensures
            index == self@.start_data_index,
    {
        self.start_data_index
    }

    /// The index of the last data shred, or `UNKNOWN_INDEX`.
    pub fn end_data_index(&self) -> (index: u32)
        ensures
            index == self@.end_data_index,
    {
        self.end_data_index
    }

    /// Takes in a shred of the erasure set that the batch stands for.
    ///
    /// A full batch drops every shred. A batch that has a shred at that index keeps the one it
    /// has. Any other shred is stored; if that makes the batch complete, the batch is marked full
    /// and its shreds are handed out by ascending index.
    pub fn accept(&mut self, shred: ShredData) -> (outcome: Outcome)
        requires
            old(self)@.wf(),
            shred.fec_set_index == old(self)@.start_data_index,
        ensures
            final(self)@ == old(self)@.accept(shred@),
            final(self)@.wf(),
            outcome_of(old(self)@, shred@, outcome),
    {
        if self.marked_full {
            return Outcome::AlreadyFull;
        }
        if let Some(stored) = self.data_shreds.get(&shred.index) {
            if shred.is_copy_of(stored) {
                return Outcome::Duplicate;
            }
            return Outcome::Conflict;
        }
        let index: u32 = shred.index;
        let data_complete = shred.data_complete;
        let complete_again = data_complete && self.batch_complete;
        let end_again = data_complete && self.end_data_index != UNKNOWN_INDEX;
        self.data_shreds.insert(index, shred);
        if data_complete {
            self.batch_complete = true;
            self.end_data_index = index;
        }
        proof {
            assert(self@ =~= old(self)@.with_shred(shred@));
            lemma_accept_keeps_wf(old(self)@, shred@);
        }
        if check_completed_batch(self) {
            self.marked_full = true;
            assert(self@ =~= old(self)@.accept(shred@));
            let list = self.in_order();
            Outcome::Stored { complete_again, end_again, full: Some(list) }
        } else {
            assert(self@ =~= old(self)@.accept(shred@));
            Outcome::Stored { complete_again, end_again, full: None }
        }
    }

    /// The data shreds of the batch by ascending index.
    fn in_order(&self) -> (list: Vec<ShredData>)
        requires
            forall|i: u32| #[trigger]
                self@.data_shreds.contains_key(i) ==> self@.data_shreds[i].index == i,
        ensures
            in_index_order(shred_views(list@), self@.data_shreds),
    {
        let mut list: Vec<ShredData> = Vec::new();
        let stored = self.data_shreds.iter();
        let ghost items = stored;
        proof {
            lemma_len_map_values(self.data_shreds@);
        }
        for entry in entries: stored
            invariant
                entries.seq() == vstd::std_specs::iter::IteratorSpec::remaining(&items),
                list.len() == entries.index(),
                forall|i: int|
                    0 <= i < list.len() ==> #[trigger] list@[i]@ == vstd::std_specs::iter::IteratorSpec::remaining(&items)[i].1@,
        {
            list.push(entry.1.clone());
        }
        proof {
            let pairs = vstd::std_specs::iter::IteratorSpec::remaining(&items);
            let keys = pairs.map_values(|pair: (&u32, &ShredData)| *pair.0);
            let views = shred_views(list@);
            assert forall|i: int| 0 <= i < views.len() implies self@.data_shreds.contains_key(
                #[trigger] views[i].index,
            ) && self@.data_shreds[views[i].index] == views[i] && keys[i] == views[i].index by {
                assert(self@.data_shreds.contains_key(*pairs[i].0));
            }
            assert forall|i: int, j: int| 0 <= i < j < views.len() implies views[i].index
                < views[j].index by {
                assert(vstd::std_specs::cmp::OrdSpec::cmp_spec(&keys[i], &keys[j]) is Less);
            }
            assert forall|k: u32| #[trigger] self@.data_shreds.contains_key(k) implies views.contains(
                self@.data_shreds[k],
            ) by {
                let i = pairs.index_of((&k, &self.data_shreds@[k]));
                assert(views[i] == self@.data_shreds[k]);
            }
        }
        list
    }
}

/// A batch is complete exactly when its start and its end are known and it holds a shred at every
/// index from the start to the end.
pub proof fn law_complete_batch_has_every_index(batch: BatchView)
    ensures
        batch.completed() <==> {
            &&& batch.start_data_index != 999999
            &&& batch.end_data_index != 999999
            &&& batch.start_data_index <= batch.end_data_index
            &&& forall|i: u32|
                batch.start_data_index <= i <= batch.end_data_index ==> #[trigger]
                batch.data_shreds.contains_key(i)
        },
{
}

/// Taking in a shred of its erasure set keeps a batch well formed.
pub proof fn lemma_accept_keeps_wf(batch: BatchView, shred: DataShredView)
    requires
        batch.wf(),
        shred.fec_set_index == batch.start_data_index,
    ensures
        batch.accept(shred).wf(),
{
    let next = batch.accept(shred);
    if batch.stores(shred) && next.batch_complete {
        if shred.data_complete {
            assert(next.data_shreds.contains_key(shred.index));
        } else {
            let i = choose|i: u32| #[trigger]
                batch.data_shreds.contains_key(i) && batch.data_shreds[i].data_complete;
            assert(next.data_shreds.contains_key(i));
        }
    }
}

} // verus!
